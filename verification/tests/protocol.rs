use samloader::odin::pit::{BinaryType, DeviceType, PitEntry};
use samloader::odin::protocol::{
    Command, DataChunk, Response, SliceCommit, CMD_TRANSMIT, STATUS_FAIL,
};
use samloader::text::{decimal_text, starts_with, text_equal};
use std::borrow::Cow;

fn mock_pit_entry(
    binary_type: BinaryType,
    device_type: DeviceType,
    partition_id: u32,
) -> PitEntry {
    PitEntry {
        binary_type,
        device_type,
        partition_id,
    }
}

#[test]
fn test_slice_commit_layout_selection() {
    let modem_entry = mock_pit_entry(BinaryType::CommunicationProcessor, DeviceType::UFS, 80);
    let ap_entry = mock_pit_entry(BinaryType::ApplicationProcessor, DeviceType::MMC, 20);

    // Modern protocol (>= 3): CP/Modem uses Unified layout
    let modern_cp = SliceCommit::new(0x1E00000, &modem_entry, true, 3);
    assert!(matches!(
        modern_cp,
        SliceCommit::Unified {
            slice_size: 0x1E00000,
            partition_id: 80,
            is_end_of_file: 1,
            ..
        }
    ));

    // Legacy protocol (< 3): CP/Modem uses LegacyModem layout
    let legacy_cp = SliceCommit::new(0x100000, &modem_entry, true, 2);
    assert!(matches!(
        legacy_cp,
        SliceCommit::LegacyModem {
            slice_size: 0x100000,
            partition_id: 80,
            is_end_of_file: 1,
            ..
        }
    ));

    // ApplicationProcessor always uses Unified layout even on legacy protocol
    let legacy_ap = SliceCommit::new(0x100000, &ap_entry, false, 1);
    assert!(matches!(
        legacy_ap,
        SliceCommit::Unified {
            partition_id: 20,
            is_end_of_file: 0,
            ..
        }
    ));
}

#[test]
fn test_response_parse_and_fail_detection() {
    let ok_bytes = [0x64, 0x00, 0x00, 0x00, 0x00, 0x80, 0x02, 0x00];
    let resp = Response::parse(&ok_bytes).unwrap();
    assert_eq!(resp.response_type, 0x64);
    assert_eq!(resp.value, 0x00028000);
    assert!(!resp.is_fail());
    assert_eq!(resp.signed_value(), 0x00028000);

    let fail_bytes = [0xff, 0xff, 0xff, 0xff, 0xfb, 0xff, 0xff, 0xff]; // opcode -1, value -5
    let fail_resp = Response::parse(&fail_bytes).unwrap();
    assert_eq!(fail_resp.response_type, STATUS_FAIL);
    assert!(fail_resp.is_fail());
    assert_eq!(fail_resp.signed_value(), -5);
}

#[test]
fn test_start_slice_transmission_128k_alignment() {
    // Test size round-up behavior to 128 KB (0x20000)
    let check_aligned = |raw_size: u32, expected_aligned: u32| {
        let cmd = Command::start_slice_transmission(raw_size);
        assert_eq!(cmd.expected_response_type(), CMD_TRANSMIT);
        let packed = cmd.pack();
        let announced_size = u32::from_le_bytes(packed[8..12].try_into().unwrap());
        assert_eq!(announced_size, expected_aligned);
    };

    check_aligned(0, 0);
    check_aligned(1, 0x20000);
    check_aligned(50_000, 0x20000);
    check_aligned(0x20000, 0x20000);
    check_aligned(0x20001, 0x40000);
    check_aligned(31_457_280, 31_457_280); // 30 MB (standard slice)
}

#[test]
fn announced_length_wraps_at_the_end() {
    let announced = |n: u32| {
        let packed = Command::start_slice_transmission(n).pack();
        u32::from_le_bytes(packed[8..12].try_into().unwrap())
    };
    assert_eq!(announced(0xFFFE_0000), 0xFFFE_0000);
    assert_eq!(announced(0xFFFE_0001), 0);
    assert_eq!(announced(0xFFFF_FFFF), 0);
}

fn packed_words(cmd: Command) -> Vec<u32> {
    let packed = cmd.pack();
    assert_eq!(packed.len(), 1024);
    let mut words: Vec<u32> = packed
        .chunks(4)
        .map(|w| u32::from_le_bytes(w.try_into().unwrap()))
        .collect();
    assert_eq!(words[0], cmd.expected_response_type());
    while words.len() > 2 && words.last() == Some(&0) {
        words.pop();
    }
    words
}

#[test]
fn packets_of_all_commands() {
    let ap = mock_pit_entry(BinaryType::ApplicationProcessor, DeviceType::MMC, 20);
    let modem = mock_pit_entry(BinaryType::CommunicationProcessor, DeviceType::UFS, 80);
    assert_eq!(packed_words(Command::begin_session()), vec![0x64, 0, 5]);
    assert_eq!(
        packed_words(Command::total_bytes(0x0000_0007_0000_0009)),
        vec![0x64, 2, 9, 7]
    );
    assert_eq!(packed_words(Command::packet_size(0x100000)), vec![0x64, 5, 0x100000]);
    assert_eq!(packed_words(Command::nand_erase()), vec![0x64, 7]);
    assert_eq!(
        packed_words(Command::session_sales_code(*b"TUR")),
        vec![0x64, 9, 0x54, 0x55, 0x52]
    );
    assert_eq!(packed_words(Command::close_connection()), vec![0x67, 0]);
    assert_eq!(packed_words(Command::reboot_device()), vec![0x67, 1]);
    assert_eq!(packed_words(Command::reboot_to_download()), vec![0x67, 2]);
    assert_eq!(packed_words(Command::pit_flash()), vec![0x65, 0]);
    assert_eq!(packed_words(Command::pit_dump()), vec![0x65, 1]);
    assert_eq!(packed_words(Command::pit_end()), vec![0x65, 3]);
    assert_eq!(packed_words(Command::flash_pit_slice(77)), vec![0x65, 2, 77]);
    assert_eq!(packed_words(Command::dump_pit_slice(3)), vec![0x65, 2, 3]);
    assert_eq!(packed_words(Command::end_pit_transfer(77)), vec![0x65, 3, 77]);
    assert_eq!(packed_words(Command::transmit_flash(false)), vec![0x66, 0]);
    assert_eq!(packed_words(Command::transmit_flash(true)), vec![0x66, 5]);
    assert_eq!(
        packed_words(Command::start_lz4_slice_transmission(10, 20)),
        vec![0x66, 6, 10, 20]
    );
    assert_eq!(
        packed_words(Command::commit_slice(100, &ap, true, false, 1)),
        vec![0x66, 3, 0, 100, 0, 2, 20, 1]
    );
    assert_eq!(
        packed_words(Command::commit_slice(100, &modem, true, true, 3)),
        vec![0x66, 7, 0, 100, 1, 8, 80, 1]
    );
    assert_eq!(
        packed_words(Command::commit_slice(100, &modem, true, false, 2)),
        vec![0x66, 3, 1, 100, 1, 8, 1, 0, 80]
    );
    assert_eq!(packed_words(Command::check_super_size(15)), vec![0x6a, 0, 15]);
    assert_eq!(packed_words(Command::device_info_dump()), vec![0x69, 0]);
    assert_eq!(packed_words(Command::dump_device_info_slice(4)), vec![0x69, 1, 4]);
    assert_eq!(packed_words(Command::end_device_info()), vec![0x69, 2]);
}

#[test]
fn storage_and_processor_numbers() {
    assert_eq!(BinaryType::ApplicationProcessor.code(), 0);
    assert_eq!(BinaryType::CommunicationProcessor.code(), 1);
    assert_eq!(DeviceType::OneNand.code(), 0);
    assert_eq!(DeviceType::File.code(), 1);
    assert_eq!(DeviceType::MMC.code(), 2);
    assert_eq!(DeviceType::All.code(), 3);
    assert_eq!(DeviceType::UFS.code(), 8);
}

#[test]
fn chunks_are_padded() {
    let data = [1u8, 2, 3];
    assert_eq!(&*DataChunk::new(&data, 5).as_bytes(), &[1, 2, 3, 0, 0]);
    assert_eq!(&*DataChunk::new(&data, 3).as_bytes(), &[1, 2, 3]);
    assert_eq!(&*DataChunk::new(&data, 2).as_bytes(), &[1, 2]);
    assert_eq!(DataChunk::new(&data, 0).as_bytes().len(), 0);
    // Nothing is copied where nothing is padded.
    assert!(matches!(DataChunk::new(&data, 4).as_bytes(), Cow::Owned(_)));
    assert!(matches!(DataChunk::new(&data, 3).as_bytes(), Cow::Borrowed(_)));
    assert!(matches!(DataChunk::new(&data, 1).as_bytes(), Cow::Borrowed(_)));
}

#[test]
fn answers_of_other_lengths_are_refused() {
    for n in [0usize, 7, 9, 123] {
        let message = Response::parse(&vec![0u8; n]).unwrap_err();
        assert_eq!(
            message,
            format!(
                "Incorrect response size received - expected size = 8, received size = {}.",
                n
            )
        );
    }
    let response = Response { response_type: 0x1234_5678, value: 0x9ABC_DEF0 };
    let mut bytes = response.response_type.to_le_bytes().to_vec();
    bytes.extend_from_slice(&response.value.to_le_bytes());
    assert_eq!(Response::parse(&bytes).unwrap(), response);
}

#[test]
fn texts() {
    for n in [0usize, 5, 10, 1023, 987_654_321] {
        assert_eq!(decimal_text(n), n.to_string());
    }
    assert!(starts_with("FAILx", "FAIL"));
    assert!(starts_with("FAIL", "FAIL"));
    assert!(!starts_with("FAI", "FAIL"));
    assert!(!starts_with("xFAIL", "FAIL"));
    assert!(text_equal("a\u{e9}", "a\u{e9}"));
    assert!(!text_equal("a", "ab"));
    assert!(!text_equal("ab", "a"));
}

#[test]
fn no_two_packets_are_equal() {
    let ap = mock_pit_entry(BinaryType::ApplicationProcessor, DeviceType::MMC, 20);
    let modem = mock_pit_entry(BinaryType::CommunicationProcessor, DeviceType::MMC, 20);
    let commands = [
        Command::begin_session(),
        Command::total_bytes(5),
        Command::total_bytes(5 << 32),
        Command::packet_size(5),
        Command::nand_erase(),
        Command::session_sales_code(*b"TUR"),
        Command::close_connection(),
        Command::reboot_device(),
        Command::reboot_to_download(),
        Command::pit_flash(),
        Command::pit_dump(),
        Command::pit_end(),
        Command::flash_pit_slice(0),
        Command::end_pit_transfer(5),
        Command::transmit_flash(false),
        Command::transmit_flash(true),
        Command::start_slice_transmission(1),
        Command::start_lz4_slice_transmission(1, 2),
        Command::start_lz4_slice_transmission(2, 1),
        Command::commit_slice(1, &ap, true, false, 3),
        Command::commit_slice(1, &ap, false, false, 3),
        Command::commit_slice(1, &ap, true, true, 3),
        Command::commit_slice(1, &modem, true, false, 3),
        Command::commit_slice(1, &modem, true, false, 2),
        Command::check_super_size(5),
        Command::device_info_dump(),
        Command::dump_device_info_slice(0),
        Command::end_device_info(),
    ];
    for (i, a) in commands.iter().enumerate() {
        for (j, b) in commands.iter().enumerate() {
            assert_eq!(a.pack() == b.pack(), i == j, "{:?} {:?}", a, b);
        }
    }
}
