use samloader::odin::connection::{
    check_greeting, query_device_info, reboot_download, Greeting, OdinConnection,
};
use samloader::odin::error::OdinError;
use samloader::odin::firmware::{FirmwareFile, FirmwareLz4File, Lz4Header, Lz4Slice};
use samloader::odin::pit::{BinaryType, DeviceType, PitEntry};
use samloader::odin::protocol::{Command, DataChunk, Response, CMD_SESSION_INIT};
use samloader::odin::session::{
    accept_pit, accept_response, negotiate, require_zero, OdinSession,
};
use samloader::odin::transfer::{judge_chunk, ChunkReply};
use samloader::odin::usb::{MockBackend, UsbTransfer};
use std::collections::VecDeque;
use std::sync::{Arc, Mutex};

#[test]
fn test_odin_mock_multi_slice_transfer() {
    let backend = Box::new(MockBackend::new(false));
    let mut connection = OdinConnection::new(backend);
    assert!(connection.init().is_ok());
    let mut session = connection.begin_session().unwrap();

    let pit_entry = PitEntry {
        binary_type: BinaryType::ApplicationProcessor,
        device_type: DeviceType::MMC,
        partition_id: 20,
    };

    // 2 slices of 128 KB each (matching MockBackend packet_size)
    let seq1 = vec![0xAAu8; 0x20000];
    let seq2 = vec![0xBBu8; 0x20000];
    let slices: Vec<&[u8]> = vec![&seq1, &seq2];

    assert!(session.transmit_slices(&slices, &pit_entry).is_ok());

    assert!(session.close().is_ok());
}

#[test]
fn test_odin_mock_set_sales_code() {
    let backend = Box::new(MockBackend::new(false));
    let mut connection = OdinConnection::new(backend);
    assert!(connection.init().is_ok());
    let mut session = connection.begin_session().unwrap();

    assert!(session.set_sales_code("TUR").is_ok());

    // Verify invalid formats are rejected
    assert!(matches!(
        session.set_sales_code("TU"),
        Err(OdinError::InvalidSalesCode(_))
    ));
    assert!(matches!(
        session.set_sales_code("TUR1"),
        Err(OdinError::InvalidSalesCode(_))
    ));
    assert!(matches!(
        session.set_sales_code("T-R"),
        Err(OdinError::InvalidSalesCode(_))
    ));

    assert!(session.close().is_ok());
}

#[test]
fn test_skip_empty_send_detection() {
    let gadget = Box::new(MockBackend::new(false).with_product_name("Gadget Serial"));
    let conn_gadget = OdinConnection::new(gadget);
    assert!(!conn_gadget.skip_empty_send());

    let gadget_prefix = Box::new(MockBackend::new(false).with_product_name("Gadget Serial v2"));
    let conn_gadget_prefix = OdinConnection::new(gadget_prefix);
    assert!(!conn_gadget_prefix.skip_empty_send());

    let msm = Box::new(MockBackend::new(false).with_product_name("MSM8996"));
    let conn_msm = OdinConnection::new(msm);
    assert!(conn_msm.skip_empty_send());

    let apq = Box::new(MockBackend::new(false).with_product_name("APQ8084"));
    let conn_apq = OdinConnection::new(apq);
    assert!(conn_apq.skip_empty_send());

    let generic = Box::new(MockBackend::new(false).with_product_name("SAMSUNG_Android"));
    let conn_generic = OdinConnection::new(generic);
    assert!(conn_generic.skip_empty_send());

    let none = Box::new(MockBackend::new(false));
    let conn_none = OdinConnection::new(none);
    assert!(conn_none.skip_empty_send());
}

#[derive(Default)]
struct SpyTransferInner {
    sent_data: Vec<Vec<u8>>,
    read_queue: VecDeque<Vec<u8>>,
    resets: usize,
    waited: Vec<u64>,
    failing_sends: usize,
    failing_reads: usize,
    asked: Vec<(usize, i32, bool)>,
    lengths: Vec<u64>,
    progress: Vec<u64>,
    retries: usize,
}

struct SpyTransfer {
    inner: Arc<Mutex<SpyTransferInner>>,
    product: Option<String>,
}

impl UsbTransfer for SpyTransfer {
    fn reset(&mut self) {
        self.inner.lock().unwrap().resets += 1;
    }
    fn send_data(&mut self, data: &[u8], _timeout: i32, _retry: bool) -> bool {
        let mut inner = self.inner.lock().unwrap();
        inner.sent_data.push(data.to_vec());
        if inner.failing_sends > 0 {
            inner.failing_sends -= 1;
            return false;
        }
        true
    }
    fn receive_data(&mut self, data: &mut [u8], timeout: i32, retry: bool) -> i32 {
        let mut inner = self.inner.lock().unwrap();
        inner.asked.push((data.len(), timeout, retry));
        if inner.failing_reads > 0 {
            inner.failing_reads -= 1;
            return -1;
        }
        if let Some(packet) = inner.read_queue.pop_front() {
            let len = std::cmp::min(data.len(), packet.len());
            data[..len].copy_from_slice(&packet[..len]);
            len as i32
        } else {
            0
        }
    }
    fn product_name(&self) -> Option<&str> {
        self.product.as_deref()
    }
    fn wait(&mut self, millis: u64) {
        self.inner.lock().unwrap().waited.push(millis);
    }
    fn show_length(&mut self, bytes: u64) {
        self.inner.lock().unwrap().lengths.push(bytes);
    }
    fn show_retry(&mut self) {
        self.inner.lock().unwrap().retries += 1;
    }
    fn show_progress(&mut self, bytes: u64) {
        self.inner.lock().unwrap().progress.push(bytes);
    }
}

type Spy = Arc<Mutex<SpyTransferInner>>;

fn spy_connection(product: Option<&str>) -> (Spy, OdinConnection) {
    let inner = Arc::new(Mutex::new(SpyTransferInner::default()));
    let spy = Box::new(SpyTransfer {
        inner: inner.clone(),
        product: product.map(|name| name.to_string()),
    });
    (inner, OdinConnection::new(spy))
}

fn spy_session(packet_size: usize, lz4_supported: bool) -> (Spy, OdinSession) {
    let (inner, connection) = spy_connection(None);
    let session = OdinSession {
        connection,
        packet_size,
        slice_timeout: 3000,
        lz4_supported,
        bootloader_protocol_version: 2,
    };
    (inner, session)
}

fn answer(number: u32, value: u32) -> Vec<u8> {
    let mut bytes = number.to_le_bytes().to_vec();
    bytes.extend_from_slice(&value.to_le_bytes());
    bytes
}

fn queue(spy: &Spy, packets: Vec<Vec<u8>>) {
    spy.lock().unwrap().read_queue.extend(packets);
}

fn words(packet: &[u8], n: usize) -> Vec<u32> {
    (0..n)
        .map(|i| u32::from_le_bytes(packet[4 * i..4 * i + 4].try_into().unwrap()))
        .collect()
}

#[test]
fn test_gadget_serial_sends_empty_packets_after_control_requests() {
    let spy_inner = Arc::new(Mutex::new(SpyTransferInner::default()));
    let spy = Box::new(SpyTransfer {
        inner: spy_inner.clone(),
        product: Some("Gadget Serial".to_string()),
    });

    let conn = OdinConnection::new(spy);
    assert!(!conn.skip_empty_send());

    let mut session = OdinSession {
        connection: conn,
        packet_size: 0x20000,
        slice_timeout: 3000,
        lz4_supported: false,
        bootloader_protocol_version: 2,
    };

    // 1. Control request packet -> must send 1024 bytes followed by 0 bytes (ZLP)
    let req = Command::begin_session();
    assert!(session.send_command(&req, 1000).is_ok());

    {
        let inner = spy_inner.lock().unwrap();
        assert_eq!(inner.sent_data.len(), 2);
        assert_eq!(inner.sent_data[0].len(), 1024);
        assert_eq!(inner.sent_data[1].len(), 0); // ZLP
    }

    // 2. Data chunk -> must send raw chunk bytes with NO ZLP
    let chunk_data = vec![0xABu8; 1024];
    let chunk = DataChunk::new(&chunk_data, chunk_data.len());
    assert!(session.send_chunk(&chunk, 1000).is_ok());

    {
        let inner = spy_inner.lock().unwrap();
        assert_eq!(inner.sent_data.len(), 3);
        assert_eq!(inner.sent_data[2].len(), 1024);
    }

    // 3. Reboot device -> must send reboot packet with trailing ZLP
    assert!(session.reboot_device().is_ok());
    {
        let inner = spy_inner.lock().unwrap();
        assert_eq!(inner.sent_data.len(), 5);
        assert_eq!(inner.sent_data[3].len(), 1024);
        assert_eq!(inner.sent_data[4].len(), 0); // trailing ZLP for reboot on S10!
    }
}

#[test]
fn test_non_gadget_serial_skips_empty_packets() {
    let spy_inner = Arc::new(Mutex::new(SpyTransferInner::default()));
    let spy = Box::new(SpyTransfer {
        inner: spy_inner.clone(),
        product: Some("MSM8996".to_string()),
    });

    let conn = OdinConnection::new(spy);
    assert!(conn.skip_empty_send());

    let mut session = OdinSession {
        connection: conn,
        packet_size: 0x20000,
        slice_timeout: 3000,
        lz4_supported: false,
        bootloader_protocol_version: 2,
    };

    // 1. Control request packet -> only sends 1024 bytes, no ZLP
    let req = Command::begin_session();
    assert!(session.send_command(&req, 1000).is_ok());

    {
        let inner = spy_inner.lock().unwrap();
        assert_eq!(inner.sent_data.len(), 1);
        assert_eq!(inner.sent_data[0].len(), 1024);
    }

    // 2. Reboot device -> sends 1024 bytes, no ZLP
    assert!(session.reboot_device().is_ok());
    {
        let inner = spy_inner.lock().unwrap();
        assert_eq!(inner.sent_data.len(), 2);
        assert_eq!(inner.sent_data[1].len(), 1024);
    }
}

#[test]
fn test_receive_response_retry_on_zero_length_packet() {
    let spy_inner = Arc::new(Mutex::new(SpyTransferInner::default()));

    // Push a 0-length packet first (ZLP), followed by a valid 8-byte response packet
    let mut response_bytes = Vec::new();
    response_bytes.extend_from_slice(&CMD_SESSION_INIT.to_le_bytes());
    response_bytes.extend_from_slice(&0u32.to_le_bytes());

    {
        let mut inner = spy_inner.lock().unwrap();
        inner.read_queue.push_back(vec![]); // 0-byte packet
        inner.read_queue.push_back(response_bytes); // actual 8-byte response
    }

    let spy = Box::new(SpyTransfer {
        inner: spy_inner,
        product: None,
    });

    let conn = OdinConnection::new(spy);
    let mut session = OdinSession {
        connection: conn,
        packet_size: 0x20000,
        slice_timeout: 3000,
        lz4_supported: false,
        bootloader_protocol_version: 2,
    };

    let response = session
        .receive_response(1000)
        .expect("Should retry after 0-byte packet and receive response");
    assert_eq!(response.response_type, CMD_SESSION_INIT);
    assert_eq!(response.value, 0);
}

#[test]
fn test_handshake_recovers_from_queued_fail_response() {
    let spy_inner = Arc::new(Mutex::new(SpyTransferInner::default()));

    {
        let mut inner = spy_inner.lock().unwrap();
        // Queue "FAILunknown command" followed by "LOKE"
        inner.read_queue.push_back(b"FAILunknown command".to_vec());
        inner.read_queue.push_back(b"LOKE".to_vec());
    }

    let spy = Box::new(SpyTransfer {
        inner: spy_inner.clone(),
        product: None,
    });

    let mut conn = OdinConnection::new(spy);
    assert!(conn.init().is_ok());

    let inner = spy_inner.lock().unwrap();
    assert_eq!(inner.sent_data.len(), 1);
    assert_eq!(inner.sent_data[0], b"ODIN");
}

#[test]
fn handshake_outcomes() {
    let (spy, mut conn) = spy_connection(None);
    queue(&spy, vec![b"LOKE".to_vec()]);
    assert!(conn.init().is_ok());
    assert_eq!(spy.lock().unwrap().resets, 1);

    let (spy, mut conn) = spy_connection(None);
    queue(&spy, vec![b"HELLO".to_vec()]);
    match conn.init() {
        Err(OdinError::HandshakeMismatch { expected, received }) => {
            assert_eq!(expected, "LOKE");
            assert_eq!(received, "HELLO");
        }
        other => panic!("{:?}", other),
    }

    let (spy, mut conn) = spy_connection(None);
    queue(&spy, vec![b"FAILx".to_vec(), b"FAILy".to_vec()]);
    match conn.init() {
        Err(OdinError::HandshakeMismatch { received, .. }) => assert_eq!(received, "FAILx"),
        other => panic!("{:?}", other),
    }

    let (spy, mut conn) = spy_connection(None);
    spy.lock().unwrap().failing_sends = 1;
    assert!(matches!(conn.init(), Err(OdinError::HandshakeSendFailed)));

    let (spy, mut conn) = spy_connection(None);
    spy.lock().unwrap().failing_reads = 1;
    assert!(matches!(conn.init(), Err(OdinError::HandshakeReceiveFailed)));

    assert_eq!(check_greeting("LOKE"), Greeting::Ready);
    assert_eq!(check_greeting("FAIL"), Greeting::LeftOver);
    assert_eq!(check_greeting("LOKE!"), Greeting::Foreign);
    assert_eq!(check_greeting(""), Greeting::Foreign);
}

#[test]
fn texts_are_sent_and_received() {
    let (spy, mut conn) = spy_connection(None);
    assert!(conn.send_string("h\u{e9}", 7).is_ok());
    assert_eq!(spy.lock().unwrap().sent_data[0], "h\u{e9}".as_bytes());
    queue(&spy, vec!["gr\u{fc}n".as_bytes().to_vec(), vec![0x66, 0xff, 0x67]]);
    assert_eq!(conn.receive_string(10).unwrap(), "gr\u{fc}n");
    assert_eq!(conn.receive_string(10).unwrap(), "f\u{fffd}g");
    assert_eq!(conn.receive_string(10).unwrap(), "");
    assert_eq!(spy.lock().unwrap().asked[0], (1024, 10, true));
    spy.lock().unwrap().failing_reads = 1;
    assert!(matches!(conn.receive_string(10), Err(OdinError::ReceivePacketFailed)));
    spy.lock().unwrap().failing_sends = 1;
    assert!(matches!(conn.send_string("x", 7), Err(OdinError::SendCommandFailed)));
    conn.set_skip_empty_send(false);
    assert!(!conn.skip_empty_send());
}

fn whole_text(text: &str) -> Result<String, OdinError> {
    Ok(text.to_string())
}

fn all_bytes(data: &[u8]) -> Result<Vec<u8>, OdinError> {
    Ok(data.to_vec())
}

#[test]
fn device_says_what_it_is() {
    let (spy, mut conn) = spy_connection(None);
    queue(&spy, vec![b"@#MODEL=SM-X;#@".to_vec()]);
    assert_eq!(conn.query_device_info(whole_text).unwrap(), "@#MODEL=SM-X;#@");
    assert_eq!(spy.lock().unwrap().sent_data[0], b"DVIF");
    assert_eq!(spy.lock().unwrap().asked[0], (1024, 1000, false));
    assert!(matches!(
        conn.query_device_info(whole_text),
        Err(OdinError::DeviceInfoUnavailable)
    ));
    spy.lock().unwrap().failing_sends = 1;
    assert!(matches!(
        conn.query_device_info(whole_text),
        Err(OdinError::SendCommandFailed)
    ));

    // What is made of the answer is what comes back, a failure too.
    queue(&spy, vec![b"12".to_vec(), b"x".to_vec(), b"as it is".to_vec()]);
    let number = |text: &str| {
        text.parse::<u32>().map_err(|_| OdinError::ParseError(text.to_string()))
    };
    assert_eq!(conn.query_device_info(number).unwrap(), 12);
    match conn.query_device_info(number) {
        Err(OdinError::ParseError(text)) => assert_eq!(text, "x"),
        other => panic!("{:?}", other),
    }
    assert_eq!(conn.receive_device_info().unwrap(), "as it is");

    let inner = Arc::new(Mutex::new(SpyTransferInner::default()));
    queue(&inner, vec![b"info".to_vec()]);
    let usb = Box::new(SpyTransfer { inner: inner.clone(), product: None });
    assert_eq!(query_device_info(usb, whole_text).unwrap(), "info");
}

#[test]
fn phone_is_rebooted_into_download_mode() {
    let inner = Arc::new(Mutex::new(SpyTransferInner::default()));
    let mut usb: Box<dyn UsbTransfer> =
        Box::new(SpyTransfer { inner: inner.clone(), product: None });
    assert!(reboot_download(&mut usb).is_ok());
    assert_eq!(inner.lock().unwrap().sent_data[0], b"AT+SUDDLMOD=0,0\r");
    inner.lock().unwrap().failing_sends = 1;
    match reboot_download(&mut usb) {
        Err(OdinError::SerialError(message)) => assert_eq!(message, "Failed to send data"),
        other => panic!("{:?}", other),
    }
}

#[test]
fn session_terms_follow_the_answer() {
    let old = negotiate(0);
    assert_eq!(old.bootloader_protocol_version, 1);
    assert_eq!(old.packet_size, 0x20000);
    assert_eq!(old.slice_timeout, 30000);
    assert!(!old.lz4_supported);
    let plain = negotiate(0x0002_0000);
    assert_eq!(plain.bootloader_protocol_version, 2);
    assert_eq!(plain.packet_size, 0x100000);
    assert_eq!(plain.slice_timeout, 120000);
    assert!(!plain.lz4_supported);
    let packed = negotiate(0x0004_8000);
    assert_eq!(packed.bootloader_protocol_version, 4);
    assert!(packed.lz4_supported);
    // Version 1 and below never take compressed slices.
    assert!(!negotiate(0x0001_8000).lz4_supported);
    assert_eq!(negotiate(0x0000_8000).bootloader_protocol_version, 0);
}

#[test]
fn session_is_begun_and_ended() {
    let (spy, conn) = spy_connection(None);
    queue(
        &spy,
        vec![answer(0x64, 0x0003_8000), answer(0x64, 0), answer(0x67, 0)],
    );
    let session = conn.begin_session().unwrap();
    assert!(session.is_lz4_supported());
    assert_eq!(session.bootloader_protocol_version(), 3);
    assert_eq!(session.packet_size, 0x100000);
    assert_eq!(spy.lock().unwrap().waited, vec![3000]);
    assert_eq!(words(&spy.lock().unwrap().sent_data[0], 4), vec![0x64, 0, 5, 0]);
    assert_eq!(words(&spy.lock().unwrap().sent_data[1], 4), vec![0x64, 5, 0x100000, 0]);
    assert!(session.close().is_ok());
    assert_eq!(words(&spy.lock().unwrap().sent_data[2], 3), vec![0x67, 0, 0]);

    // An old device is not told the length of a chunk.
    let (spy, conn) = spy_connection(None);
    queue(&spy, vec![answer(0x64, 0)]);
    let session = conn.begin_session().unwrap();
    assert_eq!(session.bootloader_protocol_version(), 1);
    assert_eq!(spy.lock().unwrap().sent_data.len(), 1);
    let conn = session.into_connection();
    assert!(conn.skip_empty_send());

    // The device refuses the length.
    let (spy, conn) = spy_connection(None);
    queue(&spy, vec![answer(0x64, 0x0002_0000), answer(0x64, 3)]);
    match conn.begin_session() {
        Err(OdinError::Loke(error)) => assert_eq!(error.status, 3),
        _ => panic!("refused"),
    }

    // A session that is opened once more asks again.
    let (spy, mut session) = spy_session(16, false);
    queue(&spy, vec![answer(0x64, 0x0003_8000), answer(0x64, 0)]);
    assert!(session.open().is_ok());
    assert_eq!(session.packet_size, 0x100000);
    assert!(session.is_lz4_supported());
    queue(&spy, vec![answer(0x65, 0)]);
    assert!(session.open().is_err());
    assert_eq!(session.packet_size, 0x100000);
    assert_eq!(spy.lock().unwrap().sent_data.len(), 3);
}

#[test]
fn answers_are_judged() {
    let ok = Response { response_type: 0x64, value: 7 };
    assert_eq!(accept_response(0x64, Ok(ok)).unwrap(), 7);
    match accept_response(0x65, Ok(ok)) {
        Err(OdinError::ResponseTypeMismatch { expected, received }) => {
            assert_eq!(expected, 0x65);
            assert_eq!(received, 0x64);
        }
        other => panic!("{:?}", other),
    }
    let negative = Response { response_type: 0x64, value: 0xFFFF_FFFE };
    match accept_response(0x64, Ok(negative)) {
        Err(OdinError::Loke(error)) => assert_eq!(error.status, -2),
        other => panic!("{:?}", other),
    }
    let fail = Response { response_type: 0xFFFF_FFFF, value: 5 };
    match accept_response(0x64, Ok(fail)) {
        Err(OdinError::Loke(error)) => assert_eq!(error.status, 5),
        other => panic!("{:?}", other),
    }
    assert!(matches!(
        accept_response(0x64, Err(OdinError::ReceivePacketFailed)),
        Err(OdinError::ReceivePacketFailed)
    ));

    assert!(require_zero(Ok(0)).is_ok());
    match require_zero(Ok(9)) {
        Err(OdinError::Loke(error)) => assert_eq!(error.status, 9),
        other => panic!("{:?}", other),
    }

    assert!(accept_pit(Ok(Response { response_type: 0, value: 0 })).is_ok());
    assert!(accept_pit(Ok(Response { response_type: 0x65, value: 3 })).is_ok());
    assert!(matches!(
        accept_pit(Ok(Response { response_type: 0x66, value: 0 })),
        Err(OdinError::ResponseTypeMismatch { expected: 0x65, received: 0x66 })
    ));
    assert!(matches!(accept_pit(Ok(fail)), Err(OdinError::Loke(_))));
    assert!(matches!(
        accept_pit(Ok(Response { response_type: 0, value: 0x8000_0000 })),
        Err(OdinError::Loke(_))
    ));
}

#[test]
fn chunk_answers_are_judged() {
    let ack = |value: u32| Ok(Response { response_type: 0, value });
    assert!(matches!(judge_chunk(ack(3), 3, 0), ChunkReply::Taken));
    assert!(matches!(
        judge_chunk(ack(2), 3, 0),
        ChunkReply::Failed(OdinError::ChunkIndexMismatch { expected: 3, received: 2 })
    ));
    assert!(matches!(judge_chunk(ack(2), 3, 1), ChunkReply::Again));
    assert!(matches!(judge_chunk(ack(3), 3, 4), ChunkReply::Taken));
    assert!(matches!(
        judge_chunk(ack(0xFFFF_FFFF), 3, 0),
        ChunkReply::Failed(OdinError::Loke(_))
    ));
    assert!(matches!(
        judge_chunk(Err(OdinError::ReceivePacketFailed), 3, 0),
        ChunkReply::Again
    ));
    assert!(matches!(
        judge_chunk(Ok(Response { response_type: 0x66, value: 3 }), 3, 0),
        ChunkReply::Again
    ));
    assert!(matches!(
        judge_chunk(Ok(Response { response_type: 0xFFFF_FFFF, value: 3 }), 3, 0),
        ChunkReply::Failed(OdinError::Loke(_))
    ));
}

#[test]
fn requests_fail_with_their_reasons() {
    let (spy, mut session) = spy_session(16, false);
    spy.lock().unwrap().failing_sends = 1;
    assert!(matches!(session.nand_erase(), Err(OdinError::SendCommandFailed)));
    spy.lock().unwrap().failing_reads = 1;
    assert!(matches!(session.nand_erase(), Err(OdinError::ReceivePacketFailed)));
    queue(&spy, vec![vec![1, 2, 3]]);
    match session.nand_erase() {
        Err(OdinError::ParseError(message)) => assert_eq!(
            message,
            "Incorrect response size received - expected size = 8, received size = 3."
        ),
        other => panic!("{:?}", other),
    }
    queue(&spy, vec![answer(0x64, 4096)]);
    assert_eq!(session.nand_erase().unwrap(), 4096);
    queue(&spy, vec![answer(0x64, 0), answer(0x6a, 0), answer(0x67, 1)]);
    assert!(session.set_total_bytes(0x1_0000_0002).is_ok());
    assert!(session.check_super_size(15000).is_ok());
    assert!(matches!(session.end_session(), Err(OdinError::Loke(_))));
    let inner = spy.lock().unwrap();
    let n = inner.sent_data.len();
    assert_eq!(words(&inner.sent_data[n - 3], 4), vec![0x64, 2, 2, 1]);
    assert_eq!(words(&inner.sent_data[n - 2], 3), vec![0x6a, 0, 15000]);
}

#[test]
fn reboot_is_not_asked_about() {
    let (spy, mut session) = spy_session(16, false);
    {
        let mut inner = spy.lock().unwrap();
        inner.failing_sends = 1;
        inner.failing_reads = 1;
    }
    assert!(session.reboot_to_download().is_ok());
    let inner = spy.lock().unwrap();
    assert_eq!(words(&inner.sent_data[0], 2), vec![0x67, 2]);
    assert_eq!(inner.asked, vec![(64, 100, false)]);
}

#[test]
fn sales_code_goes_out_letter_by_letter() {
    let (spy, mut session) = spy_session(16, false);
    queue(&spy, vec![answer(0x64, 0)]);
    assert!(session.set_sales_code("X9z").is_ok());
    assert_eq!(
        words(&spy.lock().unwrap().sent_data[0], 6),
        vec![0x64, 9, 'X' as u32, '9' as u32, 'z' as u32, 0]
    );
    match session.set_sales_code("\u{e9}a") {
        Err(OdinError::InvalidSalesCode(code)) => assert_eq!(code, "\u{e9}a"),
        other => panic!("{:?}", other),
    }
    assert_eq!(spy.lock().unwrap().sent_data.len(), 1);
}

#[test]
fn partition_table_is_sent() {
    let (spy, mut session) = spy_session(16, false);
    queue(
        &spy,
        vec![answer(0x65, 0), answer(0x65, 0), answer(0, 0), answer(0x65, 0)],
    );
    let pit: Vec<u8> = (0..100u8).collect();
    assert!(session.send_pit_info(&pit).is_ok());
    {
        let inner = spy.lock().unwrap();
        assert_eq!(words(&inner.sent_data[0], 3), vec![0x65, 0, 0]);
        assert_eq!(words(&inner.sent_data[1], 3), vec![0x65, 2, 100]);
        assert_eq!(inner.sent_data[2], pit);
        assert_eq!(words(&inner.sent_data[3], 3), vec![0x65, 3, 100]);
    }

    // Refused at each step.
    for step in 0..4 {
        let (spy, mut session) = spy_session(16, false);
        let mut answers = vec![answer(0x65, 0), answer(0x65, 0), answer(0, 0), answer(0x65, 0)];
        answers[step] = answer(0xFFFF_FFFF, 0xFFFF_FFF0);
        queue(&spy, answers);
        match session.send_pit_info(&pit) {
            Err(OdinError::Loke(error)) => assert_eq!(error.status, -16),
            other => panic!("{:?}", other),
        }
        assert_eq!(spy.lock().unwrap().sent_data.len(), [1, 2, 3, 4][step]);
    }
}

#[test]
fn partition_table_is_read_in_parts() {
    let table: Vec<u8> = (0..1100usize).map(|i| (i % 251) as u8).collect();
    let (spy, mut session) = spy_session(16, false);
    queue(
        &spy,
        vec![
            answer(0x65, 1100),
            table[..500].to_vec(),
            table[500..1000].to_vec(),
            table[1000..].to_vec(),
            vec![],
            answer(0x65, 0),
        ],
    );
    assert_eq!(session.receive_pit_info().unwrap(), table);
    {
        let inner = spy.lock().unwrap();
        assert_eq!(inner.sent_data.len(), 5);
        assert_eq!(words(&inner.sent_data[0], 2), vec![0x65, 1]);
        assert_eq!(words(&inner.sent_data[3], 3), vec![0x65, 2, 2]);
        assert_eq!(words(&inner.sent_data[4], 3), vec![0x65, 3, 0]);
        assert_eq!(inner.asked[1], (500, 3000, true));
        assert_eq!(inner.asked[3], (100, 3000, true));
        assert_eq!(inner.asked[4], (1, 100, false));
    }

    let (spy, mut session) = spy_session(16, false);
    queue(&spy, vec![answer(0x65, 1100)]);
    spy.lock().unwrap().failing_reads = 0;
    // An empty table.
    let (spy2, mut session2) = spy_session(16, false);
    queue(&spy2, vec![answer(0x65, 0), vec![], answer(0x65, 0)]);
    assert_eq!(session2.receive_pit_info().unwrap(), Vec::<u8>::new());
    // The device stops answering: the parts stay empty, and so does the end.
    assert!(matches!(session.receive_pit_info(), Err(OdinError::ParseError(_))));
}

#[test]
fn device_information_is_read_in_parts() {
    let text: Vec<u8> = (0..600usize).map(|i| (i % 97) as u8).collect();
    let (spy, mut session) = spy_session(16, false);
    queue(
        &spy,
        vec![
            answer(0x69, 600),
            text[..500].to_vec(),
            text[500..].to_vec(),
            answer(0x69, 0),
        ],
    );
    assert_eq!(session.dump_device_info(all_bytes).unwrap(), text);
    {
        let inner = spy.lock().unwrap();
        assert_eq!(words(&inner.sent_data[2], 3), vec![0x69, 1, 1]);
        assert_eq!(words(&inner.sent_data[3], 2), vec![0x69, 2]);
        assert_eq!(inner.asked[1], (500, 3000, false));
    }
    queue(&spy, vec![answer(0x69, 0)]);
    assert!(matches!(
        session.dump_device_info(all_bytes),
        Err(OdinError::DeviceInfoUnavailable)
    ));
    queue(&spy, vec![answer(0x69, 0x100001)]);
    assert!(matches!(
        session.dump_device_info(all_bytes),
        Err(OdinError::DeviceInfoUnavailable)
    ));
}

fn modem() -> PitEntry {
    PitEntry {
        binary_type: BinaryType::CommunicationProcessor,
        device_type: DeviceType::UFS,
        partition_id: 80,
    }
}

#[test]
fn slice_is_announced_streamed_and_committed() {
    let (spy, mut session) = spy_session(16, false);
    queue(
        &spy,
        vec![
            answer(0x66, 0),
            answer(0x66, 0),
            answer(0, 0),
            answer(0, 1),
            answer(0, 2),
            answer(0x66, 0),
        ],
    );
    let data: Vec<u8> = (1..41u8).collect();
    let slices: Vec<&[u8]> = vec![&data];
    let entry = modem();
    assert!(session.transmit_slices(&slices, &entry).is_ok());
    let inner = spy.lock().unwrap();
    assert_eq!(words(&inner.sent_data[0], 2), vec![0x66, 0]);
    assert_eq!(words(&inner.sent_data[1], 3), vec![0x66, 2, 0x20000]);
    assert_eq!(&inner.sent_data[2], &data[0..16]);
    assert_eq!(&inner.sent_data[3], &data[16..32]);
    let mut last = data[32..].to_vec();
    last.resize(16, 0);
    assert_eq!(inner.sent_data[4], last);
    assert_eq!(
        words(&inner.sent_data[5], 9),
        vec![0x66, 3, 1, 40, 1, 8, 1, 0, 80]
    );
    assert_eq!(inner.sent_data.len(), 6);
    let mut padded = data.clone();
    padded.resize(48, 0);
    assert_eq!(inner.sent_data[2..5].concat(), padded);
    assert_eq!(inner.progress, vec![16, 16, 8]);
    assert!(inner.lengths.is_empty());
}

#[test]
fn progress_counts_what_the_device_has_taken() {
    // The second chunk is taken at the second attempt, the third is not taken.
    let (spy, mut session) = spy_session(16, false);
    queue(
        &spy,
        vec![
            answer(0x66, 0),
            answer(0x66, 0),
            answer(0, 0),
            vec![1],
            answer(0, 1),
            answer(0, 7),
        ],
    );
    let data = vec![3u8; 40];
    let slices: Vec<&[u8]> = vec![&data];
    let entry = modem();
    assert!(matches!(
        session.transmit_slices(&slices, &entry),
        Err(OdinError::ChunkIndexMismatch { expected: 2, received: 7 })
    ));
    assert_eq!(spy.lock().unwrap().progress, vec![16, 16]);

    // The length of a file is shown before anything is sent, and all of it is counted.
    let (spy, mut session) = spy_session(16, false);
    queue(
        &spy,
        vec![
            answer(0x66, 0),
            answer(0x66, 0),
            answer(0, 0),
            answer(0, 1),
            answer(0, 2),
            answer(0x66, 0),
        ],
    );
    assert!(session.send_file(&FirmwareFile { file: &data, pit_entry: &entry }).is_ok());
    assert_eq!(spy.lock().unwrap().lengths, vec![40]);
    assert_eq!(spy.lock().unwrap().progress.iter().sum::<u64>(), 40);

    let (spy, mut session) = spy_session(16, false);
    spy.lock().unwrap().failing_sends = 1;
    assert!(session.send_file(&FirmwareFile { file: &data, pit_entry: &entry }).is_err());
    assert_eq!(spy.lock().unwrap().lengths, vec![40]);
    assert!(spy.lock().unwrap().progress.is_empty());
}

#[test]
fn chunk_is_sent_again_and_given_up() {
    // The first attempt is not answered in eight bytes, the second is.
    let (spy, mut session) = spy_session(16, false);
    queue(
        &spy,
        vec![
            answer(0x66, 0),
            answer(0x66, 0),
            vec![1],
            answer(0, 0),
            answer(0x66, 0),
        ],
    );
    let data = vec![5u8; 16];
    let slices: Vec<&[u8]> = vec![&data];
    let entry = modem();
    assert!(session.transmit_slices(&slices, &entry).is_ok());
    assert_eq!(spy.lock().unwrap().sent_data.len(), 5);
    assert_eq!(spy.lock().unwrap().retries, 1);

    // Five attempts.
    let (spy, mut session) = spy_session(16, false);
    queue(&spy, vec![answer(0x66, 0), answer(0x66, 0)]);
    queue(&spy, vec![vec![1], vec![2], vec![3], vec![4], vec![5]]);
    assert!(matches!(
        session.transmit_slices(&slices, &entry),
        Err(OdinError::ChunkResponseReceiveFailed)
    ));
    assert_eq!(spy.lock().unwrap().sent_data.len(), 7);
    assert_eq!(spy.lock().unwrap().retries, 4);

    // Another chunk is answered.
    let (spy, mut session) = spy_session(16, false);
    queue(&spy, vec![answer(0x66, 0), answer(0x66, 0), answer(0, 1)]);
    assert!(matches!(
        session.transmit_slices(&slices, &entry),
        Err(OdinError::ChunkIndexMismatch { expected: 0, received: 1 })
    ));
}

#[test]
fn file_goes_out_in_slices() {
    let backend = Box::new(MockBackend::new(false));
    let mut connection = OdinConnection::new(backend);
    assert!(connection.init().is_ok());
    let mut session = connection.begin_session().unwrap();
    let data = vec![1u8; 300_000];
    let entry = modem();
    let file = FirmwareFile { file: &data, pit_entry: &entry };
    assert!(session.send_file(&file).is_ok());

    let pieces = file.slices(100_000);
    assert_eq!(pieces.len(), 3);
    assert_eq!(pieces.concat(), data);
    let pieces = file.slices(299_999);
    assert_eq!(pieces.len(), 2);
    assert_eq!(pieces[1].len(), 1);
    let nothing = FirmwareFile { file: &[], pit_entry: &entry };
    assert!(nothing.slices(10).is_empty());
    assert!(session.send_file(&nothing).is_ok());
}

#[test]
fn compressed_file_is_sent_as_it_is_where_it_can_be() {
    let entry = modem();
    let packed = [9u8; 16];
    let unpacked = [7u8; 32];
    let slices = [Lz4Slice { decompressed_size: 32, data: &packed }];
    let decompressed: [&[u8]; 1] = [&unpacked];
    let mut file = FirmwareLz4File {
        file: &packed,
        header: Lz4Header { block_max_size: 1024 * 1024, content_size: 32 },
        slices: &slices,
        decompressed_slices: &decompressed,
        pit_entry: &entry,
    };

    let (spy, mut session) = spy_session(16, true);
    queue(
        &spy,
        vec![answer(0x66, 0), answer(0x66, 0), answer(0, 0), answer(0x66, 0)],
    );
    assert!(session.send_lz4_file(&file).is_ok());
    {
        let inner = spy.lock().unwrap();
        assert_eq!(words(&inner.sent_data[0], 2), vec![0x66, 5]);
        assert_eq!(words(&inner.sent_data[1], 4), vec![0x66, 6, 16, 32]);
        assert_eq!(inner.sent_data[2], packed);
        assert_eq!(words(&inner.sent_data[3], 4), vec![0x66, 7, 1, 32]);
        assert_eq!(inner.lengths, vec![16]);
        assert_eq!(inner.progress, vec![16]);
    }

    // Blocks of another length: decompressed.
    file.header.block_max_size = 4 * 1024 * 1024;
    let (spy, mut session) = spy_session(16, true);
    queue(
        &spy,
        vec![
            answer(0x66, 0),
            answer(0x66, 0),
            answer(0, 0),
            answer(0, 1),
            answer(0x66, 0),
        ],
    );
    assert!(session.send_lz4_file(&file).is_ok());
    assert_eq!(words(&spy.lock().unwrap().sent_data[0], 2), vec![0x66, 0]);
    assert_eq!(spy.lock().unwrap().sent_data[2], [7u8; 16]);
    assert_eq!(spy.lock().unwrap().lengths, vec![32]);
    assert_eq!(spy.lock().unwrap().progress, vec![16, 16]);

    // A device that cannot decompress: decompressed.
    file.header.block_max_size = 1024 * 1024;
    let (spy, mut session) = spy_session(16, false);
    queue(
        &spy,
        vec![
            answer(0x66, 0),
            answer(0x66, 0),
            answer(0, 0),
            answer(0, 1),
            answer(0x66, 0),
        ],
    );
    assert!(session.send_lz4_file(&file).is_ok());
    assert_eq!(words(&spy.lock().unwrap().sent_data[0], 2), vec![0x66, 0]);
}

#[test]
fn only_the_last_slice_ends_the_file() {
    let (spy, mut session) = spy_session(16, false);
    for _ in 0..3 {
        queue(
            &spy,
            vec![answer(0x66, 0), answer(0x66, 0), answer(0, 0), answer(0x66, 0)],
        );
    }
    let data = [1u8; 16];
    let slices: Vec<&[u8]> = vec![&data, &data, &data];
    let entry = PitEntry {
        binary_type: BinaryType::ApplicationProcessor,
        device_type: DeviceType::MMC,
        partition_id: 20,
    };
    assert!(session.transmit_slices(&slices, &entry).is_ok());
    let inner = spy.lock().unwrap();
    assert_eq!(inner.sent_data.len(), 12);
    let ends: Vec<u32> = (0..3).map(|k| words(&inner.sent_data[4 * k + 3], 8)[7]).collect();
    assert_eq!(ends, vec![0, 0, 1]);
}

#[test]
fn same_answers_lead_to_the_same_packets() {
    let run = |answers: Vec<Vec<u8>>| {
        let (spy, mut session) = spy_session(16, false);
        queue(&spy, answers);
        let result = format!("{:?}", session.receive_pit_info());
        let sent = spy.lock().unwrap().sent_data.clone();
        (result, sent)
    };
    let answers = vec![answer(0x65, 3), vec![7, 8, 9], vec![], answer(0x65, 0)];
    assert_eq!(run(answers.clone()), run(answers.clone()));
    assert_eq!(run(answers.clone()).0, "Ok([7, 8, 9])");
    let refused = vec![answer(0x65, 3), vec![7, 8, 9], vec![], answer(0x65, 1)];
    assert_ne!(run(answers).0, run(refused).0);
}
