//! Whole dialogues with a device that answers well, event by event, and how often things are
//! tried with one that does not.

use vstd::prelude::*;
use vstd::utf8::{decode_utf8, encode_utf8, valid_utf8};

use crate::bytes::{le32, signed32};
use crate::odin::connection::{
    device_info_asked, greeted, greeting_answered, text_received, text_result,
};
use crate::odin::error::OdinFault;
use crate::odin::packets::{holds_words, packet_layout, response_round_trip};
use crate::odin::protocol::{
    padded, CloseConnectionCommand, Command, PitCommand, Response, SessionCommand,
};
use crate::odin::replay::dump::{device_info_decided, pit_read_decided};
use crate::odin::replay::good::{
    after_chunks, after_command, after_sending, after_slice, answer_is_read, answered, good_chunks,
    good_command, good_device_takes_slice, packets, packets_of_command, packets_push,
};
use crate::odin::replay::session::{begun_decided, greeted_decided, pit_sent_decided};
use crate::odin::replay::transfer::{chunk_answer, chunk_first, slices_grow};
use crate::odin::transcript::{
    accepted, begun, command_sent, demand, device_info_read, dump_ended, negotiated, part_count,
    part_len, parts_read, pit_acknowledged, pit_announced, pit_parts_read, pit_read, pit_sent,
    pit_streamed, read_result, rebooted, received, request, response_read, sent, terms_settled, Dump,
    SessionTerms, Transcript,
};
use crate::odin::transfer::{
    attempt_shown, chunk_fate, chunk_sent, file_sent, slice_announced, slice_sent, slice_streamed,
    slices_sent, SlicePlan, CHUNK_ATTEMPTS,
};
use crate::odin::usb::UsbEvent;
use crate::text::decimal;

verus! {

/// A command has been sent, and answered with its number and `value`.
pub open spec fn after_request(
    t: Transcript,
    cmd: Command,
    value: u32,
    timeout: i32,
) -> Transcript {
    answered(after_sending(t, cmd.packet(), timeout), cmd.opcode(), value, timeout)
}

proof fn good_request(t: Transcript, cmd: Command, value: u32, timeout: i32)
    requires
        value < 0x8000_0000,
    ensures
        request(t, after_request(t, cmd, value, timeout), cmd, timeout, true, Ok(value)),
{
    let t1 = after_request(t, cmd, value, timeout);
    let u = after_sending(t, cmd.packet(), timeout);
    let response = Ok::<Response, OdinFault>(Response { response_type: cmd.opcode(), value });
    answer_is_read(u, cmd.opcode(), value, timeout);
    assert(command_sent(t, u, cmd, timeout, true, true));
    assert(response_read(u, t1, timeout, response));
    assert(accepted(cmd.opcode(), response) == Ok::<u32, OdinFault>(value));
}

/// Begins a session.
pub open spec fn begin_packet() -> Command {
    Command::Session(SessionCommand::Begin { protocol_version: 5 })
}

/// Sets chunks of 1 MiB.
pub open spec fn mebibyte_packet() -> Command {
    Command::Session(SessionCommand::PacketSize { size: 0x100000 })
}

/// A device has answered `value` when a session was begun, and has taken the length of a
/// chunk if it was told.
pub open spec fn after_begin(t: Transcript, value: u32) -> Transcript {
    let waited = after_request(t, begin_packet(), value, 3000).push(
        UsbEvent::Waited { millis: 3000 },
    );
    if value >= 0x20000 {
        after_command(waited, mebibyte_packet(), 3000)
    } else {
        waited
    }
}

/// A session begins with a device that answers `value`, and takes over what the answer
/// says: the host says that it speaks version 5, waits three seconds, and tells a device of
/// version 2 or later that chunks are 1 MiB long.
pub proof fn session_begins(t0: Transcript, value: u32) -> (terms: SessionTerms)
    requires
        value < 0x8000_0000,
    ensures
        begun(t0, after_begin(t0, value), true, Ok(terms)),
        forall|result: Result<SessionTerms, OdinFault>| #[trigger]
            begun(t0, after_begin(t0, value), true, result) ==> result == Ok::<
                SessionTerms,
                OdinFault,
            >(terms),
        holds_words(begin_packet().packet(), seq![0x64, 0, 5]),
        holds_words(mebibyte_packet().packet(), seq![0x64, 5, 0x100000]),
        value == 0 ==> terms.bootloader_protocol_version == 1,
        value > 0 ==> terms.bootloader_protocol_version == value >> 16,
        terms.lz4_supported <==> value >= 0x20000 && value & 0x8000 != 0,
        value >= 0x20000 ==> terms.packet_size == 0x100000 && terms.slice_timeout == 120000,
        value < 0x20000 ==> terms.packet_size == 0x20000 && terms.slice_timeout == 30000,
{
    let terms = negotiated(value);
    let t = after_request(t0, begin_packet(), value, 3000);
    let u = t.push(UsbEvent::Waited { millis: 3000 });
    let t1 = after_begin(t0, value);
    packet_layout(begin_packet());
    packet_layout(mebibyte_packet());
    crate::odin::session::terms_follow_answer(value);
    good_request(t0, begin_packet(), value, 3000);
    good_command(u, mebibyte_packet(), 3000);
    assert(value >> 16 == value / 0x10000) by (bit_vector);
    assert(terms_settled(u, t1, true, terms, Ok(terms)));
    assert(begun(t0, t1, true, Ok(terms)));
    assert forall|result: Result<SessionTerms, OdinFault>| #[trigger]
        begun(t0, t1, true, result) implies result == Ok::<SessionTerms, OdinFault>(terms) by {
        begun_decided(t0, t1, t1, t1, true, Ok(terms), result);
    }
    terms
}

/// A device has taken the partition table `pit`, and has answered it with the number `ack`.
pub open spec fn after_pit(t: Transcript, pit: Seq<u8>, ack: u32, value: u32) -> Transcript {
    let size = pit.len() as u32;
    let announced = after_command(
        after_command(t, Command::Pit(PitCommand::Flash), 3000),
        Command::Pit(PitCommand::Slice { slice: size }),
        3000,
    );
    let taken = answered(after_sending(announced, pit, 3000), ack, value, 3000);
    after_command(taken, Command::Pit(PitCommand::End { size }), 3000)
}

/// Sending a partition table succeeds with a device that takes it: the transfer is started,
/// the length is announced, the table is sent as it is, and the transfer is ended with the
/// length. The device may acknowledge the table as a chunk or as a table.
pub proof fn pit_is_sent(
    t0: Transcript,
    pit: Seq<u8>,
    ack: u32,
    value: u32,
    result: Result<(), OdinFault>,
)
    requires
        pit.len() <= u32::MAX,
        ack == 0 || ack == 0x65,
        value < 0x8000_0000,
    ensures
        pit_sent(t0, after_pit(t0, pit, ack, value), pit, true, Ok(())),
        pit_sent(t0, after_pit(t0, pit, ack, value), pit, true, result) ==> result == Ok::<
            (),
            OdinFault,
        >(()),
        ({
            let size = pit.len() as u32;
            let flash = Command::Pit(PitCommand::Flash).packet();
            let announce = Command::Pit(PitCommand::Slice { slice: size }).packet();
            let end = Command::Pit(PitCommand::End { size }).packet();
            &&& holds_words(flash, seq![0x65, 0])
            &&& holds_words(announce, seq![0x65, 2, size])
            &&& holds_words(end, seq![0x65, 3, size])
            &&& packets(after_pit(t0, pit, ack, value)) == packets(t0) + seq![
                flash,
                announce,
                pit,
                end,
            ]
        }),
{
    let size = pit.len() as u32;
    let flash = Command::Pit(PitCommand::Flash);
    let announce = Command::Pit(PitCommand::Slice { slice: size });
    let end = Command::Pit(PitCommand::End { size });
    let t1 = after_command(t0, flash, 3000);
    let t2 = after_command(t1, announce, 3000);
    let t3 = after_sending(t2, pit, 3000);
    let t4 = answered(t3, ack, value, 3000);
    let t5 = after_pit(t0, pit, ack, value);
    good_command(t0, flash, 3000);
    good_command(t1, announce, 3000);
    assert(padded(pit, size as nat) =~= pit);
    assert(sent(t2, t3, padded(pit, size as nat), 3000, true, true));
    answer_is_read(t3, ack, value, 3000);
    good_command(t4, end, 3000);
    assert(pit_acknowledged(t3, t5, pit, true, Ok(())));
    assert(pit_streamed(t2, t5, pit, true, Ok(())));
    assert(pit_announced(t1, t5, pit, true, Ok(())));
    assert(pit_sent(t0, t5, pit, true, Ok(())));
    if pit_sent(t0, t5, pit, true, result) {
        pit_sent_decided(t0, t5, t5, t5, pit, true, Ok(()), result);
    }
    packet_layout(flash);
    packet_layout(announce);
    packet_layout(end);
    packets_of_command(t0, flash, 3000);
    packets_of_command(t1, announce, 3000);
    packets_push(t2, UsbEvent::Sent { data: pit, timeout: 3000, retry: true, ok: true });
    packets_push(t3, t4.last());
    packets_of_command(t4, end, 3000);
    assert(packets(t5) =~= packets(t0) + seq![
        flash.packet(),
        announce.packet(),
        pit,
        end.packet(),
    ]);
}

/// Part number `i` of 500 bytes of `data`.
pub open spec fn part_of(data: Seq<u8>, i: int) -> Seq<u8> {
    data.subrange(
        500 * i,
        if 500 * i + 500 < data.len() {
            500 * i + 500
        } else {
            data.len() as int
        },
    )
}

/// The device has given the parts of `data` from number `i` on, each when it was asked for.
pub open spec fn after_parts(t: Transcript, dump: Dump, data: Seq<u8>, i: int) -> Transcript
    decreases data.len() - 500 * i,
{
    if i < 0 || 500 * i >= data.len() {
        t
    } else {
        let part = part_of(data, i);
        let asked = after_sending(t, dump.part(i as u32).packet(), 3000);
        let given = asked.push(
            UsbEvent::Received {
                capacity: part.len(),
                timeout: 3000,
                retry: dump is Pit,
                size: part.len() as i32,
                data: part,
            },
        );
        if data.len() - 500 * (i + 1) < 0 {
            given
        } else {
            after_parts(given, dump, data, i + 1)
        }
    }
}

proof fn parts_are_read(t: Transcript, dump: Dump, data: Seq<u8>, i: int)
    requires
        0 <= i <= part_count(data.len() as int),
        data.len() < 0x8000_0000,
    ensures
        parts_read(
            t,
            after_parts(t, dump, data, i),
            dump,
            data.len() as int,
            true,
            i,
            data.take(
                if 500 * i < data.len() {
                    500 * i
                } else {
                    data.len() as int
                },
            ),
            Ok(data),
        ),
    decreases part_count(data.len() as int) - i,
{
    let total = data.len() as int;
    if i >= part_count(total) {
        assert(data.take(total) =~= data);
    } else {
        let part = part_of(data, i);
        let got = data.take(500 * i);
        let asked = after_sending(t, dump.part(i as u32).packet(), 3000);
        let given = asked.push(
            UsbEvent::Received {
                capacity: part.len(),
                timeout: 3000,
                retry: dump is Pit,
                size: part.len() as i32,
                data: part,
            },
        );
        let t1 = after_parts(t, dump, data, i);
        parts_are_read(given, dump, data, i + 1);
        assert(command_sent(t, asked, dump.part(i as u32), 3000, true, true));
        assert(part.len() == part_len(total, got.len() as int));
        assert(received(
            asked,
            given,
            part_len(total, got.len() as int) as nat,
            3000,
            dump.retry(),
            part.len() as i32,
            part,
        ));
        let more = if 500 * (i + 1) < total {
            500 * (i + 1)
        } else {
            total
        };
        assert(got + part =~= data.take(more));
        assert(t1 == after_parts(given, dump, data, i + 1)) by {
            if total - 500 * (i + 1) < 0 {
                assert(after_parts(given, dump, data, i + 1) == given);
            }
        }
    }
}

/// The device has given its partition table `pit`.
pub open spec fn after_pit_read(t: Transcript, pit: Seq<u8>) -> Transcript {
    let begun = after_request(t, Command::Pit(PitCommand::Dump), pit.len() as u32, 3000);
    let given = after_parts(begun, Dump::Pit, pit, 0).push(
        UsbEvent::Received {
            capacity: 1,
            timeout: 100,
            retry: false,
            size: 0,
            data: Seq::empty(),
        },
    );
    after_command(given, Command::Pit(PitCommand::End { size: 0 }), 3000)
}

/// Reading the partition table gives the table that the device has, read in parts of 500
/// bytes, each asked for by its number.
pub proof fn pit_is_read(
    t0: Transcript,
    pit: Seq<u8>,
    result: Result<Seq<u8>, OdinFault>,
)
    requires
        pit.len() < 0x8000_0000,
    ensures
        pit_read(t0, after_pit_read(t0, pit), true, Ok(pit)),
        pit_read(t0, after_pit_read(t0, pit), true, result) ==> result == Ok::<
            Seq<u8>,
            OdinFault,
        >(pit),
{
    let total = pit.len() as u32;
    let t1 = after_request(t0, Command::Pit(PitCommand::Dump), total, 3000);
    let t2 = after_parts(t1, Dump::Pit, pit, 0);
    let t3 = t2.push(
        UsbEvent::Received {
            capacity: 1,
            timeout: 100,
            retry: false,
            size: 0,
            data: Seq::empty(),
        },
    );
    let t4 = after_pit_read(t0, pit);
    good_request(t0, Command::Pit(PitCommand::Dump), total, 3000);
    parts_are_read(t1, Dump::Pit, pit, 0);
    assert(pit.take(0) =~= Seq::empty());
    assert(received(t2, t3, 1, 100, false, 0, Seq::empty()));
    good_command(t3, Command::Pit(PitCommand::End { size: 0 }), 3000);
    assert(dump_ended(t3, t4, Dump::Pit, true, pit, Ok(pit)));
    assert(parts_read(t1, t2, Dump::Pit, total as int, true, 0, Seq::empty(), Ok(pit)));
    assert(pit_parts_read(t1, t4, true, total as int, Ok(pit)));
    assert(pit_read(t0, t4, true, Ok(pit)));
    if pit_read(t0, t4, true, result) {
        pit_read_decided(t0, t4, t4, t4, true, Ok(pit), result);
    }
}

/// The device has given the information `info`.
pub open spec fn after_info_read(t: Transcript, info: Seq<u8>) -> Transcript {
    let begun = after_request(t, Dump::DeviceInfo.start(), info.len() as u32, 3000);
    after_command(
        after_parts(begun, Dump::DeviceInfo, info, 0),
        Dump::DeviceInfo.end(),
        3000,
    )
}

/// Reading the device information gives the information that the device has, where it is
/// not longer than 1 MiB and not empty.
pub proof fn device_info_is_read(
    t0: Transcript,
    info: Seq<u8>,
    result: Result<Seq<u8>, OdinFault>,
)
    requires
        0 < info.len() <= 0x100000,
    ensures
        device_info_read(t0, after_info_read(t0, info), true, Ok(info)),
        device_info_read(t0, after_info_read(t0, info), true, result) ==> result == Ok::<
            Seq<u8>,
            OdinFault,
        >(info),
        holds_words(Dump::DeviceInfo.start().packet(), seq![0x69, 0]),
        forall|i: u32|
            holds_words(#[trigger] Dump::DeviceInfo.part(i).packet(), seq![0x69, 1, i]),
        holds_words(Dump::DeviceInfo.end().packet(), seq![0x69, 2]),
        holds_words(Dump::Pit.start().packet(), seq![0x65, 1]),
        forall|i: u32| holds_words(#[trigger] Dump::Pit.part(i).packet(), seq![0x65, 2, i]),
        holds_words(Dump::Pit.end().packet(), seq![0x65, 3, 0]),
{
    let total = info.len() as u32;
    let t1 = after_request(t0, Dump::DeviceInfo.start(), total, 3000);
    let t2 = after_parts(t1, Dump::DeviceInfo, info, 0);
    let t3 = after_info_read(t0, info);
    good_request(t0, Dump::DeviceInfo.start(), total, 3000);
    parts_are_read(t1, Dump::DeviceInfo, info, 0);
    assert(info.take(0) =~= Seq::empty());
    good_command(t2, Dump::DeviceInfo.end(), 3000);
    assert(dump_ended(t2, t3, Dump::DeviceInfo, true, info, Ok(info)));
    assert(parts_read(t1, t2, Dump::DeviceInfo, total as int, true, 0, Seq::empty(), Ok(info)));
    assert(device_info_read(t0, t3, true, Ok(info)));
    if device_info_read(t0, t3, true, result) {
        device_info_decided(t0, t3, t3, t3, true, Ok(info), result);
    }
    packet_layout(Dump::DeviceInfo.start());
    packet_layout(Dump::DeviceInfo.end());
    packet_layout(Dump::Pit.start());
    packet_layout(Dump::Pit.end());
    assert forall|i: u32| holds_words(
        #[trigger] Dump::DeviceInfo.part(i).packet(),
        seq![0x69, 1, i],
    ) by {
        packet_layout(Dump::DeviceInfo.part(i));
    }
    assert forall|i: u32| holds_words(
        #[trigger] Dump::Pit.part(i).packet(),
        seq![0x65, 2, i],
    ) by {
        packet_layout(Dump::Pit.part(i));
    }
}

/// The device has been reset and greeted, and has said `data`.
pub open spec fn after_greeting(t: Transcript, data: Seq<u8>) -> Transcript {
    after_sending(t.push(UsbEvent::Reset), encode_utf8("ODIN"@), 1000).push(
        UsbEvent::Received {
            capacity: 1024,
            timeout: 1000,
            retry: true,
            size: data.len() as i32,
            data,
        },
    )
}

/// The device has said `data` after the answer to the greeting.
pub open spec fn after_more(t: Transcript, data: Seq<u8>) -> Transcript {
    t.push(
        UsbEvent::Received {
            capacity: 1024,
            timeout: 500,
            retry: true,
            size: data.len() as i32,
            data,
        },
    )
}

/// A device that answers `ODIN` with `LOKE` is ready.
pub proof fn loke_is_ready(t0: Transcript, data: Seq<u8>, result: Result<(), OdinFault>)
    requires
        data.len() <= 1024,
        valid_utf8(data),
        decode_utf8(data) == "LOKE"@,
    ensures
        greeted(t0, after_greeting(t0, data), Ok(())),
        greeted(t0, after_greeting(t0, data), result) ==> result == Ok::<(), OdinFault>(()),
{
    let t = after_sending(t0.push(UsbEvent::Reset), encode_utf8("ODIN"@), 1000);
    let t1 = after_greeting(t0, data);
    let text = decode_utf8(data);
    assert(sent(t0.push(UsbEvent::Reset), t, encode_utf8("ODIN"@), 1000, true, true));
    assert(received(t, t1, 1024, 1000, true, data.len() as i32, data));
    assert(text_result(data.len() as i32, data, Ok(text)));
    assert(text_received(t, t1, 1000, Ok(text)));
    assert(greeting_answered(t1, t1, text, Ok(())));
    assert(greeted(t0, t1, Ok(())));
    if greeted(t0, t1, result) {
        greeted_decided(t0, t1, t1, t1, Ok(()), result);
    }
}

/// A device that answers `ODIN` with a failure that it had left over is asked once more, and
/// is ready if and only if it says `LOKE` then. Otherwise what it said first is reported.
pub proof fn left_over_failure_is_passed_over(
    t0: Transcript,
    first: Seq<u8>,
    second: Seq<u8>,
    result: Result<(), OdinFault>,
)
    requires
        first.len() <= 1024,
        second.len() <= 1024,
        valid_utf8(first),
        valid_utf8(second),
        decode_utf8(first) != "LOKE"@,
        "FAIL"@.is_prefix_of(decode_utf8(first)),
        result == if decode_utf8(second) == "LOKE"@ {
            Ok::<(), OdinFault>(())
        } else {
            Err(OdinFault::HandshakeMismatch { expected: "LOKE"@, received: decode_utf8(first) })
        },
    ensures
        greeted(t0, after_more(after_greeting(t0, first), second), result),
        forall|other: Result<(), OdinFault>| #[trigger]
            greeted(t0, after_more(after_greeting(t0, first), second), other) ==> other == result,
{
    let t = after_sending(t0.push(UsbEvent::Reset), encode_utf8("ODIN"@), 1000);
    let t1 = after_greeting(t0, first);
    let t2 = after_more(t1, second);
    let text = decode_utf8(first);
    let next = decode_utf8(second);
    let said = if next == "LOKE"@ {
        Ok::<(), OdinFault>(())
    } else {
        Err(OdinFault::HandshakeMismatch { expected: "LOKE"@, received: text })
    };
    assert(sent(t0.push(UsbEvent::Reset), t, encode_utf8("ODIN"@), 1000, true, true));
    assert(received(t, t1, 1024, 1000, true, first.len() as i32, first));
    assert(text_result(first.len() as i32, first, Ok(text)));
    assert(text_received(t, t1, 1000, Ok(text)));
    assert(received(t1, t2, 1024, 500, true, second.len() as i32, second));
    assert(text_result(second.len() as i32, second, Ok(next)));
    assert(text_received(t1, t2, 500, Ok(next)));
    assert(greeting_answered(t1, t2, text, said));
    assert(greeted(t0, t2, said));
    assert forall|other: Result<(), OdinFault>| #[trigger]
        greeted(t0, t2, other) implies other == result by {
        greeted_decided(t0, t2, t2, t2, said, other);
    }
}

/// Anything else that answers `ODIN` is not the device, and what it said is reported.
pub proof fn foreign_answer_is_reported(
    t0: Transcript,
    data: Seq<u8>,
    result: Result<(), OdinFault>,
)
    requires
        data.len() <= 1024,
        valid_utf8(data),
        decode_utf8(data) != "LOKE"@,
        !"FAIL"@.is_prefix_of(decode_utf8(data)),
        result == Err::<(), OdinFault>(
            OdinFault::HandshakeMismatch { expected: "LOKE"@, received: decode_utf8(data) },
        ),
    ensures
        greeted(t0, after_greeting(t0, data), result),
        forall|other: Result<(), OdinFault>| #[trigger]
            greeted(t0, after_greeting(t0, data), other) ==> other == result,
{
    let t = after_sending(t0.push(UsbEvent::Reset), encode_utf8("ODIN"@), 1000);
    let t1 = after_greeting(t0, data);
    let text = decode_utf8(data);
    let said = Err::<(), OdinFault>(
        OdinFault::HandshakeMismatch { expected: "LOKE"@, received: text },
    );
    assert(sent(t0.push(UsbEvent::Reset), t, encode_utf8("ODIN"@), 1000, true, true));
    assert(received(t, t1, 1024, 1000, true, data.len() as i32, data));
    assert(text_result(data.len() as i32, data, Ok(text)));
    assert(text_received(t, t1, 1000, Ok(text)));
    assert(greeting_answered(t1, t1, text, said));
    assert(greeted(t0, t1, said));
    assert forall|other: Result<(), OdinFault>| #[trigger]
        greeted(t0, t1, other) implies other == result by {
        greeted_decided(t0, t1, t1, t1, said, other);
    }
}

proof fn response_sends_nothing(
    t0: Transcript,
    t1: Transcript,
    timeout: i32,
    result: Result<Response, OdinFault>,
)
    requires
        response_read(t0, t1, timeout, result),
    ensures
        packets(t1) == packets(t0),
{
    let (t, size, data) = choose|t: Transcript, size: i32, data: Seq<u8>| #[trigger]
        received(t, t1, 8, timeout, true, size, data) && result == read_result(size, data)
            && if t == t0 {
            size != 0
        } else {
            received(t0, t, 8, timeout, true, 0, Seq::empty())
        };
    packets_push(t, UsbEvent::Received { capacity: 8, timeout, retry: true, size, data });
    if t != t0 {
        packets_push(
            t0,
            UsbEvent::Received { capacity: 8, timeout, retry: true, size: 0, data: Seq::empty() },
        );
    }
}

proof fn attempts_from(
    t0: Transcript,
    t1: Transcript,
    bytes: Seq<u8>,
    index: nat,
    timeout: i32,
    attempt: u32,
    result: Result<(), OdinFault>,
) -> (n: nat)
    requires
        chunk_sent(t0, t1, bytes, index, timeout, attempt, result),
        attempt <= 5,
    ensures
        packets(t1) == packets(t0) + Seq::new(n, |i: int| bytes),
        n <= 5 - attempt,
        attempt < 5 ==> n >= 1,
        result == Err::<(), OdinFault>(OdinFault::ChunkResponseReceiveFailed) ==> n == 5 - attempt,
    decreases 5 - attempt,
{
    if attempt >= CHUNK_ATTEMPTS {
        assert(packets(t0) + Seq::new(0, |i: int| bytes) =~= packets(t0));
        0
    } else {
        let next = (attempt + 1) as u32;
        let (t, ok) = chunk_first(t0, t1, bytes, index, timeout, attempt, result);
        packets_push(t0, UsbEvent::RetryShown);
        packets_push(
            attempt_shown(t0, attempt),
            UsbEvent::Sent { data: bytes, timeout: 3000, retry: true, ok },
        );
        assert(packets(t) == packets(t0).push(bytes));
        if !ok {
            let m = attempts_from(t, t1, bytes, index, timeout, next, result);
            assert(packets(t1) =~= packets(t0) + Seq::new(m + 1, |i: int| bytes));
            m + 1
        } else {
            let (u, r) = chunk_answer(t, t1, bytes, index, timeout, attempt, result);
            response_sends_nothing(t, u, timeout, r);
            if chunk_fate(r, index, attempt) is Again {
                let m = attempts_from(u, t1, bytes, index, timeout, next, result);
                assert(packets(t1) =~= packets(t0) + Seq::new(m + 1, |i: int| bytes));
                m + 1
            } else {
                assert(packets(t1) =~= packets(t0) + Seq::new(1, |i: int| bytes));
                1
            }
        }
    }
}

/// A chunk is sent at least once and at most five times, the same bytes each time, and it is
/// given up after five times only.
pub proof fn chunk_is_sent_up_to_five_times(
    t0: Transcript,
    t1: Transcript,
    bytes: Seq<u8>,
    index: nat,
    timeout: i32,
    result: Result<(), OdinFault>,
) -> (n: nat)
    requires
        chunk_sent(t0, t1, bytes, index, timeout, 0, result),
    ensures
        1 <= n <= 5,
        packets(t1) == packets(t0) + Seq::new(n, |i: int| bytes),
        result == Err::<(), OdinFault>(OdinFault::ChunkResponseReceiveFailed) ==> n == 5,
{
    attempts_from(t0, t1, bytes, index, timeout, 0, result)
}

/// A device that is asked what it is, with `DVIF`, says what it sends; nothing is asked
/// twice. A device that sends nothing does not say.
pub proof fn device_says_what_it_is(
    t0: Transcript,
    data: Seq<u8>,
    result: Result<Seq<char>, OdinFault>,
)
    requires
        data.len() <= 1024,
        valid_utf8(data),
        result == if data.len() > 0 {
            Ok::<Seq<char>, OdinFault>(decode_utf8(data))
        } else {
            Err(OdinFault::DeviceInfoUnavailable)
        },
    ensures
        device_info_asked(
            t0,
            t0.push(
                UsbEvent::Sent {
                    data: encode_utf8("DVIF"@),
                    timeout: 1000,
                    retry: false,
                    ok: true,
                },
            ).push(
                UsbEvent::Received {
                    capacity: 1024,
                    timeout: 1000,
                    retry: false,
                    size: data.len() as i32,
                    data,
                },
            ),
            result,
        ),
{
    let t = t0.push(
        UsbEvent::Sent { data: encode_utf8("DVIF"@), timeout: 1000, retry: false, ok: true },
    );
    let t1 = t.push(
        UsbEvent::Received {
            capacity: 1024,
            timeout: 1000,
            retry: false,
            size: data.len() as i32,
            data,
        },
    );
    assert(sent(t0, t, encode_utf8("DVIF"@), 1000, false, true));
    assert(received(t, t1, 1024, 1000, false, data.len() as i32, data));
}

/// A device that wants no empty packets is told once to reboot, with a command of its own for
/// each way to do so, and is listened to once.
pub proof fn device_is_told_to_reboot(
    t0: Transcript,
    t1: Transcript,
    download: bool,
)
    requires
        rebooted(
            t0,
            t1,
            Command::CloseConnection(
                if download {
                    CloseConnectionCommand::RebootDownload
                } else {
                    CloseConnectionCommand::RebootDevice
                },
            ),
            true,
        ),
    ensures
        t1.len() == t0.len() + 2,
        t1[t0.len() as int] matches UsbEvent::Sent { data, timeout, .. } && timeout == 500
            && holds_words(
            data,
            seq![
                0x67,
                if download {
                    2
                } else {
                    1
                },
            ],
        ),
        t1[t0.len() as int + 1] matches UsbEvent::Received { capacity, timeout, retry, .. } && capacity
            == 64 && timeout == 100 && !retry,
{
    packet_layout(
        Command::CloseConnection(
            if download {
                CloseConnectionCommand::RebootDownload
            } else {
                CloseConnectionCommand::RebootDevice
            },
        ),
    );
}

/// A command has been sent, and the device has reported a failure.
pub open spec fn after_refusal(
    t: Transcript,
    cmd: Command,
    status: u32,
    timeout: i32,
) -> Transcript {
    answered(after_sending(t, cmd.packet(), timeout), 0xffff_ffff, status, timeout)
}

proof fn refused_request(t: Transcript, cmd: Command, status: u32, timeout: i32)
    ensures
        request(
            t,
            after_refusal(t, cmd, status, timeout),
            cmd,
            timeout,
            true,
            Err(OdinFault::Loke(signed32(status))),
        ),
        demand(
            t,
            after_refusal(t, cmd, status, timeout),
            cmd,
            timeout,
            true,
            Err(OdinFault::Loke(signed32(status))),
        ),
{
    let t1 = after_refusal(t, cmd, status, timeout);
    let u = after_sending(t, cmd.packet(), timeout);
    let response = Ok::<Response, OdinFault>(
        Response { response_type: 0xffff_ffff, value: status },
    );
    answer_is_read(u, 0xffff_ffff, status, timeout);
    assert(command_sent(t, u, cmd, timeout, true, true));
    assert(response_read(u, t1, timeout, response));
    assert(request(t, t1, cmd, timeout, true, accepted(cmd.opcode(), response)));
}

/// A command that has to be answered with zero fails where it is answered with another
/// value, and reports that value.
pub proof fn other_value_is_reported(
    t: Transcript,
    cmd: Command,
    value: u32,
    timeout: i32,
)
    requires
        0 < value < 0x8000_0000,
    ensures
        demand(
            t,
            after_request(t, cmd, value, timeout),
            cmd,
            timeout,
            true,
            Err(OdinFault::Loke(value as i32)),
        ),
{
    good_request(t, cmd, value, timeout);
    assert(request(t, after_request(t, cmd, value, timeout), cmd, timeout, true, Ok(value)));
}

/// A slice is not gone on with where the device refuses to start it, to be told its length,
/// or to commit it: nothing is sent after the refusal, and its status is reported.
pub proof fn refused_slice_is_not_gone_on_with(
    t0: Transcript,
    plan: SlicePlan,
    terms: SessionTerms,
    status: u32,
    result: Result<(), OdinFault>,
)
    requires
        terms.packet_size > 0,
        plan.data.len() <= 0x8000_0000 * terms.packet_size,
        result == Err::<(), OdinFault>(OdinFault::Loke(signed32(status))),
    ensures
        slice_sent(
            t0,
            after_refusal(t0, plan.init, status, 3000),
            plan,
            terms,
            true,
            result,
        ),
        slice_sent(
            t0,
            after_refusal(after_command(t0, plan.init, 3000), plan.start, status, 3000),
            plan,
            terms,
            true,
            result,
        ),
        slice_sent(
            t0,
            after_refusal(
                after_chunks(
                    after_command(after_command(t0, plan.init, 3000), plan.start, 3000),
                    plan.data,
                    terms,
                    0,
                ),
                plan.end,
                status,
                signed32(terms.slice_timeout),
            ),
            plan,
            terms,
            true,
            result,
        ),
{
    let t1 = after_command(t0, plan.init, 3000);
    let t2 = after_command(t1, plan.start, 3000);
    let t3 = after_chunks(t2, plan.data, terms, 0);
    let timeout = signed32(terms.slice_timeout);
    refused_request(t0, plan.init, status, 3000);
    good_command(t0, plan.init, 3000);
    refused_request(t1, plan.start, status, 3000);
    let r1 = after_refusal(t1, plan.start, status, 3000);
    assert(slice_announced(t1, r1, plan, terms, true, result));
    good_command(t1, plan.start, 3000);
    good_chunks(t2, plan.data, terms, 0);
    refused_request(t3, plan.end, status, timeout);
    let r2 = after_refusal(t3, plan.end, status, timeout);
    assert(slice_streamed(t2, r2, plan, terms, true, result));
    assert(slice_announced(t1, r2, plan, terms, true, result));
}

/// No session begins where the device refuses to, or refuses the length of a chunk.
pub proof fn refused_session_does_not_begin(
    t0: Transcript,
    value: u32,
    status: u32,
    result: Result<SessionTerms, OdinFault>,
)
    requires
        0x20000 <= value < 0x8000_0000,
        result == Err::<SessionTerms, OdinFault>(OdinFault::Loke(signed32(status))),
    ensures
        begun(t0, after_refusal(t0, begin_packet(), status, 3000), true, result),
        begun(
            t0,
            after_refusal(
                after_request(t0, begin_packet(), value, 3000).push(
                    UsbEvent::Waited { millis: 3000 },
                ),
                mebibyte_packet(),
                status,
                3000,
            ),
            true,
            result,
        ),
{
    let t = after_request(t0, begin_packet(), value, 3000);
    let u = t.push(UsbEvent::Waited { millis: 3000 });
    let t1 = after_refusal(u, mebibyte_packet(), status, 3000);
    refused_request(t0, begin_packet(), status, 3000);
    good_request(t0, begin_packet(), value, 3000);
    refused_request(u, mebibyte_packet(), status, 3000);
    assert(demand(
        u,
        t1,
        mebibyte_packet(),
        3000,
        true,
        Err(OdinFault::Loke(signed32(status))),
    ));
    assert(terms_settled(u, t1, true, negotiated(value), result));
    assert(request(t0, t, begin_packet(), 3000, true, Ok(value)));
}

/// No partition table is sent to a device that refuses to be sent one, and what it says to
/// the table itself decides, too.
pub proof fn refused_pit_is_not_sent(
    t0: Transcript,
    pit: Seq<u8>,
    status: u32,
    result: Result<(), OdinFault>,
)
    requires
        pit.len() <= u32::MAX,
        result == Err::<(), OdinFault>(OdinFault::Loke(signed32(status))),
    ensures
        pit_sent(
            t0,
            after_refusal(t0, Command::Pit(PitCommand::Flash), status, 3000),
            pit,
            true,
            result,
        ),
        pit_sent(
            t0,
            answered(
                after_sending(
                    after_command(
                        after_command(t0, Command::Pit(PitCommand::Flash), 3000),
                        Command::Pit(PitCommand::Slice { slice: pit.len() as u32 }),
                        3000,
                    ),
                    pit,
                    3000,
                ),
                0xffff_ffff,
                status,
                3000,
            ),
            pit,
            true,
            result,
        ),
{
    let size = pit.len() as u32;
    let flash = Command::Pit(PitCommand::Flash);
    let announce = Command::Pit(PitCommand::Slice { slice: size });
    let t1 = after_command(t0, flash, 3000);
    let t2 = after_command(t1, announce, 3000);
    let t3 = after_sending(t2, pit, 3000);
    let t4 = answered(t3, 0xffff_ffff, status, 3000);
    refused_request(t0, flash, status, 3000);
    good_command(t0, flash, 3000);
    good_command(t1, announce, 3000);
    assert(padded(pit, size as nat) =~= pit);
    assert(sent(t2, t3, padded(pit, size as nat), 3000, true, true));
    answer_is_read(t3, 0xffff_ffff, status, 3000);
    assert(pit_acknowledged(t3, t4, pit, true, result));
    assert(pit_streamed(t2, t4, pit, true, result));
    assert(pit_announced(t1, t4, pit, true, result));
}

/// Device information that is empty or longer than 1 MiB is not read.
pub proof fn odd_device_info_is_not_read(t0: Transcript, total: u32)
    requires
        total == 0 || total > 0x100000,
        total < 0x8000_0000,
    ensures
        device_info_read(
            t0,
            after_request(t0, Dump::DeviceInfo.start(), total, 3000),
            true,
            Err(OdinFault::DeviceInfoUnavailable),
        ),
{
    let t = after_request(t0, Dump::DeviceInfo.start(), total, 3000);
    good_request(t0, Dump::DeviceInfo.start(), total, 3000);
    assert(request(t0, t, Dump::DeviceInfo.start(), 3000, true, Ok(total)));
}

/// The slices from number `k` on have been sent, one after the other.
pub open spec fn after_slices(
    t: Transcript,
    plans: Seq<SlicePlan>,
    terms: SessionTerms,
    k: int,
) -> Transcript
    decreases plans.len() - k,
{
    if k >= plans.len() {
        t
    } else {
        after_slices(after_slice(t, plans[k], terms), plans, terms, k + 1)
    }
}

/// A device that takes everything is sent all slices, one after the other, and sending them
/// succeeds.
pub proof fn good_device_takes_slices(
    t0: Transcript,
    plans: Seq<SlicePlan>,
    terms: SessionTerms,
    k: int,
)
    requires
        terms.packet_size > 0,
        forall|i: int|
            0 <= i < plans.len() ==> (#[trigger] plans[i]).data.len() <= 0x8000_0000
                * terms.packet_size,
        0 <= k,
    ensures
        slices_sent(t0, after_slices(t0, plans, terms, k), plans, terms, true, k, Ok(())),
    decreases plans.len() - k,
{
    if k < plans.len() {
        let t = after_slice(t0, plans[k], terms);
        good_device_takes_slice(t0, plans[k], terms, Ok(()));
        good_device_takes_slices(t, plans, terms, k + 1);
    }
}

/// The length of a file is shown before anything is sent of it.
pub proof fn length_is_shown_first(
    t0: Transcript,
    t1: Transcript,
    len: u64,
    plans: Seq<SlicePlan>,
    terms: SessionTerms,
    skip_empty: bool,
    result: Result<(), OdinFault>,
)
    requires
        file_sent(t0, t1, len, plans, terms, skip_empty, result),
    ensures
        t1.len() > t0.len(),
        t1[t0.len() as int] == (UsbEvent::LengthShown { bytes: len }),
{
    let shown = t0.push(UsbEvent::LengthShown { bytes: len });
    slices_grow(shown, t1, plans, terms, skip_empty, 0, result);
    assert(t1[t0.len() as int] == shown[t0.len() as int]);
}

/// `size` bytes, `data`, have come where an answer was awaited.
pub open spec fn after_receiving(
    t: Transcript,
    size: i32,
    data: Seq<u8>,
    timeout: i32,
) -> Transcript {
    t.push(UsbEvent::Received { capacity: 8, timeout, retry: true, size, data })
}

/// One empty packet before an answer is passed over; a second one is an answer that cannot
/// be read. An answer that does not come is a failure, after an empty packet too.
pub proof fn empty_packet_is_passed_over_once(
    t: Transcript,
    number: u32,
    value: u32,
    timeout: i32,
    size: i32,
)
    requires
        size < 0,
    ensures
        ({
            let empty = after_receiving(t, 0, Seq::empty(), timeout);
            &&& response_read(
                t,
                answered(empty, number, value, timeout),
                timeout,
                Ok((Response { response_type: number, value })),
            )
            &&& response_read(
                t,
                after_receiving(empty, 0, Seq::empty(), timeout),
                timeout,
                Err(
                    OdinFault::ParseError(
                        "Incorrect response size received - expected size = 8, received size = "@
                            + decimal(0) + "."@,
                    ),
                ),
            )
            &&& response_read(
                t,
                after_receiving(t, size, Seq::empty(), timeout),
                timeout,
                Err(OdinFault::ReceivePacketFailed),
            )
            &&& response_read(
                t,
                after_receiving(empty, size, Seq::empty(), timeout),
                timeout,
                Err(OdinFault::ReceivePacketFailed),
            )
        }),
{
    let empty = after_receiving(t, 0, Seq::empty(), timeout);
    let data = le32(number) + le32(value);
    response_round_trip(Response { response_type: number, value });
    assert(empty.len() != t.len());
    assert(received(t, empty, 8, timeout, true, 0, Seq::empty()));
    assert(received(empty, answered(empty, number, value, timeout), 8, timeout, true, 8, data));
    assert(received(
        empty,
        after_receiving(empty, 0, Seq::empty(), timeout),
        8,
        timeout,
        true,
        0,
        Seq::empty(),
    ));
    assert(received(
        t,
        after_receiving(t, size, Seq::empty(), timeout),
        8,
        timeout,
        true,
        size,
        Seq::empty(),
    ));
    assert(received(
        empty,
        after_receiving(empty, size, Seq::empty(), timeout),
        8,
        timeout,
        true,
        size,
        Seq::empty(),
    ));
}

} // verus!
