//! What is said between the host and the device, operation by operation.
//!
//! A transcript is what has happened on a connection. The relations below hold of the
//! transcript before an operation, the transcript after it, and what the operation came
//! to: they say what the host sends, in which order, and how it takes each answer.

use vstd::prelude::*;

use crate::bytes::signed32;
use crate::odin::error::OdinFault;
use crate::odin::protocol::{
    bad_size_message, padded, Command, DeviceInfoCommand, PitCommand, Response,
    SessionCommand, CMD_PIT, STATUS_FAIL, STREAMING_CHUNK_ACK,
};
use crate::odin::usb::UsbEvent;

verus! {

/// What has happened on a connection.
pub type Transcript = Seq<UsbEvent>;

/// `data` was sent.
pub open spec fn sent(
    t0: Transcript,
    t1: Transcript,
    data: Seq<u8>,
    timeout: i32,
    retry: bool,
    ok: bool,
) -> bool {
    t1 == t0.push(UsbEvent::Sent { data, timeout, retry, ok })
}

/// `data` was received, `size` bytes of `capacity`.
pub open spec fn received(
    t0: Transcript,
    t1: Transcript,
    capacity: nat,
    timeout: i32,
    retry: bool,
    size: i32,
    data: Seq<u8>,
) -> bool {
    t1 == t0.push(UsbEvent::Received { capacity, timeout, retry, size, data })
}

/// A command was sent. An empty packet follows it, unless the device wants none or the
/// command could not be sent.
pub open spec fn command_sent(
    t0: Transcript,
    t1: Transcript,
    cmd: Command,
    timeout: i32,
    skip_empty: bool,
    ok: bool,
) -> bool {
    if !ok || skip_empty {
        sent(t0, t1, cmd.packet(), timeout, true, ok)
    } else {
        exists|t: Transcript, empty_ok: bool| #[trigger]
            sent(t, t1, Seq::empty(), 100, false, empty_ok) && sent(
                t0,
                t,
                cmd.packet(),
                timeout,
                true,
                true,
            )
    }
}

/// What an answer of `size` bytes comes to.
pub open spec fn read_result(size: i32, data: Seq<u8>) -> Result<Response, OdinFault> {
    if size < 0 {
        Err(OdinFault::ReceivePacketFailed)
    } else if data.len() != 8 {
        Err(OdinFault::ParseError(bad_size_message(data.len())))
    } else {
        Ok(Response::of(data))
    }
}

/// An answer was read. An empty packet is passed over, once.
pub open spec fn response_read(
    t0: Transcript,
    t1: Transcript,
    timeout: i32,
    result: Result<Response, OdinFault>,
) -> bool {
    exists|t: Transcript, size: i32, data: Seq<u8>| #[trigger]
        received(t, t1, 8, timeout, true, size, data) && result == read_result(size, data) && if t
            == t0 {
            size != 0
        } else {
            received(t0, t, 8, timeout, true, 0, Seq::empty())
        }
}

/// What an answer to the command `opcode` comes to.
pub open spec fn accepted(opcode: u32, response: Result<Response, OdinFault>) -> Result<
    u32,
    OdinFault,
> {
    match response {
        Err(fault) => Err(fault),
        Ok(response) => if response.response_type == STATUS_FAIL {
            Err(OdinFault::Loke(signed32(response.value)))
        } else if response.response_type != opcode {
            Err(
                OdinFault::ResponseTypeMismatch {
                    expected: opcode,
                    received: response.response_type,
                },
            )
        } else if signed32(response.value) < 0 {
            Err(OdinFault::Loke(signed32(response.value)))
        } else {
            Ok(response.value)
        },
    }
}

/// A command was sent and answered.
pub open spec fn request(
    t0: Transcript,
    t1: Transcript,
    cmd: Command,
    timeout: i32,
    skip_empty: bool,
    result: Result<u32, OdinFault>,
) -> bool {
    ||| command_sent(t0, t1, cmd, timeout, skip_empty, false) && result == Err::<u32, OdinFault>(
        OdinFault::SendCommandFailed,
    )
    ||| exists|t: Transcript, response: Result<Response, OdinFault>| #[trigger]
        response_read(t, t1, timeout, response) && command_sent(
            t0,
            t,
            cmd,
            timeout,
            skip_empty,
            true,
        ) && result == accepted(cmd.opcode(), response)
}

/// What an answer comes to where only zero is good.
pub open spec fn zero_only(result: Result<u32, OdinFault>) -> Result<(), OdinFault> {
    match result {
        Err(fault) => Err(fault),
        Ok(value) => if value == 0 {
            Ok(())
        } else {
            Err(OdinFault::Loke(signed32(value)))
        },
    }
}

/// A command was sent that the device has to answer with zero.
pub open spec fn demand(
    t0: Transcript,
    t1: Transcript,
    cmd: Command,
    timeout: i32,
    skip_empty: bool,
    result: Result<(), OdinFault>,
) -> bool {
    exists|value: Result<u32, OdinFault>| #[trigger]
        request(t0, t1, cmd, timeout, skip_empty, value) && result == zero_only(value)
}

/// What is agreed on when a session begins.
#[derive(Debug, Clone, Copy, PartialEq, Eq)]
pub struct SessionTerms {
    /// Length of a chunk.
    pub packet_size: usize,
    /// Milliseconds that the device may take over a chunk or a commit.
    pub slice_timeout: u32,
    /// Whether the device takes compressed slices.
    pub lz4_supported: bool,
    /// Version of the protocol that the device speaks.
    pub bootloader_protocol_version: u32,
}

/// Version of the protocol of a device that answers `value`.
pub open spec fn protocol_version(value: u32) -> u32 {
    if value == 0 {
        1
    } else {
        value / 0x10000
    }
}

/// What is agreed on with a device that answers `value`.
pub open spec fn negotiated(value: u32) -> SessionTerms {
    let version = protocol_version(value);
    if version >= 2 {
        SessionTerms {
            packet_size: 0x100000,
            slice_timeout: 120000,
            lz4_supported: value / 0x8000 % 2 == 1,
            bootloader_protocol_version: version,
        }
    } else {
        SessionTerms {
            packet_size: 0x20000,
            slice_timeout: 30000,
            lz4_supported: false,
            bootloader_protocol_version: version,
        }
    }
}

/// A session was begun. Devices from version 2 on are told the length of a chunk.
pub open spec fn begun(
    t0: Transcript,
    t1: Transcript,
    skip_empty: bool,
    result: Result<SessionTerms, OdinFault>,
) -> bool {
    exists|t: Transcript, value: Result<u32, OdinFault>| #[trigger]
        request(
            t0,
            t,
            Command::Session(SessionCommand::Begin { protocol_version: 5 }),
            3000,
            skip_empty,
            value,
        ) && match value {
            Err(fault) => t1 == t && result == Err::<SessionTerms, OdinFault>(fault),
            Ok(value) => terms_settled(
                t.push(UsbEvent::Waited { millis: 3000 }),
                t1,
                skip_empty,
                negotiated(value),
                result,
            ),
        }
}

/// The device was told the length of a chunk, where it can be told.
pub open spec fn terms_settled(
    t0: Transcript,
    t1: Transcript,
    skip_empty: bool,
    terms: SessionTerms,
    result: Result<SessionTerms, OdinFault>,
) -> bool {
    if terms.bootloader_protocol_version >= 2 {
        exists|answer: Result<(), OdinFault>| #[trigger]
            demand(
                t0,
                t1,
                Command::Session(SessionCommand::PacketSize { size: terms.packet_size as u32 }),
                3000,
                skip_empty,
                answer,
            ) && result == match answer {
                Ok(()) => Ok(terms),
                Err(fault) => Err(fault),
            }
    } else {
        t1 == t0 && result == Ok::<SessionTerms, OdinFault>(terms)
    }
}

/// The device was told to reboot. Whether it heard is not asked; what it may still say is
/// read.
pub open spec fn rebooted(
    t0: Transcript,
    t1: Transcript,
    cmd: Command,
    skip_empty: bool,
) -> bool {
    exists|t: Transcript, ok: bool, size: i32, data: Seq<u8>|
        #[trigger] command_sent(t0, t, cmd, 500, skip_empty, ok) && #[trigger] received(
            t,
            t1,
            64,
            100,
            false,
            size,
            data,
        )
}

/// What the answer to a partition table comes to.
pub open spec fn pit_taken(response: Result<Response, OdinFault>) -> Result<(), OdinFault> {
    match response {
        Err(fault) => Err(fault),
        Ok(response) => if response.response_type == STATUS_FAIL {
            Err(OdinFault::Loke(signed32(response.value)))
        } else if response.response_type != STREAMING_CHUNK_ACK && response.response_type
            != CMD_PIT {
            Err(
                OdinFault::ResponseTypeMismatch {
                    expected: CMD_PIT,
                    received: response.response_type,
                },
            )
        } else if signed32(response.value) < 0 {
            Err(OdinFault::Loke(signed32(response.value)))
        } else {
            Ok(())
        },
    }
}

/// A partition table was sent: the transfer is started, the length announced, the table
/// sent and acknowledged, and the transfer ended.
pub open spec fn pit_sent(
    t0: Transcript,
    t1: Transcript,
    pit: Seq<u8>,
    skip_empty: bool,
    result: Result<(), OdinFault>,
) -> bool {
    exists|t: Transcript, answer: Result<(), OdinFault>| #[trigger]
        demand(t0, t, Command::Pit(PitCommand::Flash), 3000, skip_empty, answer) && match answer {
            Err(fault) => t1 == t && result == Err::<(), OdinFault>(fault),
            Ok(()) => pit_announced(t, t1, pit, skip_empty, result),
        }
}

/// The rest of sending a partition table, from announcing its length on.
pub open spec fn pit_announced(
    t0: Transcript,
    t1: Transcript,
    pit: Seq<u8>,
    skip_empty: bool,
    result: Result<(), OdinFault>,
) -> bool {
    exists|t: Transcript, answer: Result<(), OdinFault>| #[trigger]
        demand(
            t0,
            t,
            Command::Pit(PitCommand::Slice { slice: pit.len() as u32 }),
            3000,
            skip_empty,
            answer,
        ) && match answer {
            Err(fault) => t1 == t && result == Err::<(), OdinFault>(fault),
            Ok(()) => pit_streamed(t, t1, pit, skip_empty, result),
        }
}

/// The rest of sending a partition table, from the table itself on.
pub open spec fn pit_streamed(
    t0: Transcript,
    t1: Transcript,
    pit: Seq<u8>,
    skip_empty: bool,
    result: Result<(), OdinFault>,
) -> bool {
    exists|t: Transcript, ok: bool| #[trigger]
        sent(t0, t, padded(pit, (pit.len() as u32) as nat), 3000, true, ok) && if !ok {
            t1 == t && result == Err::<(), OdinFault>(OdinFault::SendCommandFailed)
        } else {
            pit_acknowledged(t, t1, pit, skip_empty, result)
        }
}

/// The rest of sending a partition table, from the answer to it on.
pub open spec fn pit_acknowledged(
    t0: Transcript,
    t1: Transcript,
    pit: Seq<u8>,
    skip_empty: bool,
    result: Result<(), OdinFault>,
) -> bool {
    exists|t: Transcript, response: Result<Response, OdinFault>| #[trigger]
        response_read(t0, t, 3000, response) && match pit_taken(response) {
            Err(fault) => t1 == t && result == Err::<(), OdinFault>(fault),
            Ok(()) => demand(
                t,
                t1,
                Command::Pit(PitCommand::End { size: pit.len() as u32 }),
                3000,
                skip_empty,
                result,
            ),
        }
}

/// What is read from the device in parts.
pub enum Dump {
    /// The partition table.
    Pit,
    /// The device information.
    DeviceInfo,
}

impl Dump {
    /// Starts the transfer.
    pub open spec fn start(self) -> Command {
        match self {
            Dump::Pit => Command::Pit(PitCommand::Dump),
            Dump::DeviceInfo => Command::DeviceInfo(DeviceInfoCommand::Dump),
        }
    }

    /// Asks for a part.
    pub open spec fn part(self, slice: u32) -> Command {
        match self {
            Dump::Pit => Command::Pit(PitCommand::Slice { slice }),
            Dump::DeviceInfo => Command::DeviceInfo(DeviceInfoCommand::Slice { slice }),
        }
    }

    /// Ends the transfer.
    pub open spec fn end(self) -> Command {
        match self {
            Dump::Pit => Command::Pit(PitCommand::End { size: 0 }),
            Dump::DeviceInfo => Command::DeviceInfo(DeviceInfoCommand::End),
        }
    }

    /// Whether reading a part is tried again on failure.
    pub open spec fn retry(self) -> bool {
        self is Pit
    }
}

/// Length of a part that is read from the device.
pub const PART_SIZE: usize = 500;

/// Number of the parts of `total` bytes.
pub open spec fn part_count(total: int) -> int {
    (total + PART_SIZE - 1) / (PART_SIZE as int)
}

/// Bytes to ask for when `got` of `total` are there.
pub open spec fn part_len(total: int, got: int) -> int {
    if total - got < PART_SIZE {
        total - got
    } else {
        PART_SIZE as int
    }
}

/// The parts from number `i` on were read, after `got`.
pub open spec fn parts_read(
    t0: Transcript,
    t1: Transcript,
    dump: Dump,
    total: int,
    skip_empty: bool,
    i: int,
    got: Seq<u8>,
    result: Result<Seq<u8>, OdinFault>,
) -> bool
    decreases part_count(total) - i,
{
    if i >= part_count(total) {
        t1 == t0 && result == Ok::<Seq<u8>, OdinFault>(got)
    } else {
        ||| command_sent(t0, t1, dump.part(i as u32), 3000, skip_empty, false) && result == Err::<
            Seq<u8>,
            OdinFault,
        >(OdinFault::SendCommandFailed)
        ||| exists|t: Transcript, u: Transcript, size: i32, data: Seq<u8>|
            command_sent(t0, t, dump.part(i as u32), 3000, skip_empty, true) && #[trigger] received(
                t,
                u,
                part_len(total, got.len() as int) as nat,
                3000,
                dump.retry(),
                size,
                data,
            ) && if size < 0 {
                t1 == u && result == Err::<Seq<u8>, OdinFault>(OdinFault::ReceivePacketFailed)
            } else {
                parts_read(u, t1, dump, total, skip_empty, i + 1, got + data, result)
            }
    }
}

/// A transfer was ended that gave `data`.
pub open spec fn dump_ended(
    t0: Transcript,
    t1: Transcript,
    dump: Dump,
    skip_empty: bool,
    data: Seq<u8>,
    result: Result<Seq<u8>, OdinFault>,
) -> bool {
    exists|answer: Result<(), OdinFault>| #[trigger]
        demand(t0, t1, dump.end(), 3000, skip_empty, answer) && result == match answer {
            Ok(()) => Ok(data),
            Err(fault) => Err(fault),
        }
}

/// The partition table was read. After the last part an empty packet is read, which some
/// devices send.
pub open spec fn pit_read(
    t0: Transcript,
    t1: Transcript,
    skip_empty: bool,
    result: Result<Seq<u8>, OdinFault>,
) -> bool {
    exists|t: Transcript, total: Result<u32, OdinFault>| #[trigger]
        request(t0, t, Dump::Pit.start(), 3000, skip_empty, total) && match total {
            Err(fault) => t1 == t && result == Err::<Seq<u8>, OdinFault>(fault),
            Ok(total) => pit_parts_read(t, t1, skip_empty, total as int, result),
        }
}

/// The rest of reading a partition table of `total` bytes.
pub open spec fn pit_parts_read(
    t0: Transcript,
    t1: Transcript,
    skip_empty: bool,
    total: int,
    result: Result<Seq<u8>, OdinFault>,
) -> bool {
    exists|t: Transcript, parts: Result<Seq<u8>, OdinFault>| #[trigger]
        parts_read(t0, t, Dump::Pit, total, skip_empty, 0, Seq::empty(), parts) && match parts {
            Err(fault) => t1 == t && result == Err::<Seq<u8>, OdinFault>(fault),
            Ok(data) => exists|u: Transcript, size: i32, rest: Seq<u8>| #[trigger]
                received(t, u, 1, 100, false, size, rest) && dump_ended(
                    u,
                    t1,
                    Dump::Pit,
                    skip_empty,
                    data,
                    result,
                ),
        }
}

/// Longest device information that is read.
pub const MAX_DEVICE_INFO: u32 = 0x100000;

/// The device information was read.
pub open spec fn device_info_read(
    t0: Transcript,
    t1: Transcript,
    skip_empty: bool,
    result: Result<Seq<u8>, OdinFault>,
) -> bool {
    exists|t: Transcript, total: Result<u32, OdinFault>| #[trigger]
        request(t0, t, Dump::DeviceInfo.start(), 3000, skip_empty, total) && match total {
            Err(fault) => t1 == t && result == Err::<Seq<u8>, OdinFault>(fault),
            Ok(total) => if total == 0 || total > MAX_DEVICE_INFO {
                t1 == t && result == Err::<Seq<u8>, OdinFault>(OdinFault::DeviceInfoUnavailable)
            } else {
                exists|u: Transcript, parts: Result<Seq<u8>, OdinFault>| #[trigger]
                    parts_read(
                        t,
                        u,
                        Dump::DeviceInfo,
                        total as int,
                        skip_empty,
                        0,
                        Seq::empty(),
                        parts,
                    ) && match parts {
                        Err(fault) => t1 == u && result == Err::<Seq<u8>, OdinFault>(fault),
                        Ok(data) => dump_ended(
                            u,
                            t1,
                            Dump::DeviceInfo,
                            skip_empty,
                            data,
                            result,
                        ),
                    }
            },
        }
}

/// Bytes are read in as many parts of 500 bytes as are needed, and no more.
pub proof fn parts_hold_all(total: int)
    requires
        0 <= total,
    ensures
        total <= part_count(total) * 500,
        total > (part_count(total) - 1) * 500,
{
}

/// A part is 500 bytes long, or what is left.
pub proof fn part_is_rest_or_full(total: int, got: int)
    requires
        got <= total,
    ensures
        part_len(total, got) <= 500,
        part_len(total, got) <= total - got,
        part_len(total, got) == 500 || part_len(total, got) == total - got,
{
}

/// Which answers to a command are good: those with the number of the command and a value
/// that is no negative number. A failure that the device reports, or a negative value, is
/// reported with its status, and an answer to another command with both numbers.
pub proof fn good_answers(opcode: u32, response: Response)
    ensures
        ({
            let result = accepted(opcode, Ok(response));
            &&& response.response_type == 0xffff_ffff ==> result == Err::<u32, OdinFault>(
                OdinFault::Loke(signed32(response.value)),
            )
            &&& response.response_type != 0xffff_ffff && response.response_type != opcode ==> result
                == Err::<u32, OdinFault>(
                OdinFault::ResponseTypeMismatch {
                    expected: opcode,
                    received: response.response_type,
                },
            )
            &&& response.response_type == opcode && opcode != 0xffff_ffff && response.value >= 0x8000_0000
                ==> result == Err::<u32, OdinFault>(OdinFault::Loke(signed32(response.value)))
            &&& response.response_type == opcode && opcode != 0xffff_ffff && response.value < 0x8000_0000
                ==> result == Ok::<u32, OdinFault>(response.value)
        }),
{
}

/// Where only zero is good, zero is good, and any other value is reported as a status.
pub proof fn only_zero_is_good(value: u32)
    ensures
        value == 0 ==> zero_only(Ok(value)) == Ok::<(), OdinFault>(()),
        value != 0 ==> zero_only(Ok(value)) == Err::<(), OdinFault>(
            OdinFault::Loke(signed32(value)),
        ),
{
}

/// Which answers to a partition table are good: those as to a chunk or to a partition table
/// command, with a value that is no negative number.
pub proof fn good_answers_to_pit(response: Response)
    ensures
        pit_taken(Ok(response)) is Ok <==> (response.response_type == 0 || response.response_type
            == 0x65) && response.value < 0x8000_0000,
        response.response_type == 0xffff_ffff ==> pit_taken(Ok(response)) == Err::<(), OdinFault>(
            OdinFault::Loke(signed32(response.value)),
        ),
        response.response_type != 0xffff_ffff && response.response_type != 0
            && response.response_type != 0x65 ==> pit_taken(Ok(response)) == Err::<(), OdinFault>(
            OdinFault::ResponseTypeMismatch { expected: 0x65, received: response.response_type },
        ),
{
}

} // verus!
