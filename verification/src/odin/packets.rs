//! What the packets of the protocol promise: every command has a packet of its own, and
//! what is written can be read back.

use vstd::prelude::*;

use crate::bytes::{le32, le32_round_trip, u32_at, zeros};
use crate::odin::pit::{BinaryType, DeviceType, PitEntry};
use crate::odin::protocol::{
    announced_len, words_bytes, CloseConnectionCommand, Command, DeviceInfoCommand,
    DynamicPartitionCommand, PitCommand, Response, SessionCommand, SliceCommit, TransmitCommand,
    CMD_CLOSE_CONNECTION, CMD_DDP, CMD_DEVINFO, CMD_PIT, CMD_SESSION_INIT, CMD_TRANSMIT,
    COMMAND_LEN,
};

verus! {

proof fn words_bytes_len(words: Seq<u32>)
    ensures
        words_bytes(words).len() == 4 * words.len(),
    decreases words.len(),
{
    if words.len() > 0 {
        words_bytes_len(words.drop_last());
    }
}

/// Every word of a packet can be read back.
proof fn word_at(words: Seq<u32>, tail: Seq<u8>, i: int)
    requires
        0 <= i < words.len(),
    ensures
        u32_at(words_bytes(words) + tail, 4 * i) == words[i],
    decreases words.len(),
{
    let init = words.drop_last();
    words_bytes_len(words);
    words_bytes_len(init);
    let all = words_bytes(words) + tail;
    if i < words.len() - 1 {
        word_at(init, le32(words.last()) + tail, i);
        assert(all =~= words_bytes(init) + (le32(words.last()) + tail));
        assert(init[i] == words[i]);
    } else {
        let last = le32(words.last());
        le32_round_trip(words.last());
        assert(all[4 * i] == last[0] && all[4 * i + 1] == last[1] && all[4 * i + 2] == last[2]
            && all[4 * i + 3] == last[3]);
    }
}

/// A packet is 1024 bytes long and starts with the number of the command, which is
/// also the number of the answer to it.
pub proof fn packet_starts_with_opcode(cmd: Command)
    ensures
        cmd.packet().len() == COMMAND_LEN,
        u32_at(cmd.packet(), 0) == cmd.opcode(),
{
    words_bytes_len(cmd.words());
    word_at(cmd.words(), zeros((COMMAND_LEN - 4 * cmd.words().len()) as nat), 0);
}

/// The `i`-th word of a packet.
spec fn packet_word(cmd: Command, i: int) -> u32 {
    if i < cmd.words().len() {
        cmd.words()[i]
    } else {
        0
    }
}

proof fn packet_words(cmd: Command, i: int)
    requires
        0 <= i < 9,
    ensures
        u32_at(cmd.packet(), 4 * i) == packet_word(cmd, i),
{
    let tail = zeros((COMMAND_LEN - 4 * cmd.words().len()) as nat);
    words_bytes_len(cmd.words());
    if i < cmd.words().len() {
        word_at(cmd.words(), tail, i);
    } else {
        let n = words_bytes(cmd.words()).len() as int;
        assert(cmd.packet()[4 * i] == tail[4 * i - n]);
        assert(cmd.packet()[4 * i + 1] == tail[4 * i + 1 - n]);
        assert(cmd.packet()[4 * i + 2] == tail[4 * i + 2 - n]);
        assert(cmd.packet()[4 * i + 3] == tail[4 * i + 3 - n]);
    }
}

/// The words of a commit in nine places, after the first two words of the command.
spec fn commit_row(opcode: u32, sub: u32, commit: SliceCommit) -> (
    u32,
    u32,
    u32,
    u32,
    u32,
    u32,
    u32,
    u32,
    u32,
) {
    match commit {
        SliceCommit::Unified {
            slice_size,
            binary_type,
            device_type,
            partition_id,
            is_end_of_file,
        } => (
            opcode,
            sub,
            0,
            slice_size,
            binary_type.spec_code(),
            device_type.spec_code(),
            partition_id,
            is_end_of_file,
            0,
        ),
        SliceCommit::LegacyModem {
            slice_size,
            binary_type,
            device_type,
            is_end_of_file,
            reserved,
            partition_id,
        } => (
            opcode,
            sub,
            1,
            slice_size,
            binary_type.spec_code(),
            device_type.spec_code(),
            is_end_of_file,
            reserved,
            partition_id,
        ),
    }
}

/// The words of a command in nine places.
spec fn row(cmd: Command) -> (u32, u32, u32, u32, u32, u32, u32, u32, u32) {
    match cmd {
        Command::Session(SessionCommand::Begin { protocol_version }) => (
            CMD_SESSION_INIT,
            0,
            protocol_version,
            0,
            0,
            0,
            0,
            0,
            0,
        ),
        Command::Session(SessionCommand::TotalBytes { total_bytes }) => (
            CMD_SESSION_INIT,
            2,
            (total_bytes % 0x1_0000_0000) as u32,
            (total_bytes / 0x1_0000_0000) as u32,
            0,
            0,
            0,
            0,
            0,
        ),
        Command::Session(SessionCommand::PacketSize { size }) => (
            CMD_SESSION_INIT,
            5,
            size,
            0,
            0,
            0,
            0,
            0,
            0,
        ),
        Command::Session(SessionCommand::NandErase) => (CMD_SESSION_INIT, 7, 0, 0, 0, 0, 0, 0, 0),
        Command::Session(SessionCommand::SalesCode { c0, c1, c2 }) => (
            CMD_SESSION_INIT,
            9,
            c0,
            c1,
            c2,
            0,
            0,
            0,
            0,
        ),
        Command::Pit(PitCommand::Flash) => (CMD_PIT, 0, 0, 0, 0, 0, 0, 0, 0),
        Command::Pit(PitCommand::Dump) => (CMD_PIT, 1, 0, 0, 0, 0, 0, 0, 0),
        Command::Pit(PitCommand::Slice { slice }) => (CMD_PIT, 2, slice, 0, 0, 0, 0, 0, 0),
        Command::Pit(PitCommand::End { size }) => (CMD_PIT, 3, size, 0, 0, 0, 0, 0, 0),
        Command::Transmit(TransmitCommand::Flash) => (CMD_TRANSMIT, 0, 0, 0, 0, 0, 0, 0, 0),
        Command::Transmit(TransmitCommand::Slice { slice_byte_count }) => (
            CMD_TRANSMIT,
            2,
            slice_byte_count,
            0,
            0,
            0,
            0,
            0,
            0,
        ),
        Command::Transmit(TransmitCommand::End(commit)) => commit_row(CMD_TRANSMIT, 3, commit),
        Command::Transmit(TransmitCommand::Lz4Flash) => (CMD_TRANSMIT, 5, 0, 0, 0, 0, 0, 0, 0),
        Command::Transmit(TransmitCommand::Lz4Slice { compressed_size, uncompressed_size }) => (
            CMD_TRANSMIT,
            6,
            compressed_size,
            uncompressed_size,
            0,
            0,
            0,
            0,
            0,
        ),
        Command::Transmit(TransmitCommand::Lz4End(commit)) => commit_row(CMD_TRANSMIT, 7, commit),
        Command::CloseConnection(CloseConnectionCommand::Close) => (
            CMD_CLOSE_CONNECTION,
            0,
            0,
            0,
            0,
            0,
            0,
            0,
            0,
        ),
        Command::CloseConnection(CloseConnectionCommand::RebootDevice) => (
            CMD_CLOSE_CONNECTION,
            1,
            0,
            0,
            0,
            0,
            0,
            0,
            0,
        ),
        Command::CloseConnection(CloseConnectionCommand::RebootDownload) => (
            CMD_CLOSE_CONNECTION,
            2,
            0,
            0,
            0,
            0,
            0,
            0,
            0,
        ),
        Command::DeviceInfo(DeviceInfoCommand::Dump) => (CMD_DEVINFO, 0, 0, 0, 0, 0, 0, 0, 0),
        Command::DeviceInfo(DeviceInfoCommand::Slice { slice }) => (
            CMD_DEVINFO,
            1,
            slice,
            0,
            0,
            0,
            0,
            0,
            0,
        ),
        Command::DeviceInfo(DeviceInfoCommand::End) => (CMD_DEVINFO, 2, 0, 0, 0, 0, 0, 0, 0),
        Command::DynamicPartition(
            DynamicPartitionCommand::CheckSuperSize { super_used_size },
        ) => (CMD_DDP, 0, super_used_size, 0, 0, 0, 0, 0, 0),
    }
}

/// The nine places are the words of the packet.
proof fn row_of_packet(cmd: Command)
    ensures
        row(cmd) == (
            packet_word(cmd, 0),
            packet_word(cmd, 1),
            packet_word(cmd, 2),
            packet_word(cmd, 3),
            packet_word(cmd, 4),
            packet_word(cmd, 5),
            packet_word(cmd, 6),
            packet_word(cmd, 7),
            packet_word(cmd, 8),
        ),
{
}

proof fn session_rows_differ(a: SessionCommand, b: SessionCommand)
    requires
        row(Command::Session(a)) == row(Command::Session(b)),
    ensures
        a == b,
{
    match a {
        SessionCommand::Begin { .. } => {},
        SessionCommand::TotalBytes { .. } => {
            assert(b is TotalBytes);
        },
        SessionCommand::PacketSize { .. } => {},
        SessionCommand::NandErase => {},
        SessionCommand::SalesCode { .. } => {},
    }
}

proof fn commit_rows_differ(opcode: u32, sub: u32, a: SliceCommit, b: SliceCommit)
    requires
        commit_row(opcode, sub, a) == commit_row(opcode, sub, b),
    ensures
        a == b,
{
    assert(a is Unified <==> b is Unified);
}

proof fn transmit_rows_differ(a: TransmitCommand, b: TransmitCommand)
    requires
        row(Command::Transmit(a)) == row(Command::Transmit(b)),
    ensures
        a == b,
{
    match a {
        TransmitCommand::Flash => {},
        TransmitCommand::Slice { .. } => {},
        TransmitCommand::End(commit) => {
            assert(b is End);
            commit_rows_differ(CMD_TRANSMIT, 3, commit, b->End_0);
        },
        TransmitCommand::Lz4Flash => {},
        TransmitCommand::Lz4Slice { .. } => {},
        TransmitCommand::Lz4End(commit) => {
            assert(b is Lz4End);
            commit_rows_differ(CMD_TRANSMIT, 7, commit, b->Lz4End_0);
        },
    }
}

proof fn row_starts_with_opcode(cmd: Command)
    ensures
        row(cmd).0 == cmd.opcode(),
{
}

/// No two commands have the same words.
proof fn rows_differ(a: Command, b: Command)
    requires
        row(a) == row(b),
    ensures
        a == b,
{
    row_starts_with_opcode(a);
    row_starts_with_opcode(b);
    match a {
        Command::Session(x) => {
            assert(b is Session);
            session_rows_differ(x, b->Session_0);
        },
        Command::Pit(x) => {
            assert(b is Pit);
            pit_rows_differ(x, b->Pit_0);
        },
        Command::Transmit(x) => {
            assert(b is Transmit);
            transmit_rows_differ(x, b->Transmit_0);
        },
        Command::CloseConnection(x) => {
            assert(b is CloseConnection);
            close_rows_differ(x, b->CloseConnection_0);
        },
        Command::DeviceInfo(x) => {
            assert(b is DeviceInfo);
            device_info_rows_differ(x, b->DeviceInfo_0);
        },
        Command::DynamicPartition(x) => {
            assert(b is DynamicPartition);
            dynamic_rows_differ(x, b->DynamicPartition_0);
        },
    }
}

proof fn pit_rows_differ(a: PitCommand, b: PitCommand)
    requires
        row(Command::Pit(a)) == row(Command::Pit(b)),
    ensures
        a == b,
{
}

proof fn close_rows_differ(a: CloseConnectionCommand, b: CloseConnectionCommand)
    requires
        row(Command::CloseConnection(a)) == row(Command::CloseConnection(b)),
    ensures
        a == b,
{
}

proof fn device_info_rows_differ(a: DeviceInfoCommand, b: DeviceInfoCommand)
    requires
        row(Command::DeviceInfo(a)) == row(Command::DeviceInfo(b)),
    ensures
        a == b,
{
}

proof fn dynamic_rows_differ(a: DynamicPartitionCommand, b: DynamicPartitionCommand)
    requires
        row(Command::DynamicPartition(a)) == row(Command::DynamicPartition(b)),
    ensures
        a == b,
{
}

/// The device can tell commands apart: no two commands have the same packet.
pub proof fn packets_differ(a: Command, b: Command)
    requires
        a.packet() == b.packet(),
    ensures
        a == b,
{
    assert forall|i: int| 0 <= i < 9 implies #[trigger] packet_word(a, i) == packet_word(b, i) by {
        packet_words(a, i);
        packet_words(b, i);
    }
    row_of_packet(a);
    row_of_packet(b);
    rows_differ(a, b);
}

/// The announced length of a slice is a multiple of 128 KiB, at least the length of the
/// slice and less than 128 KiB more. Lengths whose multiple is no 32-bit number are
/// left out.
pub proof fn announced_len_is_aligned(n: u32)
    requires
        n <= 0xFFFE_0000,
    ensures
        announced_len(n) % 0x20000 == 0,
        n <= announced_len(n) < n + 0x20000,
        n % 0x20000 == 0 ==> announced_len(n) == n,
{
}

/// An answer that the device writes is the answer that is read.
pub proof fn response_round_trip(response: Response)
    ensures
        (le32(response.response_type) + le32(response.value)).len() == Response::SIZE,
        Response::of(le32(response.response_type) + le32(response.value)) == response,
{
    let a = le32(response.response_type);
    let b = le32(response.value);
    le32_round_trip(response.response_type);
    le32_round_trip(response.value);
    assert((a + b)[4] == b[0] && (a + b)[5] == b[1] && (a + b)[6] == b[2] && (a + b)[7] == b[3]);
    assert((a + b)[0] == a[0] && (a + b)[1] == a[1] && (a + b)[2] == a[2] && (a + b)[3] == a[3]);
}

/// `packet` is 1024 bytes long and holds `words`, and nothing but zeros behind them.
pub open spec fn holds_words(packet: Seq<u8>, words: Seq<u32>) -> bool {
    &&& packet.len() == 1024
    &&& 4 * words.len() <= 1024
    &&& forall|i: int| 0 <= i < words.len() ==> u32_at(packet, 4 * i) == #[trigger] words[i]
    &&& forall|i: int| 4 * words.len() <= i < 1024 ==> #[trigger] packet[i] == 0
}

proof fn packet_holds_words(cmd: Command)
    ensures
        holds_words(cmd.packet(), cmd.words()),
{
    let tail = zeros((COMMAND_LEN - 4 * cmd.words().len()) as nat);
    words_bytes_len(cmd.words());
    assert forall|i: int| 0 <= i < cmd.words().len() implies u32_at(cmd.packet(), 4 * i)
        == #[trigger] cmd.words()[i] by {
        word_at(cmd.words(), tail, i);
    }
}

/// What the device reads of each command: the number of the command, that of what it is to
/// do, and what that needs. A 64-bit number is two words, the low one first.
pub proof fn packet_layout(cmd: Command)
    ensures
        match cmd {
            Command::Session(SessionCommand::Begin { protocol_version }) => holds_words(
                cmd.packet(),
                seq![0x64, 0, protocol_version],
            ),
            Command::Session(SessionCommand::TotalBytes { total_bytes }) => {
                &&& u32_at(cmd.packet(), 0) == 0x64
                &&& u32_at(cmd.packet(), 4) == 2
                &&& u32_at(cmd.packet(), 8) + 0x1_0000_0000 * u32_at(cmd.packet(), 12)
                    == total_bytes
            },
            Command::Session(SessionCommand::PacketSize { size }) => holds_words(
                cmd.packet(),
                seq![0x64, 5, size],
            ),
            Command::Session(SessionCommand::NandErase) => holds_words(
                cmd.packet(),
                seq![0x64, 7],
            ),
            Command::Session(SessionCommand::SalesCode { c0, c1, c2 }) => holds_words(
                cmd.packet(),
                seq![0x64, 9, c0, c1, c2],
            ),
            Command::Pit(PitCommand::Flash) => holds_words(cmd.packet(), seq![0x65, 0]),
            Command::Pit(PitCommand::Dump) => holds_words(cmd.packet(), seq![0x65, 1]),
            Command::Pit(PitCommand::Slice { slice }) => holds_words(
                cmd.packet(),
                seq![0x65, 2, slice],
            ),
            Command::Pit(PitCommand::End { size }) => holds_words(
                cmd.packet(),
                seq![0x65, 3, size],
            ),
            Command::Transmit(TransmitCommand::Flash) => holds_words(cmd.packet(), seq![0x66, 0]),
            Command::Transmit(TransmitCommand::Slice { slice_byte_count }) => holds_words(
                cmd.packet(),
                seq![0x66, 2, slice_byte_count],
            ),
            Command::Transmit(TransmitCommand::End(_)) => u32_at(cmd.packet(), 0) == 0x66
                && u32_at(cmd.packet(), 4) == 3,
            Command::Transmit(TransmitCommand::Lz4Flash) => holds_words(
                cmd.packet(),
                seq![0x66, 5],
            ),
            Command::Transmit(
                TransmitCommand::Lz4Slice { compressed_size, uncompressed_size },
            ) => holds_words(cmd.packet(), seq![0x66, 6, compressed_size, uncompressed_size]),
            Command::Transmit(TransmitCommand::Lz4End(_)) => u32_at(cmd.packet(), 0) == 0x66
                && u32_at(cmd.packet(), 4) == 7,
            Command::CloseConnection(CloseConnectionCommand::Close) => holds_words(
                cmd.packet(),
                seq![0x67, 0],
            ),
            Command::CloseConnection(CloseConnectionCommand::RebootDevice) => holds_words(
                cmd.packet(),
                seq![0x67, 1],
            ),
            Command::CloseConnection(CloseConnectionCommand::RebootDownload) => holds_words(
                cmd.packet(),
                seq![0x67, 2],
            ),
            Command::DeviceInfo(DeviceInfoCommand::Dump) => holds_words(
                cmd.packet(),
                seq![0x69, 0],
            ),
            Command::DeviceInfo(DeviceInfoCommand::Slice { slice }) => holds_words(
                cmd.packet(),
                seq![0x69, 1, slice],
            ),
            Command::DeviceInfo(DeviceInfoCommand::End) => holds_words(
                cmd.packet(),
                seq![0x69, 2],
            ),
            Command::DynamicPartition(
                DynamicPartitionCommand::CheckSuperSize { super_used_size },
            ) => holds_words(cmd.packet(), seq![0x6a, 0, super_used_size]),
        },
        cmd.opcode() == u32_at(cmd.packet(), 0),
{
    packet_holds_words(cmd);
    packet_starts_with_opcode(cmd);
    match cmd {
        Command::Transmit(TransmitCommand::End(_)) => {
            packet_words(cmd, 1);
        },
        Command::Transmit(TransmitCommand::Lz4End(_)) => {
            packet_words(cmd, 1);
        },
        Command::Session(SessionCommand::TotalBytes { total_bytes }) => {
            packet_words(cmd, 1);
            packet_words(cmd, 2);
            packet_words(cmd, 3);
        },
        _ => {},
    }
}

/// What the device reads of the commit of a slice. From protocol version 3 on, and for
/// partitions of the application processor before that, the layout is the same: the length
/// of the slice, the processor, the storage and the number of the partition, and whether
/// the file ends. A modem partition before version 3 has its number at the end. A
/// compressed slice differs in the second word alone.
pub proof fn commit_layout(
    size: u32,
    entry: PitEntry,
    ends_file: bool,
    lz4: bool,
    version: u32,
)
    ensures
        ({
            let packet = Command::commit(size, entry, ends_file, lz4, version).packet();
            let what: u32 = if lz4 {
                7
            } else {
                3
            };
            let end: u32 = if ends_file {
                1
            } else {
                0
            };
            let storage: u32 = match entry.device_type {
                DeviceType::OneNand => 0,
                DeviceType::File => 1,
                DeviceType::MMC => 2,
                DeviceType::All => 3,
                DeviceType::UFS => 8,
            };
            match entry.binary_type {
                BinaryType::ApplicationProcessor => holds_words(
                    packet,
                    seq![0x66, what, 0, size, 0, storage, entry.partition_id, end],
                ),
                BinaryType::CommunicationProcessor => if version >= 3 {
                    holds_words(
                        packet,
                        seq![0x66, what, 0, size, 1, storage, entry.partition_id, end],
                    )
                } else {
                    holds_words(
                        packet,
                        seq![0x66, what, 1, size, 1, storage, end, 0, entry.partition_id],
                    )
                },
            }
        }),
{
    let cmd = Command::commit(size, entry, ends_file, lz4, version);
    packet_holds_words(cmd);
    let what: u32 = if lz4 {
        7
    } else {
        3
    };
    let end: u32 = if ends_file {
        1
    } else {
        0
    };
    let storage = entry.device_type.spec_code();
    match entry.binary_type {
        BinaryType::ApplicationProcessor => {
            assert(cmd.words() =~= seq![
                0x66,
                what,
                0,
                size,
                0,
                storage,
                entry.partition_id,
                end,
            ]);
        },
        BinaryType::CommunicationProcessor => if version >= 3 {
            assert(cmd.words() =~= seq![
                0x66,
                what,
                0,
                size,
                1,
                storage,
                entry.partition_id,
                end,
            ]);
        } else {
            assert(cmd.words() =~= seq![
                0x66,
                what,
                1,
                size,
                1,
                storage,
                end,
                0,
                entry.partition_id,
            ]);
        },
    }
}

/// A slice that is too long for its length to be rounded up is announced with length zero:
/// only the low 32 bits are sent.
pub proof fn announced_len_wraps(n: u32)
    requires
        n > 0xFFFE_0000,
    ensures
        announced_len(n) == 0,
{
}

} // verus!
