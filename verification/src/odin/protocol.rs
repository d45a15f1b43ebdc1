//! The packets of the download protocol.
//!
//! The host sends commands of 1024 bytes and the device answers each with eight bytes:
//! the command's number and a value. A partition is sent in slices. A slice is
//! announced, streamed in chunks of the negotiated length, and committed: only then
//! does the device write it. The device answers each chunk with its number.

use std::borrow::Cow;
use vstd::prelude::*;

use crate::bytes::{
    as_signed32, le32, put_u32, read_u32, signed32, u32_at, write_at, zero_vec, zeros,
};
use crate::odin::pit::{BinaryType, DeviceType, PitEntry};
use crate::text::{decimal, decimal_text};

verus! {

/// Number of the answer to a chunk.
pub const STREAMING_CHUNK_ACK: u32 = 0x00;

/// Number of the session commands.
pub const CMD_SESSION_INIT: u32 = 0x64;

/// Number of the partition table commands.
pub const CMD_PIT: u32 = 0x65;

/// Number of the transfer commands.
pub const CMD_TRANSMIT: u32 = 0x66;

/// Number of the commands that end a session.
pub const CMD_CLOSE_CONNECTION: u32 = 0x67;

/// Number of the device information commands.
pub const CMD_DEVINFO: u32 = 0x69;

/// Number of the dynamic partition commands.
pub const CMD_DDP: u32 = 0x6a;

/// Number of an answer that reports a failure.
pub const STATUS_FAIL: u32 = 0xFFFFFFFF;

/// Length of a command packet.
pub const COMMAND_LEN: usize = 1024;

/// A command to the device.
#[derive(Debug)]
pub enum Command {
    /// About the session.
    Session(SessionCommand),
    /// About the partition table.
    Pit(PitCommand),
    /// About a transfer.
    Transmit(TransmitCommand),
    /// About the end of the session.
    CloseConnection(CloseConnectionCommand),
    /// About the device.
    DeviceInfo(DeviceInfoCommand),
    /// About dynamic partitions.
    DynamicPartition(DynamicPartitionCommand),
}

/// Commands about the session.
#[derive(Debug)]
pub enum SessionCommand {
    /// Begins the session.
    Begin {
        /// Version of the protocol that the host speaks.
        protocol_version: u32,
    },
    /// Announces how many bytes the session will send.
    TotalBytes {
        /// The number of bytes.
        total_bytes: u64,
    },
    /// Sets the length of a chunk.
    PacketSize {
        /// The length.
        size: u32,
    },
    /// Erases user data.
    NandErase,
    /// Sets the sales code.
    SalesCode {
        /// First letter.
        c0: u32,
        /// Second letter.
        c1: u32,
        /// Third letter.
        c2: u32,
    },
}

/// Commands about the partition table.
#[derive(Debug)]
pub enum PitCommand {
    /// Starts sending a table.
    Flash,
    /// Starts reading the table.
    Dump,
    /// Asks for a part of the table, or announces its length.
    Slice {
        /// Number of the part, or length of the table.
        slice: u32,
    },
    /// Ends the transfer.
    End {
        /// Length of the table that was sent.
        size: u32,
    },
}

/// Commands about a transfer.
#[derive(Debug)]
pub enum TransmitCommand {
    /// Starts a slice.
    Flash,
    /// Announces a slice.
    Slice {
        /// Length of the slice.
        slice_byte_count: u32,
    },
    /// Commits a slice.
    End(SliceCommit),
    /// Starts a compressed slice.
    Lz4Flash,
    /// Announces a compressed slice.
    Lz4Slice {
        /// Length of the slice.
        compressed_size: u32,
        /// Length of the slice when it is decompressed.
        uncompressed_size: u32,
    },
    /// Commits a compressed slice.
    Lz4End(SliceCommit),
}

/// Where a slice goes.
#[derive(Debug, PartialEq, Eq)]
pub enum SliceCommit {
    /// The layout of all partitions from protocol version 3 on, and of those of the
    /// application processor before.
    Unified {
        /// Length of the slice.
        slice_size: u32,
        /// Processor of the partition.
        binary_type: BinaryType,
        /// Storage of the partition.
        device_type: DeviceType,
        /// Number of the partition.
        partition_id: u32,
        /// One for the last slice of a file, else zero.
        is_end_of_file: u32,
    },
    /// The layout of modem partitions before protocol version 3.
    LegacyModem {
        /// Length of the slice.
        slice_size: u32,
        /// Processor of the partition.
        binary_type: BinaryType,
        /// Storage of the partition.
        device_type: DeviceType,
        /// One for the last slice of a file, else zero.
        is_end_of_file: u32,
        /// Zero.
        reserved: u32,
        /// Number of the partition.
        partition_id: u32,
    },
}

/// Commands about the end of the session.
#[derive(Debug, PartialEq, Eq)]
pub enum CloseConnectionCommand {
    /// Ends the session.
    Close,
    /// Reboots the device.
    RebootDevice,
    /// Reboots the device into download mode.
    RebootDownload,
}

/// Commands about the device.
#[derive(Debug, PartialEq, Eq)]
pub enum DeviceInfoCommand {
    /// Starts reading the device information.
    Dump,
    /// Asks for a part of the information.
    Slice {
        /// Number of the part.
        slice: u32,
    },
    /// Ends the transfer.
    End,
}

/// Commands about dynamic partitions.
#[derive(Debug, PartialEq, Eq)]
pub enum DynamicPartitionCommand {
    /// Asks whether dynamic partitions of a given size fit.
    CheckSuperSize {
        /// The size in sectors.
        super_used_size: u32,
    },
}

/// One for `true`, zero for `false`.
pub open spec fn flag(b: bool) -> u32 {
    if b {
        1
    } else {
        0
    }
}

impl SliceCommit {
    /// The commit of a slice of the partition `pit_entry`.
    pub open spec fn of(
        slice_size: u32,
        pit_entry: PitEntry,
        is_end_of_file: bool,
        protocol_version: u32,
    ) -> SliceCommit {
        if protocol_version >= 3 || pit_entry.binary_type == BinaryType::ApplicationProcessor {
            SliceCommit::Unified {
                slice_size,
                binary_type: pit_entry.binary_type,
                device_type: pit_entry.device_type,
                partition_id: pit_entry.partition_id,
                is_end_of_file: flag(is_end_of_file),
            }
        } else {
            SliceCommit::LegacyModem {
                slice_size,
                binary_type: pit_entry.binary_type,
                device_type: pit_entry.device_type,
                is_end_of_file: flag(is_end_of_file),
                reserved: 0,
                partition_id: pit_entry.partition_id,
            }
        }
    }

    /// The commit of a slice of the partition `pit_entry`.
    pub fn new(
        slice_size: u32,
        pit_entry: &PitEntry,
        is_end_of_file: bool,
        protocol_version: u32,
    ) -> (commit: SliceCommit)
        ensures
            commit == SliceCommit::of(slice_size, *pit_entry, is_end_of_file, protocol_version),
            commit is Unified <==> protocol_version >= 3 || pit_entry.binary_type
                is ApplicationProcessor,
            commit matches SliceCommit::Unified {
                slice_size: n,
                binary_type,
                device_type,
                partition_id,
                is_end_of_file: end,
            } ==> {
                &&& n == slice_size
                &&& binary_type == pit_entry.binary_type
                &&& device_type == pit_entry.device_type
                &&& partition_id == pit_entry.partition_id
                &&& is_end_of_file ==> end == 1
                &&& !is_end_of_file ==> end == 0
            },
            commit matches SliceCommit::LegacyModem {
                slice_size: n,
                binary_type,
                device_type,
                is_end_of_file: end,
                reserved,
                partition_id,
            } ==> {
                &&& n == slice_size
                &&& binary_type == pit_entry.binary_type
                &&& device_type == pit_entry.device_type
                &&& is_end_of_file ==> end == 1
                &&& !is_end_of_file ==> end == 0
                &&& reserved == 0
                &&& partition_id == pit_entry.partition_id
            },
    {
        let is_end_of_file: u32 = if is_end_of_file {
            1
        } else {
            0
        };
        if protocol_version >= 3 || pit_entry.binary_type == BinaryType::ApplicationProcessor {
            SliceCommit::Unified {
                slice_size,
                binary_type: pit_entry.binary_type,
                device_type: pit_entry.device_type,
                partition_id: pit_entry.partition_id,
                is_end_of_file,
            }
        } else {
            SliceCommit::LegacyModem {
                slice_size,
                binary_type: pit_entry.binary_type,
                device_type: pit_entry.device_type,
                is_end_of_file,
                reserved: 0,
                partition_id: pit_entry.partition_id,
            }
        }
    }

    /// The words of the commit on the wire.
    pub open spec fn words(self) -> Seq<u32> {
        match self {
            SliceCommit::Unified {
                slice_size,
                binary_type,
                device_type,
                partition_id,
                is_end_of_file,
            } => seq![
                0,
                slice_size,
                binary_type.spec_code(),
                device_type.spec_code(),
                partition_id,
                is_end_of_file,
            ],
            SliceCommit::LegacyModem {
                slice_size,
                binary_type,
                device_type,
                is_end_of_file,
                reserved,
                partition_id,
            } => seq![
                1,
                slice_size,
                binary_type.spec_code(),
                device_type.spec_code(),
                is_end_of_file,
                reserved,
                partition_id,
            ],
        }
    }

    fn put_words(&self, out: &mut Vec<u32>)
        ensures
            final(out)@ == old(out)@ + self.words(),
    {
        match self {
            SliceCommit::Unified {
                slice_size,
                binary_type,
                device_type,
                partition_id,
                is_end_of_file,
            } => {
                out.push(0);
                out.push(*slice_size);
                out.push(binary_type.code());
                out.push(device_type.code());
                out.push(*partition_id);
                out.push(*is_end_of_file);
            },
            SliceCommit::LegacyModem {
                slice_size,
                binary_type,
                device_type,
                is_end_of_file,
                reserved,
                partition_id,
            } => {
                out.push(1);
                out.push(*slice_size);
                out.push(binary_type.code());
                out.push(device_type.code());
                out.push(*is_end_of_file);
                out.push(*reserved);
                out.push(*partition_id);
            },
        }
        assert(out@ =~= old(out)@ + self.words());
    }
}

/// The bytes of `words`, each least significant byte first.
pub open spec fn words_bytes(words: Seq<u32>) -> Seq<u8>
    decreases words.len(),
{
    if words.len() == 0 {
        Seq::empty()
    } else {
        words_bytes(words.drop_last()) + le32(words.last())
    }
}

/// The length that is announced of a slice of `n` bytes: `n`, rounded up to a multiple
/// of 128 KiB, as a 32-bit number.
pub open spec fn announced_len(n: u32) -> u32 {
    ((n + 0x1FFFF) / 0x20000 * 0x20000 % 0x1_0000_0000) as u32
}

impl Command {
    /// The words of the command on the wire. A 64-bit number is two words, the low one
    /// first.
    pub open spec fn words(self) -> Seq<u32> {
        match self {
            Command::Session(SessionCommand::Begin { protocol_version }) => seq![
                CMD_SESSION_INIT,
                0,
                protocol_version,
            ],
            Command::Session(SessionCommand::TotalBytes { total_bytes }) => seq![
                CMD_SESSION_INIT,
                2,
                (total_bytes % 0x1_0000_0000) as u32,
                (total_bytes / 0x1_0000_0000) as u32,
            ],
            Command::Session(SessionCommand::PacketSize { size }) => seq![
                CMD_SESSION_INIT,
                5,
                size,
            ],
            Command::Session(SessionCommand::NandErase) => seq![CMD_SESSION_INIT, 7],
            Command::Session(SessionCommand::SalesCode { c0, c1, c2 }) => seq![
                CMD_SESSION_INIT,
                9,
                c0,
                c1,
                c2,
            ],
            Command::Pit(PitCommand::Flash) => seq![CMD_PIT, 0],
            Command::Pit(PitCommand::Dump) => seq![CMD_PIT, 1],
            Command::Pit(PitCommand::Slice { slice }) => seq![CMD_PIT, 2, slice],
            Command::Pit(PitCommand::End { size }) => seq![CMD_PIT, 3, size],
            Command::Transmit(TransmitCommand::Flash) => seq![CMD_TRANSMIT, 0],
            Command::Transmit(TransmitCommand::Slice { slice_byte_count }) => seq![
                CMD_TRANSMIT,
                2,
                slice_byte_count,
            ],
            Command::Transmit(TransmitCommand::End(commit)) => seq![CMD_TRANSMIT, 3]
                + commit.words(),
            Command::Transmit(TransmitCommand::Lz4Flash) => seq![CMD_TRANSMIT, 5],
            Command::Transmit(
                TransmitCommand::Lz4Slice { compressed_size, uncompressed_size },
            ) => seq![CMD_TRANSMIT, 6, compressed_size, uncompressed_size],
            Command::Transmit(TransmitCommand::Lz4End(commit)) => seq![CMD_TRANSMIT, 7]
                + commit.words(),
            Command::CloseConnection(CloseConnectionCommand::Close) => seq![
                CMD_CLOSE_CONNECTION,
                0,
            ],
            Command::CloseConnection(CloseConnectionCommand::RebootDevice) => seq![
                CMD_CLOSE_CONNECTION,
                1,
            ],
            Command::CloseConnection(CloseConnectionCommand::RebootDownload) => seq![
                CMD_CLOSE_CONNECTION,
                2,
            ],
            Command::DeviceInfo(DeviceInfoCommand::Dump) => seq![CMD_DEVINFO, 0],
            Command::DeviceInfo(DeviceInfoCommand::Slice { slice }) => seq![CMD_DEVINFO, 1, slice],
            Command::DeviceInfo(DeviceInfoCommand::End) => seq![CMD_DEVINFO, 2],
            Command::DynamicPartition(
                DynamicPartitionCommand::CheckSuperSize { super_used_size },
            ) => seq![CMD_DDP, 0, super_used_size],
        }
    }

    /// The packet of the command: its words, and zeros up to the length of a packet.
    pub open spec fn packet(self) -> Seq<u8> {
        words_bytes(self.words()) + zeros((COMMAND_LEN - 4 * self.words().len()) as nat)
    }

    /// Number of the command.
    pub open spec fn opcode(self) -> u32 {
        match self {
            Command::Session(_) => CMD_SESSION_INIT,
            Command::Pit(_) => CMD_PIT,
            Command::Transmit(_) => CMD_TRANSMIT,
            Command::CloseConnection(_) => CMD_CLOSE_CONNECTION,
            Command::DeviceInfo(_) => CMD_DEVINFO,
            Command::DynamicPartition(_) => CMD_DDP,
        }
    }

    /// Begins a session.
    pub fn begin_session() -> (cmd: Command)
        ensures
            cmd == Command::Session(SessionCommand::Begin { protocol_version: 5 }),
    {
        Command::Session(SessionCommand::Begin { protocol_version: 0x05 })
    }

    /// Announces how many bytes the session will send.
    pub fn total_bytes(total_bytes: u64) -> (cmd: Command)
        ensures
            cmd == Command::Session(SessionCommand::TotalBytes { total_bytes }),
    {
        Command::Session(SessionCommand::TotalBytes { total_bytes })
    }

    /// Sets the length of a chunk.
    pub fn packet_size(size: u32) -> (cmd: Command)
        ensures
            cmd == Command::Session(SessionCommand::PacketSize { size }),
    {
        Command::Session(SessionCommand::PacketSize { size })
    }

    /// Erases user data.
    pub fn nand_erase() -> (cmd: Command)
        ensures
            cmd == Command::Session(SessionCommand::NandErase),
    {
        Command::Session(SessionCommand::NandErase)
    }

    /// Sets the sales code.
    pub fn session_sales_code(code: [u8; 3]) -> (cmd: Command)
        ensures
            cmd == Command::Session(
                (SessionCommand::SalesCode {
                    c0: code@[0] as u32,
                    c1: code@[1] as u32,
                    c2: code@[2] as u32,
                }),
            ),
    {
        Command::Session(
            SessionCommand::SalesCode {
                c0: code[0] as u32,
                c1: code[1] as u32,
                c2: code[2] as u32,
            },
        )
    }

    /// Ends the session.
    pub fn close_connection() -> (cmd: Command)
        ensures
            cmd == Command::CloseConnection(CloseConnectionCommand::Close),
    {
        Command::CloseConnection(CloseConnectionCommand::Close)
    }

    /// Reboots the device.
    pub fn reboot_device() -> (cmd: Command)
        ensures
            cmd == Command::CloseConnection(CloseConnectionCommand::RebootDevice),
    {
        Command::CloseConnection(CloseConnectionCommand::RebootDevice)
    }

    /// Reboots the device into download mode.
    pub fn reboot_to_download() -> (cmd: Command)
        ensures
            cmd == Command::CloseConnection(CloseConnectionCommand::RebootDownload),
    {
        Command::CloseConnection(CloseConnectionCommand::RebootDownload)
    }

    /// Starts sending a partition table.
    pub fn pit_flash() -> (cmd: Command)
        ensures
            cmd == Command::Pit(PitCommand::Flash),
    {
        Command::Pit(PitCommand::Flash)
    }

    /// Starts reading the partition table.
    pub fn pit_dump() -> (cmd: Command)
        ensures
            cmd == Command::Pit(PitCommand::Dump),
    {
        Command::Pit(PitCommand::Dump)
    }

    /// Ends reading the partition table.
    pub fn pit_end() -> (cmd: Command)
        ensures
            cmd == Command::Pit(PitCommand::End { size: 0 }),
    {
        Command::Pit(PitCommand::End { size: 0 })
    }

    /// Announces the length of the partition table.
    pub fn flash_pit_slice(size: u32) -> (cmd: Command)
        ensures
            cmd == Command::Pit(PitCommand::Slice { slice: size }),
    {
        Command::Pit(PitCommand::Slice { slice: size })
    }

    /// Asks for a part of the partition table.
    pub fn dump_pit_slice(slice: u32) -> (cmd: Command)
        ensures
            cmd == Command::Pit(PitCommand::Slice { slice }),
    {
        Command::Pit(PitCommand::Slice { slice })
    }

    /// Ends sending the partition table.
    pub fn end_pit_transfer(size: u32) -> (cmd: Command)
        ensures
            cmd == Command::Pit(PitCommand::End { size }),
    {
        Command::Pit(PitCommand::End { size })
    }

    /// What `transmit_flash` returns.
    pub open spec fn flash(lz4: bool) -> Command {
        if lz4 {
            Command::Transmit(TransmitCommand::Lz4Flash)
        } else {
            Command::Transmit(TransmitCommand::Flash)
        }
    }

    /// Starts a slice.
    pub fn transmit_flash(lz4: bool) -> (cmd: Command)
        ensures
            cmd == Command::flash(lz4),
    {
        Command::Transmit(
            if lz4 {
                TransmitCommand::Lz4Flash
            } else {
                TransmitCommand::Flash
            },
        )
    }

    /// Announces a slice. The device expects the length as a multiple of 128 KiB.
    pub fn start_slice_transmission(slice_byte_count: u32) -> (cmd: Command)
        ensures
            cmd == Command::Transmit(
                (TransmitCommand::Slice { slice_byte_count: announced_len(slice_byte_count) }),
            ),
    {
        let sum: u64 = slice_byte_count as u64 + 0x1FFFF;
        let aligned_count: u32 = #[verifier::truncate] ((sum & !0x1FFFF) as u32);
        assert(aligned_count == sum / 0x20000 * 0x20000 % 0x1_0000_0000) by (bit_vector)
            requires
                aligned_count == (sum & !0x1FFFF) as u32,
                sum <= 0x1_0001_FFFE,
        ;
        Command::Transmit(TransmitCommand::Slice { slice_byte_count: aligned_count })
    }

    /// Announces a compressed slice.
    pub fn start_lz4_slice_transmission(compressed_size: u32, uncompressed_size: u32) -> (cmd:
        Command)
        ensures
            cmd == Command::Transmit(
                (TransmitCommand::Lz4Slice { compressed_size, uncompressed_size }),
            ),
    {
        Command::Transmit(TransmitCommand::Lz4Slice { compressed_size, uncompressed_size })
    }

    /// What `commit_slice` returns.
    pub open spec fn commit(
        slice_size: u32,
        pit_entry: PitEntry,
        is_end_of_file: bool,
        lz4: bool,
        protocol_version: u32,
    ) -> Command {
        let commit = SliceCommit::of(slice_size, pit_entry, is_end_of_file, protocol_version);
        if lz4 {
            Command::Transmit(TransmitCommand::Lz4End(commit))
        } else {
            Command::Transmit(TransmitCommand::End(commit))
        }
    }

    /// Commits a slice.
    pub fn commit_slice(
        slice_size: u32,
        pit_entry: &PitEntry,
        is_end_of_file: bool,
        lz4: bool,
        protocol_version: u32,
    ) -> (cmd: Command)
        ensures
            cmd == Command::commit(slice_size, *pit_entry, is_end_of_file, lz4, protocol_version),
    {
        let commit = SliceCommit::new(slice_size, pit_entry, is_end_of_file, protocol_version);
        Command::Transmit(
            if lz4 {
                TransmitCommand::Lz4End(commit)
            } else {
                TransmitCommand::End(commit)
            },
        )
    }

    /// Asks whether dynamic partitions of `super_used_size` sectors fit.
    pub fn check_super_size(super_used_size: u32) -> (cmd: Command)
        ensures
            cmd == Command::DynamicPartition(
                (DynamicPartitionCommand::CheckSuperSize { super_used_size }),
            ),
    {
        Command::DynamicPartition(DynamicPartitionCommand::CheckSuperSize { super_used_size })
    }

    /// Starts reading the device information.
    pub fn device_info_dump() -> (cmd: Command)
        ensures
            cmd == Command::DeviceInfo(DeviceInfoCommand::Dump),
    {
        Command::DeviceInfo(DeviceInfoCommand::Dump)
    }

    /// Asks for a part of the device information.
    pub fn dump_device_info_slice(slice: u32) -> (cmd: Command)
        ensures
            cmd == Command::DeviceInfo(DeviceInfoCommand::Slice { slice }),
    {
        Command::DeviceInfo(DeviceInfoCommand::Slice { slice })
    }

    /// Ends reading the device information.
    pub fn end_device_info() -> (cmd: Command)
        ensures
            cmd == Command::DeviceInfo(DeviceInfoCommand::End),
    {
        Command::DeviceInfo(DeviceInfoCommand::End)
    }

    /// Number of the answer to the command.
    pub fn expected_response_type(&self) -> (opcode: u32)
        ensures
            opcode == self.opcode(),
    {
        match self {
            Command::Session(_) => CMD_SESSION_INIT,
            Command::Pit(_) => CMD_PIT,
            Command::Transmit(_) => CMD_TRANSMIT,
            Command::CloseConnection(_) => CMD_CLOSE_CONNECTION,
            Command::DeviceInfo(_) => CMD_DEVINFO,
            Command::DynamicPartition(_) => CMD_DDP,
        }
    }

    fn word_vec(&self) -> (words: Vec<u32>)
        ensures
            words@ == self.words(),
    {
        let mut out: Vec<u32> = Vec::new();
        out.push(self.expected_response_type());
        match self {
            Command::Session(SessionCommand::Begin { protocol_version }) => {
                out.push(0);
                out.push(*protocol_version);
            },
            Command::Session(SessionCommand::TotalBytes { total_bytes }) => {
                out.push(2);
                out.push((*total_bytes % 0x1_0000_0000) as u32);
                out.push((*total_bytes / 0x1_0000_0000) as u32);
            },
            Command::Session(SessionCommand::PacketSize { size }) => {
                out.push(5);
                out.push(*size);
            },
            Command::Session(SessionCommand::NandErase) => {
                out.push(7);
            },
            Command::Session(SessionCommand::SalesCode { c0, c1, c2 }) => {
                out.push(9);
                out.push(*c0);
                out.push(*c1);
                out.push(*c2);
            },
            Command::Pit(PitCommand::Flash) => {
                out.push(0);
            },
            Command::Pit(PitCommand::Dump) => {
                out.push(1);
            },
            Command::Pit(PitCommand::Slice { slice }) => {
                out.push(2);
                out.push(*slice);
            },
            Command::Pit(PitCommand::End { size }) => {
                out.push(3);
                out.push(*size);
            },
            Command::Transmit(TransmitCommand::Flash) => {
                out.push(0);
            },
            Command::Transmit(TransmitCommand::Slice { slice_byte_count }) => {
                out.push(2);
                out.push(*slice_byte_count);
            },
            Command::Transmit(TransmitCommand::End(commit)) => {
                out.push(3);
                commit.put_words(&mut out);
            },
            Command::Transmit(TransmitCommand::Lz4Flash) => {
                out.push(5);
            },
            Command::Transmit(
                TransmitCommand::Lz4Slice { compressed_size, uncompressed_size },
            ) => {
                out.push(6);
                out.push(*compressed_size);
                out.push(*uncompressed_size);
            },
            Command::Transmit(TransmitCommand::Lz4End(commit)) => {
                out.push(7);
                commit.put_words(&mut out);
            },
            Command::CloseConnection(CloseConnectionCommand::Close) => {
                out.push(0);
            },
            Command::CloseConnection(CloseConnectionCommand::RebootDevice) => {
                out.push(1);
            },
            Command::CloseConnection(CloseConnectionCommand::RebootDownload) => {
                out.push(2);
            },
            Command::DeviceInfo(DeviceInfoCommand::Dump) => {
                out.push(0);
            },
            Command::DeviceInfo(DeviceInfoCommand::Slice { slice }) => {
                out.push(1);
                out.push(*slice);
            },
            Command::DeviceInfo(DeviceInfoCommand::End) => {
                out.push(2);
            },
            Command::DynamicPartition(
                DynamicPartitionCommand::CheckSuperSize { super_used_size },
            ) => {
                out.push(0);
                out.push(*super_used_size);
            },
        }
        assert(out@ =~= self.words());
        out
    }

    /// The packet of the command.
    pub fn pack(&self) -> (packet: [u8; 1024])
        ensures
            packet@ == self.packet(),
    {
        let words: Vec<u32> = self.word_vec();
        let mut out: Vec<u8> = Vec::new();
        let mut i: usize = 0;
        assert(words@.len() <= 9);
        while i < words.len()
            invariant
                i <= words@.len() <= 9,
                out@ == words_bytes(words@.take(i as int)),
                out@.len() == 4 * i,
            decreases words@.len() - i,
        {
            put_u32(&mut out, words[i]);
            assert(words@.take(i + 1).drop_last() =~= words@.take(i as int));
            i += 1;
        }
        assert(words@.take(i as int) =~= words@);
        let mut packet: [u8; 1024] = [0u8; 1024];
        let mut k: usize = 0;
        while k < out.len()
            invariant
                k <= out@.len() <= 1024,
                packet@ =~= out@.take(k as int) + zeros((1024 - k) as nat),
            decreases out@.len() - k,
        {
            packet[k] = out[k];
            k += 1;
        }
        assert(out@.take(k as int) =~= out@);
        packet
    }
}

/// The first `size` bytes of `buffer`, with zeros behind it where it is shorter.
pub open spec fn padded(buffer: Seq<u8>, size: nat) -> Seq<u8> {
    if buffer.len() >= size {
        buffer.take(size as int)
    } else {
        buffer + zeros((size - buffer.len()) as nat)
    }
}

/// A chunk of a slice.
pub struct DataChunk<'a> {
    /// The bytes to send.
    pub buffer: &'a [u8],
    /// Length of the chunk.
    pub size: usize,
}

impl<'a> DataChunk<'a> {
    /// A chunk of `size` bytes.
    pub fn new(buffer: &'a [u8], size: usize) -> (chunk: DataChunk<'a>)
        ensures
            chunk.buffer@ == buffer@,
            chunk.size == size,
    {
        DataChunk { buffer, size }
    }

    /// The bytes of the chunk, padded with zeros to its length. They are copied only where
    /// they have to be padded.
    pub fn as_bytes(&self) -> (bytes: Cow<'a, [u8]>)
        ensures
            bytes@ == padded(self.buffer@, self.size as nat),
            bytes@.len() == self.size,
            forall|i: int|
                0 <= i < self.size ==> #[trigger] bytes@[i] == (if i < self.buffer@.len() {
                    self.buffer@[i]
                } else {
                    0
                }),
            bytes is Borrowed <==> self.buffer@.len() >= self.size,
    {
        if self.buffer.len() >= self.size {
            let bytes: &'a [u8] = &self.buffer[0..self.size];
            assert(bytes@ =~= padded(self.buffer@, self.size as nat));
            Cow::Borrowed(bytes)
        } else {
            let mut data: Vec<u8> = zero_vec(self.size);
            write_at(data.as_mut_slice(), 0, self.buffer);
            assert(data@ =~= padded(self.buffer@, self.size as nat));
            Cow::Owned(data)
        }
    }
}

/// The answer of the device to a command.
#[derive(Debug, Clone, Copy, PartialEq, Eq)]
pub struct Response {
    /// Number of the command that is answered.
    pub response_type: u32,
    /// Value or status.
    pub value: u32,
}

/// What is said of an answer of `n` bytes that is not eight bytes long.
pub open spec fn bad_size_message(n: nat) -> Seq<char> {
    "Incorrect response size received - expected size = 8, received size = "@ + decimal(n) + "."@
}

impl Response {
    /// Length of an answer.
    pub const SIZE: usize = 8;

    /// The answer in eight bytes.
    pub open spec fn of(buffer: Seq<u8>) -> Response {
        Response { response_type: u32_at(buffer, 0), value: u32_at(buffer, 4) }
    }

    /// Reads an answer.
    pub fn parse(buffer: &[u8]) -> (response: Result<Response, String>)
        ensures
            match response {
                Ok(response) => buffer@.len() == 8 && response == Response::of(buffer@),
                Err(message) => buffer@.len() != 8 && message@ == bad_size_message(buffer@.len()),
            },
            response is Ok <==> buffer@.len() == 8,
            response matches Ok(r) ==> r.response_type == u32_at(buffer@, 0) && r.value == u32_at(
                buffer@,
                4,
            ),
            response matches Err(message) ==> message@
                == "Incorrect response size received - expected size = 8, received size = "@
                + decimal(buffer@.len()) + "."@,
    {
        if buffer.len() != Self::SIZE {
            let mut message: String =
                "Incorrect response size received - expected size = 8, received size = ".to_owned();
            message.append(decimal_text(buffer.len()).as_str());
            message.append(".");
            return Err(message);
        }
        Ok(Response { response_type: read_u32(buffer, 0), value: read_u32(buffer, 4) })
    }

    /// Whether the answer reports a failure.
    pub fn is_fail(&self) -> (fail: bool)
        ensures
            fail == (self.response_type == STATUS_FAIL),
            fail <==> self.response_type == 0xffff_ffff,
    {
        self.response_type == STATUS_FAIL
    }

    /// The value as a signed number.
    pub fn signed_value(&self) -> (value: i32)
        ensures
            value == signed32(self.value),
    {
        as_signed32(self.value)
    }
}

} // verus!
