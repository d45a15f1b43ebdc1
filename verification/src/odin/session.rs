//! A session with a device: what the host asks of it and sends to it.

use vstd::prelude::*;
use vstd::utf8::encode_utf8;

use crate::bytes::{as_signed32, put_bytes, signed32, zero_vec};
use crate::odin::connection::OdinConnection;
use crate::odin::error::{outcome, outcome_of, LokeError, OdinError, OdinFault};
use crate::odin::packets::{holds_words, packet_layout};
use crate::odin::protocol::{
    padded, CloseConnectionCommand, Command, DataChunk, DynamicPartitionCommand, PitCommand,
    Response, SessionCommand, CMD_PIT, STREAMING_CHUNK_ACK,
};
use crate::odin::transcript::{
    accepted, begun, command_sent, demand, device_info_read, dump_ended, negotiated, part_count,
    part_len, parts_read, pit_acknowledged, pit_announced, pit_parts_read, pit_read, pit_sent,
    pit_streamed, pit_taken, rebooted, received, request, response_read, sent,
    terms_settled, zero_only, Dump, SessionTerms, Transcript, MAX_DEVICE_INFO, PART_SIZE,
};
use crate::odin::usb::{arrived, UsbEvent};

verus! {

/// A session with a device.
pub struct OdinSession {
    /// The connection to the device.
    pub connection: OdinConnection,
    /// Length of a chunk.
    pub packet_size: usize,
    /// Milliseconds that the device may take over a chunk or a commit.
    pub slice_timeout: u32,
    /// Whether the device takes compressed slices.
    pub lz4_supported: bool,
    /// Version of the protocol that the device speaks.
    pub bootloader_protocol_version: u32,
}

/// What an answer to the command `opcode` comes to.
pub fn accept_response(opcode: u32, response: Result<Response, OdinError>) -> (result: Result<
    u32,
    OdinError,
>)
    ensures
        outcome_of(result) == accepted(opcode, outcome_of(response)),
        response matches Err(error) ==> (result matches Err(e) && e@ == error@),
        response matches Ok(r) ==> {
            &&& r.response_type == 0xffff_ffff ==> (result matches Err(error) && error@
                == OdinFault::Loke(signed32(r.value)))
            &&& r.response_type != 0xffff_ffff && r.response_type != opcode ==> (result matches Err(
                error,
            ) && error@ == (OdinFault::ResponseTypeMismatch {
                expected: opcode,
                received: r.response_type,
            }))
            &&& r.response_type != 0xffff_ffff && r.response_type == opcode && r.value
                >= 0x8000_0000 ==> (result matches Err(error) && error@ == OdinFault::Loke(
                signed32(r.value),
            ))
            &&& r.response_type != 0xffff_ffff && r.response_type == opcode && r.value
                < 0x8000_0000 ==> (result matches Ok(value) && value == r.value)
        },
{
    match response {
        Err(error) => Err(error),
        Ok(response) => {
            if response.is_fail() {
                return Err(OdinError::Loke(LokeError::from_status(response.signed_value())));
            }
            if response.response_type != opcode {
                return Err(
                    OdinError::ResponseTypeMismatch {
                        expected: opcode,
                        received: response.response_type,
                    },
                );
            }
            if response.signed_value() < 0 {
                return Err(OdinError::Loke(LokeError::from_status(response.signed_value())));
            }
            Ok(response.value)
        },
    }
}

/// What an answer comes to where only zero is good.
pub fn require_zero(value: Result<u32, OdinError>) -> (result: Result<(), OdinError>)
    ensures
        outcome(result) == zero_only(outcome_of(value)),
        result is Ok <==> (value matches Ok(v) && v == 0),
        value matches Err(error) ==> (result matches Err(e) && e@ == error@),
        value matches Ok(v) ==> (v != 0 ==> (result matches Err(error) && error@
            == OdinFault::Loke(signed32(v)))),
{
    match value {
        Err(error) => Err(error),
        Ok(value) => {
            if value != 0 {
                Err(OdinError::Loke(LokeError::from_status(as_signed32(value))))
            } else {
                Ok(())
            }
        },
    }
}

/// What the answer to a partition table comes to.
pub fn accept_pit(response: Result<Response, OdinError>) -> (result: Result<(), OdinError>)
    ensures
        outcome(result) == pit_taken(outcome_of(response)),
        result is Ok <==> (response matches Ok(r) && (r.response_type == 0 || r.response_type
            == 0x65) && r.value < 0x8000_0000),
        response matches Err(error) ==> (result matches Err(e) && e@ == error@),
        response matches Ok(r) ==> {
            &&& r.response_type == 0xffff_ffff || ((r.response_type == 0 || r.response_type == 0x65)
                && r.value >= 0x8000_0000) ==> (result matches Err(error) && error@
                == OdinFault::Loke(signed32(r.value)))
            &&& r.response_type != 0xffff_ffff && r.response_type != 0 && r.response_type != 0x65
                ==> (result matches Err(error) && error@ == (OdinFault::ResponseTypeMismatch {
                expected: 0x65,
                received: r.response_type,
            }))
        },
{
    match response {
        Err(error) => Err(error),
        Ok(response) => {
            if response.is_fail() {
                return Err(OdinError::Loke(LokeError::from_status(response.signed_value())));
            }
            if response.response_type != STREAMING_CHUNK_ACK && response.response_type != CMD_PIT {
                return Err(
                    OdinError::ResponseTypeMismatch {
                        expected: CMD_PIT,
                        received: response.response_type,
                    },
                );
            }
            if response.signed_value() < 0 {
                return Err(OdinError::Loke(LokeError::from_status(response.signed_value())));
            }
            Ok(())
        },
    }
}

/// What is agreed on with a device that answers `value`.
pub fn negotiate(value: u32) -> (terms: SessionTerms)
    ensures
        terms == negotiated(value),
        value == 0 ==> terms.bootloader_protocol_version == 1,
        value != 0 ==> terms.bootloader_protocol_version == value >> 16,
        value >= 0x20000 ==> {
            &&& terms.lz4_supported <==> value & 0x8000 != 0
            &&& terms.packet_size == 0x100000
            &&& terms.slice_timeout == 120000
        },
        value < 0x20000 ==> {
            &&& !terms.lz4_supported
            &&& terms.packet_size == 0x20000
            &&& terms.slice_timeout == 30000
        },
{
    let version: u32 = if value == 0 {
        1
    } else {
        value >> 16
    };
    assert(value >> 16 == value / 0x10000) by (bit_vector);
    assert(value & 0x8000 != 0 <==> value / 0x8000 % 2 == 1) by (bit_vector);
    if version >= 2 {
        SessionTerms {
            packet_size: 0x100000,
            slice_timeout: 120000,
            lz4_supported: value & 0x8000 != 0,
            bootloader_protocol_version: version,
        }
    } else {
        SessionTerms {
            packet_size: 0x20000,
            slice_timeout: 30000,
            lz4_supported: false,
            bootloader_protocol_version: version,
        }
    }
}

/// The bytes that an operation gave, or why there are none.
pub open spec fn bytes_outcome(result: Result<Vec<u8>, OdinError>) -> Result<Seq<u8>, OdinFault> {
    match result {
        Ok(data) => Ok(data@),
        Err(error) => Err(error@),
    }
}

/// What `parse` makes of the device information, or why there is none.
pub open spec fn bytes_parsed<T, F: FnOnce(&[u8]) -> Result<T, OdinError>>(
    parse: F,
    data: Result<Seq<u8>, OdinFault>,
    result: Result<T, OdinError>,
) -> bool {
    match data {
        Ok(data) => exists|s: &[u8]| s@ == data && #[trigger] call_ensures(parse, (s,), result),
        Err(fault) => result matches Err(error) && error@ == fault,
    }
}

/// What is read: the partition table, or the device information.
pub open spec fn dump_kind(pit: bool) -> Dump {
    if pit {
        Dump::Pit
    } else {
        Dump::DeviceInfo
    }
}

/// A letter or a digit.
pub open spec fn alphanumeric(b: u8) -> bool {
    ||| 0x30 <= b <= 0x39
    ||| 0x41 <= b <= 0x5a
    ||| 0x61 <= b <= 0x7a
}

/// Whether `b` is a letter or a digit.
pub fn is_alphanumeric(b: u8) -> (r: bool)
    ensures
        r == alphanumeric(b),
        r <==> 48 <= b <= 57 || 65 <= b <= 90 || 97 <= b <= 122,
{
    (0x30 <= b && b <= 0x39) || (0x41 <= b && b <= 0x5a) || (0x61 <= b && b <= 0x7a)
}

/// Three letters or digits.
pub open spec fn is_sales_code(code: Seq<u8>) -> bool {
    &&& code.len() == 3
    &&& alphanumeric(code[0])
    &&& alphanumeric(code[1])
    &&& alphanumeric(code[2])
}

/// Sets a sales code.
pub open spec fn sales_code_command(code: Seq<u8>) -> Command {
    Command::Session(
        SessionCommand::SalesCode {
            c0: code[0] as u32,
            c1: code[1] as u32,
            c2: code[2] as u32,
        },
    )
}

impl OdinSession {
    /// What has happened on the connection.
    pub open spec fn trace(self) -> Transcript {
        self.connection.trace()
    }

    /// Whether the device wants no empty packet after a command.
    pub open spec fn skip_empty(self) -> bool {
        self.connection.skip_empty_send
    }

    /// What was agreed on.
    pub open spec fn terms(self) -> SessionTerms {
        SessionTerms {
            packet_size: self.packet_size,
            slice_timeout: self.slice_timeout,
            lz4_supported: self.lz4_supported,
            bootloader_protocol_version: self.bootloader_protocol_version,
        }
    }

    /// `self` is the session `before`, later.
    pub open spec fn continues(self, before: OdinSession) -> bool {
        &&& self.terms() == before.terms()
        &&& self.skip_empty() == before.skip_empty()
    }

    /// Sends a command.
    pub fn send_command(&mut self, cmd: &Command, timeout: i32) -> (result: Result<(), ()>)
        ensures
            command_sent(
                old(self).trace(),
                final(self).trace(),
                *cmd,
                timeout,
                old(self).skip_empty(),
                result is Ok,
            ),
            final(self).continues(*old(self)),
    {
        let ghost t0 = self.trace();
        let packet: [u8; 1024] = cmd.pack();
        if !self.connection.link.usb.send_data(packet.as_slice(), timeout, true) {
            return Err(());
        }
        if !self.connection.skip_empty_send {
            let ghost t = self.trace();
            let empty: Vec<u8> = Vec::new();
            let ok: bool = self.connection.link.usb.send_data(empty.as_slice(), 100, false);
            assert(empty@ =~= Seq::empty());
            assert(sent(t, self.trace(), Seq::empty(), 100, false, ok));
        }
        Ok(())
    }

    /// Sends a chunk.
    pub fn send_chunk(&mut self, chunk: &DataChunk<'_>, timeout: i32) -> (result: Result<(), ()>)
        ensures
            sent(
                old(self).trace(),
                final(self).trace(),
                padded(chunk.buffer@, chunk.size as nat),
                timeout,
                true,
                result is Ok,
            ),
            final(self).continues(*old(self)),
    {
        let bytes = chunk.as_bytes();
        let ok: bool = match &bytes {
            std::borrow::Cow::Borrowed(data) => self.connection.link.usb.send_data(
                data,
                timeout,
                true,
            ),
            std::borrow::Cow::Owned(data) => self.connection.link.usb.send_data(
                data.as_slice(),
                timeout,
                true,
            ),
        };
        if ok {
            Ok(())
        } else {
            Err(())
        }
    }

    /// Reads an answer.
    pub fn receive_response(&mut self, timeout: i32) -> (result: Result<Response, OdinError>)
        ensures
            response_read(old(self).trace(), final(self).trace(), timeout, outcome_of(result)),
            final(self).continues(*old(self)),
    {
        let ghost t0 = self.trace();
        let mut buffer: Vec<u8> = vec![0u8; 8];
        let mut size: i32 = self.connection.link.usb.receive_data(
            buffer.as_mut_slice(),
            timeout,
            true,
        );
        let ghost mut t = t0;
        assert(received(t0, self.trace(), 8, timeout, true, size, arrived(buffer@, size)));
        if size == 0 {
            proof {
                t = self.trace();
                assert(t.len() == t0.len() + 1);
            }
            size = self.connection.link.usb.receive_data(buffer.as_mut_slice(), timeout, true);
        }
        let ghost data = arrived(buffer@, size);
        assert(received(t, self.trace(), 8, timeout, true, size, data));
        if size < 0 {
            return Err(OdinError::ReceivePacketFailed);
        }
        let filled: &[u8] = &buffer.as_slice()[0..size as usize];
        assert(filled@ =~= data);
        match Response::parse(filled) {
            Ok(response) => Ok(response),
            Err(message) => Err(OdinError::ParseError(message)),
        }
    }

    /// Sends a command and reads the answer.
    pub fn request_and_response(&mut self, cmd: &Command, timeout: i32) -> (result: Result<
        u32,
        OdinError,
    >)
        ensures
            request(
                old(self).trace(),
                final(self).trace(),
                *cmd,
                timeout,
                old(self).skip_empty(),
                outcome_of(result),
            ),
            final(self).continues(*old(self)),
    {
        match self.send_command(cmd, timeout) {
            Ok(()) => {},
            Err(()) => {
                return Err(OdinError::SendCommandFailed);
            },
        }
        let ghost t = self.trace();
        let response: Result<Response, OdinError> = self.receive_response(timeout);
        assert(response_read(t, self.trace(), timeout, outcome_of(response)));
        accept_response(cmd.expected_response_type(), response)
    }

    /// Sends a command that the device has to answer with zero.
    pub(crate) fn demand_zero(&mut self, cmd: &Command, timeout: i32) -> (result: Result<(), OdinError>)
        ensures
            demand(
                old(self).trace(),
                final(self).trace(),
                *cmd,
                timeout,
                old(self).skip_empty(),
                outcome(result),
            ),
            final(self).continues(*old(self)),
    {
        let value: Result<u32, OdinError> = self.request_and_response(cmd, timeout);
        assert(request(
            old(self).trace(),
            self.trace(),
            *cmd,
            timeout,
            old(self).skip_empty(),
            outcome_of(value),
        ));
        require_zero(value)
    }

    /// Begins a session over `connection`.
    pub fn begin(connection: OdinConnection) -> (result: Result<OdinSession, OdinError>)
        ensures
            match result {
                Ok(session) => {
                    &&& begun(
                        connection.trace(),
                        session.trace(),
                        connection.skip_empty_send,
                        Ok(session.terms()),
                    )
                    &&& session.skip_empty() == connection.skip_empty_send
                    &&& session.packet_size > 0
                },
                Err(error) => exists|t1: Transcript|
                    begun(connection.trace(), t1, connection.skip_empty_send, Err(error@)),
            },
    {
        let ghost t0 = connection.trace();
        let ghost skip = connection.skip_empty_send;
        let mut session = OdinSession {
            connection,
            packet_size: 0x20000,
            slice_timeout: 30000,
            lz4_supported: false,
            bootloader_protocol_version: 0,
        };
        match session.open() {
            Ok(()) => Ok(session),
            Err(error) => {
                assert(begun(t0, session.trace(), skip, Err(error@)));
                Err(error)
            },
        }
    }

    /// Begins the session with the device, and takes over what is agreed on.
    pub fn open(&mut self) -> (result: Result<(), OdinError>)
        ensures
            begun(
                old(self).trace(),
                final(self).trace(),
                old(self).skip_empty(),
                match result {
                    Ok(()) => Ok(final(self).terms()),
                    Err(error) => Err(error@),
                },
            ),
            final(self).skip_empty() == old(self).skip_empty(),
            result is Ok ==> final(self).packet_size > 0,
            result is Err ==> final(self).terms() == old(self).terms(),
    {
        let ghost t0 = self.trace();
        let ghost skip = self.skip_empty();
        let first: Result<u32, OdinError> = self.request_and_response(
            &Command::begin_session(),
            3000,
        );
        let ghost t = self.trace();
        assert(request(
            t0,
            t,
            Command::Session(SessionCommand::Begin { protocol_version: 5 }),
            3000,
            skip,
            outcome_of(first),
        ));
        let value: u32 = match first {
            Ok(value) => value,
            Err(error) => {
                return Err(error);
            },
        };
        let terms: SessionTerms = negotiate(value);
        self.connection.link.usb.wait(3000);
        let ghost u = self.trace();
        assert(u == t.push(UsbEvent::Waited { millis: 3000 }));
        if terms.bootloader_protocol_version >= 2 {
            let answer: Result<(), OdinError> = self.demand_zero(
                &Command::packet_size(terms.packet_size as u32),
                3000,
            );
            assert(demand(
                u,
                self.trace(),
                Command::Session(SessionCommand::PacketSize { size: terms.packet_size as u32 }),
                3000,
                skip,
                outcome(answer),
            ));
            match answer {
                Ok(()) => {},
                Err(error) => {
                    assert(terms_settled(u, self.trace(), skip, terms, Err(error@)));
                    return Err(error);
                },
            }
        }
        assert(terms_settled(u, self.trace(), skip, terms, Ok(terms)));
        self.packet_size = terms.packet_size;
        self.slice_timeout = terms.slice_timeout;
        self.lz4_supported = terms.lz4_supported;
        self.bootloader_protocol_version = terms.bootloader_protocol_version;
        Ok(())
    }

    /// Ends the session.
    pub fn end_session(&mut self) -> (result: Result<(), OdinError>)
        ensures
            demand(
                old(self).trace(),
                final(self).trace(),
                Command::CloseConnection(CloseConnectionCommand::Close),
                3000,
                old(self).skip_empty(),
                outcome(result),
            ),
            final(self).continues(*old(self)),
    {
        self.demand_zero(&Command::close_connection(), 3000)
    }

    /// Reboots the device.
    pub fn reboot_device(&mut self) -> (result: Result<(), OdinError>)
        ensures
            result is Ok,
            rebooted(
                old(self).trace(),
                final(self).trace(),
                Command::CloseConnection(CloseConnectionCommand::RebootDevice),
                old(self).skip_empty(),
            ),
            final(self).continues(*old(self)),
    {
        self.reboot_with_command(&Command::reboot_device())
    }

    /// Reboots the device into download mode.
    pub fn reboot_to_download(&mut self) -> (result: Result<(), OdinError>)
        ensures
            result is Ok,
            rebooted(
                old(self).trace(),
                final(self).trace(),
                Command::CloseConnection(CloseConnectionCommand::RebootDownload),
                old(self).skip_empty(),
            ),
            final(self).continues(*old(self)),
    {
        self.reboot_with_command(&Command::reboot_to_download())
    }

    fn reboot_with_command(&mut self, cmd: &Command) -> (result: Result<(), OdinError>)
        ensures
            result is Ok,
            rebooted(old(self).trace(), final(self).trace(), *cmd, old(self).skip_empty()),
            final(self).continues(*old(self)),
    {
        let heard: bool = self.send_command(cmd, 500).is_ok();
        assert(command_sent(
            old(self).trace(),
            self.trace(),
            *cmd,
            500,
            old(self).skip_empty(),
            heard,
        ));
        let ghost t = self.trace();
        let mut buffer: Vec<u8> = vec![0u8; 64];
        let size: i32 = self.connection.link.usb.receive_data(buffer.as_mut_slice(), 100, false);
        assert(received(t, self.trace(), 64, 100, false, size, arrived(buffer@, size)));
        Ok(())
    }

    /// Ends the session and gives the connection back.
    pub fn close(self) -> (result: Result<OdinConnection, OdinError>)
        ensures
            match result {
                Ok(connection) => {
                    &&& demand(
                        self.trace(),
                        connection.trace(),
                        Command::CloseConnection(CloseConnectionCommand::Close),
                        3000,
                        self.skip_empty(),
                        Ok(()),
                    )
                    &&& connection.skip_empty_send == self.skip_empty()
                },
                Err(error) => exists|t1: Transcript|
                    demand(
                        self.trace(),
                        t1,
                        Command::CloseConnection(CloseConnectionCommand::Close),
                        3000,
                        self.skip_empty(),
                        Err(error@),
                    ),
            },
    {
        let mut session = self;
        match session.end_session() {
            Ok(()) => Ok(session.connection),
            Err(error) => {
                assert(demand(
                    self.trace(),
                    session.trace(),
                    Command::CloseConnection(CloseConnectionCommand::Close),
                    3000,
                    self.skip_empty(),
                    Err(error@),
                ));
                Err(error)
            },
        }
    }

    /// Gives the connection back; the device is not told.
    pub fn into_connection(self) -> (connection: OdinConnection)
        ensures
            connection == self.connection,
    {
        self.connection
    }

    /// Sends a partition table.
    pub fn send_pit_info(&mut self, pit_buffer: &[u8]) -> (result: Result<(), OdinError>)
        ensures
            pit_sent(
                old(self).trace(),
                final(self).trace(),
                pit_buffer@,
                old(self).skip_empty(),
                outcome(result),
            ),
            final(self).continues(*old(self)),
    {
        let ghost skip = self.skip_empty();
        let ghost t0 = self.trace();
        let size: u32 = #[verifier::truncate] (pit_buffer.len() as u32);

        let answer: Result<(), OdinError> = self.demand_zero(&Command::pit_flash(), 3000);
        let ghost t1 = self.trace();
        assert(demand(t0, t1, Command::Pit(PitCommand::Flash), 3000, skip, outcome(answer)));
        if answer.is_err() {
            return answer;
        }
        let answer: Result<(), OdinError> = self.demand_zero(
            &Command::flash_pit_slice(size),
            3000,
        );
        let ghost t2 = self.trace();
        assert(demand(
            t1,
            t2,
            Command::Pit(PitCommand::Slice { slice: pit_buffer@.len() as u32 }),
            3000,
            skip,
            outcome(answer),
        ));
        if answer.is_err() {
            assert(pit_announced(t1, t2, pit_buffer@, skip, outcome(answer)));
            return answer;
        }
        let chunk = DataChunk::new(pit_buffer, size as usize);
        let ok: bool = self.send_chunk(&chunk, 3000).is_ok();
        let ghost t3 = self.trace();
        assert(sent(
            t2,
            t3,
            padded(pit_buffer@, (pit_buffer@.len() as u32) as nat),
            3000,
            true,
            ok,
        ));
        if !ok {
            let result: Result<(), OdinError> = Err(OdinError::SendCommandFailed);
            assert(pit_streamed(t2, t3, pit_buffer@, skip, outcome(result)));
            assert(pit_announced(t1, t3, pit_buffer@, skip, outcome(result)));
            return result;
        }
        let response: Result<Response, OdinError> = self.receive_response(3000);
        let ghost t4 = self.trace();
        let ghost read = outcome_of(response);
        assert(response_read(t3, t4, 3000, read));
        let taken: Result<(), OdinError> = accept_pit(response);
        if taken.is_err() {
            assert(pit_acknowledged(t3, t4, pit_buffer@, skip, outcome(taken)));
            assert(pit_streamed(t2, t4, pit_buffer@, skip, outcome(taken)));
            assert(pit_announced(t1, t4, pit_buffer@, skip, outcome(taken)));
            return taken;
        }
        let result: Result<(), OdinError> = self.demand_zero(
            &Command::end_pit_transfer(size),
            3000,
        );
        assert(pit_acknowledged(t3, self.trace(), pit_buffer@, skip, outcome(result)));
        assert(pit_streamed(t2, self.trace(), pit_buffer@, skip, outcome(result)));
        assert(pit_announced(t1, self.trace(), pit_buffer@, skip, outcome(result)));
        result
    }

    /// Reads `total` bytes in parts.
    fn read_parts(&mut self, pit: bool, total: u32) -> (result: Result<Vec<u8>, OdinError>)
        ensures
            parts_read(
                old(self).trace(),
                final(self).trace(),
                dump_kind(pit),
                total as int,
                old(self).skip_empty(),
                0,
                Seq::empty(),
                bytes_outcome(result),
            ),
            final(self).continues(*old(self)),
    {
        let ghost skip = self.skip_empty();
        let ghost dump = dump_kind(pit);
        let ghost t0 = self.trace();
        let count: u64 = (total as u64 + PART_SIZE as u64 - 1) / PART_SIZE as u64;
        let mut buffer: Vec<u8> = Vec::new();
        let mut i: u64 = 0;
        while i < count
            invariant
                count == part_count(total as int),
                i <= count,
                buffer@.len() <= i * PART_SIZE,
                buffer@.len() <= total,
                skip == self.skip_empty(),
                skip == old(self).skip_empty(),
                self.continues(*old(self)),
                dump == dump_kind(pit),
                t0 == old(self).trace(),
                forall|t1: Transcript, result: Result<Seq<u8>, OdinFault>|
                    parts_read(
                        self.trace(),
                        t1,
                        dump,
                        total as int,
                        skip,
                        i as int,
                        buffer@,
                        result,
                    ) ==> #[trigger] parts_read(
                        t0,
                        t1,
                        dump,
                        total as int,
                        skip,
                        0,
                        Seq::empty(),
                        result,
                    ),
            decreases count - i,
        {
            let ghost ti = self.trace();
            let ghost got = buffer@;
            let cmd: Command = if pit {
                Command::dump_pit_slice(i as u32)
            } else {
                Command::dump_device_info_slice(i as u32)
            };
            assert(cmd == dump.part(i as u32));
            match self.send_command(&cmd, 3000) {
                Ok(()) => {},
                Err(()) => {
                    assert(parts_read(
                        ti,
                        self.trace(),
                        dump,
                        total as int,
                        skip,
                        i as int,
                        got,
                        Err(OdinFault::SendCommandFailed),
                    ));
                    return Err(OdinError::SendCommandFailed);
                },
            }
            let ghost t = self.trace();
            let left: usize = total as usize - buffer.len();
            let expected: usize = if left < PART_SIZE {
                left
            } else {
                PART_SIZE
            };
            let mut part: Vec<u8> = zero_vec(expected);
            let size: i32 = self.connection.link.usb.receive_data(
                part.as_mut_slice(),
                3000,
                pit,
            );
            let ghost u = self.trace();
            let ghost data = arrived(part@, size);
            assert(received(
                t,
                u,
                part_len(total as int, got.len() as int) as nat,
                3000,
                dump.retry(),
                size,
                data,
            ));
            if size < 0 {
                assert(parts_read(
                    ti,
                    u,
                    dump,
                    total as int,
                    skip,
                    i as int,
                    got,
                    Err(OdinFault::ReceivePacketFailed),
                ));
                return Err(OdinError::ReceivePacketFailed);
            }
            put_bytes(&mut buffer, &part.as_slice()[0..size as usize]);
            assert(buffer@ =~= got + data);
            assert forall|t1: Transcript, result: Result<Seq<u8>, OdinFault>|
                parts_read(u, t1, dump, total as int, skip, i + 1, buffer@, result) implies
                #[trigger] parts_read(
                t0,
                t1,
                dump,
                total as int,
                skip,
                0,
                Seq::empty(),
                result,
            ) by {
                assert(parts_read(ti, t1, dump, total as int, skip, i as int, got, result));
            }
            i += 1;
        }
        assert(parts_read(
            self.trace(),
            self.trace(),
            dump,
            total as int,
            skip,
            i as int,
            buffer@,
            Ok(buffer@),
        ));
        Ok(buffer)
    }

    /// Ends a transfer that gave `data`.
    fn end_dump(&mut self, pit: bool, data: Vec<u8>) -> (result: Result<Vec<u8>, OdinError>)
        ensures
            dump_ended(
                old(self).trace(),
                final(self).trace(),
                dump_kind(pit),
                old(self).skip_empty(),
                data@,
                bytes_outcome(result),
            ),
            final(self).continues(*old(self)),
    {
        let cmd: Command = if pit {
            Command::pit_end()
        } else {
            Command::end_device_info()
        };
        assert(cmd == dump_kind(pit).end());
        let answer: Result<(), OdinError> = self.demand_zero(&cmd, 3000);
        assert(demand(
            old(self).trace(),
            self.trace(),
            cmd,
            3000,
            old(self).skip_empty(),
            outcome(answer),
        ));
        match answer {
            Ok(()) => Ok(data),
            Err(error) => Err(error),
        }
    }

    /// Reads the partition table.
    pub fn receive_pit_info(&mut self) -> (result: Result<Vec<u8>, OdinError>)
        ensures
            pit_read(
                old(self).trace(),
                final(self).trace(),
                old(self).skip_empty(),
                bytes_outcome(result),
            ),
            final(self).continues(*old(self)),
    {
        let ghost skip = self.skip_empty();
        let ghost t0 = self.trace();
        let size: Result<u32, OdinError> = self.request_and_response(&Command::pit_dump(), 3000);
        let ghost t1 = self.trace();
        assert(request(t0, t1, Dump::Pit.start(), 3000, skip, outcome_of(size)));
        let total: u32 = match size {
            Ok(total) => total,
            Err(error) => {
                return Err(error);
            },
        };
        let parts: Result<Vec<u8>, OdinError> = self.read_parts(true, total);
        let ghost t2 = self.trace();
        assert(parts_read(
            t1,
            t2,
            Dump::Pit,
            total as int,
            skip,
            0,
            Seq::empty(),
            bytes_outcome(parts),
        ));
        let data: Vec<u8> = match parts {
            Ok(data) => data,
            Err(error) => {
                assert(pit_parts_read(t1, t2, skip, total as int, Err(error@)));
                return Err(error);
            },
        };
        let mut empty: Vec<u8> = vec![0u8; 1];
        let size: i32 = self.connection.link.usb.receive_data(empty.as_mut_slice(), 100, false);
        let ghost t3 = self.trace();
        assert(received(t2, t3, 1, 100, false, size, arrived(empty@, size)));
        let result: Result<Vec<u8>, OdinError> = self.end_dump(true, data);
        assert(pit_parts_read(
            t1,
            self.trace(),
            skip,
            total as int,
            bytes_outcome(result),
        ));
        result
    }

    /// Reads the device information.
    pub fn receive_device_info(&mut self) -> (result: Result<Vec<u8>, OdinError>)
        ensures
            device_info_read(
                old(self).trace(),
                final(self).trace(),
                old(self).skip_empty(),
                bytes_outcome(result),
            ),
            final(self).continues(*old(self)),
    {
        let ghost skip = self.skip_empty();
        let ghost t0 = self.trace();
        let size: Result<u32, OdinError> = self.request_and_response(
            &Command::device_info_dump(),
            3000,
        );
        let ghost t1 = self.trace();
        assert(request(t0, t1, Dump::DeviceInfo.start(), 3000, skip, outcome_of(size)));
        let total: u32 = match size {
            Ok(total) => total,
            Err(error) => {
                return Err(error);
            },
        };
        if total == 0 || total > MAX_DEVICE_INFO {
            return Err(OdinError::DeviceInfoUnavailable);
        }
        let parts: Result<Vec<u8>, OdinError> = self.read_parts(false, total);
        let ghost t2 = self.trace();
        assert(parts_read(
            t1,
            t2,
            Dump::DeviceInfo,
            total as int,
            skip,
            0,
            Seq::empty(),
            bytes_outcome(parts),
        ));
        match parts {
            Ok(data) => self.end_dump(false, data),
            Err(error) => Err(error),
        }
    }

    /// Reads the device information, and gives what `parse` makes of it.
    pub fn dump_device_info<T, F: FnOnce(&[u8]) -> Result<T, OdinError>>(
        &mut self,
        parse: F,
    ) -> (result: Result<T, OdinError>)
        requires
            forall|data: &[u8]| call_requires(parse, (data,)),
        ensures
            exists|data: Result<Seq<u8>, OdinFault>| #[trigger]
                device_info_read(
                    old(self).trace(),
                    final(self).trace(),
                    old(self).skip_empty(),
                    data,
                ) && bytes_parsed(parse, data, result),
            final(self).continues(*old(self)),
    {
        let answer: Result<Vec<u8>, OdinError> = self.receive_device_info();
        let ghost read = bytes_outcome(answer);
        assert(device_info_read(old(self).trace(), self.trace(), old(self).skip_empty(), read));
        match answer {
            Ok(data) => parse(data.as_slice()),
            Err(error) => Err(error),
        }
    }

    /// Sets the sales code of the device: three letters or digits.
    pub fn set_sales_code(&mut self, sales_code: &str) -> (result: Result<(), OdinError>)
        ensures
            is_sales_code(encode_utf8(sales_code@)) ==> demand(
                old(self).trace(),
                final(self).trace(),
                sales_code_command(encode_utf8(sales_code@)),
                3000,
                old(self).skip_empty(),
                outcome(result),
            ),
            !is_sales_code(encode_utf8(sales_code@)) ==> {
                &&& final(self).trace() == old(self).trace()
                &&& outcome(result) == Err::<(), OdinFault>(
                    OdinFault::InvalidSalesCode(sales_code@),
                )
            },
            final(self).continues(*old(self)),
    {
        let bytes: &[u8] = sales_code.as_bytes();
        if bytes.len() != 3 || !is_alphanumeric(bytes[0]) || !is_alphanumeric(bytes[1])
            || !is_alphanumeric(bytes[2]) {
            return Err(OdinError::InvalidSalesCode(sales_code.to_owned()));
        }
        let code: [u8; 3] = [bytes[0], bytes[1], bytes[2]];
        self.demand_zero(&Command::session_sales_code(code), 3000)
    }

    /// Erases user data, and gives the length of an erased sector.
    pub fn nand_erase(&mut self) -> (result: Result<u32, OdinError>)
        ensures
            request(
                old(self).trace(),
                final(self).trace(),
                Command::Session(SessionCommand::NandErase),
                60000,
                old(self).skip_empty(),
                outcome_of(result),
            ),
            final(self).continues(*old(self)),
    {
        self.request_and_response(&Command::nand_erase(), 60000)
    }

    /// Whether the device takes compressed slices.
    pub fn is_lz4_supported(&self) -> (supported: bool)
        ensures
            supported == self.lz4_supported,
    {
        self.lz4_supported
    }

    /// Version of the protocol that the device speaks.
    pub fn bootloader_protocol_version(&self) -> (version: u32)
        ensures
            version == self.bootloader_protocol_version,
    {
        self.bootloader_protocol_version
    }

    /// Announces how many bytes the session will send, for the device to show progress.
    pub fn set_total_bytes(&mut self, total_bytes: u64) -> (result: Result<(), OdinError>)
        ensures
            demand(
                old(self).trace(),
                final(self).trace(),
                Command::Session(SessionCommand::TotalBytes { total_bytes }),
                3000,
                old(self).skip_empty(),
                outcome(result),
            ),
            final(self).continues(*old(self)),
    {
        self.demand_zero(&Command::total_bytes(total_bytes), 3000)
    }

    /// Asks the device whether dynamic partitions of `super_used_size` sectors fit.
    pub fn check_super_size(&mut self, super_used_size: u32) -> (result: Result<(), OdinError>)
        ensures
            demand(
                old(self).trace(),
                final(self).trace(),
                Command::DynamicPartition(
                    (DynamicPartitionCommand::CheckSuperSize { super_used_size }),
                ),
                3000,
                old(self).skip_empty(),
                outcome(result),
            ),
            final(self).continues(*old(self)),
    {
        self.demand_zero(&Command::check_super_size(super_used_size), 3000)
    }
}

impl OdinConnection {
    /// Begins a session.
    pub fn begin_session(self) -> (result: Result<OdinSession, OdinError>)
        ensures
            match result {
                Ok(session) => {
                    &&& begun(
                        self.trace(),
                        session.trace(),
                        self.skip_empty_send,
                        Ok(session.terms()),
                    )
                    &&& session.skip_empty() == self.skip_empty_send
                    &&& session.packet_size > 0
                },
                Err(error) => exists|t1: Transcript|
                    begun(self.trace(), t1, self.skip_empty_send, Err(error@)),
            },
    {
        OdinSession::begin(self)
    }
}

/// What is agreed on with a device, from the 32 bits of its answer: the upper half is the
/// version of the protocol, and an answer of zero stands for version 1. From version 2 on
/// bit 15, and nothing else, says whether the device takes compressed slices, and chunks
/// are 1 MiB long; before that there are no compressed slices, and chunks are 128 KiB long.
pub proof fn terms_follow_answer(value: u32)
    ensures
        value == 0 ==> negotiated(value).bootloader_protocol_version == 1,
        value > 0 ==> negotiated(value).bootloader_protocol_version == value >> 16,
        value >= 0x20000 ==> {
            &&& negotiated(value).lz4_supported <==> value & 0x8000 != 0
            &&& negotiated(value).packet_size == 1048576
            &&& negotiated(value).slice_timeout == 120000
        },
        value < 0x20000 ==> {
            &&& !negotiated(value).lz4_supported
            &&& negotiated(value).packet_size == 131072
            &&& negotiated(value).slice_timeout == 30000
        },
{
    assert(value >> 16 == value / 0x10000) by (bit_vector);
    assert(value & 0x8000 != 0 <==> value / 0x8000 % 2 == 1) by (bit_vector);
}

/// The bit for compressed slices is independent of the version: two answers of version 2 or
/// later with the same bit agree on compressed slices, whatever their versions.
pub proof fn lz4_support_is_one_bit(a: u32, b: u32)
    requires
        a >= 0x20000,
        b >= 0x20000,
        a & 0x8000 == b & 0x8000,
    ensures
        negotiated(a).lz4_supported == negotiated(b).lz4_supported,
{
    terms_follow_answer(a);
    terms_follow_answer(b);
}

/// A sales code is three letters or digits of ASCII.
pub proof fn sales_code_is_ascii(code: Seq<u8>)
    ensures
        is_sales_code(code) <==> code.len() == 3 && forall|i: int|
            0 <= i < 3 ==> {
                ||| 48 <= #[trigger] code[i] <= 57
                ||| 65 <= code[i] <= 90
                ||| 97 <= code[i] <= 122
            },
{
    if code.len() == 3 && forall|i: int|
        0 <= i < 3 ==> {
            ||| 48 <= #[trigger] code[i] <= 57
            ||| 65 <= code[i] <= 90
            ||| 97 <= code[i] <= 122
        } {
        assert(alphanumeric(code[0]) && alphanumeric(code[1]) && alphanumeric(code[2]));
    }
}

/// A sales code goes out letter by letter, each in a word of its own.
pub proof fn sales_code_packet(code: Seq<u8>)
    requires
        code.len() == 3,
    ensures
        holds_words(
            sales_code_command(code).packet(),
            seq![0x64, 9, code[0] as u32, code[1] as u32, code[2] as u32],
        ),
{
    packet_layout(sales_code_command(code));
}

} // verus!
