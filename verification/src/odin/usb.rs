//! The connection to the device, as the protocol sees it.

use std::collections::VecDeque;
use vstd::prelude::*;
use vstd::utf8::encode_utf8;

use crate::bytes::{le32, put_bytes, put_u32, read_u32, u32_at};
use crate::odin::protocol::{COMMAND_LEN, STREAMING_CHUNK_ACK};

verus! {

/// Something that happened on a connection.
pub enum UsbEvent {
    /// The connection was reset.
    Reset,
    /// Bytes were sent.
    Sent {
        /// The bytes.
        data: Seq<u8>,
        /// Milliseconds that sending could take.
        timeout: i32,
        /// Whether sending was tried again on failure.
        retry: bool,
        /// Whether the bytes were sent.
        ok: bool,
    },
    /// Bytes were asked for.
    Received {
        /// Number of bytes that were asked for.
        capacity: nat,
        /// Milliseconds that receiving could take.
        timeout: i32,
        /// Whether receiving was tried again on failure.
        retry: bool,
        /// Number of bytes that came; negative on failure.
        size: i32,
        /// The bytes that came.
        data: Seq<u8>,
    },
    /// Nothing was done for a time.
    Waited {
        /// Milliseconds.
        millis: u64,
    },
    /// The length of what is being sent was shown.
    LengthShown {
        /// Number of bytes.
        bytes: u64,
    },
    /// It was shown that a chunk is sent again.
    RetryShown,
    /// Progress was shown.
    ProgressShown {
        /// Number of bytes that the device has taken since.
        bytes: u64,
    },
}

/// The bytes that came into `buffer` when `size` came.
pub open spec fn arrived(buffer: Seq<u8>, size: i32) -> Seq<u8> {
    if size > 0 {
        buffer.take(size as int)
    } else {
        Seq::empty()
    }
}

/// A connection to a device.
pub trait UsbTransfer {
    /// What has happened on the connection. A transport that is not verified itself need
    /// not say.
    closed spec fn trace(&self) -> Seq<UsbEvent> {
        arbitrary()
    }

    /// The name that the device gives itself. A transport that is not verified itself
    /// need not say.
    closed spec fn product(&self) -> Option<Seq<char>> {
        arbitrary()
    }

    /// Resets the connection.
    fn reset(&mut self)
        ensures
            final(self).trace() == old(self).trace().push(UsbEvent::Reset),
            final(self).product() == old(self).product(),
    ;

    /// Sends `data` within `timeout` milliseconds, and says whether that worked.
    fn send_data(&mut self, data: &[u8], timeout: i32, retry: bool) -> (ok: bool)
        ensures
            final(self).trace() == old(self).trace().push(
                (UsbEvent::Sent { data: data@, timeout, retry, ok }),
            ),
            final(self).product() == old(self).product(),
    ;

    /// Receives into `data` within `timeout` milliseconds, and says how many bytes came;
    /// a negative number if that failed.
    fn receive_data(&mut self, data: &mut [u8], timeout: i32, retry: bool) -> (size: i32)
        ensures
            final(data)@.len() == old(data)@.len(),
            size <= old(data)@.len(),
            final(self).trace() == old(self).trace().push(
                (UsbEvent::Received {
                    capacity: old(data)@.len(),
                    timeout,
                    retry,
                    size,
                    data: arrived(final(data)@, size),
                }),
            ),
            final(self).product() == old(self).product(),
    ;

    /// The name that the device gives itself.
    fn product_name(&self) -> (name: Option<&str>)
        ensures
            match name {
                Some(name) => self.product() == Some(name@),
                None => self.product() is None,
            },
    ;

    /// Lets the device work for `millis` milliseconds.
    fn wait(&mut self, millis: u64)
        ensures
            final(self).trace() == old(self).trace().push(UsbEvent::Waited { millis }),
            final(self).product() == old(self).product(),
    ;

    /// Shows the user that `bytes` bytes are going to be sent.
    fn show_length(&mut self, bytes: u64)
        ensures
            final(self).trace() == old(self).trace().push(UsbEvent::LengthShown { bytes }),
            final(self).product() == old(self).product(),
    ;

    /// Shows the user that a chunk is sent again.
    fn show_retry(&mut self)
        ensures
            final(self).trace() == old(self).trace().push(UsbEvent::RetryShown),
            final(self).product() == old(self).product(),
    ;

    /// Shows the user that the device has taken `bytes` more bytes.
    fn show_progress(&mut self, bytes: u64)
        ensures
            final(self).trace() == old(self).trace().push(UsbEvent::ProgressShown { bytes }),
            final(self).product() == old(self).product(),
    ;
}

/// A device that accepts everything: it answers the greeting, every command with zero,
/// and every chunk with its number.
pub struct MockBackend {
    replies: VecDeque<Vec<u8>>,
    chunks: u32,
    product: Option<String>,
    trace: Ghost<Seq<UsbEvent>>,
}

/// What the device answers when `data` is sent, and `chunks` chunks came before.
pub open spec fn mock_answer(data: Seq<u8>, chunks: u32) -> Seq<Seq<u8>> {
    if data.len() == 0 {
        Seq::empty()
    } else if data.len() == 4 {
        seq![encode_utf8("LOKE"@)]
    } else if data.len() == COMMAND_LEN {
        seq![le32(u32_at(data, 0)) + le32(0)]
    } else {
        seq![le32(STREAMING_CHUNK_ACK) + le32(chunks)]
    }
}

/// How many chunks have come since the last command when `data` is sent.
pub open spec fn mock_chunks(data: Seq<u8>, chunks: u32) -> u32 {
    if data.len() == COMMAND_LEN {
        0
    } else if data.len() == 0 || data.len() == 4 || chunks == u32::MAX {
        chunks
    } else {
        (chunks + 1) as u32
    }
}

impl MockBackend {
    /// The answers that have not been read.
    pub closed spec fn waiting(&self) -> Seq<Seq<u8>> {
        Seq::new(self.replies@.len(), |i: int| self.replies@[i]@)
    }

    /// Chunks that have come since the last command.
    pub closed spec fn chunk_count(&self) -> u32 {
        self.chunks
    }

    /// A device without a name.
    pub fn new(_verbose: bool) -> (mock: MockBackend)
        ensures
            mock.trace() == Seq::<UsbEvent>::empty(),
            mock.waiting() == Seq::<Seq<u8>>::empty(),
            mock.chunk_count() == 0,
            mock.product() is None,
    {
        let mock = MockBackend {
            replies: VecDeque::new(),
            chunks: 0,
            product: None,
            trace: Ghost(Seq::empty()),
        };
        assert(mock.waiting() =~= Seq::<Seq<u8>>::empty());
        mock
    }

    /// The device under the given name.
    pub fn with_product_name(self, name: &str) -> (mock: MockBackend)
        ensures
            mock.trace() == self.trace(),
            mock.waiting() == self.waiting(),
            mock.chunk_count() == self.chunk_count(),
            mock.product() == Some(name@),
    {
        MockBackend {
            replies: self.replies,
            chunks: self.chunks,
            product: Some(name.to_owned()),
            trace: self.trace,
        }
    }

    fn answer(&mut self, reply: Vec<u8>)
        ensures
            final(self).trace == old(self).trace,
            final(self).product == old(self).product,
            final(self).chunks == old(self).chunks,
            final(self).waiting() == old(self).waiting() + seq![reply@],
    {
        self.replies.push_back(reply);
        assert(self.waiting() =~= old(self).waiting() + seq![reply@]);
    }
}

impl UsbTransfer for MockBackend {
    closed spec fn trace(&self) -> Seq<UsbEvent> {
        self.trace@
    }

    closed spec fn product(&self) -> Option<Seq<char>> {
        match self.product {
            Some(name) => Some(name@),
            None => None,
        }
    }

    fn reset(&mut self)
        ensures
            final(self).waiting() == Seq::<Seq<u8>>::empty(),
            final(self).chunk_count() == 0,
    {
        self.replies = VecDeque::new();
        self.chunks = 0;
        self.trace = Ghost(self.trace@.push(UsbEvent::Reset));
        assert(self.waiting() =~= Seq::<Seq<u8>>::empty());
    }

    fn send_data(&mut self, data: &[u8], timeout: i32, retry: bool) -> (ok: bool)
        ensures
            ok,
            final(self).waiting() == old(self).waiting() + mock_answer(
                data@,
                old(self).chunk_count(),
            ),
            final(self).chunk_count() == mock_chunks(data@, old(self).chunk_count()),
    {
        if data.len() == 0 {
            assert(self.waiting() =~= old(self).waiting() + mock_answer(data@, self.chunks));
        } else {
            let mut reply: Vec<u8> = Vec::new();
            if data.len() == 4 {
                put_bytes(&mut reply, "LOKE".as_bytes());
                assert(reply@ =~= encode_utf8("LOKE"@));
            } else if data.len() == COMMAND_LEN {
                put_u32(&mut reply, read_u32(data, 0));
                put_u32(&mut reply, 0);
                assert(reply@ =~= le32(u32_at(data@, 0)) + le32(0));
                self.chunks = 0;
            } else {
                put_u32(&mut reply, STREAMING_CHUNK_ACK);
                put_u32(&mut reply, self.chunks);
                assert(reply@ =~= le32(STREAMING_CHUNK_ACK) + le32(old(self).chunks));
                if self.chunks < 0xffff_ffff {
                    self.chunks += 1;
                }
            }
            assert(self.waiting() =~= old(self).waiting());
            self.answer(reply);
        }
        self.trace = Ghost(
            self.trace@.push((UsbEvent::Sent { data: data@, timeout, retry, ok: true })),
        );
        true
    }

    fn receive_data(&mut self, data: &mut [u8], timeout: i32, retry: bool) -> (size: i32)
        ensures
            final(self).chunk_count() == old(self).chunk_count(),
            old(self).waiting().len() == 0 ==> size == 0 && final(self).waiting() == old(
                self,
            ).waiting(),
            old(self).waiting().len() > 0 ==> {
                let reply = old(self).waiting()[0];
                &&& final(self).waiting() == old(self).waiting().skip(1)
                &&& 0 <= size <= reply.len()
                &&& arrived(final(data)@, size) == reply.take(size as int)
                &&& size == reply.len() || size == old(data)@.len() || size == i32::MAX
            },
    {
        let capacity: usize = data.len();
        let mut size: i32 = 0;
        let ghost before = self.waiting();
        if let Some(reply) = self.replies.pop_front() {
            assert(reply@ == before[0]);
            assert(self.waiting() =~= before.skip(1));
            let mut i: usize = 0;
            while i < reply.len() && i < capacity && i < 0x7fff_ffff
                invariant
                    i <= capacity,
                    i <= 0x7fff_ffff,
                    i <= reply@.len(),
                    data@.len() == capacity,
                    data@.take(i as int) == reply@.take(i as int),
                decreases capacity - i,
            {
                data[i] = reply[i];
                i += 1;
                assert(data@.take(i as int) =~= reply@.take(i as int));
            }
            size = i as i32;
            assert(size == 0 ==> reply@.take(0) =~= Seq::empty());
        } else {
            assert(self.waiting() =~= before);
        }
        self.trace = Ghost(
            self.trace@.push(
                (UsbEvent::Received {
                    capacity: capacity as nat,
                    timeout,
                    retry,
                    size,
                    data: arrived(data@, size),
                }),
            ),
        );
        size
    }

    fn product_name(&self) -> (name: Option<&str>) {
        match &self.product {
            Some(name) => Some(name.as_str()),
            None => None,
        }
    }

    fn wait(&mut self, millis: u64)
        ensures
            final(self).waiting() == old(self).waiting(),
            final(self).chunk_count() == old(self).chunk_count(),
    {
        self.trace = Ghost(self.trace@.push(UsbEvent::Waited { millis }));
    }

    fn show_length(&mut self, bytes: u64)
        ensures
            final(self).waiting() == old(self).waiting(),
            final(self).chunk_count() == old(self).chunk_count(),
    {
        self.trace = Ghost(self.trace@.push(UsbEvent::LengthShown { bytes }));
    }

    fn show_retry(&mut self)
        ensures
            final(self).waiting() == old(self).waiting(),
            final(self).chunk_count() == old(self).chunk_count(),
    {
        self.trace = Ghost(self.trace@.push(UsbEvent::RetryShown));
    }

    fn show_progress(&mut self, bytes: u64)
        ensures
            final(self).waiting() == old(self).waiting(),
            final(self).chunk_count() == old(self).chunk_count(),
    {
        self.trace = Ghost(self.trace@.push(UsbEvent::ProgressShown { bytes }));
    }
}

} // verus!
