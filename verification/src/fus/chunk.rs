//! The download of one chunk over one connection: a state machine that is told what
//! the connection did and says what to do next.

use vstd::prelude::*;

use crate::fus::cipher::{decrypt_in_place, ecb_decrypt, ecb_decrypt_concat, whole_blocks};
use crate::fus::tracker::{marked, StateTracker};

verus! {

/// Failures in a row after which a chunk is handed back.
pub const MAX_STALL_RETRIES: u32 = 4;

/// How the download of a chunk ended.
#[derive(Debug, Clone, Copy, PartialEq, Eq)]
pub enum ChunkOutcome {
    /// The server sent all it had.
    Done,
    /// The connection made no more progress.
    Stalled {
        /// Bytes of the chunk that are decrypted.
        decrypted: usize,
    },
}

/// What to do after a failure.
#[derive(Debug, Clone, Copy, PartialEq, Eq)]
pub enum NextStep {
    /// Wait, then send the request again.
    Retry {
        /// Seconds to wait.
        wait: u64,
        /// Which retry in a row this is.
        retry: u32,
    },
    /// Stop.
    Finish(ChunkOutcome),
}

/// Seconds to wait before retry `attempt`: twice as long each time, at most 30.
pub open spec fn backoff_seconds(attempt: int) -> int {
    if attempt <= 1 {
        1
    } else if attempt == 2 {
        2
    } else if attempt == 3 {
        4
    } else if attempt == 4 {
        8
    } else if attempt == 5 {
        16
    } else {
        30
    }
}

/// Seconds to wait before retry `attempt`, counted from 1.
pub fn backoff(attempt: u32) -> (seconds: u64)
    requires
        attempt >= 1,
    ensures
        seconds == backoff_seconds(attempt as int),
        attempt <= 5 ==> seconds == 1u64 << ((attempt - 1) as u64),
        attempt > 5 ==> seconds == 30,
{
    let shift: u32 = if attempt - 1 < 5 {
        attempt - 1
    } else {
        5
    };
    assert(1u64 << 0 == 1 && 1u64 << 1 == 2 && 1u64 << 2 == 4 && 1u64 << 3 == 8 && 1u64 << 4 == 16
        && 1u64 << 5 == 32) by (bit_vector);
    let seconds: u64 = 1u64 << shift;
    if seconds < 30 {
        seconds
    } else {
        30
    }
}

/// A chunk being downloaded.
#[derive(Debug, Clone, Copy, PartialEq, Eq)]
pub struct ChunkDownload {
    /// Offset of the chunk in the file.
    pub start: u64,
    /// Length of the chunk.
    pub len: usize,
    /// Bytes of the chunk that are decrypted.
    pub dec_pos: usize,
    /// Bytes of the chunk that are downloaded.
    pub dl_pos: usize,
    /// Bytes that were decrypted when the last request was answered.
    pub resume_from: usize,
    /// Failures in a row.
    pub retries: u32,
}

impl ChunkDownload {
    /// Decryption follows the download in whole blocks, and retries remain.
    pub open spec fn wf(self) -> bool {
        &&& self.resume_from <= self.dec_pos <= self.dl_pos <= self.len
        &&& self.dl_pos - self.dec_pos < 16
        &&& self.dec_pos % 16 == 0
        &&& self.start + self.len <= u64::MAX
        &&& self.retries <= MAX_STALL_RETRIES
    }

    /// A chunk of `len` bytes at offset `start` of which nothing is downloaded.
    pub fn new(start: u64, len: usize) -> (chunk: ChunkDownload)
        requires
            start + len <= u64::MAX,
        ensures
            chunk == (ChunkDownload {
                start,
                len,
                dec_pos: 0,
                dl_pos: 0,
                resume_from: 0,
                retries: 0,
            }),
            chunk.wf(),
    {
        ChunkDownload { start, len, dec_pos: 0, dl_pos: 0, resume_from: 0, retries: 0 }
    }

    /// The offset in the file to request from: the first byte that is not decrypted.
    pub fn request_offset(&self) -> (offset: u64)
        requires
            self.wf(),
        ensures
            offset == self.start + self.dec_pos,
    {
        self.start + self.dec_pos as u64
    }

    /// What a failure leads to when `failures` came before it in a row.
    pub open spec fn after_failure(self, failures: u32) -> NextStep {
        if failures + 1 > MAX_STALL_RETRIES {
            NextStep::Finish(ChunkOutcome::Stalled { decrypted: self.dec_pos })
        } else {
            NextStep::Retry {
                wait: backoff_seconds(failures + 1) as u64,
                retry: (failures + 1) as u32,
            }
        }
    }

    /// What is done when the connection breaks off.
    pub open spec fn after_read_error(self) -> NextStep {
        if self.dec_pos == self.len {
            NextStep::Finish(ChunkOutcome::Done)
        } else if self.dec_pos > self.resume_from {
            self.after_failure(0)
        } else {
            self.after_failure(self.retries)
        }
    }

    fn count_failure(&mut self) -> (step: NextStep)
        requires
            old(self).retries <= MAX_STALL_RETRIES,
        ensures
            *final(self) == (ChunkDownload {
                retries: (old(self).retries + 1) as u32,
                ..*old(self)
            }),
            step == old(self).after_failure(old(self).retries),
    {
        self.retries += 1;
        if self.retries > MAX_STALL_RETRIES {
            NextStep::Finish(ChunkOutcome::Stalled { decrypted: self.dec_pos })
        } else {
            NextStep::Retry { wait: backoff(self.retries), retry: self.retries }
        }
    }

    /// The request was not answered.
    pub fn on_request_error(&mut self) -> (step: NextStep)
        requires
            old(self).wf(),
        ensures
            *final(self) == (ChunkDownload {
                retries: (old(self).retries + 1) as u32,
                ..*old(self)
            }),
            step == old(self).after_failure(old(self).retries),
            step is Retry ==> final(self).wf(),
    {
        self.count_failure()
    }

    /// The request was answered; what was downloaded and not decrypted comes again.
    pub fn on_response(&mut self)
        requires
            old(self).wf(),
        ensures
            *final(self) == (ChunkDownload {
                resume_from: old(self).dec_pos,
                dl_pos: old(self).dec_pos,
                ..*old(self)
            }),
            final(self).wf(),
    {
        self.resume_from = self.dec_pos;
        self.dl_pos = self.dec_pos;
    }

    /// `n` more bytes have come into `buf`, at the position up to which it was filled.
    /// Decrypts the whole blocks among those that are not decrypted yet, and says by
    /// how many bytes decryption got ahead.
    pub fn on_data(
        &mut self,
        n: usize,
        buf: &mut [u8],
        key: &[u8],
        tracker: &mut StateTracker<'_>,
    ) -> (advanced: usize)
        requires
            old(self).wf(),
            old(buf)@.len() == old(self).len,
            n <= old(self).len - old(self).dl_pos,
            key@.len() == 16,
            old(tracker).wf(),
        ensures
            advanced == whole_blocks(old(self).dl_pos + n - old(self).dec_pos),
            advanced % 16 == 0,
            advanced <= old(self).dl_pos + n - old(self).dec_pos < advanced + 16,
            *final(self) == (ChunkDownload {
                dl_pos: (old(self).dl_pos + n) as usize,
                dec_pos: (old(self).dec_pos + advanced) as usize,
                ..*old(self)
            }),
            final(self).wf(),
            final(buf)@ == old(buf)@.take(old(self).dec_pos as int) + ecb_decrypt(
                key@,
                old(buf)@.subrange(old(self).dec_pos as int, old(self).dl_pos + n),
            ) + old(buf)@.skip(old(self).dl_pos + n),
            marked(
                old(tracker).bitfield(),
                final(tracker).bitfield(),
                old(self).start + old(self).dec_pos,
                old(self).start + old(self).dec_pos + advanced,
                old(tracker).total_blocks as int,
                old(tracker).file_size as int,
            ),
            final(tracker).follows(*old(tracker)),
            final(final(tracker).footer)@ == final(old(tracker).footer)@,
    {
        self.dl_pos += n;
        let prev_dec: usize = self.dec_pos;
        let pending: usize = self.dl_pos - self.dec_pos;
        {
            let (head, rest) = buf.split_at_mut(prev_dec);
            let (fresh, tail) = rest.split_at_mut(pending);
            assert(fresh@ =~= old(buf)@.subrange(prev_dec as int, prev_dec + pending));
            decrypt_in_place(key, fresh);
        }
        let advanced: usize = pending / 16 * 16;
        self.dec_pos += advanced;
        tracker.on_bytes_decrypted(self.start, prev_dec, self.dec_pos);
        assert(buf@ =~= old(buf)@.take(old(self).dec_pos as int) + ecb_decrypt(
            key@,
            old(buf)@.subrange(old(self).dec_pos as int, old(self).dl_pos + n),
        ) + old(buf)@.skip(old(self).dl_pos + n));
        advanced
    }

    /// The connection has no more bytes.
    pub fn on_end(&self, tracker: &mut StateTracker<'_>) -> (outcome: ChunkOutcome)
        requires
            self.wf(),
            old(tracker).wf(),
        ensures
            outcome == ChunkOutcome::Done,
            marked(
                old(tracker).bitfield(),
                final(tracker).bitfield(),
                self.start + self.resume_from,
                self.start + self.dec_pos,
                old(tracker).total_blocks as int,
                old(tracker).file_size as int,
            ),
            final(tracker).follows(*old(tracker)),
            final(final(tracker).footer)@ == final(old(tracker).footer)@,
    {
        tracker.on_bytes_decrypted(self.start, self.resume_from, self.dec_pos);
        ChunkOutcome::Done
    }

    /// The connection broke off. A chunk that is decrypted to its end is done; progress
    /// since the last request makes this the first failure in a row.
    pub fn on_read_error(&mut self, tracker: &mut StateTracker<'_>) -> (step: NextStep)
        requires
            old(self).wf(),
            old(tracker).wf(),
        ensures
            step == old(self).after_read_error(),
            old(self).dec_pos == old(self).len ==> {
                &&& *final(self) == *old(self)
                &&& step == NextStep::Finish(ChunkOutcome::Done)
                &&& marked(
                    old(tracker).bitfield(),
                    final(tracker).bitfield(),
                    old(self).start + old(self).resume_from,
                    old(self).start + old(self).dec_pos,
                    old(tracker).total_blocks as int,
                    old(tracker).file_size as int,
                )
                &&& final(tracker).follows(*old(tracker))
                &&& final(final(tracker).footer)@ == final(old(tracker).footer)@
            },
            old(self).dec_pos != old(self).len ==> {
                let failures = if old(self).dec_pos > old(self).resume_from {
                    0
                } else {
                    old(self).retries
                };
                &&& *final(self) == (ChunkDownload {
                    retries: (failures + 1) as u32,
                    ..*old(self)
                })
                &&& step == old(self).after_failure(failures)
                &&& step is Retry ==> final(self).wf()
                &&& *final(tracker) == *old(tracker)
            },
    {
        if self.dec_pos == self.len {
            tracker.on_bytes_decrypted(self.start, self.resume_from, self.dec_pos);
            return NextStep::Finish(ChunkOutcome::Done);
        }
        if self.dec_pos > self.resume_from {
            self.retries = 0;
        }
        self.count_failure()
    }
}

impl ChunkDownload {
    /// `buf` holds of the encrypted chunk `source` what has come: decrypted as far as
    /// decryption got, and as it came from there on.
    pub open spec fn holds(self, key: Seq<u8>, source: Seq<u8>, buf: Seq<u8>) -> bool {
        &&& source.len() == self.len
        &&& buf.len() == self.len
        &&& buf.take(self.dec_pos as int) == ecb_decrypt(key, source.take(self.dec_pos as int))
        &&& buf.subrange(self.dec_pos as int, self.dl_pos as int) == source.subrange(
            self.dec_pos as int,
            self.dl_pos as int,
        )
    }
}

/// Data that comes is decrypted in its place: when `n` more bytes of the encrypted chunk
/// have come into `before`, `after` holds what has come.
pub proof fn data_is_decrypted(
    chunk: ChunkDownload,
    n: int,
    key: Seq<u8>,
    source: Seq<u8>,
    before: Seq<u8>,
    after: Seq<u8>,
)
    requires
        chunk.wf(),
        0 <= n <= chunk.len - chunk.dl_pos,
        chunk.holds(key, source, before),
        before.subrange(chunk.dl_pos as int, chunk.dl_pos + n) == source.subrange(
            chunk.dl_pos as int,
            chunk.dl_pos + n,
        ),
        after == before.take(chunk.dec_pos as int) + ecb_decrypt(
            key,
            before.subrange(chunk.dec_pos as int, chunk.dl_pos + n),
        ) + before.skip(chunk.dl_pos + n),
    ensures
        (ChunkDownload {
            dl_pos: (chunk.dl_pos + n) as usize,
            dec_pos: (chunk.dec_pos + whole_blocks(chunk.dl_pos + n - chunk.dec_pos)) as usize,
            ..chunk
        }).holds(key, source, after),
{
    let dec = chunk.dec_pos as int;
    let dl = chunk.dl_pos + n;
    let w = whole_blocks(dl - dec);
    let fresh = source.subrange(dec, dl);
    assert(before.subrange(dec, dl) =~= fresh) by {
        assert forall|i: int| dec <= i < dl implies before[i] == source[i] by {
            if i < chunk.dl_pos {
                assert(before.subrange(dec, chunk.dl_pos as int)[i - dec] == source.subrange(
                    dec,
                    chunk.dl_pos as int,
                )[i - dec]);
            } else {
                let from = chunk.dl_pos as int;
                assert(before.subrange(from, dl)[i - from] == source.subrange(from, dl)[i - from]);
            }
        }
    }
    ecb_decrypt_concat(key, fresh.take(w), fresh.skip(w));
    assert(fresh.take(w) + fresh.skip(w) =~= fresh);
    assert(ecb_decrypt(key, fresh.skip(w)) =~= fresh.skip(w));
    ecb_decrypt_concat(key, source.take(dec), fresh.take(w));
    assert(source.take(dec) + fresh.take(w) =~= source.take(dec + w));
    assert(after.take(dec + w) =~= before.take(dec) + ecb_decrypt(key, fresh.take(w)));
    assert(after.subrange(dec + w, dl) =~= fresh.skip(w));
    assert(source.subrange(dec + w, dl) =~= fresh.skip(w));
}

/// When a chunk is decrypted to its end, the buffer is the decrypted chunk.
pub proof fn finished_chunk_is_decrypted(
    chunk: ChunkDownload,
    key: Seq<u8>,
    source: Seq<u8>,
    buf: Seq<u8>,
)
    requires
        chunk.holds(key, source, buf),
        chunk.dec_pos == chunk.len,
    ensures
        buf == ecb_decrypt(key, source),
{
    assert(buf.take(chunk.len as int) =~= buf);
    assert(source.take(chunk.len as int) =~= source);
}

/// The first retry comes after a second, and each one after twice the time of the one
/// before, but never after more than 30 seconds.
pub proof fn backoff_doubles(attempt: int)
    requires
        attempt >= 1,
    ensures
        backoff_seconds(1) == 1,
        2 * backoff_seconds(attempt) <= 30 ==> backoff_seconds(attempt + 1) == 2
            * backoff_seconds(attempt),
        2 * backoff_seconds(attempt) > 30 ==> backoff_seconds(attempt + 1) == 30,
{
}

/// Four failures in a row are followed by a retry each, and the fifth ends the chunk,
/// which then is decrypted as far as it was.
pub proof fn fifth_failure_ends_chunk(chunk: ChunkDownload, failures: u32)
    requires
        failures <= 4,
    ensures
        failures < 4 ==> (chunk.after_failure(failures) matches NextStep::Retry { wait, retry }
            && retry == failures + 1 && wait == backoff_seconds(failures + 1)),
        failures == 4 ==> chunk.after_failure(failures) == NextStep::Finish(
            ChunkOutcome::Stalled { decrypted: chunk.dec_pos },
        ),
{
}

/// What a connection that breaks off leads to: a chunk that is decrypted to its end is done.
/// Where there was progress since the last request, the next request comes after a second,
/// as after a first failure. Without progress the failures are counted, and the fifth in a
/// row hands the chunk back, decrypted as far as it is.
pub proof fn broken_connection_is_retried(chunk: ChunkDownload)
    requires
        chunk.wf(),
    ensures
        chunk.dec_pos == chunk.len ==> chunk.after_read_error() == NextStep::Finish(
            ChunkOutcome::Done,
        ),
        chunk.resume_from < chunk.dec_pos < chunk.len ==> chunk.after_read_error()
            == (NextStep::Retry { wait: 1, retry: 1 }),
        chunk.resume_from == chunk.dec_pos < chunk.len && chunk.retries < 4 ==> (
        chunk.after_read_error() matches NextStep::Retry { retry, .. } && retry == chunk.retries
            + 1),
        chunk.resume_from == chunk.dec_pos < chunk.len && chunk.retries == 4
            ==> chunk.after_read_error() == NextStep::Finish(
            ChunkOutcome::Stalled { decrypted: chunk.dec_pos },
        ),
{
}

} // verus!
