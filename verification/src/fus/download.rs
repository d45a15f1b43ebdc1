//! Planning a download: what is missing, how it is shared out, and how long the
//! finished file is.

use std::collections::VecDeque;
use vstd::prelude::*;

use crate::fus::bits::{block_done, block_is_bit};
use crate::fus::cipher::{ecb_decrypt, whole_blocks};
use crate::fus::cover::{
    aligned, bytes_done, completed_bytes_are_counted, covers, ends_with_blocks, in_order,
    missing_bytes_are_covered,
    partition_keeps_bytes, pieces_are_even, pieces_lie_in_order, uncompleted_ranges_are_in_order,
};
use crate::fus::footer::{bitfield_bytes, block_count, ParsedFooter, BLOCK_SIZE};
use crate::fus::pool::Chunk;
use crate::fus::ranges::{
    calculate_completed_bytes, completed_bytes, extract_uncompleted_ranges, is_uncompleted,
    partition_ranges_for_threads, range_total, range_total_is_positive, thread_ranges, ByteRange,
};

verus! {

/// Reports the progress of a download.
pub trait DownloadProgress: Send + Sync {
    /// Sets the total length.
    fn set_length(&self, len: u64);

    /// Sets the position, as when a download is resumed.
    fn set_position(&self, pos: u64);

    /// Moves the position on by `bytes`.
    fn inc(&self, bytes: u64);

    /// The position, in bytes.
    fn position(&self) -> u64;

    /// Shows a message.
    fn println(&self, msg: &str);

    /// Shows a message that is of interest to few.
    fn println_verbose(&self, msg: &str);
}

/// Reports nothing.
impl DownloadProgress for () {
    fn set_length(&self, _len: u64) {
    }

    fn set_position(&self, _pos: u64) {
    }

    fn inc(&self, _bytes: u64) {
    }

    fn position(&self) -> (pos: u64)
        ensures
            pos == 0,
    {
        0
    }

    fn println(&self, _msg: &str) {
    }

    fn println_verbose(&self, _msg: &str) {
    }
}

/// How to download.
#[derive(Debug, Clone, Copy)]
pub struct DownloadOptions {
    /// Number of connections.
    pub threads: u64,
    /// Start over, whatever is there.
    pub force: bool,
}

impl Default for DownloadOptions {
    fn default() -> (options: DownloadOptions)
        ensures
            options.threads == 8,
            !options.force,
    {
        DownloadOptions { threads: 8, force: false }
    }
}

/// A file of `len` bytes can be a finished download of `size` bytes: at most one
/// block of padding has gone.
pub open spec fn is_finished_length(size: int, len: int) -> bool {
    size - 16 <= len <= size
}

/// Whether a file of `len` bytes can be a finished download of `size` bytes.
pub fn is_complete(size: u64, len: u64) -> (complete: bool)
    ensures
        complete == is_finished_length(size as int, len as int),
        complete <==> size <= len + 16 && len <= size,
{
    size.saturating_sub(16) <= len && len <= size
}

/// How a download starts.
#[derive(Debug, Clone, Copy, PartialEq, Eq)]
pub enum Start {
    /// What is there is removed first.
    Anew,
    /// The finished file is there already.
    AlreadyComplete,
    /// What is there of the file is kept.
    GoOn,
}

/// How a download of `size` bytes starts where a file of `finished_len` bytes is there
/// under the final name, or none.
pub fn decide_start(force: bool, finished_len: Option<u64>, size: u64) -> (start: Start)
    ensures
        start == (if force {
            Start::Anew
        } else if finished_len matches Some(len) && is_finished_length(size as int, len as int) {
            Start::AlreadyComplete
        } else {
            Start::GoOn
        }),
        force <==> start == Start::Anew,
        start == Start::AlreadyComplete <==> !force && (finished_len matches Some(len) && size <= len
            + 16 && len <= size),
{
    if force {
        return Start::Anew;
    }
    match finished_len {
        Some(len) => if is_complete(size, len) {
            Start::AlreadyComplete
        } else {
            Start::GoOn
        },
        None => Start::GoOn,
    }
}

/// The bytes of padding that a last byte of `last_byte` stands for.
pub open spec fn padding(last_byte: u8) -> int {
    if 1 <= last_byte <= 16 {
        last_byte as int
    } else {
        0
    }
}

/// The length of a finished download of `size` bytes whose last byte is `last_byte`.
pub fn final_length(size: u64, last_byte: u8) -> (len: u64)
    requires
        padding(last_byte) <= size,
    ensures
        len == size - padding(last_byte),
        1 <= last_byte <= 16 ==> len == size - last_byte,
        last_byte == 0 || last_byte > 16 ==> len == size,
{
    let padding: u64 = if last_byte > 0 && last_byte <= 16 {
        last_byte as u64
    } else {
        0
    };
    size - padding
}

/// A finished download is recognised as complete, whatever its padding.
pub proof fn finished_download_is_complete(size: u64, last_byte: u8)
    requires
        padding(last_byte) <= size,
    ensures
        is_finished_length(size as int, size - padding(last_byte)),
{
}

/// What is still to be done of a download.
pub struct DownloadPlan {
    /// Bytes that are already there.
    pub position: u64,
    /// What each connection fetches, in turn.
    pub chunks: Vec<ByteRange>,
    /// Number of connections.
    pub workers: usize,
}

/// `footer` is the footer of a partial download of `size` bytes.
pub open spec fn footer_fits(footer: ParsedFooter, size: u64) -> bool {
    &&& footer.num_blocks == block_count(size as int)
    &&& footer.bitfield@.len() == bitfield_bytes(block_count(size as int))
}

/// The bytes that are there of a download with the given footer, if it has one.
pub open spec fn bytes_there(existing: Option<ParsedFooter>, size: u64) -> int {
    match existing {
        Some(footer) => completed_bytes(
            footer.bitfield@,
            block_count(size as int) as nat,
            size as int,
        ),
        None => 0,
    }
}

/// `ranges` are the bytes that are missing from a download with the given footer, if
/// it has one.
pub open spec fn is_missing(
    existing: Option<ParsedFooter>,
    size: u64,
    ranges: Seq<ByteRange>,
) -> bool {
    match existing {
        Some(footer) => is_uncompleted(
            footer.bitfield@,
            block_count(size as int),
            size,
            ranges,
        ),
        None => ranges == seq![ByteRange { start: 0, end: size }],
    }
}

/// Byte `p` is there of a download with the given footer, if it has one.
pub open spec fn is_there(existing: Option<ParsedFooter>, p: int) -> bool {
    existing matches Some(footer) && block_done(footer.bitfield@, p / (BLOCK_SIZE as int))
}

proof fn missing_chunks_end_with_blocks(
    existing: Option<ParsedFooter>,
    size: u64,
    chunks: Seq<ByteRange>,
)
    requires
        in_order(chunks),
        aligned(chunks),
        forall|i: int| 0 <= i < chunks.len() ==> (#[trigger] chunks[i]).end <= size,
        forall|p: int|
            0 <= p < size ==> (#[trigger] covers(chunks, p) <==> !is_there(existing, p)),
    ensures
        ends_with_blocks(chunks, size as int),
{
    assert forall|i: int| 0 <= i < chunks.len() implies (#[trigger] chunks[i]).end == size
        || chunks[i].end as int % (BLOCK_SIZE as int) == 0 by {
        let end = chunks[i].end as int;
        if end < size && end % (BLOCK_SIZE as int) != 0 {
            assert(chunks[i].start <= end - 1 < chunks[i].end);
            assert(covers(chunks, end - 1));
            assert((end - 1) / (BLOCK_SIZE as int) == end / (BLOCK_SIZE as int));
            assert(covers(chunks, end));
            let j = choose|j: int|
                0 <= j < chunks.len() && (#[trigger] chunks[j]).start <= end < chunks[j].end;
            if j < i {
                assert(chunks[j].end <= chunks[i].start);
            } else if i < j {
                assert(chunks[i].end <= chunks[j].start);
            }
        }
    }
}

impl DownloadPlan {
    /// Plans a download of `size` bytes by `threads` connections: from the start, or from
    /// where the partial download with the footer `existing` stopped.
    pub fn new(existing: &Option<ParsedFooter>, size: u64, threads: u64) -> (plan: DownloadPlan)
        requires
            size > 0,
            block_count(size as int) <= usize::MAX,
            existing matches Some(footer) ==> footer_fits(*footer, size),
            threads > 0 || bytes_there(*existing, size) == size,
        ensures
            plan.position == bytes_there(*existing, size),
            exists|ranges: Seq<ByteRange>| #[trigger]
                is_missing(*existing, size, ranges) && plan.chunks@ == thread_ranges(
                    ranges,
                    threads as int,
                ) && range_total(ranges) == size - plan.position,
            plan.workers == if plan.chunks@.len() < threads {
                plan.chunks@.len() as int
            } else {
                threads as int
            },
            in_order(plan.chunks@),
            aligned(plan.chunks@),
            ends_with_blocks(plan.chunks@, size as int),
            forall|i: int|
                0 <= i < plan.chunks@.len() ==> (#[trigger] plan.chunks@[i]).end <= size,
            forall|p: int|
                0 <= p < size ==> (#[trigger] covers(plan.chunks@, p) <==> !is_there(
                    *existing,
                    p,
                )),
            plan.chunks@.len() == 0 <==> plan.position == size,
    {
        let (position, ranges): (u64, Vec<ByteRange>) = match existing {
            Some(footer) => Self::resume(footer, size),
            None => {
                let ranges: Vec<ByteRange> = vec![ByteRange { start: 0, end: size }];
                assert(ranges@ =~= seq![ByteRange { start: 0, end: size }]);
                assert(ranges@.drop_last() =~= Seq::empty());
                assert(range_total(ranges@.drop_last()) == 0);
                (0, ranges)
            },
        };
        assert(is_missing(*existing, size, ranges@));
        proof {
            range_total_is_positive(ranges@);
            pieces_lie_in_order(ranges@, threads as int, size as int);
            assert forall|p: int| 0 <= p < size implies (#[trigger] covers(
                thread_ranges(ranges@, threads as int),
                p,
            ) <==> !is_there(*existing, p)) by {
                partition_keeps_bytes(ranges@, threads as int, p);
                match *existing {
                    Some(footer) => {
                        missing_bytes_are_covered(footer.bitfield@, size, ranges@, p);
                    },
                    None => {
                        assert(ranges@[0].start <= p < ranges@[0].end);
                    },
                }
            }
            assert(aligned(thread_ranges(ranges@, threads as int))) by {
                assert forall|i: int|
                    0 <= i < thread_ranges(ranges@, threads as int).len() implies (
                #[trigger] thread_ranges(ranges@, threads as int)[i]).start as int % (
                BLOCK_SIZE as int) == 0 by {
                    pieces_are_even(ranges@, threads as int, i);
                }
            }
        }
        let chunks: Vec<ByteRange> = partition_ranges_for_threads(ranges.as_slice(), threads);
        proof {
            missing_chunks_end_with_blocks(*existing, size, chunks@);
        }
        let workers: usize = if (chunks.len() as u64) < threads {
            chunks.len()
        } else {
            threads as usize
        };
        DownloadPlan { position, chunks, workers }
    }

    fn resume(footer: &ParsedFooter, size: u64) -> (found: (u64, Vec<ByteRange>))
        requires
            size > 0,
            footer_fits(*footer, size),
        ensures
            found.0 == completed_bytes(
                footer.bitfield@,
                block_count(size as int) as nat,
                size as int,
            ),
            is_uncompleted(footer.bitfield@, block_count(size as int), size, found.1@),
            in_order(found.1@),
            aligned(found.1@),
            forall|i: int| 0 <= i < found.1@.len() ==> (#[trigger] found.1@[i]).end <= size,
            found.0 + range_total(found.1@) == size,
    {
        let bitfield: &[u8] = footer.bitfield.as_slice();
        let ranges: Vec<ByteRange> = extract_uncompleted_ranges(
            bitfield,
            footer.num_blocks,
            size,
        );
        proof {
            uncompleted_ranges_are_in_order(footer.bitfield@, size, ranges@);
            range_total_is_positive(ranges@);
        }
        let position: u64 = calculate_completed_bytes(bitfield, footer.num_blocks, size);
        (position, ranges)
    }
}

/// The last byte to request of a chunk that ends at `end`: none where the file ends
/// there.
pub open spec fn last_requested(end: u64, size: int) -> Option<u64> {
    if end == size {
        None
    } else {
        Some((end - 1) as u64)
    }
}

/// The payload up to the end of the first `k` chunks, where `filled` is what the chunks
/// hold; what lies between chunks stays.
pub open spec fn reassembled(
    payload: Seq<u8>,
    chunks: Seq<ByteRange>,
    filled: Seq<Seq<u8>>,
    k: nat,
) -> Seq<u8>
    decreases k,
{
    if k == 0 {
        Seq::empty()
    } else {
        reassembled(payload, chunks, filled, (k - 1) as nat) + payload.subrange(
            chunks_end(chunks, k - 1),
            chunks[k - 1].start as int,
        ) + filled[k - 1]
    }
}

/// Where the first `k` chunks end.
pub open spec fn chunks_end(chunks: Seq<ByteRange>, k: int) -> int {
    if k == 0 {
        0
    } else {
        chunks[k - 1].end as int
    }
}

/// The payload when `filled` is what its chunks hold.
pub open spec fn finished_payload(
    payload: Seq<u8>,
    chunks: Seq<ByteRange>,
    filled: Seq<Seq<u8>>,
) -> Seq<u8> {
    reassembled(payload, chunks, filled, chunks.len()) + payload.skip(
        chunks_end(chunks, chunks.len() as int),
    )
}

proof fn reassembled_prefix(
    payload: Seq<u8>,
    chunks: Seq<ByteRange>,
    a: Seq<Seq<u8>>,
    b: Seq<Seq<u8>>,
    k: nat,
)
    requires
        forall|i: int| 0 <= i < k ==> #[trigger] a[i] == b[i],
    ensures
        reassembled(payload, chunks, a, k) == reassembled(payload, chunks, b, k),
    decreases k,
{
    if k > 0 {
        reassembled_prefix(payload, chunks, a, b, (k - 1) as nat);
        assert(a[k - 1] == b[k - 1]);
    }
}

/// Cuts the payload into the chunks that connections fill.
pub fn split_payload<'a>(payload: &'a mut [u8], chunks: &[ByteRange]) -> (queue: VecDeque<
    Chunk<'a>,
>)
    requires
        in_order(chunks@),
        forall|i: int| 0 <= i < chunks@.len() ==> (#[trigger] chunks@[i]).end <= old(payload)@.len(),
    ensures
        queue@.len() == chunks@.len(),
        forall|i: int|
            0 <= i < chunks@.len() ==> {
                &&& (#[trigger] queue@[i]).start == chunks@[i].start
                &&& queue@[i].end == last_requested(chunks@[i].end, old(payload)@.len() as int)
                &&& queue@[i].end is None <==> chunks@[i].end == old(payload)@.len()
                &&& queue@[i].end matches Some(last) ==> last + 1 == chunks@[i].end
                &&& queue@[i].buf@ == old(payload)@.subrange(
                    chunks@[i].start as int,
                    chunks@[i].end as int,
                )
            },
        final(payload)@ == finished_payload(
            old(payload)@,
            chunks@,
            Seq::new(queue@.len(), |i: int| final(queue@[i].buf)@),
        ),
{
    let size: usize = payload.len();
    let ghost whole = payload@;
    let mut queue: VecDeque<Chunk<'a>> = VecDeque::new();
    let mut rest = payload;
    let mut current_offset: u64 = 0;
    let mut i: usize = 0;
    while i < chunks.len()
        invariant
            i <= chunks@.len(),
            in_order(chunks@),
            size == whole.len(),
            forall|k: int| 0 <= k < chunks@.len() ==> (#[trigger] chunks@[k]).end <= size,
            current_offset <= size,
            i < chunks@.len() ==> current_offset <= chunks@[i as int].start,
            rest@ == whole.skip(current_offset as int),
            current_offset == chunks_end(chunks@, i as int),
            final(payload)@ == reassembled(
                whole,
                chunks@,
                Seq::new(queue@.len(), |k: int| final(queue@[k].buf)@),
                i as nat,
            ) + final(rest)@,
            queue@.len() == i,
            forall|k: int|
                0 <= k < i ==> {
                    &&& (#[trigger] queue@[k]).start == chunks@[k].start
                    &&& queue@[k].end == last_requested(chunks@[k].end, size as int)
                    &&& queue@[k].buf@ == whole.subrange(
                        chunks@[k].start as int,
                        chunks@[k].end as int,
                    )
                },
        decreases chunks@.len() - i,
    {
        let range: ByteRange = chunks[i];
        assert(chunks@[i as int].start < chunks@[i as int].end);
        let skip: usize = (range.start - current_offset) as usize;
        let (_done, tail) = rest.split_at_mut(skip);
        let len: usize = (range.end - range.start) as usize;
        let (buf, next_rest) = tail.split_at_mut(len);
        assert(buf@ =~= whole.subrange(range.start as int, range.end as int));
        assert(next_rest@ =~= whole.skip(range.end as int));
        current_offset = range.end;
        rest = next_rest;
        let end: Option<u64> = if range.end == size as u64 {
            None
        } else {
            Some(range.end - 1)
        };
        let ghost before = queue@;
        queue.push_back(Chunk { buf, start: range.start, end });
        proof {
            reassembled_prefix(
                whole,
                chunks@,
                Seq::new(before.len(), |k: int| final(before[k].buf)@),
                Seq::new(queue@.len(), |k: int| final(queue@[k].buf)@),
                i as nat,
            );
        }
        i += 1;
    }
    queue
}

proof fn part_is_decrypted(key: Seq<u8>, source: Seq<u8>, start: int, end: int, p: int)
    requires
        0 <= start <= p < end <= source.len(),
        start % 16 == 0,
        end == source.len() || end % 16 == 0,
    ensures
        ecb_decrypt(key, source.subrange(start, end))[p - start] == ecb_decrypt(key, source)[p],
{
    let part = source.subrange(start, end);
    let i = p - start;
    assert(p / 16 * 16 == start + i / 16 * 16);
    if i < whole_blocks(part.len() as int) {
        assert(part.subrange(i / 16 * 16, i / 16 * 16 + 16) =~= source.subrange(
            p / 16 * 16,
            p / 16 * 16 + 16,
        ));
    }
}

proof fn gap_is_not_covered(chunks: Seq<ByteRange>, n: int, p: int)
    requires
        in_order(chunks),
        0 <= n < chunks.len(),
        chunks_end(chunks, n) <= p < chunks[n].start,
    ensures
        !covers(chunks, p),
{
    if covers(chunks, p) {
        let i = choose|i: int|
            0 <= i < chunks.len() && (#[trigger] chunks[i]).start <= p < chunks[i].end;
        if i < n - 1 {
            assert(chunks[i].end <= chunks[n - 1].start);
            assert(chunks[n - 1].start < chunks[n - 1].end);
        } else if i > n {
            assert(chunks[n].end <= chunks[i].start);
            assert(chunks[n].start < chunks[n].end);
        }
    }
}

#[verifier::rlimit(40)]
#[verifier::spinoff_prover]
proof fn reassembled_is_decrypted(
    payload: Seq<u8>,
    key: Seq<u8>,
    source: Seq<u8>,
    chunks: Seq<ByteRange>,
    filled: Seq<Seq<u8>>,
    k: nat,
)
    requires
        k <= chunks.len(),
        are_downloaded(payload, key, source, chunks, filled),
    ensures
        reassembled(payload, chunks, filled, k).len() == chunks_end(chunks, k as int),
        chunks_end(chunks, k as int) <= payload.len(),
        forall|p: int|
            0 <= p < chunks_end(chunks, k as int) ==> #[trigger] reassembled(
                payload,
                chunks,
                filled,
                k,
            )[p] == (if covers(chunks, p) {
                ecb_decrypt(key, source)[p]
            } else {
                payload[p]
            }),
    decreases k,
{
    if k > 0 {
        let n = (k - 1) as nat;
        let chunk = chunks[n as int];
        let from = chunks_end(chunks, n as int);
        let before = reassembled(payload, chunks, filled, n);
        let all = reassembled(payload, chunks, filled, k);
        reassembled_is_decrypted(payload, key, source, chunks, filled, n);
        if n > 0 {
            assert(chunks[n - 1].end <= chunk.start);
        }
        assert(filled[n as int].len() == chunk.end - chunk.start);
        assert forall|p: int| 0 <= p < chunk.end implies #[trigger] all[p] == (if covers(
            chunks,
            p,
        ) {
            ecb_decrypt(key, source)[p]
        } else {
            payload[p]
        }) by {
            if p < from {
                assert(all[p] == before[p]);
            } else if p < chunk.start {
                assert(all[p] == payload[p]);
                gap_is_not_covered(chunks, n as int, p);
            } else {
                assert(chunks[n as int].start <= p < chunks[n as int].end);
                assert(all[p] == filled[n as int][p - chunk.start]);
                part_is_decrypted(key, source, chunk.start as int, chunk.end as int, p);
            }
        }
    }
}

/// The chunks of a file, as the server has it in `source`, have been downloaded and
/// decrypted, each on its own; `filled` is what they hold, and `payload` what was there.
pub open spec fn are_downloaded(
    payload: Seq<u8>,
    key: Seq<u8>,
    source: Seq<u8>,
    chunks: Seq<ByteRange>,
    filled: Seq<Seq<u8>>,
) -> bool {
    &&& payload.len() == source.len()
    &&& in_order(chunks)
    &&& aligned(chunks)
    &&& ends_with_blocks(chunks, source.len() as int)
    &&& forall|i: int| 0 <= i < chunks.len() ==> (#[trigger] chunks[i]).end <= source.len()
    &&& forall|i: int|
        0 <= i < chunks.len() ==> #[trigger] filled[i] == ecb_decrypt(
            key,
            source.subrange(chunks[i].start as int, chunks[i].end as int),
        )
}

/// When all chunks have been downloaded, the payload holds the decrypted file wherever
/// there is a chunk, as if the file had been decrypted in one go; everything else is as
/// it was.
pub proof fn chunks_are_decrypted(
    payload: Seq<u8>,
    key: Seq<u8>,
    source: Seq<u8>,
    chunks: Seq<ByteRange>,
    filled: Seq<Seq<u8>>,
)
    requires
        are_downloaded(payload, key, source, chunks, filled),
    ensures
        finished_payload(payload, chunks, filled).len() == payload.len(),
        forall|p: int|
            0 <= p < payload.len() ==> #[trigger] finished_payload(payload, chunks, filled)[p]
                == (if covers(chunks, p) {
                ecb_decrypt(key, source)[p]
            } else {
                payload[p]
            }),
{
    let n = chunks.len() as int;
    let end = chunks_end(chunks, n);
    reassembled_is_decrypted(payload, key, source, chunks, filled, chunks.len());
    assert forall|p: int| end <= p < payload.len() implies !covers(chunks, p) by {
        if covers(chunks, p) {
            let i = choose|i: int|
                0 <= i < chunks.len() && (#[trigger] chunks[i]).start <= p < chunks[i].end;
            if i < n - 1 {
                assert(chunks[i].end <= chunks[n - 1].start);
            }
        }
    }
}

/// Where the bytes that were there are decrypted ones, and all that were missing have
/// been downloaded, the payload is the decrypted file.
pub proof fn finished_download_is_decrypted(
    existing: Option<ParsedFooter>,
    payload: Seq<u8>,
    key: Seq<u8>,
    source: Seq<u8>,
    chunks: Seq<ByteRange>,
    filled: Seq<Seq<u8>>,
)
    requires
        are_downloaded(payload, key, source, chunks, filled),
        forall|p: int|
            0 <= p < source.len() ==> (#[trigger] covers(chunks, p) <==> !is_there(existing, p)),
        forall|p: int|
            0 <= p < source.len() && #[trigger] is_there(existing, p) ==> payload[p]
                == ecb_decrypt(key, source)[p],
    ensures
        finished_payload(payload, chunks, filled) == ecb_decrypt(key, source),
{
    chunks_are_decrypted(payload, key, source, chunks, filled);
    let whole = finished_payload(payload, chunks, filled);
    assert forall|p: int| 0 <= p < source.len() implies whole[p] == ecb_decrypt(
        key,
        source,
    )[p] by {
        assert(covers(chunks, p) <==> !is_there(existing, p));
    }
    assert(whole =~= ecb_decrypt(key, source));
}

/// A byte is there of a partial download if and only if the bit of its block of 2 MiB is set
/// in the footer; nothing is there of a download without a footer. The bytes that are there
/// are counted.
pub proof fn there_is_what_footer_says(footer: ParsedFooter, size: u64, p: int)
    requires
        footer_fits(footer, size),
        0 <= p < size,
    ensures
        is_there(Some(footer), p) <==> footer.bitfield@[p / 2097152 / 8] & (1u8 << ((p / 2097152
            % 8) as u8)) != 0,
        !is_there(None, p),
        bytes_there(Some(footer), size) == bytes_done(footer.bitfield@, size as nat),
        bytes_there(None, size) == 0,
{
    block_is_bit(footer.bitfield@, p / 2097152);
    completed_bytes_are_counted(footer.bitfield@, size as int);
}

/// Which lengths a finished download can have: up to 16 bytes less than the encrypted file,
/// and never more.
pub proof fn finished_lengths(size: int, len: int)
    ensures
        is_finished_length(size, len) <==> 0 <= size - len <= 16,
{
}

/// What the last byte says of the padding: from 1 to 16 it is the number of bytes to leave
/// out, and any other value stands for none.
pub proof fn last_byte_is_padding(last_byte: u8)
    ensures
        0 <= padding(last_byte) <= 16,
        last_byte == 0 || last_byte > 16 ==> padding(last_byte) == 0,
        0 < last_byte <= 16 ==> padding(last_byte) == last_byte,
{
}

/// A chunk that ends with the file is requested to its end; any other one up to its last
/// byte, which is the one before the next chunk begins.
pub proof fn request_ends_before_next_chunk(end: u64, size: int)
    requires
        0 < end <= size,
    ensures
        last_requested(end, size) is None <==> end == size,
        last_requested(end, size) matches Some(last) ==> last + 1 == end,
{
}

} // verus!
