//! Which bytes of a download are complete, which are not, and how the latter are
//! shared out among connections.

use vstd::prelude::*;

use crate::fus::bits::{block_done, is_block_done};
use crate::fus::footer::BLOCK_SIZE;

verus! {

/// The bytes from `start` up to, not including, `end`.
#[derive(Debug, Clone, Copy, PartialEq, Eq)]
pub struct ByteRange {
    /// First byte.
    pub start: u64,
    /// One past the last byte.
    pub end: u64,
}

/// The length of block `blk` of a file of `total` bytes in `blocks` blocks.
pub open spec fn block_len(blk: int, blocks: int, total: int) -> int {
    if blk == blocks - 1 {
        total - blk * BLOCK_SIZE
    } else {
        BLOCK_SIZE as int
    }
}

/// The bytes of the complete blocks among the first `k`.
pub open spec fn completed_below(bitfield: Seq<u8>, k: nat, blocks: int, total: int) -> int
    decreases k,
{
    if k == 0 {
        0
    } else {
        completed_below(bitfield, (k - 1) as nat, blocks, total) + if block_done(
            bitfield,
            k - 1,
        ) {
            block_len(k - 1, blocks, total)
        } else {
            0
        }
    }
}

/// The bytes of all complete blocks.
pub open spec fn completed_bytes(bitfield: Seq<u8>, blocks: nat, total: int) -> int {
    completed_below(bitfield, blocks, blocks as int, total)
}

/// The number of bytes in `ranges`.
pub open spec fn range_total(ranges: Seq<ByteRange>) -> int
    decreases ranges.len(),
{
    if ranges.len() == 0 {
        0
    } else {
        range_total(ranges.drop_last()) + (ranges.last().end - ranges.last().start)
    }
}

/// Blocks `a..b` are a maximal run of blocks that are not complete.
pub open spec fn is_run(bitfield: Seq<u8>, blocks: int, a: int, b: int) -> bool {
    &&& 0 <= a < b <= blocks
    &&& forall|k: int| a <= k < b ==> !#[trigger] block_done(bitfield, k)
    &&& a == 0 || block_done(bitfield, a - 1)
    &&& b == blocks || block_done(bitfield, b)
}

/// The bytes of blocks `a..b`; the last block ends with the file.
pub open spec fn run_range(a: int, b: int, blocks: int, total: u64) -> ByteRange {
    ByteRange {
        start: (a * BLOCK_SIZE) as u64,
        end: if b == blocks {
            total
        } else {
            (b * BLOCK_SIZE) as u64
        },
    }
}

/// `range` is the bytes of a maximal run of blocks that are not complete.
pub open spec fn is_run_range(
    bitfield: Seq<u8>,
    blocks: int,
    total: u64,
    range: ByteRange,
) -> bool {
    exists|a: int, b: int| #[trigger]
        is_run(bitfield, blocks, a, b) && range == run_range(a, b, blocks, total)
}

/// `ranges` are the bytes that are still to be downloaded: one range for each maximal
/// run of blocks that are not complete, in ascending order.
pub open spec fn is_uncompleted(
    bitfield: Seq<u8>,
    blocks: int,
    total: u64,
    ranges: Seq<ByteRange>,
) -> bool {
    &&& forall|i: int|
        0 <= i < ranges.len() ==> is_run_range(bitfield, blocks, total, #[trigger] ranges[i])
    &&& forall|i: int, j: int|
        0 <= i < j < ranges.len() ==> (#[trigger] ranges[i]).start < (#[trigger] ranges[j]).start
    &&& forall|a: int, b: int| #[trigger]
        is_run(bitfield, blocks, a, b) ==> ranges.contains(run_range(a, b, blocks, total))
}

proof fn completed_below_monotonic(bitfield: Seq<u8>, j: nat, k: nat, blocks: int, total: int)
    requires
        j <= k <= blocks,
        blocks > 0 && block_done(bitfield, blocks - 1) ==> (blocks - 1) * BLOCK_SIZE <= total,
    ensures
        completed_below(bitfield, j, blocks, total) <= completed_below(bitfield, k, blocks, total),
    decreases k - j,
{
    if j < k {
        completed_below_monotonic(bitfield, j, (k - 1) as nat, blocks, total);
    }
}

/// The number of bytes that are already downloaded.
pub fn calculate_completed_bytes(bitfield: &[u8], num_blocks: usize, total_size: u64) -> (total:
    u64)
    requires
        num_blocks <= 8 * bitfield@.len(),
        num_blocks > 0 && block_done(bitfield@, num_blocks - 1) ==> (num_blocks - 1) * BLOCK_SIZE
            <= total_size,
        completed_bytes(bitfield@, num_blocks as nat, total_size as int) <= u64::MAX,
    ensures
        total == completed_bytes(bitfield@, num_blocks as nat, total_size as int),
{
    let mut total: u64 = 0;
    let mut blk: usize = 0;
    while blk < num_blocks
        invariant
            blk <= num_blocks <= 8 * bitfield@.len(),
            num_blocks > 0 && block_done(bitfield@, num_blocks - 1) ==> (num_blocks - 1)
                * BLOCK_SIZE <= total_size,
            completed_bytes(bitfield@, num_blocks as nat, total_size as int) <= u64::MAX,
            total == completed_below(
                bitfield@,
                blk as nat,
                num_blocks as int,
                total_size as int,
            ),
        decreases num_blocks - blk,
    {
        if is_block_done(bitfield, blk) {
            proof {
                completed_below_monotonic(
                    bitfield@,
                    (blk + 1) as nat,
                    num_blocks as nat,
                    num_blocks as int,
                    total_size as int,
                );
            }
            let blk_size: u64 = if blk == num_blocks - 1 {
                total_size - (blk as u64 * BLOCK_SIZE as u64)
            } else {
                BLOCK_SIZE as u64
            };
            total += blk_size;
        }
        blk += 1;
    }
    total
}

/// The ranges of bytes that are still to be downloaded.
pub fn extract_uncompleted_ranges(bitfield: &[u8], num_blocks: usize, total_size: u64) -> (ranges:
    Vec<ByteRange>)
    requires
        num_blocks <= 8 * bitfield@.len(),
        (num_blocks - 1) * BLOCK_SIZE <= u64::MAX,
    ensures
        is_uncompleted(bitfield@, num_blocks as int, total_size, ranges@),
        (num_blocks - 1) * BLOCK_SIZE <= total_size && (num_blocks == 0 ==> total_size == 0)
            ==> range_total(ranges@) + completed_bytes(
            bitfield@,
            num_blocks as nat,
            total_size as int,
        ) == total_size,
{
    let mut ranges: Vec<ByteRange> = Vec::new();
    let mut run_start: Option<usize> = None;
    let ghost blocks = num_blocks as int;

    let mut blk: usize = 0;
    while blk < num_blocks
        invariant
            blk <= num_blocks <= 8 * bitfield@.len(),
            (num_blocks - 1) * BLOCK_SIZE <= u64::MAX,
            blocks == num_blocks,
            forall|i: int|
                0 <= i < ranges@.len() ==> {
                    &&& is_run_range(bitfield@, blocks, total_size, #[trigger] ranges@[i])
                    &&& ranges@[i].start < blk * BLOCK_SIZE
                    &&& run_start is Some ==> ranges@[i].start < run_start->0 * BLOCK_SIZE
                },
            forall|i: int, j: int|
                0 <= i < j < ranges@.len() ==> (#[trigger] ranges@[i]).start < (
                #[trigger] ranges@[j]).start,
            forall|a: int, b: int|
                b < blk && #[trigger] is_run(bitfield@, blocks, a, b) ==> ranges@.contains(
                    run_range(a, b, blocks, total_size),
                ),
            run_start matches Some(s) ==> {
                &&& s < blk
                &&& forall|k: int| s <= k < blk ==> !#[trigger] block_done(bitfield@, k)
                &&& s == 0 || block_done(bitfield@, s - 1)
            },
            run_start is None ==> blk == 0 || block_done(bitfield@, blk - 1),
            blk < num_blocks ==> range_total(ranges@) + completed_below(
                bitfield@,
                blk as nat,
                blocks,
                total_size as int,
            ) == (if run_start is Some {
                run_start->0 * BLOCK_SIZE
            } else {
                blk * BLOCK_SIZE
            }),
            blk == num_blocks && num_blocks > 0 ==> range_total(ranges@) + completed_below(
                bitfield@,
                blk as nat,
                blocks,
                total_size as int,
            ) == (if run_start is Some {
                run_start->0 * BLOCK_SIZE
            } else {
                total_size as int
            }),
        decreases num_blocks - blk,
    {
        let ghost before = ranges@;
        if !is_block_done(bitfield, blk) {
            if run_start.is_none() {
                run_start = Some(blk);
            }
            assert forall|a: int, b: int|
                b < blk + 1 && #[trigger] is_run(bitfield@, blocks, a, b) implies ranges@.contains(
                run_range(a, b, blocks, total_size),
            ) by {
                if b == blk {
                    assert(block_done(bitfield@, b));
                }
            }
        } else {
            if let Some(start_blk) = run_start {
                let start: u64 = start_blk as u64 * BLOCK_SIZE as u64;
                let end: u64 = blk as u64 * BLOCK_SIZE as u64;
                let range = ByteRange { start, end };
                ranges.push(range);
                run_start = None;
                assert(is_run(bitfield@, blocks, start_blk as int, blk as int));
                assert(range == run_range(start_blk as int, blk as int, blocks, total_size));
                assert(ranges@.drop_last() =~= before);
                assert(ranges@[before.len() as int] == range);
                assert forall|a: int, b: int|
                    b < blk + 1 && #[trigger] is_run(
                        bitfield@,
                        blocks,
                        a,
                        b,
                    ) implies ranges@.contains(run_range(a, b, blocks, total_size)) by {
                    if b == blk {
                        if a < start_blk {
                            assert(block_done(bitfield@, start_blk - 1));
                        }
                        if a > start_blk {
                            assert(!block_done(bitfield@, a - 1));
                        }
                        assert(ranges@.contains(range));
                    } else {
                        let r = run_range(a, b, blocks, total_size);
                        assert(before.contains(r));
                        let i = choose|i: int| 0 <= i < before.len() && before[i] == r;
                        assert(ranges@[i] == r);
                    }
                }
            } else {
                assert forall|a: int, b: int|
                    b < blk + 1 && #[trigger] is_run(
                        bitfield@,
                        blocks,
                        a,
                        b,
                    ) implies ranges@.contains(run_range(a, b, blocks, total_size)) by {
                    if b == blk {
                        assert(!block_done(bitfield@, b - 1));
                    }
                }
            }
        }
        blk += 1;
    }
    let ghost before = ranges@;
    if let Some(start_blk) = run_start {
        let start: u64 = start_blk as u64 * BLOCK_SIZE as u64;
        let range = ByteRange { start, end: total_size };
        ranges.push(range);
        assert(is_run(bitfield@, blocks, start_blk as int, blocks));
        assert(range == run_range(start_blk as int, blocks, blocks, total_size));
        assert(ranges@.drop_last() =~= before);
        assert(ranges@[before.len() as int] == range);
        assert forall|a: int, b: int| #[trigger]
            is_run(bitfield@, blocks, a, b) implies ranges@.contains(
            run_range(a, b, blocks, total_size),
        ) by {
            if b == blocks {
                if a < start_blk {
                    assert(block_done(bitfield@, start_blk - 1));
                }
                if a > start_blk {
                    assert(!block_done(bitfield@, a - 1));
                }
                assert(ranges@.contains(range));
            } else {
                let r = run_range(a, b, blocks, total_size);
                assert(before.contains(r));
                let i = choose|i: int| 0 <= i < before.len() && before[i] == r;
                assert(ranges@[i] == r);
            }
        }
    } else {
        assert forall|a: int, b: int| #[trigger]
            is_run(bitfield@, blocks, a, b) implies ranges@.contains(
            run_range(a, b, blocks, total_size),
        ) by {
            if b == blocks {
                assert(!block_done(bitfield@, b - 1));
            }
        }
    }
    ranges
}

/// The ranges do not run backwards.
pub open spec fn well_ordered(ranges: Seq<ByteRange>) -> bool {
    forall|i: int| 0 <= i < ranges.len() ==> (#[trigger] ranges[i]).start <= ranges[i].end
}

/// The length of the pieces that `total` bytes are cut into for `threads` connections:
/// an even share in whole blocks, at least one block.
pub open spec fn target_chunk(total: int, threads: int) -> int {
    let share = total / threads / (BLOCK_SIZE as int);
    (if share < 1 {
        1
    } else {
        share
    }) * BLOCK_SIZE
}

/// `range` in pieces of `target` bytes and one last piece of at most that length; an
/// empty range has no piece.
pub open spec fn pieces(range: ByteRange, target: int) -> Seq<ByteRange>
    decreases range.end - range.start,
{
    if range.end <= range.start {
        Seq::empty()
    } else if target <= 0 || range.end - range.start <= target {
        seq![range]
    } else {
        let cut = (range.start + target) as u64;
        seq![ByteRange { start: range.start, end: cut }] + pieces(
            ByteRange { start: cut, end: range.end },
            target,
        )
    }
}

/// The pieces of all of `ranges`, in order.
pub open spec fn all_pieces(ranges: Seq<ByteRange>, target: int) -> Seq<ByteRange>
    decreases ranges.len(),
{
    if ranges.len() == 0 {
        Seq::empty()
    } else {
        all_pieces(ranges.drop_last(), target) + pieces(ranges.last(), target)
    }
}

/// What `threads` connections fetch of `ranges`.
pub open spec fn thread_ranges(ranges: Seq<ByteRange>, threads: int) -> Seq<ByteRange> {
    all_pieces(ranges, target_chunk(range_total(ranges), threads))
}

proof fn range_total_monotonic(ranges: Seq<ByteRange>, i: int, j: int)
    requires
        0 <= i <= j <= ranges.len(),
        well_ordered(ranges),
    ensures
        0 <= range_total(ranges.take(i)) <= range_total(ranges.take(j)),
    decreases j,
{
    if j > 0 {
        assert(ranges.take(j).drop_last() =~= ranges.take(j - 1));
        assert(ranges[j - 1].start <= ranges[j - 1].end);
        if i < j {
            range_total_monotonic(ranges, i, j - 1);
        } else {
            range_total_monotonic(ranges, i - 1, j - 1);
        }
    }
}

/// Ranges that are not empty hold bytes.
pub proof fn range_total_is_positive(ranges: Seq<ByteRange>)
    requires
        forall|i: int| 0 <= i < ranges.len() ==> (#[trigger] ranges[i]).start < ranges[i].end,
    ensures
        range_total(ranges) >= ranges.len(),
    decreases ranges.len(),
{
    if ranges.len() > 0 {
        assert(ranges.last() == ranges[ranges.len() - 1]);
        assert forall|i: int| 0 <= i < ranges.drop_last().len() implies (
        #[trigger] ranges.drop_last()[i]).start < ranges.drop_last()[i].end by {
            assert(ranges.drop_last()[i] == ranges[i]);
        }
        range_total_is_positive(ranges.drop_last());
    }
}

fn sum_ranges(ranges: &[ByteRange]) -> (total: u64)
    requires
        well_ordered(ranges@),
        range_total(ranges@) <= u64::MAX,
    ensures
        total == range_total(ranges@),
{
    let mut total: u64 = 0;
    let mut i: usize = 0;
    assert(ranges@.take(ranges@.len() as int) =~= ranges@);
    while i < ranges.len()
        invariant
            i <= ranges@.len(),
            well_ordered(ranges@),
            range_total(ranges@.take(ranges@.len() as int)) <= u64::MAX,
            total == range_total(ranges@.take(i as int)),
        decreases ranges@.len() - i,
    {
        proof {
            assert(ranges@.take(i + 1).drop_last() =~= ranges@.take(i as int));
            range_total_monotonic(ranges@, i + 1, ranges@.len() as int);
        }
        assert(ranges@[i as int].start <= ranges@[i as int].end);
        total += ranges[i].end - ranges[i].start;
        i += 1;
    }
    total
}

/// Cuts the ranges into pieces for `threads` connections.
pub fn partition_ranges_for_threads(ranges: &[ByteRange], threads: u64) -> (result: Vec<ByteRange>)
    requires
        ranges@.len() > 0 ==> threads > 0,
        well_ordered(ranges@),
        range_total(ranges@) <= u64::MAX,
    ensures
        result@ == thread_ranges(ranges@, threads as int),
{
    if ranges.len() == 0 {
        return Vec::new();
    }
    let total_remaining: u64 = sum_ranges(ranges);
    let share: u64 = total_remaining / threads / BLOCK_SIZE as u64;
    let target: u64 = (if share < 1 {
        1
    } else {
        share
    }) * BLOCK_SIZE as u64;
    assert(target == target_chunk(range_total(ranges@), threads as int));

    let mut result: Vec<ByteRange> = Vec::new();
    let mut i: usize = 0;
    while i < ranges.len()
        invariant
            i <= ranges@.len(),
            well_ordered(ranges@),
            target > 0,
            result@ == all_pieces(ranges@.take(i as int), target as int),
        decreases ranges@.len() - i,
    {
        let r: ByteRange = ranges[i];
        let ghost done = result@;
        let mut curr: u64 = r.start;
        assert(r == ranges@[i as int]);
        assert(result@ + pieces(r, target as int) =~= done + pieces(r, target as int));
        while r.end - curr > target
            invariant
                r.start <= curr <= r.end,
                target > 0,
                result@ + pieces(ByteRange { start: curr, end: r.end }, target as int) == done
                    + pieces(r, target as int),
            decreases r.end - curr,
        {
            let ghost before = result@;
            let piece = ByteRange { start: curr, end: curr + target };
            result.push(piece);
            proof {
                let rest = pieces(
                    ByteRange { start: (curr + target) as u64, end: r.end },
                    target as int,
                );
                assert(before + (seq![piece] + rest) =~= result@ + rest);
            }
            curr += target;
        }
        if curr < r.end {
            result.push(ByteRange { start: curr, end: r.end });
        }
        assert(result@ =~= done + pieces(r, target as int));
        assert(ranges@.take(i + 1).drop_last() =~= ranges@.take(i as int));
        i += 1;
    }
    assert(ranges@.take(i as int) =~= ranges@);
    result
}

} // verus!
