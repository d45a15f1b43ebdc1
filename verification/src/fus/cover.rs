//! Which bytes the ranges of a download cover.

use vstd::prelude::*;

use crate::bytes::zeros;
use crate::fus::bits::block_done;
use crate::fus::footer::{bitfield_bytes, block_count, BLOCK_SIZE};
use crate::fus::ranges::{
    all_pieces, completed_below, completed_bytes, is_run, is_run_range, is_uncompleted, pieces,
    range_total, range_total_is_positive, run_range, target_chunk, thread_ranges, well_ordered,
    ByteRange,
};

verus! {

/// Byte `p` lies in one of `ranges`.
pub open spec fn covers(ranges: Seq<ByteRange>, p: int) -> bool {
    exists|i: int| 0 <= i < ranges.len() && (#[trigger] ranges[i]).start <= p < ranges[i].end
}

/// The ranges are in ascending order, none is empty and no two overlap.
pub open spec fn in_order(ranges: Seq<ByteRange>) -> bool {
    &&& forall|i: int| 0 <= i < ranges.len() ==> (#[trigger] ranges[i]).start < ranges[i].end
    &&& forall|i: int, j: int|
        0 <= i < j < ranges.len() ==> (#[trigger] ranges[i]).end <= (#[trigger] ranges[j]).start
}

/// Every range starts with a block.
pub open spec fn aligned(ranges: Seq<ByteRange>) -> bool {
    forall|i: int|
        0 <= i < ranges.len() ==> (#[trigger] ranges[i]).start as int % (BLOCK_SIZE as int) == 0
}

/// Every range ends with a block, or where the file of `size` bytes ends.
pub open spec fn ends_with_blocks(ranges: Seq<ByteRange>, size: int) -> bool {
    forall|i: int|
        0 <= i < ranges.len() ==> (#[trigger] ranges[i]).end == size || ranges[i].end as int % (
        BLOCK_SIZE as int) == 0
}

proof fn run_start(bitfield: Seq<u8>, k: int) -> (a: int)
    requires
        0 <= k,
        !block_done(bitfield, k),
    ensures
        0 <= a <= k,
        forall|j: int| a <= j <= k ==> !#[trigger] block_done(bitfield, j),
        a == 0 || block_done(bitfield, a - 1),
    decreases k,
{
    if k == 0 || block_done(bitfield, k - 1) {
        k
    } else {
        run_start(bitfield, k - 1)
    }
}

proof fn run_end(bitfield: Seq<u8>, blocks: int, k: int) -> (b: int)
    requires
        0 <= k < blocks,
        !block_done(bitfield, k),
    ensures
        k < b <= blocks,
        forall|j: int| k <= j < b ==> !#[trigger] block_done(bitfield, j),
        b == blocks || block_done(bitfield, b),
    decreases blocks - k,
{
    if k + 1 == blocks || block_done(bitfield, k + 1) {
        k + 1
    } else {
        run_end(bitfield, blocks, k + 1)
    }
}

/// The ranges still to be downloaded hold a byte if and only if its block is not
/// complete.
pub proof fn missing_bytes_are_covered(
    bitfield: Seq<u8>,
    total: u64,
    ranges: Seq<ByteRange>,
    p: int,
)
    requires
        is_uncompleted(bitfield, block_count(total as int), total, ranges),
        0 <= p < total,
    ensures
        covers(ranges, p) <==> !block_done(bitfield, p / (BLOCK_SIZE as int)),
{
    let blocks = block_count(total as int);
    let blk = p / (BLOCK_SIZE as int);
    if covers(ranges, p) {
        let i = choose|i: int|
            0 <= i < ranges.len() && (#[trigger] ranges[i]).start <= p < ranges[i].end;
        assert(is_run_range(bitfield, blocks, total, ranges[i]));
        let (a, b) = choose|a: int, b: int| #[trigger]
            is_run(bitfield, blocks, a, b) && ranges[i] == run_range(a, b, blocks, total);
        assert(a <= blk < b);
    }
    if !block_done(bitfield, blk) {
        let a = run_start(bitfield, blk);
        let b = run_end(bitfield, blocks, blk);
        assert(is_run(bitfield, blocks, a, b));
        let r = run_range(a, b, blocks, total);
        assert(ranges.contains(r));
        let i = choose|i: int| 0 <= i < ranges.len() && ranges[i] == r;
        assert(ranges[i].start <= p < ranges[i].end);
    }
}

/// The ranges still to be downloaded are in order, and each starts with a block.
pub proof fn uncompleted_ranges_are_in_order(
    bitfield: Seq<u8>,
    total: u64,
    ranges: Seq<ByteRange>,
)
    requires
        is_uncompleted(bitfield, block_count(total as int), total, ranges),
    ensures
        in_order(ranges),
        aligned(ranges),
        forall|i: int| 0 <= i < ranges.len() ==> (#[trigger] ranges[i]).end <= total,
{
    let blocks = block_count(total as int);
    assert forall|i: int| 0 <= i < ranges.len() implies {
        &&& (#[trigger] ranges[i]).start < ranges[i].end
        &&& ranges[i].start as int % (BLOCK_SIZE as int) == 0
        &&& ranges[i].end <= total
    } by {
        assert(is_run_range(bitfield, blocks, total, ranges[i]));
    }
    assert forall|i: int, j: int| 0 <= i < j < ranges.len() implies (#[trigger] ranges[i]).end
        <= (#[trigger] ranges[j]).start by {
        assert(is_run_range(bitfield, blocks, total, ranges[i]));
        assert(is_run_range(bitfield, blocks, total, ranges[j]));
        let (a, b) = choose|a: int, b: int| #[trigger]
            is_run(bitfield, blocks, a, b) && ranges[i] == run_range(a, b, blocks, total);
        let (c, d) = choose|c: int, d: int| #[trigger]
            is_run(bitfield, blocks, c, d) && ranges[j] == run_range(c, d, blocks, total);
        assert(ranges[i].start < ranges[j].start);
        assert(a < c);
        if c < b {
            assert(block_done(bitfield, c - 1));
        }
    }
}

proof fn sorted_subset(a: Seq<ByteRange>, b: Seq<ByteRange>, i: int)
    requires
        forall|i: int, j: int|
            0 <= i < j < a.len() ==> (#[trigger] a[i]).start < (#[trigger] a[j]).start,
        forall|i: int, j: int|
            0 <= i < j < b.len() ==> (#[trigger] b[i]).start < (#[trigger] b[j]).start,
        forall|i: int| 0 <= i < a.len() ==> b.contains(#[trigger] a[i]),
        forall|i: int| 0 <= i < b.len() ==> a.contains(#[trigger] b[i]),
        0 <= i < a.len(),
    ensures
        i < b.len(),
        a[i] == b[i],
    decreases i,
{
    assert forall|k: int| 0 <= k < i implies k < b.len() && #[trigger] a[k] == b[k] by {
        sorted_subset(a, b, k);
    }
    assert(b.contains(a[i]));
    let j = choose|j: int| 0 <= j < b.len() && b[j] == a[i];
    if j < i {
        assert(a[j] == b[j]);
        assert(a[j].start < a[i].start);
    }
    if j > i {
        assert(a.contains(b[i]));
        let k = choose|k: int| 0 <= k < a.len() && a[k] == b[i];
        assert(b[i].start < b[j].start);
        if k > i {
            assert(a[i].start < a[k].start);
        }
        if k < i {
            assert(a[k] == b[k]);
            assert(b[k].start < b[i].start);
        }
    }
}

/// A bitfield decides which ranges are still to be downloaded.
pub proof fn uncompleted_ranges_are_determined(
    bitfield: Seq<u8>,
    blocks: int,
    total: u64,
    a: Seq<ByteRange>,
    b: Seq<ByteRange>,
)
    requires
        is_uncompleted(bitfield, blocks, total, a),
        is_uncompleted(bitfield, blocks, total, b),
    ensures
        a == b,
{
    assert forall|i: int| 0 <= i < a.len() implies b.contains(#[trigger] a[i]) by {
        assert(is_run_range(bitfield, blocks, total, a[i]));
    }
    assert forall|i: int| 0 <= i < b.len() implies a.contains(#[trigger] b[i]) by {
        assert(is_run_range(bitfield, blocks, total, b[i]));
    }
    assert forall|i: int| 0 <= i < a.len() implies i < b.len() && #[trigger] a[i] == b[i] by {
        sorted_subset(a, b, i);
    }
    if b.len() > a.len() {
        sorted_subset(b, a, a.len() as int);
    }
    if a.len() > 0 {
        sorted_subset(a, b, a.len() - 1);
    }
    assert(a =~= b);
}

/// Where nothing is complete, one range is still to be downloaded: all of the file.
pub proof fn fresh_download_is_one_range(total: u64, ranges: Seq<ByteRange>)
    requires
        total > 0,
        is_uncompleted(
            zeros(bitfield_bytes(block_count(total as int)) as nat),
            block_count(total as int),
            total,
            ranges,
        ),
    ensures
        ranges == seq![ByteRange { start: 0, end: total }],
{
    let blocks = block_count(total as int);
    let bitfield = zeros(bitfield_bytes(blocks) as nat);
    assert forall|k: int| 0 <= k < blocks implies !#[trigger] block_done(bitfield, k) by {
        assert(bitfield[k / 8] == 0);
    }
    let all = ByteRange { start: 0, end: total };
    assert(is_run(bitfield, blocks, 0, blocks));
    assert(run_range(0, blocks, blocks, total) == all);
    assert(ranges.contains(all));
    assert forall|i: int| 0 <= i < ranges.len() implies #[trigger] ranges[i] == all by {
        assert(is_run_range(bitfield, blocks, total, ranges[i]));
        let (a, b) = choose|a: int, b: int| #[trigger]
            is_run(bitfield, blocks, a, b) && ranges[i] == run_range(a, b, blocks, total);
        if a > 0 {
            assert(block_done(bitfield, a - 1));
        }
        if b < blocks {
            assert(block_done(bitfield, b));
        }
    }
    if ranges.len() > 1 {
        assert(ranges[0].start < ranges[1].start);
    }
    assert(ranges =~= seq![all]);
}

proof fn range_total_concat(a: Seq<ByteRange>, b: Seq<ByteRange>)
    ensures
        range_total(a + b) == range_total(a) + range_total(b),
    decreases b.len(),
{
    if b.len() == 0 {
        assert(a + b =~= a);
    } else {
        assert((a + b).drop_last() =~= a + b.drop_last());
        range_total_concat(a, b.drop_last());
    }
}

/// What the pieces of one range are.
#[verifier::rlimit(40)]
#[verifier::spinoff_prover]
proof fn pieces_of_range(range: ByteRange, target: int)
    requires
        target > 0,
    ensures
        forall|i: int|
            0 <= i < pieces(range, target).len() ==> {
                &&& range.start <= (#[trigger] pieces(range, target)[i]).start
                &&& pieces(range, target)[i].start < pieces(range, target)[i].end
                &&& pieces(range, target)[i].end <= range.end
                &&& pieces(range, target)[i].end - pieces(range, target)[i].start <= target
            },
        in_order(pieces(range, target)),
        range.start <= range.end ==> range_total(pieces(range, target)) == range.end - range.start,
        range.start as int % (BLOCK_SIZE as int) == 0 && target % (BLOCK_SIZE as int) == 0
            ==> aligned(pieces(range, target)),
        forall|p: int| #[trigger]
            covers(pieces(range, target), p) <==> range.start <= p < range.end,
    decreases range.end - range.start,
{
    let all = pieces(range, target);
    if range.end <= range.start {
        assert forall|p: int| #[trigger]
            covers(all, p) <==> range.start <= p < range.end by {}
    } else if range.end - range.start <= target {
        assert(all == seq![range]);
        assert(all.drop_last() =~= Seq::empty());
        assert forall|p: int| #[trigger]
            covers(all, p) <==> range.start <= p < range.end by {
            if range.start <= p < range.end {
                assert(all[0].start <= p < all[0].end);
            }
        }
        assert(range_total(all) == range.end - range.start) by {
            assert(range_total(all.drop_last()) == 0);
        }
    } else {
        let cut = (range.start + target) as u64;
        let first = ByteRange { start: range.start, end: cut };
        let rest = ByteRange { start: cut, end: range.end };
        pieces_of_range(rest, target);
        let tail = pieces(rest, target);
        assert(all == seq![first] + tail);
        assert forall|i: int| 0 < i < all.len() implies #[trigger] all[i] == tail[i - 1] by {}
        assert forall|i: int, j: int| 0 <= i < j < all.len() implies (#[trigger] all[i]).end <= (
        #[trigger] all[j]).start by {
            if i > 0 {
                assert(tail[i - 1].end <= tail[j - 1].start);
            }
        }
        assert forall|p: int| #[trigger]
            covers(all, p) <==> range.start <= p < range.end by {
            if covers(all, p) {
                let i = choose|i: int|
                    0 <= i < all.len() && (#[trigger] all[i]).start <= p < all[i].end;
                if i > 0 {
                    assert(tail[i - 1].start <= p < tail[i - 1].end);
                    assert(covers(tail, p));
                }
            }
            if range.start <= p < range.end {
                if p < cut {
                    assert(all[0].start <= p < all[0].end);
                } else {
                    assert(covers(tail, p));
                    let i = choose|i: int|
                        0 <= i < tail.len() && (#[trigger] tail[i]).start <= p < tail[i].end;
                    assert(all[i + 1].start <= p < all[i + 1].end);
                }
            }
        }
        range_total_concat(seq![first], tail);
        assert(seq![first].drop_last() =~= Seq::empty());
        assert(range_total(seq![first]) == cut - range.start) by {
            assert(range_total(seq![first].drop_last()) == 0);
        }
    }
}

/// What the pieces of several ranges are.
#[verifier::rlimit(40)]
#[verifier::spinoff_prover]
proof fn pieces_of_ranges(ranges: Seq<ByteRange>, target: int)
    requires
        target > 0,
        well_ordered(ranges),
    ensures
        forall|i: int|
            0 <= i < all_pieces(ranges, target).len() ==> {
                let piece = #[trigger] all_pieces(ranges, target)[i];
                0 < piece.end - piece.start <= target
            },
        range_total(all_pieces(ranges, target)) == range_total(ranges),
        aligned(ranges) && target % (BLOCK_SIZE as int) == 0 ==> aligned(
            all_pieces(ranges, target),
        ),
        forall|p: int| #[trigger] covers(all_pieces(ranges, target), p) <==> covers(ranges, p),
        in_order(ranges) ==> in_order(all_pieces(ranges, target)),
        in_order(ranges) && ranges.len() > 0 ==> forall|i: int|
            0 <= i < all_pieces(ranges, target).len() ==> (#[trigger] all_pieces(
                ranges,
                target,
            )[i]).end <= ranges.last().end,
    decreases ranges.len(),
{
    let all = all_pieces(ranges, target);
    if ranges.len() == 0 {
        assert forall|p: int| #[trigger] covers(all, p) <==> covers(ranges, p) by {}
    } else {
        let init = ranges.drop_last();
        let last = ranges.last();
        assert(last == ranges[ranges.len() - 1]);
        assert forall|i: int| 0 <= i < init.len() implies #[trigger] init[i] == ranges[i] by {}
        pieces_of_ranges(init, target);
        pieces_of_range(last, target);
        let head = all_pieces(init, target);
        let tail = pieces(last, target);
        let n = head.len() as int;
        assert(all == head + tail);
        range_total_concat(head, tail);
        assert forall|i: int| 0 <= i < all.len() implies #[trigger] all[i] == if i < n {
            head[i]
        } else {
            tail[i - n]
        } by {}
        assert forall|p: int| #[trigger] covers(all, p) <==> covers(ranges, p) by {
            if covers(all, p) {
                let i = choose|i: int|
                    0 <= i < all.len() && (#[trigger] all[i]).start <= p < all[i].end;
                if i < n {
                    assert(head[i].start <= p < head[i].end);
                    assert(covers(head, p));
                    assert(covers(init, p));
                    let j = choose|j: int|
                        0 <= j < init.len() && (#[trigger] init[j]).start <= p < init[j].end;
                    assert(ranges[j].start <= p < ranges[j].end);
                } else {
                    assert(tail[i - n].start <= p < tail[i - n].end);
                    assert(covers(tail, p));
                    assert(ranges[ranges.len() - 1].start <= p < ranges[ranges.len() - 1].end);
                }
            }
            if covers(ranges, p) {
                let j = choose|j: int|
                    0 <= j < ranges.len() && (#[trigger] ranges[j]).start <= p < ranges[j].end;
                if j < init.len() {
                    assert(init[j].start <= p < init[j].end);
                    assert(covers(init, p));
                    assert(covers(head, p));
                    let i = choose|i: int|
                        0 <= i < head.len() && (#[trigger] head[i]).start <= p < head[i].end;
                    assert(all[i].start <= p < all[i].end);
                } else {
                    assert(covers(tail, p));
                    let i = choose|i: int|
                        0 <= i < tail.len() && (#[trigger] tail[i]).start <= p < tail[i].end;
                    assert(all[n + i].start <= p < all[n + i].end);
                }
            }
        }
        if in_order(ranges) {
            assert(in_order(init));
            assert forall|i: int, j: int| 0 <= i < j < all.len() implies (#[trigger] all[i]).end
                <= (#[trigger] all[j]).start by {
                if j < n {
                    assert(head[i].end <= head[j].start);
                } else if i >= n {
                    assert(tail[i - n].end <= tail[j - n].start);
                } else {
                    if init.len() == 0 {
                        assert(head.len() == 0);
                    }
                    assert(head[i].end <= init.last().end);
                    assert(ranges[ranges.len() - 2].end <= ranges[ranges.len() - 1].start);
                    assert(tail[j - n].start >= last.start);
                }
            }
            assert forall|i: int| 0 <= i < all.len() implies (#[trigger] all[i]).end
                <= ranges.last().end by {
                if i < n {
                    if init.len() == 0 {
                        assert(head.len() == 0);
                    }
                    assert(head[i].end <= init.last().end);
                    assert(ranges[ranges.len() - 2].end <= ranges[ranges.len() - 1].start);
                    assert(ranges[ranges.len() - 1].start < ranges[ranges.len() - 1].end);
                }
            }
        }
    }
}

/// Sharing ranges out among connections loses no byte, adds none and fetches none
/// twice: the pieces hold the bytes of the ranges, in the same order.
pub proof fn partition_keeps_bytes(ranges: Seq<ByteRange>, threads: int, p: int)
    requires
        well_ordered(ranges),
    ensures
        range_total(thread_ranges(ranges, threads)) == range_total(ranges),
        covers(thread_ranges(ranges, threads), p) <==> covers(ranges, p),
        in_order(ranges) ==> in_order(thread_ranges(ranges, threads)),
{
    pieces_of_ranges(ranges, target_chunk(range_total(ranges), threads));
}

/// No piece is empty or longer than its share, and where the ranges start with blocks
/// the pieces do.
pub proof fn pieces_are_even(ranges: Seq<ByteRange>, threads: int, i: int)
    requires
        well_ordered(ranges),
        0 <= i < thread_ranges(ranges, threads).len(),
    ensures
        thread_ranges(ranges, threads)[i].start < thread_ranges(ranges, threads)[i].end,
        thread_ranges(ranges, threads)[i].end - thread_ranges(ranges, threads)[i].start
            <= target_chunk(range_total(ranges), threads),
        aligned(ranges) ==> thread_ranges(ranges, threads)[i].start as int % (BLOCK_SIZE as int)
            == 0,
{
    pieces_of_ranges(ranges, target_chunk(range_total(ranges), threads));
}

/// Where ranges lie in order within `size` bytes, their pieces do; and there are
/// pieces if there are ranges.
pub proof fn pieces_lie_in_order(ranges: Seq<ByteRange>, threads: int, size: int)
    requires
        in_order(ranges),
        forall|i: int| 0 <= i < ranges.len() ==> (#[trigger] ranges[i]).end <= size,
    ensures
        in_order(thread_ranges(ranges, threads)),
        forall|i: int|
            0 <= i < thread_ranges(ranges, threads).len() ==> (#[trigger] thread_ranges(
                ranges,
                threads,
            )[i]).end <= size,
        thread_ranges(ranges, threads).len() == 0 <==> ranges.len() == 0,
{
    let target = target_chunk(range_total(ranges), threads);
    let all = thread_ranges(ranges, threads);
    pieces_of_ranges(ranges, target);
    if ranges.len() > 0 {
        range_total_is_positive(ranges);
        assert(range_total(all) > 0);
        assert forall|i: int| 0 <= i < all.len() implies (#[trigger] all[i]).end <= size by {
            assert(all[i].end <= ranges.last().end);
            assert(ranges[ranges.len() - 1].end <= size);
        }
    }
}

/// How many of the first `n` bytes lie in blocks that are complete.
pub open spec fn bytes_done(bitfield: Seq<u8>, n: nat) -> int
    decreases n,
{
    if n == 0 {
        0
    } else {
        bytes_done(bitfield, (n - 1) as nat) + if block_done(bitfield, (n - 1) / 2097152) {
            1int
        } else {
            0int
        }
    }
}

proof fn bytes_done_in_block(bitfield: Seq<u8>, blk: nat, j: nat)
    requires
        j <= 2097152,
    ensures
        bytes_done(bitfield, (blk * 2097152 + j) as nat) == bytes_done(
            bitfield,
            (blk * 2097152) as nat,
        ) + if block_done(bitfield, blk as int) {
            j as int
        } else {
            0
        },
    decreases j,
{
    if j > 0 {
        bytes_done_in_block(bitfield, blk, (j - 1) as nat);
        assert((blk * 2097152 + j - 1) / 2097152 == blk);
    }
}

proof fn completed_below_counts(bitfield: Seq<u8>, k: nat, total: int)
    requires
        0 <= total,
        k <= block_count(total),
    ensures
        completed_below(bitfield, k, block_count(total), total) == bytes_done(
            bitfield,
            (if k == block_count(total) {
                total
            } else {
                k as int * 2097152
            }) as nat,
        ),
    decreases k,
{
    if k > 0 {
        let blk = (k - 1) as nat;
        completed_below_counts(bitfield, blk, total);
        if k == block_count(total) {
            bytes_done_in_block(bitfield, blk, (total - blk * 2097152) as nat);
        } else {
            bytes_done_in_block(bitfield, blk, 2097152);
        }
    }
}

/// The bytes that are there of a download are as many as there are bytes in complete
/// blocks.
pub proof fn completed_bytes_are_counted(bitfield: Seq<u8>, total: int)
    requires
        0 <= total,
    ensures
        completed_bytes(bitfield, block_count(total) as nat, total) == bytes_done(
            bitfield,
            total as nat,
        ),
{
    completed_below_counts(bitfield, block_count(total) as nat, total);
}

/// Between two ranges that are still to be downloaded lies at least one byte that is
/// there.
pub proof fn uncompleted_ranges_do_not_touch(
    bitfield: Seq<u8>,
    total: u64,
    ranges: Seq<ByteRange>,
    i: int,
    j: int,
)
    requires
        is_uncompleted(bitfield, block_count(total as int), total, ranges),
        0 <= i < j < ranges.len(),
    ensures
        ranges[i].end < ranges[j].start,
        block_done(bitfield, ranges[i].end as int / 2097152),
{
    let blocks = block_count(total as int);
    assert(is_run_range(bitfield, blocks, total, ranges[i]));
    assert(is_run_range(bitfield, blocks, total, ranges[j]));
    let (a, b) = choose|a: int, b: int| #[trigger]
        is_run(bitfield, blocks, a, b) && ranges[i] == run_range(a, b, blocks, total);
    let (c, d) = choose|c: int, d: int| #[trigger]
        is_run(bitfield, blocks, c, d) && ranges[j] == run_range(c, d, blocks, total);
    assert(ranges[i].start < ranges[j].start);
    assert(a < c);
    if c < b {
        assert(block_done(bitfield, c - 1));
    }
    if c == b {
        assert(!block_done(bitfield, c));
    }
}

/// The share of a connection is a whole number of blocks of 2 MiB, at least one. It is
/// not longer than an even share of all bytes unless it is one block, and one block more
/// would be longer.
pub proof fn share_is_even(total: int, threads: int)
    requires
        0 <= total,
        0 < threads,
    ensures
        target_chunk(total, threads) % 2097152 == 0,
        target_chunk(total, threads) >= 2097152,
        target_chunk(total, threads) == 2097152 || target_chunk(total, threads) * threads <= total,
        (target_chunk(total, threads) + 2097152) * threads > total,
{
    let q = total / threads;
    let t = target_chunk(total, threads);
    vstd::arithmetic::div_mod::lemma_fundamental_div_mod(total, threads);
    vstd::arithmetic::div_mod::lemma_mod_bound(total, threads);
    assert(q >= 0) by (nonlinear_arith)
        requires
            total == threads * q + total % threads,
            0 <= total % threads < threads,
            0 <= total,
            threads > 0,
    ;
    assert(t + 2097152 >= q + 1);
    assert((t + 2097152) * threads >= (q + 1) * threads) by (nonlinear_arith)
        requires
            t + 2097152 >= q + 1,
            threads > 0,
    ;
    assert((q + 1) * threads == threads * q + threads) by (nonlinear_arith);
    if t != 2097152 {
        assert(t <= q);
        assert(t * threads <= q * threads) by (nonlinear_arith)
            requires
                t <= q,
                threads > 0,
        ;
        assert(q * threads == threads * q) by (nonlinear_arith);
    }
}

proof fn piece_of_range(range: ByteRange, target: int, i: int)
    requires
        target > 0,
        0 <= i < pieces(range, target).len(),
    ensures
        pieces(range, target)[i].start == range.start + i * target,
        pieces(range, target)[i].end == range.end || pieces(range, target)[i].end == range.start
            + (i + 1) * target,
        range.start + i * target < pieces(range, target)[i].end <= range.end,
        pieces(range, target)[i].end <= range.start + (i + 1) * target,
        i + 1 < pieces(range, target).len() ==> pieces(range, target)[i].end != range.end,
    decreases range.end - range.start,
{
    assert((i + 1) * target == i * target + target) by (nonlinear_arith);
    if range.end - range.start > target {
        let cut = (range.start + target) as u64;
        let rest = ByteRange { start: cut, end: range.end };
        if i > 0 {
            assert((i - 1) * target + target == i * target) by (nonlinear_arith);
            assert(pieces(range, target)[i] == pieces(rest, target)[i - 1]);
            piece_of_range(rest, target, i - 1);
        } else {
            assert(i * target == 0) by (nonlinear_arith)
                requires
                    i == 0,
            ;
        }
    } else {
        assert(i == 0);
        assert(i * target == 0) by (nonlinear_arith)
            requires
                i == 0,
        ;
    }
}

/// Every piece that a connection fetches lies in one of the ranges, a whole number of
/// shares behind where that range begins, and is one share long unless it ends with the
/// range.
pub proof fn pieces_are_shares(ranges: Seq<ByteRange>, threads: int, i: int) -> (j: int)
    requires
        0 <= i < thread_ranges(ranges, threads).len(),
    ensures
        0 <= j < ranges.len(),
        ({
            let piece = thread_ranges(ranges, threads)[i];
            let share = target_chunk(range_total(ranges), threads);
            &&& ranges[j].start <= piece.start < piece.end <= ranges[j].end
            &&& (piece.start - ranges[j].start) % share == 0
            &&& piece.end == ranges[j].end || piece.end - piece.start == share
            &&& piece.end - piece.start <= share
        }),
{
    let share = target_chunk(range_total(ranges), threads);
    piece_of_ranges(ranges, share, i)
}

proof fn piece_of_ranges(ranges: Seq<ByteRange>, share: int, i: int) -> (j: int)
    requires
        share > 0,
        0 <= i < all_pieces(ranges, share).len(),
    ensures
        0 <= j < ranges.len(),
        ({
            let piece = all_pieces(ranges, share)[i];
            &&& ranges[j].start <= piece.start < piece.end <= ranges[j].end
            &&& (piece.start - ranges[j].start) % share == 0
            &&& piece.end == ranges[j].end || piece.end - piece.start == share
            &&& piece.end - piece.start <= share
        }),
    decreases ranges.len(),
{
    let init = ranges.drop_last();
    let n = all_pieces(init, share).len() as int;
    if i < n {
        let j = piece_of_ranges(init, share, i);
        assert(init[j] == ranges[j]);
        assert(all_pieces(ranges, share)[i] == all_pieces(init, share)[i]);
        j
    } else {
        let k = i - n;
        piece_of_range(ranges.last(), share, k);
        assert(all_pieces(ranges, share)[i] == pieces(ranges.last(), share)[k]);
        assert((k + 1) * share == k * share + share) by (nonlinear_arith);
        assert(k * share >= 0) by (nonlinear_arith)
            requires
                k >= 0,
                share > 0,
        ;
        vstd::arithmetic::div_mod::lemma_mod_multiples_basic(k, share);
        ranges.len() - 1
    }
}

} // verus!
