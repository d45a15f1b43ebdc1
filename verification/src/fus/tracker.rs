//! Marking blocks as complete in the footer of a download in progress.

use vstd::prelude::*;

use crate::fus::bits::{bit_set, block_done, same_bits, with_bit};
use crate::fus::footer::{
    bitfield_bytes, bitfield_change_keeps_footer, block_count, footer_image, footer_round_trip,
    header, is_partial_download, storable, BLOCK_SIZE,
};
use crate::fus::info::BinaryInform;

verus! {

/// One past the last byte of block `blk` of a file of `size` bytes in `blocks` blocks.
pub open spec fn block_end(blk: int, blocks: int, size: int) -> int {
    if blk == blocks - 1 {
        size
    } else {
        (blk + 1) * BLOCK_SIZE
    }
}

/// Decrypting the bytes from `from` up to `upto` completes block `blk`: the block is
/// touched, and it ends at or before `upto`.
pub open spec fn completes(from: int, upto: int, blk: int, blocks: int, size: int) -> bool {
    &&& from / (BLOCK_SIZE as int) <= blk <= upto / (BLOCK_SIZE as int)
    &&& 0 <= blk < blocks
    &&& block_end(blk, blocks, size) <= upto
}

proof fn completes_in_bytes(from: int, upto: int, blk: int, blocks: int, size: int)
    requires
        0 <= from,
        0 <= blk < blocks,
        (blocks - 1) * 2097152 < size <= blocks * 2097152,
    ensures
        completes(from, upto, blk, blocks, size) <==> from < (blk + 1) * 2097152 && ((blk + 1)
            * 2097152 <= upto || size <= upto),
{
}

/// `after` is the bitfield `before` with the blocks marked that decrypting the bytes
/// from `from` up to `upto` completes.
pub open spec fn marked(
    before: Seq<u8>,
    after: Seq<u8>,
    from: int,
    upto: int,
    blocks: int,
    size: int,
) -> bool {
    &&& after.len() == before.len()
    &&& forall|blk: int|
        0 <= blk < 8 * before.len() ==> #[trigger] block_done(after, blk) == (block_done(
            before,
            blk,
        ) || completes(from, upto, blk, blocks, size))
}

/// The footer of a download in progress.
pub struct StateTracker<'a> {
    /// The bytes of the footer.
    pub footer: &'a mut [u8],
    /// Offset of the bitfield in the footer.
    pub bitfield_offset: usize,
    /// Number of blocks.
    pub total_blocks: usize,
    /// Size of the payload.
    pub file_size: u64,
}

impl<'a> StateTracker<'a> {
    /// The bitfield lies within the footer, and block offsets are 64-bit numbers.
    pub open spec fn wf(self) -> bool {
        &&& self.bitfield_offset + bitfield_bytes(self.total_blocks as int) <= self.footer@.len()
        &&& (self.total_blocks - 1) * BLOCK_SIZE <= u64::MAX
    }

    /// The bytes of the footer.
    pub open spec fn image(self) -> Seq<u8> {
        self.footer@
    }

    /// The bits of the blocks.
    pub open spec fn bitfield(self) -> Seq<u8> {
        self.footer@.subrange(
            self.bitfield_offset as int,
            self.bitfield_offset + bitfield_bytes(self.total_blocks as int),
        )
    }

    /// `self` tracks the same download as `before`, and differs from it in the bitfield
    /// at most.
    pub open spec fn follows(self, before: StateTracker<'_>) -> bool {
        &&& self.wf()
        &&& self.bitfield_offset == before.bitfield_offset
        &&& self.total_blocks == before.total_blocks
        &&& self.file_size == before.file_size
        &&& self.footer@.len() == before.footer@.len()
        &&& forall|i: int|
            0 <= i < before.footer@.len() && !(before.bitfield_offset <= i < before.bitfield_offset
                + bitfield_bytes(before.total_blocks as int)) ==> #[trigger] self.footer@[i]
                == before.footer@[i]
    }

    /// Tracks a download in `footer`.
    pub fn new(
        footer: &'a mut [u8],
        bitfield_offset: usize,
        total_blocks: usize,
        file_size: u64,
    ) -> (tracker: StateTracker<'a>)
        ensures
            tracker.footer@ == old(footer)@,
            final(tracker.footer)@ == final(footer)@,
            tracker.bitfield_offset == bitfield_offset,
            tracker.total_blocks == total_blocks,
            tracker.file_size == file_size,
    {
        StateTracker { footer, bitfield_offset, total_blocks, file_size }
    }

    /// Marks the blocks that are complete now that a connection which started at
    /// `start` has decrypted `new_dec` bytes, after `prev_dec` before.
    #[verifier::rlimit(40)]
    #[verifier::spinoff_prover]
    pub fn on_bytes_decrypted(&mut self, start: u64, prev_dec: usize, new_dec: usize)
        requires
            old(self).wf(),
            start + prev_dec <= u64::MAX,
            start + new_dec <= u64::MAX,
        ensures
            final(self).follows(*old(self)),
            final(final(self).footer)@ == final(old(self).footer)@,
            marked(
                old(self).bitfield(),
                final(self).bitfield(),
                start + prev_dec,
                start + new_dec,
                old(self).total_blocks as int,
                old(self).file_size as int,
            ),
            (old(self).total_blocks - 1) * 2097152 < old(self).file_size <= old(self).total_blocks
                * 2097152 ==> forall|blk: int|
                0 <= blk < old(self).total_blocks ==> (#[trigger] block_done(
                    final(self).bitfield(),
                    blk,
                ) <==> block_done(old(self).bitfield(), blk) || (start + prev_dec < (blk + 1)
                    * 2097152 && ((blk + 1) * 2097152 <= start + new_dec || old(self).file_size
                    <= start + new_dec))),
    {
        let prev_pos: u64 = start + prev_dec as u64;
        let curr_pos: u64 = start + new_dec as u64;
        let start_blk: u64 = prev_pos / BLOCK_SIZE as u64;
        let end_blk: u64 = curr_pos / BLOCK_SIZE as u64;
        let total: usize = self.total_blocks;
        let footer_len: usize = self.footer.len();
        let ghost before = self.bitfield();
        let ghost first = self.footer@;
        let ghost offset = self.bitfield_offset as int;
        let ghost len = bitfield_bytes(total as int);

        let mut blk: u64 = start_blk;
        while blk <= end_blk && blk < total as u64
            invariant
                self.wf(),
                self.bitfield_offset == old(self).bitfield_offset == offset,
                self.total_blocks == old(self).total_blocks == total,
                self.file_size == old(self).file_size,
                final(self.footer)@ == final(old(self).footer)@,
                first == old(self).footer@,
                before == first.subrange(offset, offset + len),
                len == bitfield_bytes(total as int),
                self.footer@.len() == first.len() == footer_len,
                prev_pos == start + prev_dec,
                curr_pos == start + new_dec,
                start_blk == prev_pos / BLOCK_SIZE as u64,
                end_blk == curr_pos / BLOCK_SIZE as u64,
                start_blk <= blk,
                blk <= end_blk + 1 || blk == start_blk,
                forall|i: int|
                    0 <= i < first.len() && !(offset <= i < offset + len)
                        ==> #[trigger] self.footer@[i] == first[i],
                forall|b: int|
                    0 <= b < 8 * len ==> #[trigger] block_done(self.bitfield(), b) == (block_done(
                        before,
                        b,
                    ) || (b < blk && completes(
                        prev_pos as int,
                        curr_pos as int,
                        b,
                        total as int,
                        self.file_size as int,
                    ))),
            decreases end_blk + 1 - blk,
        {
            let blk_end: u64 = if blk == total as u64 - 1 {
                self.file_size
            } else {
                (blk + 1) * BLOCK_SIZE as u64
            };
            let ghost was = self.bitfield();
            if curr_pos >= blk_end {
                let byte_idx: usize = self.bitfield_offset + (blk as usize) / 8;
                let k: u8 = (blk % 8) as u8;
                let byte: u8 = with_bit(self.footer[byte_idx], k);
                self.footer[byte_idx] = byte;
                assert forall|b: int| 0 <= b < 8 * len implies #[trigger] block_done(
                    self.bitfield(),
                    b,
                ) == (block_done(was, b) || b == blk) by {
                    if b / 8 == blk as int / 8 {
                        assert(self.bitfield()[b / 8] == byte);
                        assert(bit_set(byte, b % 8) == (bit_set(was[b / 8], b % 8) || b % 8 == k));
                    } else {
                        assert(self.bitfield()[b / 8] == was[b / 8]);
                    }
                }
            }
            blk += 1;
        }
        assert forall|b: int| 0 <= b < 8 * before.len() implies #[trigger] block_done(
            self.bitfield(),
            b,
        ) == (block_done(before, b) || completes(
            start + prev_dec,
            start + new_dec,
            b,
            total as int,
            self.file_size as int,
        )) by {}
        assert(total <= 8 * before.len());
        proof {
            if (total - 1) * 2097152 < self.file_size <= total * 2097152 {
                assert forall|b: int| 0 <= b < total implies (#[trigger] block_done(
                    self.bitfield(),
                    b,
                ) <==> block_done(before, b) || (start + prev_dec < (b + 1) * 2097152 && ((b + 1)
                    * 2097152 <= start + new_dec || self.file_size <= start + new_dec))) by {
                    assert(block_done(self.bitfield(), b) == (block_done(before, b) || completes(
                        start + prev_dec,
                        start + new_dec,
                        b,
                        total as int,
                        self.file_size as int,
                    )));

                    completes_in_bytes(
                        start + prev_dec,
                        start + new_dec,
                        b,
                        total as int,
                        self.file_size as int,
                    );
                }
            }
        }
    }
}

/// Marking a block never unmarks another one.
pub proof fn marks_are_kept(
    before: Seq<u8>,
    after: Seq<u8>,
    from: int,
    upto: int,
    blocks: int,
    size: int,
    blk: int,
)
    requires
        marked(before, after, from, upto, blocks, size),
        0 <= blk < 8 * before.len(),
        block_done(before, blk),
    ensures
        block_done(after, blk),
{
}

/// The marks decide the bitfield: there is one bitfield at most in which just these
/// blocks have been marked.
pub proof fn marks_decide_bitfield(
    before: Seq<u8>,
    a: Seq<u8>,
    b: Seq<u8>,
    from: int,
    upto: int,
    blocks: int,
    size: int,
)
    requires
        marked(before, a, from, upto, blocks, size),
        marked(before, b, from, upto, blocks, size),
    ensures
        a == b,
{
    assert forall|i: int| 0 <= i < a.len() implies #[trigger] a[i] == b[i] by {
        assert forall|k: int| 0 <= k < 8 implies #[trigger] bit_set(a[i], k) == bit_set(
            b[i],
            k,
        ) by {
            let blk = 8 * i + k;
            assert(blk / 8 == i && blk % 8 == k);
            assert(block_done(a, blk) == (block_done(before, blk) || completes(
                from,
                upto,
                blk,
                blocks,
                size,
            )));
            assert(block_done(b, blk) == (block_done(before, blk) || completes(
                from,
                upto,
                blk,
                blocks,
                size,
            )));
        }
        same_bits(a[i], b[i]);
    }
    assert(a =~= b);
}

/// Where decryption started at the first byte of a block, the blocks it completes are
/// exactly those that lie between where it started and where it got to.
pub proof fn whole_blocks_are_completed(from: int, upto: int, blk: int, size: int)
    requires
        0 <= from <= upto,
        from % (BLOCK_SIZE as int) == 0,
        0 <= blk < block_count(size),
    ensures
        completes(from, upto, blk, block_count(size), size) <==> from <= blk * BLOCK_SIZE
            && block_end(blk, block_count(size), size) <= upto,
{
}

/// Decrypting in two steps marks the blocks that decrypting in one step marks.
pub proof fn steps_add_up(
    a: Seq<u8>,
    b: Seq<u8>,
    c: Seq<u8>,
    from: int,
    mid: int,
    upto: int,
    size: int,
)
    requires
        0 <= from <= mid <= upto,
        marked(a, b, from, mid, block_count(size), size),
        marked(b, c, mid, upto, block_count(size), size),
    ensures
        marked(a, c, from, upto, block_count(size), size),
{
    let blocks = block_count(size);
    assert forall|blk: int| 0 <= blk < 8 * a.len() implies #[trigger] block_done(c, blk) == (
    block_done(a, blk) || completes(from, upto, blk, blocks, size)) by {
        assert(block_done(c, blk) == (block_done(b, blk) || completes(
            mid,
            upto,
            blk,
            blocks,
            size,
        )));
        assert(block_done(b, blk) == (block_done(a, blk) || completes(
            from,
            mid,
            blk,
            blocks,
            size,
        )));
    }
}

/// A download may stop at any moment: whatever blocks have been marked, payload and
/// footer are a partial download that has those blocks, and no others, as complete.
pub proof fn interrupted_download_can_resume(
    payload: Seq<u8>,
    info: BinaryInform,
    bitfield: Seq<u8>,
    before: StateTracker<'_>,
    after: StateTracker<'_>,
)
    requires
        payload.len() == info.size,
        storable(info, bitfield),
        before.image() == footer_image(info, bitfield),
        before.bitfield_offset == header(info).len(),
        before.total_blocks == block_count(info.size as int),
        after.follows(before),
    ensures
        after.image() == footer_image(info, after.bitfield()),
        is_partial_download(payload + after.image(), info, after.bitfield()),
        forall|other: Seq<u8>| #[trigger]
            is_partial_download(payload + after.image(), info, other) ==> other
                == after.bitfield(),
{
    bitfield_change_keeps_footer(info, before.image(), after.image(), bitfield);
    footer_round_trip(payload, info, after.bitfield());
}

/// A block ends 2 MiB behind where it begins, or with the file.
pub proof fn block_ends_with_file_or_block(blk: int, size: int)
    requires
        0 <= blk < block_count(size),
    ensures
        block_end(blk, block_count(size), size) <= (blk + 1) * 2097152,
        block_end(blk, block_count(size), size) <= size,
        block_end(blk, block_count(size), size) == (blk + 1) * 2097152 || block_end(
            blk,
            block_count(size),
            size,
        ) == size,
        blk * 2097152 < block_end(blk, block_count(size), size),
{
}

/// Which blocks are marked, in bytes: those that were, and those that decryption entered
/// or was in and of which it has passed the last byte.
pub proof fn marked_blocks(
    before: Seq<u8>,
    after: Seq<u8>,
    from: int,
    upto: int,
    size: int,
    blk: int,
)
    requires
        marked(before, after, from, upto, block_count(size), size),
        before.len() == bitfield_bytes(block_count(size)),
        0 <= from,
        0 <= blk < block_count(size),
    ensures
        block_done(after, blk) <==> block_done(before, blk) || (from < (blk + 1) * 2097152 && (upto
            >= (blk + 1) * 2097152 || upto >= size)),
{
}

/// No byte is lost: where every byte of every marked block is decrypted, and decryption has
/// done all bytes up to `upto` from the beginning of the block that it was in, every byte
/// of every block that is marked then is decrypted. A download that is resumed leaves out
/// decrypted bytes only.
pub proof fn marked_bytes_are_decrypted(
    before: Seq<u8>,
    after: Seq<u8>,
    from: int,
    upto: int,
    size: int,
    decrypted: spec_fn(int) -> bool,
    p: int,
)
    requires
        marked(before, after, from, upto, block_count(size), size),
        before.len() == bitfield_bytes(block_count(size)),
        0 <= from,
        forall|q: int|
            0 <= q < size && block_done(before, q / 2097152) ==> #[trigger] decrypted(q),
        forall|q: int| from / 2097152 * 2097152 <= q < upto ==> #[trigger] decrypted(q),
        0 <= p < size,
        block_done(after, p / 2097152),
    ensures
        decrypted(p),
{
    let blk = p / 2097152;
    assert(0 <= blk < block_count(size));
    marked_blocks(before, after, from, upto, size, blk);
    if !block_done(before, blk) {
        assert(from / 2097152 * 2097152 <= p < upto);
    }
}

} // verus!
