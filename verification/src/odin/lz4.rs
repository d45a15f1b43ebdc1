//! Reading the start of a file that is compressed with LZ4.

use vstd::prelude::*;

use crate::bytes::{put_bytes, zero_vec};
use crate::odin::sparse::smaller;

verus! {

/// Bytes that are asked for at a time.
pub const READ_SIZE: usize = 65536;

/// A decoder of LZ4 frames, which holds the blocks that it has still to give.
#[verifier::external_body]
pub struct FrameBlocks<'a> {
    inner: lz4_flex::frame::FrameDecoder<&'a [u8]>,
}

/// The decompressed blocks that decoding the LZ4 frame `data` gives, until a read gives
/// nothing or fails.
pub uninterp spec fn lz4_blocks(data: Seq<u8>) -> Seq<Seq<u8>>;

/// The decompressed bytes that a decoder has still to give, block by block.
pub uninterp spec fn pending(decoder: &FrameBlocks<'_>) -> Seq<Seq<u8>>;

/// A read of the decoder has given nothing, or has failed. The decoder is not read after
/// that: it would go on to what follows the frame.
pub uninterp spec fn ended(decoder: &FrameBlocks<'_>) -> bool;

/// Calls `FrameDecoder::new`. Claimed: the blocks that the decoder gives depend on the
/// bytes alone, none of them is empty, and no read has given nothing yet.
#[verifier::external_body]
fn new_decoder<'a>(data: &'a [u8]) -> (decoder: FrameBlocks<'a>)
    ensures
        pending(&decoder) == lz4_blocks(data@),
        forall|i: int|
            0 <= i < pending(&decoder).len() ==> (#[trigger] pending(&decoder)[i]).len() > 0,
        !ended(&decoder),
{
    FrameBlocks { inner: lz4_flex::frame::FrameDecoder::new(data) }
}

/// Calls `FrameDecoder::read`. Claimed: while there is a block, its next bytes come, as
/// many as the buffer holds and the block has; when there is none, nothing comes or
/// the call fails. A decoder that has given bytes can be read again; one that has given
/// nothing cannot, since the call may then panic on the frame that follows.
#[verifier::external_body]
fn read_decoder(decoder: &mut FrameBlocks<'_>, buf: &mut [u8]) -> (n: Option<usize>)
    requires
        old(buf)@.len() > 0,
        !ended(old(decoder)),
    ensures
        final(buf)@.len() == old(buf)@.len(),
        pending(old(decoder)).len() == 0 ==> n is None || n == Some(0usize),
        pending(old(decoder)).len() > 0 ==> {
            let block = pending(old(decoder))[0];
            let rest = pending(old(decoder)).skip(1);
            &&& n is Some
            &&& n->0 == smaller(block.len() as int, old(buf)@.len() as int)
            &&& final(buf)@.take(n->0 as int) == block.take(n->0 as int)
            &&& pending(final(decoder)) == if n->0 < block.len() {
                seq![block.skip(n->0 as int)] + rest
            } else {
                rest
            }
        },
        n is Some && n->0 > 0 ==> !ended(final(decoder)),
{
    std::io::Read::read(&mut decoder.inner, buf).ok()
}

/// What is left of `blocks` when `n` bytes of the first have been read.
pub open spec fn after_read(blocks: Seq<Seq<u8>>, n: int) -> Seq<Seq<u8>> {
    if n < blocks[0].len() {
        seq![blocks[0].skip(n)] + blocks.skip(1)
    } else {
        blocks.skip(1)
    }
}

/// `out` and what reads of `READ_SIZE` bytes give of `blocks`, until there are `limit`
/// bytes or nothing comes any more.
pub open spec fn gathered(blocks: Seq<Seq<u8>>, out: Seq<u8>, limit: int) -> Seq<u8>
    decreases (if out.len() < limit {
        limit - out.len()
    } else {
        0
    }),
{
    if out.len() >= limit || blocks.len() == 0 || blocks[0].len() == 0 {
        out
    } else {
        let n = smaller(blocks[0].len() as int, READ_SIZE as int);
        gathered(after_read(blocks, n), out + blocks[0].take(n), limit)
    }
}

/// No block is empty.
pub open spec fn no_empty_block(blocks: Seq<Seq<u8>>) -> bool {
    forall|i: int| 0 <= i < blocks.len() ==> (#[trigger] blocks[i]).len() > 0
}

/// Decompresses the start of `data`: at least `limit` bytes, where there are so many.
pub fn decompress_prefix(data: &[u8], limit: usize) -> (out: Vec<u8>)
    ensures
        out@ == gathered(lz4_blocks(data@), Seq::empty(), limit as int),
        no_empty_block(lz4_blocks(data@)),
{
    let mut decoder = new_decoder(data);
    assert(no_empty_block(lz4_blocks(data@)));
    let mut out: Vec<u8> = Vec::new();
    let mut buf: Vec<u8> = zero_vec(READ_SIZE);
    while out.len() < limit
        invariant_except_break
            buf@.len() == READ_SIZE,
            !ended(&decoder),
            no_empty_block(pending(&decoder)),
            gathered(pending(&decoder), out@, limit as int) == gathered(
                lz4_blocks(data@),
                Seq::empty(),
                limit as int,
            ),
        ensures
            out@ == gathered(lz4_blocks(data@), Seq::empty(), limit as int),
        decreases (if out@.len() < limit {
            limit - out@.len()
        } else {
            0
        }),
    {
        let ghost blocks = pending(&decoder);
        match read_decoder(&mut decoder, buf.as_mut_slice()) {
            Some(n) => {
                if n == 0 {
                    break;
                }
                put_bytes(&mut out, &buf.as_slice()[0..n]);
                assert(buf@.subrange(0, n as int) == buf@.take(n as int));
                assert(pending(&decoder) == after_read(blocks, n as int));
                assert forall|i: int| 0 <= i < pending(&decoder).len() implies (
                #[trigger] pending(&decoder)[i]).len() > 0 by {
                    if n < blocks[0].len() {
                        if i > 0 {
                            assert(pending(&decoder)[i] == blocks[i]);
                        }
                    } else {
                        assert(pending(&decoder)[i] == blocks[i + 1]);
                    }
                }
            },
            None => {
                break;
            },
        }
    }
    out
}

proof fn gathered_is_prefix(blocks: Seq<Seq<u8>>, out: Seq<u8>, limit: int)
    requires
        no_empty_block(blocks),
        out.len() < limit + READ_SIZE,
    ensures
        gathered(blocks, out, limit).len() <= out.len() + blocks.flatten().len(),
        gathered(blocks, out, limit) == (out + blocks.flatten()).take(
            gathered(blocks, out, limit).len() as int,
        ),
        gathered(blocks, out, limit).len() >= limit || gathered(blocks, out, limit) == out
            + blocks.flatten(),
        gathered(blocks, out, limit).len() < limit + READ_SIZE,
    decreases (if out.len() < limit {
        limit - out.len()
    } else {
        0
    }),
{
    let all = blocks.flatten();
    if out.len() >= limit || blocks.len() == 0 {
        assert((out + all).take(out.len() as int) =~= out);
        if blocks.len() == 0 {
            assert(out + all =~= out);
        }
    } else {
        let first = blocks[0];
        let n = smaller(first.len() as int, READ_SIZE as int);
        let rest = after_read(blocks, n);
        let more = out + first.take(n);
        assert(blocks.drop_first() =~= blocks.skip(1));
        assert(all == first + blocks.drop_first().flatten());
        if n < first.len() {
            assert(rest.drop_first() =~= blocks.skip(1));
            assert(rest.flatten() == first.skip(n) + blocks.skip(1).flatten());
            assert forall|i: int| 0 <= i < rest.len() implies (#[trigger] rest[i]).len() > 0 by {
                if i > 0 {
                    assert(rest[i] == blocks[i]);
                }
            }
        } else {
            assert forall|i: int| 0 <= i < rest.len() implies (#[trigger] rest[i]).len() > 0 by {
                assert(rest[i] == blocks[i + 1]);
            }
            assert(first.take(n) =~= first);
        }
        assert(more + rest.flatten() =~= out + all);
        gathered_is_prefix(rest, more, limit);
    }
}

/// What is decompressed is a prefix of the contents of the frame: all of it, or at least
/// `limit` bytes and less than one read more.
pub proof fn decompressed_is_prefix(blocks: Seq<Seq<u8>>, limit: int)
    requires
        no_empty_block(blocks),
        limit >= 0,
    ensures
        gathered(blocks, Seq::empty(), limit).len() <= blocks.flatten().len(),
        gathered(blocks, Seq::empty(), limit) == blocks.flatten().take(
            gathered(blocks, Seq::empty(), limit).len() as int,
        ),
        gathered(blocks, Seq::empty(), limit).len() >= limit || gathered(
            blocks,
            Seq::empty(),
            limit,
        ) == blocks.flatten(),
        gathered(blocks, Seq::empty(), limit).len() < limit + READ_SIZE,
        gathered(blocks, Seq::empty(), limit).len() < limit + 65536,
{
    gathered_is_prefix(blocks, Seq::empty(), limit);
    assert(Seq::<u8>::empty() + blocks.flatten() =~= blocks.flatten());
}

} // verus!
