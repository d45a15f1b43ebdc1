//! The bitfield of a footer: one bit per block, the first block in the lowest bit
//! of the first byte.

use vstd::prelude::*;

verus! {

/// Bit `k` of `byte`, counted from the least significant one.
pub open spec fn bit_set(byte: u8, k: int) -> bool {
    if k == 0 {
        byte % 2 == 1
    } else if k == 1 {
        byte / 2 % 2 == 1
    } else if k == 2 {
        byte / 4 % 2 == 1
    } else if k == 3 {
        byte / 8 % 2 == 1
    } else if k == 4 {
        byte / 16 % 2 == 1
    } else if k == 5 {
        byte / 32 % 2 == 1
    } else if k == 6 {
        byte / 64 % 2 == 1
    } else {
        byte / 128 == 1
    }
}

/// Block `blk` is complete.
pub open spec fn block_done(bitfield: Seq<u8>, blk: int) -> bool {
    bit_set(bitfield[blk / 8], blk % 8)
}

/// What masking says of a bit.
proof fn masked_bit(byte: u8, k: u8)
    requires
        k < 8,
    ensures
        (byte & (1u8 << k) != 0) == bit_set(byte, k as int),
{
    assert(byte & (1u8 << 0) != 0 <==> byte % 2 == 1) by (bit_vector);
    assert(byte & (1u8 << 1) != 0 <==> byte / 2 % 2 == 1) by (bit_vector);
    assert(byte & (1u8 << 2) != 0 <==> byte / 4 % 2 == 1) by (bit_vector);
    assert(byte & (1u8 << 3) != 0 <==> byte / 8 % 2 == 1) by (bit_vector);
    assert(byte & (1u8 << 4) != 0 <==> byte / 16 % 2 == 1) by (bit_vector);
    assert(byte & (1u8 << 5) != 0 <==> byte / 32 % 2 == 1) by (bit_vector);
    assert(byte & (1u8 << 6) != 0 <==> byte / 64 % 2 == 1) by (bit_vector);
    assert(byte & (1u8 << 7) != 0 <==> byte / 128 == 1) by (bit_vector);
}

/// Setting a bit sets that bit and leaves the others.
proof fn set_bit(byte: u8, k: u8, j: u8)
    requires
        k < 8,
        j < 8,
    ensures
        bit_set(byte | (1u8 << k), j as int) == (bit_set(byte, j as int) || j == k),
{
    let out = byte | (1u8 << k);
    masked_bit(byte, j);
    masked_bit(out, j);
    assert((byte | (1u8 << k)) & (1u8 << j) != 0 <==> (byte & (1u8 << j) != 0 || j == k))
        by (bit_vector)
        requires
            k < 8,
            j < 8,
    ;
}

/// Two bytes with the same bits are the same byte.
pub proof fn same_bits(a: u8, b: u8)
    requires
        forall|k: int| 0 <= k < 8 ==> bit_set(a, k) == bit_set(b, k),
    ensures
        a == b,
{
    assert(bit_set(a, 0) == bit_set(b, 0));
    assert(bit_set(a, 1) == bit_set(b, 1));
    assert(bit_set(a, 2) == bit_set(b, 2));
    assert(bit_set(a, 3) == bit_set(b, 3));
    assert(bit_set(a, 4) == bit_set(b, 4));
    assert(bit_set(a, 5) == bit_set(b, 5));
    assert(bit_set(a, 6) == bit_set(b, 6));
    assert(bit_set(a, 7) == bit_set(b, 7));
}

/// Whether block `blk` is complete.
pub fn is_block_done(bitfield: &[u8], blk: usize) -> (done: bool)
    requires
        blk < 8 * bitfield@.len(),
    ensures
        done == block_done(bitfield@, blk as int),
        done == (bitfield@[blk as int / 8] & (1u8 << ((blk % 8) as u8)) != 0),
{
    let k: u8 = (blk % 8) as u8;
    proof {
        masked_bit(bitfield@[blk as int / 8], k);
    }
    bitfield[blk / 8] & (1u8 << k) != 0
}

/// `byte` with bit `k` set.
pub fn with_bit(byte: u8, k: u8) -> (out: u8)
    requires
        k < 8,
    ensures
        forall|j: int| 0 <= j < 8 ==> #[trigger] bit_set(out, j) == (bit_set(byte, j) || j == k),
        out == byte | (1u8 << k),
{
    let out: u8 = byte | (1u8 << k);
    proof {
        assert forall|j: int| 0 <= j < 8 implies #[trigger] bit_set(out, j) == (bit_set(byte, j)
            || j == k) by {
            set_bit(byte, k, j as u8);
        }
    }
    out
}

/// Block `blk` is complete if and only if bit `blk % 8` of byte `blk / 8` is set, the least
/// significant bit being the first.
pub proof fn block_is_bit(bitfield: Seq<u8>, blk: int)
    requires
        0 <= blk < 8 * bitfield.len(),
    ensures
        block_done(bitfield, blk) <==> bitfield[blk / 8] & (1u8 << ((blk % 8) as u8)) != 0,
{
    masked_bit(bitfield[blk / 8], (blk % 8) as u8);
}

} // verus!
