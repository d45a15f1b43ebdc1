//! Little-endian integers in byte strings, and the few byte-string helpers that
//! the wire and file formats are built from.

use vstd::prelude::*;

verus! {

/// The two bytes of `x`, least significant first.
pub open spec fn le16(x: u16) -> Seq<u8> {
    seq![(x % 256) as u8, (x / 256) as u8]
}

/// The four bytes of `x`, least significant first.
pub open spec fn le32(x: u32) -> Seq<u8> {
    seq![
        (x % 256) as u8,
        (x / 256 % 256) as u8,
        (x / 65536 % 256) as u8,
        (x / 16777216) as u8,
    ]
}

/// The eight bytes of `x`, least significant first.
pub open spec fn le64(x: u64) -> Seq<u8> {
    le32((x % 0x1_0000_0000) as u32) + le32((x / 0x1_0000_0000) as u32)
}

/// The 16-bit little-endian integer at offset `i` of `s`.
pub open spec fn u16_at(s: Seq<u8>, i: int) -> u16 {
    (s[i] + 256 * s[i + 1]) as u16
}

/// The 32-bit little-endian integer at offset `i` of `s`.
pub open spec fn u32_at(s: Seq<u8>, i: int) -> u32 {
    (s[i] + 256 * s[i + 1] + 65536 * s[i + 2] + 16777216 * s[i + 3]) as u32
}

/// The 64-bit little-endian integer at offset `i` of `s`.
pub open spec fn u64_at(s: Seq<u8>, i: int) -> u64 {
    (u32_at(s, i) + 0x1_0000_0000 * u32_at(s, i + 4)) as u64
}

/// `n` zero bytes.
pub open spec fn zeros(n: nat) -> Seq<u8> {
    Seq::new(n, |i: int| 0u8)
}

/// `base` with the bytes from offset `at` on replaced by `patch`.
pub open spec fn overwrite(base: Seq<u8>, at: int, patch: Seq<u8>) -> Seq<u8> {
    Seq::new(
        base.len(),
        |i: int|
            if at <= i < at + patch.len() {
                patch[i - at]
            } else {
                base[i]
            },
    )
}

/// The value of an unsigned 32-bit word read as a two's complement number.
pub open spec fn signed32(x: u32) -> i32 {
    if x < 0x8000_0000 {
        x as i32
    } else {
        (x - 0x1_0000_0000) as i32
    }
}

/// Writing a 16-bit integer and reading it back gives the integer.
pub proof fn le16_round_trip(x: u16)
    ensures
        le16(x).len() == 2,
        u16_at(le16(x), 0) == x,
{
}

/// Writing a 32-bit integer and reading it back gives the integer.
pub proof fn le32_round_trip(x: u32)
    ensures
        le32(x).len() == 4,
        u32_at(le32(x), 0) == x,
{
}

/// Writing a 64-bit integer and reading it back gives the integer.
pub proof fn le64_round_trip(x: u64)
    ensures
        le64(x).len() == 8,
        u64_at(le64(x), 0) == x,
{
    let lo = (x % 0x1_0000_0000) as u32;
    let hi = (x / 0x1_0000_0000) as u32;
    le32_round_trip(lo);
    le32_round_trip(hi);
    assert(u32_at(le64(x), 0) == lo);
    assert(u32_at(le64(x), 4) == hi);
}

/// The digits of a number in base 256.
proof fn digits(x: int, a: int, b: int, c: int, d: int)
    requires
        0 <= a < 256,
        0 <= b < 256,
        0 <= c < 256,
        0 <= d < 256,
        x == a + 256 * b + 65536 * c + 16777216 * d,
    ensures
        x % 256 == a,
        x / 256 % 256 == b,
        x / 65536 % 256 == c,
        x / 16777216 == d,
{
    assert(x / 256 == b + 256 * c + 65536 * d);
    assert(x / 65536 == c + 256 * d);
}

/// Four bytes are the encoding of the integer that is read from them.
pub proof fn u32_at_is_le32(s: Seq<u8>, i: int)
    requires
        0 <= i,
        i + 4 <= s.len(),
    ensures
        s.subrange(i, i + 4) == le32(u32_at(s, i)),
{
    let x = u32_at(s, i);
    digits(x as int, s[i] as int, s[i + 1] as int, s[i + 2] as int, s[i + 3] as int);
    assert(s.subrange(i, i + 4) =~= le32(x));
}

/// The 32-bit integer at offset `i`.
pub fn read_u32(s: &[u8], i: usize) -> (x: u32)
    requires
        i + 4 <= s@.len(),
    ensures
        x == u32_at(s@, i as int),
{
    s[i] as u32 + 256 * (s[i + 1] as u32) + 65536 * (s[i + 2] as u32) + 16777216 * (s[i
        + 3] as u32)
}

/// The 16-bit integer at offset `i`.
pub fn read_u16(s: &[u8], i: usize) -> (x: u16)
    requires
        i + 2 <= s@.len(),
    ensures
        x == u16_at(s@, i as int),
{
    s[i] as u16 + 256 * (s[i + 1] as u16)
}

/// The 64-bit integer at offset `i`.
pub fn read_u64(s: &[u8], i: usize) -> (x: u64)
    requires
        i + 8 <= s@.len(),
    ensures
        x == u64_at(s@, i as int),
{
    assert(s.len() == s@.len());
    read_u32(s, i) as u64 + 0x1_0000_0000 * (read_u32(s, i + 4) as u64)
}

/// Appends the bytes of `x`.
pub fn put_u16(out: &mut Vec<u8>, x: u16)
    ensures
        final(out)@ == old(out)@ + le16(x),
{
    out.push((x % 256) as u8);
    out.push((x / 256) as u8);
    assert(out@ =~= old(out)@ + le16(x));
}

/// Appends the bytes of `x`.
pub fn put_u32(out: &mut Vec<u8>, x: u32)
    ensures
        final(out)@ == old(out)@ + le32(x),
{
    out.push((x % 256) as u8);
    out.push((x / 256 % 256) as u8);
    out.push((x / 65536 % 256) as u8);
    out.push((x / 16777216) as u8);
    assert(out@ =~= old(out)@ + le32(x));
}

/// Appends the bytes of `x`.
pub fn put_u64(out: &mut Vec<u8>, x: u64)
    ensures
        final(out)@ == old(out)@ + le64(x),
{
    put_u32(out, (x % 0x1_0000_0000) as u32);
    put_u32(out, (x / 0x1_0000_0000) as u32);
    assert(out@ =~= old(out)@ + le64(x));
}

/// Appends the bytes of `s`.
pub fn put_bytes(out: &mut Vec<u8>, s: &[u8])
    ensures
        final(out)@ == old(out)@ + s@,
{
    out.extend_from_slice(s);
    assert(out@ =~= old(out)@ + s@);
}

/// Appends `n` zero bytes.
pub fn put_zeros(out: &mut Vec<u8>, n: usize)
    requires
        old(out)@.len() + n <= usize::MAX,
    ensures
        final(out)@ == old(out)@ + zeros(n as nat),
{
    let total: usize = out.len() + n;
    out.resize(total, 0u8);
    assert(out@.len() == total);
    if n > 0 {
        assert forall|i: int| 0 <= i < old(out)@.len() implies out@[i] == old(out)@[i] by {
            assert(out@.subrange(0, old(out)@.len() as int)[i] == old(out)@[i]);
        }
    }
    assert(out@ =~= old(out)@ + zeros(n as nat));
}

/// A vector of `n` zero bytes.
pub fn zero_vec(n: usize) -> (v: Vec<u8>)
    ensures
        v@ == zeros(n as nat),
{
    let v = vec![0u8; n];
    assert(v@ =~= zeros(n as nat));
    v
}

/// A copy of `s[from..to]`.
pub fn copy_range(s: &[u8], from: usize, to: usize) -> (v: Vec<u8>)
    requires
        from <= to <= s@.len(),
    ensures
        v@ == s@.subrange(from as int, to as int),
{
    let mut v: Vec<u8> = Vec::new();
    put_bytes(&mut v, &s[from..to]);
    assert(v@ =~= s@.subrange(from as int, to as int));
    v
}

/// Whether two byte strings are equal.
pub fn bytes_equal(a: &[u8], b: &[u8]) -> (r: bool)
    ensures
        r == (a@ == b@),
{
    if a.len() != b.len() {
        return false;
    }
    let mut i: usize = 0;
    while i < a.len()
        invariant
            a@.len() == b@.len(),
            i <= a@.len(),
            forall|j: int| 0 <= j < i ==> a@[j] == b@[j],
        decreases a@.len() - i,
    {
        if a[i] != b[i] {
            return false;
        }
        i += 1;
    }
    assert(a@ =~= b@);
    true
}

/// Copies `patch` over `base[at..]`.
pub fn write_at(base: &mut [u8], at: usize, patch: &[u8])
    requires
        at + patch@.len() <= old(base)@.len(),
    ensures
        final(base)@ == overwrite(old(base)@, at as int, patch@),
{
    let total: usize = base.len();
    let mut i: usize = 0;
    while i < patch.len()
        invariant
            i <= patch@.len(),
            at + patch@.len() <= total == old(base)@.len(),
            base@ == overwrite(old(base)@, at as int, patch@.take(i as int)),
        decreases patch@.len() - i,
    {
        base[at + i] = patch[i];
        i += 1;
        assert(base@ =~= overwrite(old(base)@, at as int, patch@.take(i as int)));
    }
    assert(patch@.take(i as int) =~= patch@);
}

/// The two's complement reading of `x`.
pub fn as_signed32(x: u32) -> (r: i32)
    ensures
        r == signed32(x),
{
    if x < 0x8000_0000 {
        x as i32
    } else {
        (x as i64 - 0x1_0000_0000i64) as i32
    }
}

/// Byte number `k` of a 32-bit integer is the integer shifted right by eight bits `k` times
/// and cut off: the least significant byte comes first.
pub proof fn le32_bytes(x: u32)
    ensures
        le32(x)[0] == (x & 0xff) as u8,
        le32(x)[1] == ((x >> 8) & 0xff) as u8,
        le32(x)[2] == ((x >> 16) & 0xff) as u8,
        le32(x)[3] == ((x >> 24) & 0xff) as u8,
{
    assert(x % 256 == x & 0xff) by (bit_vector);
    assert(x / 256 % 256 == (x >> 8) & 0xff) by (bit_vector);
    assert(x / 65536 % 256 == (x >> 16) & 0xff) by (bit_vector);
    assert(x / 16777216 == (x >> 24) & 0xff) by (bit_vector);
}

/// An unsigned word and its signed reading are equal, or differ by 2 to the power of 32.
pub proof fn signed32_is_congruent(x: u32)
    ensures
        signed32(x) == x || signed32(x) == x - 0x1_0000_0000,
        signed32(x) < 0 <==> x >= 0x8000_0000,
{
}

/// A 16-bit integer has its low byte first, and a 64-bit integer its low half.
pub proof fn low_part_comes_first(x: u16, y: u64)
    ensures
        le16(x)[0] == (x & 0xff) as u8,
        le16(x)[1] == (x >> 8) as u8,
        le64(y).take(4) == le32((y & 0xffff_ffff) as u32),
        le64(y).skip(4) == le32((y >> 32) as u32),
{
    assert(x % 256 == x & 0xff) by (bit_vector);
    assert(x / 256 == x >> 8) by (bit_vector);
    assert(y % 0x1_0000_0000 == y & 0xffff_ffff) by (bit_vector);
    assert(y / 0x1_0000_0000 == y >> 32) by (bit_vector);
    assert(le64(y).take(4) =~= le32((y & 0xffff_ffff) as u32));
    assert(le64(y).skip(4) =~= le32((y >> 32) as u32));
}

/// An integer that is read from bytes counts each byte 256 times as much as the byte before
/// it.
pub proof fn bytes_are_digits(s: Seq<u8>, i: int)
    ensures
        u16_at(s, i) == s[i] + 0x100 * s[i + 1],
        u32_at(s, i) == u16_at(s, i) + 0x1_0000 * u16_at(s, i + 2),
        u64_at(s, i) == u32_at(s, i) + 0x1_0000_0000 * u32_at(s, i + 4),
{
}

} // verus!
