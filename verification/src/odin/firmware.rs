//! The firmware files that are sent to a device.

use vstd::prelude::*;

use crate::odin::pit::PitEntry;

verus! {

/// A file that is sent as it is.
pub struct FirmwareFile<'a> {
    /// Contents of the file.
    pub file: &'a [u8],
    /// Partition that it goes to.
    pub pit_entry: &'a PitEntry,
}

/// Number of the pieces of at most `max` bytes that `len` bytes are cut into.
pub open spec fn slice_count(len: int, max: int) -> int {
    (len + max - 1) / max
}

/// Piece number `k` of at most `max` bytes of `file`.
pub open spec fn file_slice(file: Seq<u8>, max: int, k: int) -> Seq<u8> {
    file.subrange(
        k * max,
        if (k + 1) * max < file.len() {
            (k + 1) * max
        } else {
            file.len() as int
        },
    )
}

/// `file` in pieces of `max` bytes, the last of which may be shorter.
pub open spec fn file_slices(file: Seq<u8>, max: int) -> Seq<Seq<u8>> {
    Seq::new(
        slice_count(file.len() as int, max) as nat,
        |k: int| file_slice(file, max, k),
    )
}

impl<'a> FirmwareFile<'a> {
    /// The file in slices of `max` bytes, the last of which may be shorter.
    pub fn slices(&self, max: usize) -> (slices: Vec<&'a [u8]>)
        requires
            max > 0,
        ensures
            contents(slices@) == file_slices(self.file@, max as int),
    {
        let file: &'a [u8] = self.file;
        let len: usize = file.len();
        let mut slices: Vec<&'a [u8]> = Vec::new();
        let mut pos: usize = 0;
        proof {
            slice_count_step(len as int, max as int, 0);
        }
        while pos < len
            invariant
                len == file@.len(),
                max > 0,
                pos <= len,
                pos < len ==> pos == slices@.len() * max,
                pos == len ==> slices@.len() == slice_count(len as int, max as int),
                forall|k: int|
                    0 <= k < slices@.len() ==> (#[trigger] slices@[k])@ == file_slice(
                        file@,
                        max as int,
                        k,
                    ),
            decreases len - pos,
        {
            let ghost k = slices@.len() as int;
            let end: usize = if len - pos > max {
                pos + max
            } else {
                len
            };
            proof {
                assert((k + 1) * max == k * max + max) by (nonlinear_arith);
                slice_count_step(len as int, max as int, k + 1);
            }
            let piece: &'a [u8] = &file[pos..end];
            assert(piece@ =~= file_slice(file@, max as int, k));
            slices.push(piece);
            pos = end;
        }
        assert(contents(slices@) =~= file_slices(self.file@, max as int));
        slices
    }
}

/// The bytes of the slices.
pub open spec fn contents(slices: Seq<&[u8]>) -> Seq<Seq<u8>> {
    Seq::new(slices.len(), |k: int| slices[k]@)
}

/// Where `k` pieces hold all bytes and one piece less does not, there are `k` pieces.
proof fn slice_count_step(len: int, max: int, k: int)
    requires
        0 <= len,
        0 < max,
        0 <= k,
    ensures
        k * max >= len && (k - 1) * max < len ==> slice_count(len, max) == k || len == 0,
        len == 0 ==> slice_count(len, max) == 0,
{
    let n = len + max - 1;
    vstd::arithmetic::div_mod::lemma_fundamental_div_mod(n, max);
    vstd::arithmetic::div_mod::lemma_mod_bound(n, max);
    let q = n / max;
    if len == 0 {
        vstd::arithmetic::div_mod::lemma_basic_div(n, max);
    } else if k * max >= len && (k - 1) * max < len {
        assert(q == k) by (nonlinear_arith)
            requires
                n == max * q + n % max,
                0 <= n % max < max,
                n == len + max - 1,
                k * max >= len,
                (k - 1) * max < len,
                max > 0,
        ;
    }
}

/// How many pieces there are: as many as are needed, and no more.
proof fn slice_count_bounds(len: int, max: int)
    requires
        0 <= len,
        0 < max,
    ensures
        slice_count(len, max) >= 0,
        slice_count(len, max) * max >= len,
        forall|k: int| 0 <= k < slice_count(len, max) ==> #[trigger] (k * max) < len,
{
    let n = len + max - 1;
    let q = n / max;
    vstd::arithmetic::div_mod::lemma_fundamental_div_mod(n, max);
    vstd::arithmetic::div_mod::lemma_mod_bound(n, max);
    assert(q >= 0 && q * max >= len && (q - 1) * max < len) by (nonlinear_arith)
        requires
            n == max * q + n % max,
            0 <= n % max < max,
            n == len + max - 1,
            max > 0,
            len >= 0,
    ;
    assert forall|k: int| 0 <= k < q implies #[trigger] (k * max) < len by {
        assert(k * max <= (q - 1) * max) by (nonlinear_arith)
            requires
                k <= q - 1,
                max > 0,
        ;
    }
}

proof fn slices_from(file: Seq<u8>, max: int, k: int)
    requires
        max > 0,
        0 <= k <= slice_count(file.len() as int, max),
        k * max <= file.len() || k == slice_count(file.len() as int, max),
    ensures
        file_slices(file, max).skip(k).flatten() == file.skip(
            if k * max < file.len() {
                k * max
            } else {
                file.len() as int
            },
        ),
    decreases slice_count(file.len() as int, max) - k,
{
    let n = slice_count(file.len() as int, max);
    let all = file_slices(file, max);
    let rest = all.skip(k);
    slice_count_bounds(file.len() as int, max);
    assert(k * max >= 0) by (nonlinear_arith)
        requires
            k >= 0,
            max > 0,
    ;
    if k == n {
        assert(rest =~= Seq::empty());
        assert(rest.flatten() =~= file.skip(file.len() as int));
    } else {
        assert(k * max < file.len());
        assert((k + 1) * max == k * max + max) by (nonlinear_arith);
        if k + 1 < n {
            assert((k + 1) * max < file.len());
        }
        slices_from(file, max, k + 1);
        assert(rest.first() == file_slice(file, max, k));
        assert(rest.drop_first() =~= all.skip(k + 1));
        assert(rest.flatten() =~= file.skip(k * max));
    }
}

/// The slices of a file, one after the other, are the file.
pub proof fn slices_make_up_file(file: Seq<u8>, max: int)
    requires
        max > 0,
    ensures
        file_slices(file, max).flatten() == file,
{
    slice_count_bounds(file.len() as int, max);
    slices_from(file, max, 0);
    assert(file_slices(file, max).skip(0) =~= file_slices(file, max));
    assert(file.skip(0) =~= file);
}

/// No slice of a file is empty or longer than asked, and only the last can be shorter.
pub proof fn slices_are_even(file: Seq<u8>, max: int, k: int)
    requires
        max > 0,
        0 <= k < file_slices(file, max).len(),
    ensures
        0 < file_slices(file, max)[k].len() <= max,
        k + 1 < file_slices(file, max).len() ==> file_slices(file, max)[k].len() == max,
{
    slice_count_bounds(file.len() as int, max);
    assert(k * max < file.len());
    assert(k * max >= 0) by (nonlinear_arith)
        requires
            k >= 0,
            max > 0,
    ;
    assert((k + 1) * max == k * max + max) by (nonlinear_arith);
    if k + 1 < file_slices(file, max).len() {
        assert((k + 1) * max < file.len());
    }
}

/// What the header of a compressed file says.
#[derive(Debug, Clone, Copy, PartialEq, Eq)]
pub struct Lz4Header {
    /// Longest decompressed length of a block.
    pub block_max_size: usize,
    /// Decompressed length of the file.
    pub content_size: u64,
}

/// A part of a compressed file that is sent as one slice.
pub struct Lz4Slice<'a> {
    /// Length of the part when it is decompressed.
    pub decompressed_size: usize,
    /// The part.
    pub data: &'a [u8],
}

/// A file that is compressed with LZ4.
pub struct FirmwareLz4File<'a> {
    /// Contents of the file.
    pub file: &'a [u8],
    /// What its header says.
    pub header: Lz4Header,
    /// The file in compressed slices.
    pub slices: &'a [Lz4Slice<'a>],
    /// The file in decompressed slices.
    pub decompressed_slices: &'a [&'a [u8]],
    /// Partition that it goes to.
    pub pit_entry: &'a PitEntry,
}

/// A file that is sent to a device.
pub enum FirmwareInfo<'a> {
    /// Not compressed.
    Normal(FirmwareFile<'a>),
    /// Compressed.
    Lz4(FirmwareLz4File<'a>),
}

} // verus!
