//! The footer of a partial download.
//!
//! A partial download is the payload, at its full length from the start, followed
//! by a footer: a header that identifies the download, one bit per 2 MiB block that
//! says whether the block is complete, and a trailer (MD5, length of the footer,
//! magic). The MD5 is taken with all bits zero, so that setting a bit leaves the
//! footer valid: a download may stop at any moment and be resumed.

use vstd::prelude::*;

use crate::bytes::{
    bytes_equal, copy_range, le16, le32, le64, put_bytes, put_u16, put_u32, put_u64,
    put_zeros, read_u32, u16_at, u32_at, u64_at, write_at, zeros,
};
use crate::fus::info::BinaryInform;

verus! {

/// Bytes per independently tracked block: 2 MiB, a multiple of the AES block.
pub const BLOCK_SIZE: usize = 2097152;

/// Version of the footer's layout.
pub const FOOTER_VERSION: u32 = 1;

/// Length of the trailer: MD5 (16), length of the footer (4), magic (8).
pub const TRAILER_LEN: usize = 28;

/// The last eight bytes of a footer, `SAMLOADR`.
pub open spec fn footer_magic() -> Seq<u8> {
    seq![0x53u8, 0x41u8, 0x4du8, 0x4cu8, 0x4fu8, 0x41u8, 0x44u8, 0x52u8]
}

/// The number of blocks of a file of `size` bytes.
pub open spec fn block_count(size: int) -> int {
    (size + BLOCK_SIZE - 1) / (BLOCK_SIZE as int)
}

/// The number of bytes that hold one bit for each of `blocks` blocks.
pub open spec fn bitfield_bytes(blocks: int) -> int {
    (blocks + 7) / 8
}

/// The MD5 digest of `data`.
pub uninterp spec fn md5(data: Seq<u8>) -> Seq<u8>;

/// Calls `fast_md5::digest`. Claimed: the digest depends on the bytes alone.
#[verifier::external_body]
fn md5_digest(data: &[u8]) -> (digest: [u8; 16])
    ensures
        digest@ == md5(data@),
{
    fast_md5::digest(data)
}

/// The sixteen bytes of checksum that a footer stores for `data`.
pub open spec fn checksum(data: Seq<u8>) -> Seq<u8> {
    Seq::new(16, |i: int| md5(data)[i])
}

/// The header of the footer of a download.
pub open spec fn header(info: BinaryInform) -> Seq<u8> {
    le32(FOOTER_VERSION) + le64(info.size) + info.key@ + le32(BLOCK_SIZE as u32) + le32(
        block_count(info.size as int) as u32,
    ) + le16(info.filename_bytes().len() as u16) + info.filename_bytes() + le16(
        info.version_bytes().len() as u16,
    ) + info.version_bytes()
}

/// The footer of a download whose blocks are complete as `bitfield` says.
pub open spec fn footer_image(info: BinaryInform, bitfield: Seq<u8>) -> Seq<u8> {
    header(info) + bitfield + checksum(header(info) + zeros(bitfield.len())) + le32(
        (header(info).len() + bitfield.len() + TRAILER_LEN) as u32,
    ) + footer_magic()
}

/// The number of blocks as a footer can store it.
pub open spec fn stored_blocks(info: BinaryInform) -> u32 {
    block_count(info.size as int) as u32
}

/// `file` is a partial download of `info` whose complete blocks are those of `bitfield`.
pub open spec fn is_partial_download(file: Seq<u8>, info: BinaryInform, bitfield: Seq<u8>) -> bool {
    &&& info.key@.len() == 16
    &&& info.filename_bytes().len() <= u16::MAX
    &&& info.version_bytes().len() <= u16::MAX
    &&& bitfield.len() == bitfield_bytes(stored_blocks(info) as int)
    &&& header(info).len() + bitfield.len() + TRAILER_LEN <= u32::MAX
    &&& file.len() == info.size + footer_image(info, bitfield).len()
    &&& file.subrange(info.size as int, file.len() as int) == footer_image(info, bitfield)
}

proof fn header_len(info: BinaryInform)
    ensures
        header(info).len() == 24 + info.key@.len() + info.filename_bytes().len()
            + info.version_bytes().len(),
{
}

proof fn footer_image_len(info: BinaryInform, bitfield: Seq<u8>)
    ensures
        footer_image(info, bitfield).len() == header(info).len() + bitfield.len() + TRAILER_LEN,
{
}

/// The parts that make a file a partial download.
spec fn partial_parts(file: Seq<u8>, info: BinaryInform, bitfield: Seq<u8>) -> bool {
    let size = info.size as int;
    let hlen = header(info).len() as int;
    let blen = bitfield.len() as int;
    let n = file.len() as int;
    &&& info.key@.len() == 16
    &&& info.filename_bytes().len() <= u16::MAX
    &&& info.version_bytes().len() <= u16::MAX
    &&& bitfield.len() == bitfield_bytes(stored_blocks(info) as int)
    &&& n == size + hlen + blen + TRAILER_LEN
    &&& file.subrange(n - 8, n) == footer_magic()
    &&& u32_at(file, n - 12) == hlen + blen + TRAILER_LEN
    &&& file.subrange(size, size + hlen) == header(info)
    &&& file.subrange(size + hlen, size + hlen + blen) == bitfield
    &&& file.subrange(n - 28, n - 12) == checksum(header(info) + zeros(bitfield.len()))
}

/// Five parts in a row lie where their lengths say.
proof fn five_parts(
    file: Seq<u8>,
    at: int,
    a: Seq<u8>,
    b: Seq<u8>,
    c: Seq<u8>,
    d: Seq<u8>,
    e: Seq<u8>,
)
    requires
        0 <= at <= file.len(),
        file.subrange(at, file.len() as int) == a + b + c + d + e,
    ensures
        file.len() == at + a.len() + b.len() + c.len() + d.len() + e.len(),
        file.subrange(at, at + a.len()) == a,
        file.subrange(at + a.len(), at + a.len() + b.len()) == b,
        file.subrange(at + a.len() + b.len(), at + a.len() + b.len() + c.len()) == c,
        file.subrange(file.len() - e.len() - d.len(), file.len() - e.len()) == d,
        file.subrange(file.len() - e.len(), file.len() as int) == e,
{
    let rest = file.subrange(at, file.len() as int);
    assert(rest.len() == file.len() - at);
    assert(file.subrange(at, at + a.len()) =~= rest.subrange(0, a.len() as int));
    assert(rest.subrange(0, a.len() as int) =~= a);
    let ab = a.len() + b.len();
    assert(file.subrange(at + a.len(), at + ab) =~= rest.subrange(a.len() as int, ab as int));
    assert(rest.subrange(a.len() as int, ab as int) =~= b);
    let abc = ab + c.len();
    assert(file.subrange(at + ab, at + abc) =~= rest.subrange(ab as int, abc as int));
    assert(rest.subrange(ab as int, abc as int) =~= c);
    let abcd = abc + d.len();
    assert(file.subrange(at + abc, at + abcd) =~= rest.subrange(abc as int, abcd as int));
    assert(rest.subrange(abc as int, abcd as int) =~= d);
    assert(file.subrange(at + abcd, file.len() as int) =~= rest.subrange(
        abcd as int,
        rest.len() as int,
    ));
    assert(rest.subrange(abcd as int, rest.len() as int) =~= e);
}

/// Where the parts of a partial download lie.
proof fn partial_download_parts(file: Seq<u8>, info: BinaryInform, bitfield: Seq<u8>)
    requires
        is_partial_download(file, info, bitfield),
    ensures
        partial_parts(file, info, bitfield),
{
    let n = file.len() as int;
    let total = (header(info).len() + bitfield.len() + TRAILER_LEN) as u32;
    let sum = checksum(header(info) + zeros(bitfield.len()));
    five_parts(file, info.size as int, header(info), bitfield, sum, le32(total), footer_magic());
    crate::bytes::le32_round_trip(total);
    let stored = file.subrange(n - 12, n - 8);
    assert(stored == le32(total));
    assert(file[n - 12] == stored[0] && file[n - 11] == stored[1] && file[n - 10] == stored[2]
        && file[n - 9] == stored[3]);
}

/// A file whose parts are those of a partial download is one.
proof fn parts_make_partial_download(file: Seq<u8>, info: BinaryInform, bitfield: Seq<u8>)
    requires
        partial_parts(file, info, bitfield),
    ensures
        is_partial_download(file, info, bitfield),
{
    let size = info.size as int;
    let hlen = header(info).len() as int;
    let blen = bitfield.len() as int;
    let n = file.len() as int;
    let image = footer_image(info, bitfield);
    footer_image_len(info, bitfield);
    crate::bytes::u32_at_is_le32(file, n - 12);
    assert(file.subrange(size, n) =~= file.subrange(size, size + hlen) + file.subrange(
        size + hlen,
        size + hlen + blen,
    ) + file.subrange(n - 28, n - 12) + file.subrange(n - 12, n - 8) + file.subrange(n - 8, n));
}

/// A footer of `info` with `bitfield` can be stored: what it writes down in two or four
/// bytes fits in them.
pub open spec fn storable(info: BinaryInform, bitfield: Seq<u8>) -> bool {
    &&& info.key@.len() == 16
    &&& info.filename_bytes().len() <= u16::MAX
    &&& info.version_bytes().len() <= u16::MAX
    &&& block_count(info.size as int) <= u32::MAX
    &&& bitfield.len() == bitfield_bytes(block_count(info.size as int))
    &&& header(info).len() + bitfield.len() + TRAILER_LEN <= u32::MAX
}

/// A payload followed by its footer is a partial download, and reading it gives back
/// the bitfield that was written, whatever the payload.
pub proof fn footer_round_trip(payload: Seq<u8>, info: BinaryInform, bitfield: Seq<u8>)
    requires
        payload.len() == info.size,
        storable(info, bitfield),
    ensures
        is_partial_download(payload + footer_image(info, bitfield), info, bitfield),
        forall|other: Seq<u8>| #[trigger]
            is_partial_download(payload + footer_image(info, bitfield), info, other) ==> other
                == bitfield,
{
    let image = footer_image(info, bitfield);
    let file = payload + image;
    assert(file.subrange(info.size as int, file.len() as int) =~= image);
    assert(is_partial_download(file, info, bitfield));
    assert forall|other: Seq<u8>| #[trigger] is_partial_download(file, info, other) implies other
        == bitfield by {
        bitfield_is_determined(file, info, bitfield, other);
    }
}

/// A file is a partial download of `info` with one bitfield at most.
pub proof fn bitfield_is_determined(file: Seq<u8>, info: BinaryInform, a: Seq<u8>, b: Seq<u8>)
    requires
        is_partial_download(file, info, a),
        is_partial_download(file, info, b),
    ensures
        a == b,
{
    partial_download_parts(file, info, a);
    partial_download_parts(file, info, b);
}

/// Two footers that differ in the bitfield at most are footers of the same download.
pub proof fn bitfield_change_keeps_footer(
    info: BinaryInform,
    before: Seq<u8>,
    after: Seq<u8>,
    bitfield: Seq<u8>,
)
    requires
        before == footer_image(info, bitfield),
        after.len() == before.len(),
        forall|i: int|
            0 <= i < before.len() && !(header(info).len() <= i < header(info).len()
                + bitfield.len()) ==> #[trigger] after[i] == before[i],
    ensures
        after == footer_image(
            info,
            after.subrange(
                header(info).len() as int,
                (header(info).len() + bitfield.len()) as int,
            ),
        ),
{
    let h = header(info);
    let from = h.len() as int;
    let upto = (h.len() + bitfield.len()) as int;
    let changed = after.subrange(from, upto);
    let sum = checksum(h + zeros(bitfield.len()));
    let total = le32((h.len() + bitfield.len() + TRAILER_LEN) as u32);
    assert(before =~= h + bitfield + (sum + total + footer_magic()));
    concat_patch(h, bitfield, changed, sum + total + footer_magic(), before, after);
    assert(footer_image(info, changed) =~= h + changed + (sum + total + footer_magic()));
}

proof fn concat_patch(
    head: Seq<u8>,
    mid: Seq<u8>,
    changed: Seq<u8>,
    tail: Seq<u8>,
    before: Seq<u8>,
    after: Seq<u8>,
)
    requires
        before.len() == head.len() + mid.len() + tail.len(),
        before =~= head + mid + tail,
        after.len() == before.len(),
        changed == after.subrange(head.len() as int, (head.len() + mid.len()) as int),
        forall|i: int|
            0 <= i < before.len() && !(head.len() <= i < head.len() + mid.len())
                ==> #[trigger] after[i] == before[i],
    ensures
        after == head + changed + tail,
{
    assert(after =~= head + changed + tail);
}

/// Where the parts of a footer lie, and how long they are.
pub struct FooterLayout {
    /// Number of blocks of the download.
    pub num_blocks: usize,
    /// Offset of the bitfield in the footer.
    pub bitfield_offset: usize,
    /// Length of the bitfield.
    pub bitfield_len: usize,
    /// Length of the footer.
    pub footer_len: usize,
}

impl FooterLayout {
    /// The layout is the one of the footer of `info`.
    pub open spec fn fits(self, info: BinaryInform) -> bool {
        &&& self.num_blocks == block_count(info.size as int)
        &&& self.bitfield_offset == 40 + info.filename_bytes().len() + info.version_bytes().len()
        &&& self.bitfield_len == bitfield_bytes(self.num_blocks as int)
        &&& self.footer_len == self.bitfield_offset + self.bitfield_len + TRAILER_LEN
    }

    /// The layout of the footer of `info`.
    pub fn new(info: &BinaryInform) -> (layout: FooterLayout)
        requires
            block_count(info.size as int) <= usize::MAX,
            40 + info.filename_bytes().len() + info.version_bytes().len() + bitfield_bytes(
                block_count(info.size as int),
            ) + TRAILER_LEN <= usize::MAX,
        ensures
            layout.fits(*info),
    {
        let num_blocks: usize = count_blocks(info.size) as usize;
        let bitfield_len: usize = count_bitfield_bytes(num_blocks);
        let bitfield_offset: usize = 4  // version
             + 8  // file size
             + 16  // key
             + 4  // block size
             + 4  // number of blocks
             + 2  // length of the file name
             + info.filename.as_str().as_bytes().len() + 2  // length of the version
             + info.version.as_str().as_bytes().len();
        let footer_len: usize = bitfield_offset + bitfield_len + TRAILER_LEN;
        FooterLayout { num_blocks, bitfield_offset, bitfield_len, footer_len }
    }

    /// Writes the footer of a download of which nothing is complete yet.
    pub fn serialize_initial(&self, info: &BinaryInform, out: &mut [u8])
        requires
            self.fits(*info),
            info.key@.len() == 16,
            old(out)@.len() == self.footer_len,
        ensures
            final(out)@ == footer_image(*info, zeros(self.bitfield_len as nat)),
    {
        let mut image: Vec<u8> = header_bytes(info);
        proof {
            header_len(*info);
        }
        put_zeros(&mut image, self.bitfield_len);
        let digest = md5_digest(image.as_slice());
        assert(digest@ =~= checksum(header(*info) + zeros(self.bitfield_len as nat)));
        put_bytes(&mut image, digest.as_slice());
        put_u32(&mut image, self.footer_len as u32);
        put_bytes(&mut image, magic_bytes().as_slice());
        write_at(out, 0, image.as_slice());
        assert(out@ =~= footer_image(*info, zeros(self.bitfield_len as nat)));
    }
}

/// The number of blocks of a file of `size` bytes.
pub fn count_blocks(size: u64) -> (n: u64)
    ensures
        n == block_count(size as int),
{
    let whole: u64 = size / (BLOCK_SIZE as u64);
    if size % (BLOCK_SIZE as u64) == 0 {
        whole
    } else {
        whole + 1
    }
}

/// The number of bytes that hold one bit for each of `blocks` blocks.
pub fn count_bitfield_bytes(blocks: usize) -> (n: usize)
    ensures
        n == bitfield_bytes(blocks as int),
{
    if blocks % 8 == 0 {
        blocks / 8
    } else {
        blocks / 8 + 1
    }
}

fn magic_bytes() -> (magic: Vec<u8>)
    ensures
        magic@ == footer_magic(),
{
    let magic: Vec<u8> = vec![0x53u8, 0x41u8, 0x4du8, 0x4cu8, 0x4fu8, 0x41u8, 0x44u8, 0x52u8];
    assert(magic@ =~= footer_magic());
    magic
}

fn header_bytes(info: &BinaryInform) -> (out: Vec<u8>)
    ensures
        out@ == header(*info),
{
    let filename: &[u8] = info.filename.as_str().as_bytes();
    let version: &[u8] = info.version.as_str().as_bytes();
    let mut out: Vec<u8> = Vec::new();
    put_u32(&mut out, FOOTER_VERSION);
    put_u64(&mut out, info.size);
    put_bytes(&mut out, info.key.as_slice());
    put_u32(&mut out, BLOCK_SIZE as u32);
    put_u32(&mut out, count_blocks(info.size) as u32);
    put_u16(&mut out, filename.len() as u16);
    put_bytes(&mut out, filename);
    put_u16(&mut out, version.len() as u16);
    put_bytes(&mut out, version);
    assert(out@ =~= header(*info));
    out
}

/// What a valid footer says of a partial download.
pub struct ParsedFooter {
    /// One bit per block, the first block in the lowest bit of the first byte.
    pub bitfield: Vec<u8>,
    /// Number of blocks.
    pub num_blocks: usize,
}

impl ParsedFooter {
    /// Reads the footer of `file`, if `file` is a partial download of `info`.
    #[verifier::rlimit(40)]
    #[verifier::spinoff_prover]
    pub fn read_and_validate(file: &[u8], info: &BinaryInform) -> (parsed: Option<ParsedFooter>)
        ensures
            parsed matches Some(p) ==> {
                &&& is_partial_download(file@, *info, p.bitfield@)
                &&& p.num_blocks == stored_blocks(*info)
            },
            parsed is None ==> forall|bitfield: Seq<u8>|
                !is_partial_download(file@, *info, bitfield),
    {
        proof {
            header_len(*info);
            assert forall|b: Seq<u8>| #[trigger]
                is_partial_download(file@, *info, b) implies partial_parts(file@, *info, b) by {
                partial_download_parts(file@, *info, b);
            }
        }
        let n: usize = file.len();
        if n < TRAILER_LEN {
            return None;
        }
        if !bytes_equal(&file[n - 8..n], magic_bytes().as_slice()) {
            return None;
        }
        let footer_len: u32 = read_u32(file, n - 12);
        if (footer_len as u64) < TRAILER_LEN as u64 || footer_len as u64 > n as u64 {
            return None;
        }
        let footer_len: usize = footer_len as usize;
        let size: usize = n - footer_len;
        if size as u64 != info.size {
            return None;
        }
        let filename_len: usize = info.filename.as_str().as_bytes().len();
        let version_len: usize = info.version.as_str().as_bytes().len();
        if info.key.len() != 16 || filename_len > 0xffff || version_len > 0xffff {
            return None;
        }
        let expected: Vec<u8> = header_bytes(info);
        let num_blocks: u32 = count_blocks(info.size) as u32;
        let bitfield_len: u64 = (num_blocks as u64 + 7) / 8;
        let payload_len: usize = footer_len - TRAILER_LEN;
        if expected.len() as u64 + bitfield_len != payload_len as u64 {
            return None;
        }
        let bitfield_offset: usize = expected.len();
        let bitfield_len: usize = bitfield_len as usize;
        if !bytes_equal(&file[size..size + bitfield_offset], expected.as_slice()) {
            return None;
        }
        let bitfield: Vec<u8> = copy_range(
            file,
            size + bitfield_offset,
            size + bitfield_offset + bitfield_len,
        );
        let mut checked: Vec<u8> = expected;
        put_zeros(&mut checked, bitfield_len);
        let digest = md5_digest(checked.as_slice());
        assert(digest@ =~= checksum(header(*info) + zeros(bitfield@.len())));
        if !bytes_equal(&file[n - 28..n - 12], digest.as_slice()) {
            return None;
        }
        proof {
            parts_make_partial_download(file@, *info, bitfield@);
        }
        Some(ParsedFooter { bitfield, num_blocks: num_blocks as usize })
    }
}

/// A file has as many blocks of 2 MiB as are needed to hold it, and no more.
pub proof fn blocks_hold_file(size: int)
    requires
        size >= 0,
    ensures
        block_count(size) >= 0,
        size <= block_count(size) * 2097152,
        size > (block_count(size) - 1) * 2097152,
{
}

/// A bitfield has as many bytes as are needed for one bit per block, and no more.
pub proof fn bitfield_holds_blocks(blocks: int)
    requires
        blocks >= 0,
    ensures
        blocks <= 8 * bitfield_bytes(blocks),
        blocks > 8 * (bitfield_bytes(blocks) - 1),
{
}

/// What stands where in the header: version 1, the size of the file, its key, the length
/// of a block, the number of blocks, and the name and the version of the file, each
/// behind its length.
#[verifier::rlimit(40)]
#[verifier::spinoff_prover]
pub proof fn header_layout(info: BinaryInform)
    requires
        info.key@.len() == 16,
        info.filename_bytes().len() <= u16::MAX,
        info.version_bytes().len() <= u16::MAX,
    ensures
        ({
            let h = header(info);
            let name = info.filename_bytes();
            let version = info.version_bytes();
            let v = 38 + name.len() as int;
            &&& h.len() == 40 + name.len() + version.len()
            &&& u32_at(h, 0) == 1
            &&& u64_at(h, 4) == info.size
            &&& h.subrange(12, 28) == info.key@
            &&& u32_at(h, 28) == 2097152
            &&& info.size <= 2097152 * u32::MAX ==> {
                &&& info.size <= u32_at(h, 32) * 2097152
                &&& info.size > (u32_at(h, 32) - 1) * 2097152
            }
            &&& u16_at(h, 36) == name.len()
            &&& h.subrange(38, v) == name
            &&& u16_at(h, v) == version.len()
            &&& h.subrange(v + 2, h.len() as int) == version
        }),
{
    let h = header(info);
    let name = info.filename_bytes();
    let version = info.version_bytes();
    let v = 38 + name.len() as int;
    let a = le32(FOOTER_VERSION);
    let b = le64(info.size);
    let c = info.key@;
    let d = le32(BLOCK_SIZE as u32);
    let e = le32(block_count(info.size as int) as u32);
    let f = le16(name.len() as u16);
    let g = le16(version.len() as u16);
    crate::bytes::le32_round_trip(FOOTER_VERSION);
    crate::bytes::le64_round_trip(info.size);
    crate::bytes::le32_round_trip(BLOCK_SIZE as u32);
    crate::bytes::le32_round_trip(block_count(info.size as int) as u32);
    crate::bytes::le16_round_trip(name.len() as u16);
    crate::bytes::le16_round_trip(version.len() as u16);
    assert(h == a + b + c + d + e + f + name + g + version);
    assert(h[0] == a[0] && h[1] == a[1] && h[2] == a[2] && h[3] == a[3]);
    assert(h[4] == b[0] && h[5] == b[1] && h[6] == b[2] && h[7] == b[3]);
    assert(h[8] == b[4] && h[9] == b[5] && h[10] == b[6] && h[11] == b[7]);
    assert(u32_at(h, 4) == u32_at(b, 0) && u32_at(h, 8) == u32_at(b, 4));
    assert(h[28] == d[0] && h[29] == d[1] && h[30] == d[2] && h[31] == d[3]);
    assert(h[32] == e[0] && h[33] == e[1] && h[34] == e[2] && h[35] == e[3]);
    assert(h[36] == f[0] && h[37] == f[1]);
    assert(h[v] == g[0] && h[v + 1] == g[1]);
    assert(h.subrange(12, 28) =~= c);
    assert(h.subrange(38, v) =~= name);
    assert(h.subrange(v + 2, h.len() as int) =~= version);
    if info.size <= 2097152 * u32::MAX {
        blocks_hold_file(info.size as int);
    }
}

/// What stands where in a partial download: the header behind the payload, the bitfield
/// behind that, then the MD5 of the header and a bitfield of zeros, the length of the
/// footer, and `SAMLOADR`.
pub proof fn footer_layout(file: Seq<u8>, info: BinaryInform, bitfield: Seq<u8>)
    requires
        is_partial_download(file, info, bitfield),
    ensures
        ({
            let size = info.size as int;
            let n = file.len() as int;
            let h = header(info).len() as int;
            &&& info.key@.len() == 16
            &&& n == size + h + bitfield.len() + 28
            &&& file.subrange(size, size + h) == header(info)
            &&& file.subrange(size + h, size + h + bitfield.len()) == bitfield
            &&& forall|i: int|
                0 <= i < 16 ==> #[trigger] file[n - 28 + i] == md5(
                    header(info) + Seq::new(bitfield.len(), |j: int| 0u8),
                )[i]
            &&& u32_at(file, n - 12) == n - size
            &&& file.subrange(n - 8, n) == seq![
                0x53u8,
                0x41u8,
                0x4du8,
                0x4cu8,
                0x4fu8,
                0x41u8,
                0x44u8,
                0x52u8,
            ]
        }),
{
    partial_download_parts(file, info, bitfield);
    let n = file.len() as int;
    let sum = file.subrange(n - 28, n - 12);
    assert(zeros(bitfield.len()) =~= Seq::new(bitfield.len(), |j: int| 0u8));
    assert forall|i: int| 0 <= i < 16 implies #[trigger] file[n - 28 + i] == md5(
        header(info) + Seq::new(bitfield.len(), |j: int| 0u8),
    )[i] by {
        assert(file[n - 28 + i] == sum[i]);
    }
}

/// A partial download belongs to one firmware: the size, the key, the name and the version
/// are in its footer, and a file with other ones is not its partial download.
#[verifier::rlimit(40)]
#[verifier::spinoff_prover]
pub proof fn partial_download_is_of_one_file(
    file: Seq<u8>,
    a: BinaryInform,
    b: BinaryInform,
    x: Seq<u8>,
    y: Seq<u8>,
)
    requires
        is_partial_download(file, a, x),
        is_partial_download(file, b, y),
    ensures
        a.size == b.size,
        a.key@ == b.key@,
        a.filename_bytes() == b.filename_bytes(),
        a.version_bytes() == b.version_bytes(),
        x == y,
{
    footer_layout(file, a, x);
    footer_layout(file, b, y);
    header_layout(a);
    header_layout(b);
    let n = file.len() as int;
    let size = a.size as int;
    assert(b.size == size);
    let ha = header(a);
    let hb = header(b);
    assert(ha.len() >= 40 && hb.len() >= 40);
    assert forall|i: int| 0 <= i < ha.len() && i < hb.len() implies ha[i] == hb[i] by {
        assert(ha[i] == file.subrange(size, size + ha.len())[i]);
        assert(hb[i] == file.subrange(size, size + hb.len())[i]);
    }
    assert(a.key@ =~= b.key@) by {
        assert forall|i: int| 0 <= i < 16 implies a.key@[i] == b.key@[i] by {
            assert(a.key@[i] == ha.subrange(12, 28)[i]);
            assert(b.key@[i] == hb.subrange(12, 28)[i]);
            assert(ha[12 + i] == hb[12 + i]);
        }
    }
    assert(ha[36] == hb[36] && ha[37] == hb[37]);
    let fa = a.filename_bytes();
    let fb = b.filename_bytes();
    assert(fa.len() == fb.len());
    let v = 38 + fa.len() as int;
    assert(fa =~= fb) by {
        assert forall|i: int| 0 <= i < fa.len() implies fa[i] == fb[i] by {
            assert(fa[i] == ha.subrange(38, v)[i]);
            assert(fb[i] == hb.subrange(38, v)[i]);
            assert(ha[38 + i] == hb[38 + i]);
        }
    }
    assert(ha[v] == hb[v] && ha[v + 1] == hb[v + 1]);
    let va = a.version_bytes();
    let vb = b.version_bytes();
    assert(va.len() == vb.len());
    assert(va =~= vb) by {
        assert forall|i: int| 0 <= i < va.len() implies va[i] == vb[i] by {
            assert(va[i] == ha.subrange(v + 2, ha.len() as int)[i]);
            assert(vb[i] == hb.subrange(v + 2, hb.len() as int)[i]);
            assert(ha[v + 2 + i] == hb[v + 2 + i]);
        }
    }
    assert(x =~= y) by {
        assert(x.len() == y.len());
    }
}

/// A footer that was written is read back, whatever it says, as long as the lengths of the
/// names fit in 16 bits and the number of blocks and the length of the footer in 32: the
/// file is a partial download with the bitfield that was written, and with no other.
pub proof fn written_footer_is_read(payload: Seq<u8>, info: BinaryInform, bitfield: Seq<u8>)
    requires
        payload.len() == info.size,
        info.key@.len() == 16,
        info.filename_bytes().len() <= 65535,
        info.version_bytes().len() <= 65535,
        info.size <= 2097152 * u32::MAX,
        bitfield.len() == bitfield_bytes(block_count(info.size as int)),
    ensures
        is_partial_download(payload + footer_image(info, bitfield), info, bitfield),
        forall|other: Seq<u8>| #[trigger]
            is_partial_download(payload + footer_image(info, bitfield), info, other) ==> other
                == bitfield,
{
    header_len(info);
    footer_round_trip(payload, info, bitfield);
}

} // verus!
