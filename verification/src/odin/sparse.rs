//! Sparse images: a header and chunks, each of which stands for a number of blocks of
//! the image.

use vstd::prelude::*;

use crate::bytes::{
    le16, le16_round_trip, le32, le32_round_trip, overwrite, read_u16, read_u32, u16_at, u32_at,
    write_at, zero_vec, zeros,
};

verus! {

/// First word of a sparse image.
pub const SPARSE_HEADER_MAGIC: u32 = 0xed26_ff3a;

/// Kind of a chunk that holds its bytes.
pub const CHUNK_RAW: u16 = 0xcac1;

/// Kind of a chunk that holds one word, to be repeated.
pub const CHUNK_FILL: u16 = 0xcac2;

/// The smaller of two numbers.
pub open spec fn smaller(a: int, b: int) -> int {
    if a < b {
        a
    } else {
        b
    }
}

/// What a sparse image says of its own layout.
pub struct SparseHeader {
    /// Length of the header of the image.
    pub file_hdr_sz: usize,
    /// Length of the header of a chunk.
    pub chunk_hdr_sz: usize,
    /// Length of a block.
    pub blk_sz: usize,
}

impl SparseHeader {
    /// The layout that `data` says it has.
    pub open spec fn of(data: Seq<u8>) -> SparseHeader {
        SparseHeader {
            file_hdr_sz: u16_at(data, 8) as usize,
            chunk_hdr_sz: u16_at(data, 10) as usize,
            blk_sz: u32_at(data, 12) as usize,
        }
    }

    /// The layout can be used for an image of `len` bytes.
    pub open spec fn usable(self, len: int) -> bool {
        &&& self.blk_sz > 0
        &&& self.chunk_hdr_sz >= 12
        &&& 28 <= self.file_hdr_sz <= len
    }
}

/// Length in the image of the chunk at `offset`.
pub open spec fn chunk_len(data: Seq<u8>, header: SparseHeader, offset: int) -> int {
    u32_at(data, offset + 4) * header.blk_sz
}

/// Length in the file of the chunk at `offset`, with its header.
pub open spec fn chunk_total(data: Seq<u8>, offset: int) -> int {
    u32_at(data, offset + 8) as int
}

/// The bytes that the chunk at `offset` writes where there is room for `room` bytes.
pub open spec fn chunk_bytes(data: Seq<u8>, header: SparseHeader, offset: int, room: int) -> Seq<
    u8,
> {
    let kind = u16_at(data, offset);
    let at = offset + header.chunk_hdr_sz;
    if kind == CHUNK_RAW {
        data.skip(at).take(
            smaller(smaller(data.len() - at, chunk_total(data, offset) - header.chunk_hdr_sz), room),
        )
    } else if kind == CHUNK_FILL && at + 4 <= data.len() {
        Seq::new(
            smaller(chunk_len(data, header, offset), room) as nat,
            |i: int| data[at + i % 4],
        )
    } else {
        Seq::empty()
    }
}

/// `image` with the chunks from `offset` on written from position `pos` on. No image
/// where a chunk is shorter than its header, or longer than memory can be.
pub open spec fn unpacked(
    data: Seq<u8>,
    header: SparseHeader,
    offset: int,
    pos: int,
    image: Seq<u8>,
) -> Option<Seq<u8>>
    decreases (if offset < data.len() {
        data.len() - offset
    } else {
        0
    }),
{
    if header.chunk_hdr_sz < 12 || offset < 0 || offset + header.chunk_hdr_sz > data.len() || pos
        >= image.len() {
        Some(image)
    } else if chunk_total(data, offset) < header.chunk_hdr_sz || chunk_len(data, header, offset)
        > usize::MAX || offset + chunk_total(data, offset) > usize::MAX {
        None
    } else {
        unpacked(
            data,
            header,
            offset + chunk_total(data, offset),
            pos + chunk_len(data, header, offset),
            overwrite(image, pos, chunk_bytes(data, header, offset, image.len() - pos)),
        )
    }
}

/// The first `target` bytes of the image that the sparse image `data` stands for.
pub open spec fn unsparsed(data: Seq<u8>, target: nat) -> Option<Seq<u8>> {
    let header = SparseHeader::of(data);
    if data.len() < 28 || !header.usable(data.len() as int) {
        None
    } else {
        unpacked(data, header, header.file_hdr_sz as int, 0, zeros(target))
    }
}

/// Fills `image` from `pos` on with the four bytes of `data` from `at` on, repeated.
fn fill(image: &mut Vec<u8>, pos: usize, len: usize, data: &[u8], at: usize)
    requires
        pos + len <= old(image)@.len(),
        at + 4 <= data@.len(),
    ensures
        final(image)@ == overwrite(
            old(image)@,
            pos as int,
            Seq::new(len as nat, |i: int| data@[at + i % 4]),
        ),
{
    let total: usize = image.len();
    let data_len: usize = data.len();
    let mut i: usize = 0;
    while i < len
        invariant
            i <= len,
            pos + len <= total == old(image)@.len(),
            at + 4 <= data@.len() == data_len,
            image@ == overwrite(
                old(image)@,
                pos as int,
                Seq::new(i as nat, |k: int| data@[at + k % 4]),
            ),
        decreases len - i,
    {
        let b: u8 = data[at + i % 4];
        image.set(pos + i, b);
        i += 1;
        assert(image@ =~= overwrite(
            old(image)@,
            pos as int,
            Seq::new(i as nat, |k: int| data@[at + k % 4]),
        ));
    }
}

/// Unpacks the first `target_size` bytes of a sparse image.
#[verifier::rlimit(40)]
#[verifier::spinoff_prover]
pub fn unsparse_prefix(data: &[u8], target_size: usize) -> (image: Option<Vec<u8>>)
    ensures
        match image {
            Some(image) => unsparsed(data@, target_size as nat) == Some(image@),
            None => unsparsed(data@, target_size as nat) is None,
        },
{
    let len: usize = data.len();
    if len < 28 {
        return None;
    }
    let file_hdr_sz: usize = read_u16(data, 8) as usize;
    let chunk_hdr_sz: usize = read_u16(data, 10) as usize;
    let blk_sz: usize = read_u32(data, 12) as usize;
    if blk_sz == 0 || chunk_hdr_sz < 12 || file_hdr_sz < 28 || len < file_hdr_sz {
        return None;
    }
    let ghost header = SparseHeader::of(data@);
    let mut logical: Vec<u8> = zero_vec(target_size);
    let mut logical_pos: usize = 0;
    let mut offset: usize = file_hdr_sz;
    while offset <= len && chunk_hdr_sz <= len - offset && logical_pos < target_size
        invariant
            len == data@.len(),
            header == SparseHeader::of(data@),
            header.usable(len as int),
            len >= 28,
            header.file_hdr_sz == file_hdr_sz,
            header.chunk_hdr_sz == chunk_hdr_sz >= 12,
            header.blk_sz == blk_sz,
            logical@.len() == target_size,
            unpacked(data@, header, offset as int, logical_pos as int, logical@) == unsparsed(
                data@,
                target_size as nat,
            ),
        decreases (if offset < len {
            len - offset
        } else {
            0
        }),
    {
        let ghost before = logical@;
        let ghost room = target_size - logical_pos;
        let chunk_type: u16 = read_u16(data, offset);
        let chunk_sz_blocks: usize = read_u32(data, offset + 4) as usize;
        let total_sz: usize = read_u32(data, offset + 8) as usize;
        if total_sz < chunk_hdr_sz {
            return None;
        }
        let bytes: usize = match chunk_sz_blocks.checked_mul(blk_sz) {
            Some(bytes) => bytes,
            None => {
                return None;
            },
        };
        let data_offset: usize = offset + chunk_hdr_sz;
        if chunk_type == CHUNK_RAW {
            let data_sz: usize = total_sz - chunk_hdr_sz;
            let avail: usize = if len - data_offset < data_sz {
                len - data_offset
            } else {
                data_sz
            };
            let to_copy: usize = if avail < target_size - logical_pos {
                avail
            } else {
                target_size - logical_pos
            };
            let patch: &[u8] = &data[data_offset..data_offset + to_copy];
            assert(patch@ =~= chunk_bytes(data@, header, offset as int, room));
            write_at(logical.as_mut_slice(), logical_pos, patch);
        } else if chunk_type == CHUNK_FILL && len - data_offset >= 4 {
            let to_fill: usize = if bytes < target_size - logical_pos {
                bytes
            } else {
                target_size - logical_pos
            };
            fill(&mut logical, logical_pos, to_fill, data, data_offset);
            assert(Seq::new(to_fill as nat, |i: int| data@[data_offset + i % 4]) =~= chunk_bytes(
                data@,
                header,
                offset as int,
                room,
            ));
        } else {
            assert(logical@ =~= overwrite(
                before,
                logical_pos as int,
                chunk_bytes(data@, header, offset as int, room),
            ));
        }
        assert(logical@ == overwrite(
            before,
            logical_pos as int,
            chunk_bytes(data@, header, offset as int, room),
        ));
        let ghost next = logical_pos + bytes;
        logical_pos = logical_pos.saturating_add(bytes);
        offset = match offset.checked_add(total_sz) {
            Some(offset) => offset,
            None => {
                return None;
            },
        };
        assert(unpacked(data@, header, offset as int, logical_pos as int, logical@) == unpacked(
            data@,
            header,
            offset as int,
            next,
            logical@,
        ));
    }
    Some(logical)
}

/// A chunk of a sparse image.
pub enum SparseChunk {
    /// Blocks as they are.
    Raw {
        /// Number of blocks.
        blocks: u32,
        /// The bytes of the blocks.
        bytes: Seq<u8>,
    },
    /// Blocks that repeat four bytes.
    Fill {
        /// Number of blocks.
        blocks: u32,
        /// The four bytes.
        word: Seq<u8>,
    },
    /// Blocks that nothing is said of.
    Skip {
        /// Number of blocks.
        blocks: u32,
    },
}

impl SparseChunk {
    /// The bytes of the image that the chunk stands for, in blocks of `blk` bytes.
    pub open spec fn image(self, blk: nat) -> Seq<u8> {
        match self {
            SparseChunk::Raw { bytes, .. } => bytes,
            SparseChunk::Fill { blocks, word } => Seq::new(
                blocks as nat * blk,
                |i: int| word[i % 4],
            ),
            SparseChunk::Skip { blocks } => zeros(blocks as nat * blk),
        }
    }

    /// The chunk can be written down in blocks of `blk` bytes, with `extra` more bytes in
    /// its header.
    pub open spec fn valid(self, blk: nat, extra: nat) -> bool {
        match self {
            SparseChunk::Raw { blocks, bytes } => bytes.len() == blocks as nat * blk && 12 + extra
                + bytes.len() <= u32::MAX,
            SparseChunk::Fill { word, .. } => word.len() == 4 && 16 + extra <= u32::MAX,
            SparseChunk::Skip { .. } => 12 + extra <= u32::MAX,
        }
    }

    /// The chunk in the file: kind, number of blocks, length with the header, what else the
    /// header holds, and the contents.
    pub open spec fn encoded(self, extra: Seq<u8>) -> Seq<u8> {
        match self {
            SparseChunk::Raw { blocks, bytes } => le16(0xcac1) + le16(0) + le32(blocks) + le32(
                (12 + extra.len() + bytes.len()) as u32,
            ) + extra + bytes,
            SparseChunk::Fill { blocks, word } => le16(0xcac2) + le16(0) + le32(blocks) + le32(
                (16 + extra.len()) as u32,
            ) + extra + word,
            SparseChunk::Skip { blocks } => le16(0xcac3) + le16(0) + le32(blocks) + le32(
                (12 + extra.len()) as u32,
            ) + extra,
        }
    }
}

/// The image that the chunks stand for.
pub open spec fn chunks_image(chunks: Seq<SparseChunk>, blk: nat) -> Seq<u8>
    decreases chunks.len(),
{
    if chunks.len() == 0 {
        Seq::empty()
    } else {
        chunks[0].image(blk) + chunks_image(chunks.drop_first(), blk)
    }
}

/// The chunks in the file, one after the other.
pub open spec fn chunks_encoded(chunks: Seq<SparseChunk>, extra: Seq<u8>) -> Seq<u8>
    decreases chunks.len(),
{
    if chunks.len() == 0 {
        Seq::empty()
    } else {
        chunks[0].encoded(extra) + chunks_encoded(chunks.drop_first(), extra)
    }
}

/// The first `target` bytes of `image`, with zeros behind it where it is shorter.
pub open spec fn fitted(image: Seq<u8>, target: nat) -> Seq<u8> {
    Seq::new(
        target,
        |i: int|
            if i < image.len() {
                image[i]
            } else {
                0u8
            },
    )
}

/// Where the parts of a chunk lie.
#[verifier::rlimit(40)]
#[verifier::spinoff_prover]
proof fn chunk_header_is_read(data: Seq<u8>, at: int, chunk: SparseChunk, extra: Seq<u8>, blk: nat)
    requires
        0 <= at,
        at + chunk.encoded(extra).len() <= data.len(),
        chunk.valid(blk, extra.len()),
        data.subrange(at, at + chunk.encoded(extra).len()) == chunk.encoded(extra),
    ensures
        chunk is Raw ==> u16_at(data, at) == 0xcac1,
        chunk is Fill ==> u16_at(data, at) == 0xcac2,
        chunk is Skip ==> u16_at(data, at) == 0xcac3,
        u32_at(data, at + 4) == match chunk {
            SparseChunk::Raw { blocks, .. } => blocks,
            SparseChunk::Fill { blocks, .. } => blocks,
            SparseChunk::Skip { blocks } => blocks,
        },
        u32_at(data, at + 8) == chunk.encoded(extra).len(),
        chunk matches SparseChunk::Raw { bytes, .. } ==> data.subrange(
            at + 12 + extra.len(),
            at + 12 + extra.len() + bytes.len(),
        ) == bytes && chunk.encoded(extra).len() == 12 + extra.len() + bytes.len(),
        chunk matches SparseChunk::Fill { word, .. } ==> data.subrange(
            at + 12 + extra.len(),
            at + 16 + extra.len(),
        ) == word && chunk.encoded(extra).len() == 16 + extra.len(),
        chunk is Skip ==> chunk.encoded(extra).len() == 12 + extra.len(),
{
    let e = chunk.encoded(extra);
    let s = data.subrange(at, at + e.len());
    let (kind, blocks, total, body): (u16, u32, u32, Seq<u8>) = match chunk {
        SparseChunk::Raw { blocks, bytes } => (
            0xcac1u16,
            blocks,
            (12 + extra.len() + bytes.len()) as u32,
            bytes,
        ),
        SparseChunk::Fill { blocks, word } => (
            0xcac2u16,
            blocks,
            (16 + extra.len()) as u32,
            word,
        ),
        SparseChunk::Skip { blocks } => (
            0xcac3u16,
            blocks,
            (12 + extra.len()) as u32,
            Seq::empty(),
        ),
    };
    let k = le16(kind);
    let b = le32(blocks);
    let t = le32(total);
    le16_round_trip(kind);
    le32_round_trip(blocks);
    le32_round_trip(total);
    assert(e =~= k + le16(0) + b + t + extra + body);
    assert(s[0] == k[0] && s[1] == k[1]);
    assert(data[at] == s[0] && data[at + 1] == s[1]);
    assert(s[4] == b[0] && s[5] == b[1] && s[6] == b[2] && s[7] == b[3]);
    assert(data[at + 4] == s[4] && data[at + 5] == s[5] && data[at + 6] == s[6] && data[at + 7]
        == s[7]);
    assert(s[8] == t[0] && s[9] == t[1] && s[10] == t[2] && s[11] == t[3]);
    assert(data[at + 8] == s[8] && data[at + 9] == s[9] && data[at + 10] == s[10] && data[at + 11]
        == s[11]);
    let from = 12 + extra.len() as int;
    assert(s.subrange(from, e.len() as int) =~= body);
    assert(data.subrange(at + from, at + e.len()) =~= s.subrange(from, e.len() as int));
}

#[verifier::rlimit(40)]
#[verifier::spinoff_prover]
proof fn chunks_unpack(
    data: Seq<u8>,
    header: SparseHeader,
    at: int,
    chunks: Seq<SparseChunk>,
    extra: Seq<u8>,
    done: Seq<u8>,
    target: nat,
)
    requires
        0 <= at,
        data.len() <= usize::MAX,
        at + chunks_encoded(chunks, extra).len() == data.len(),
        data.skip(at) == chunks_encoded(chunks, extra),
        header.chunk_hdr_sz == 12 + extra.len(),
        forall|i: int|
            0 <= i < chunks.len() ==> (#[trigger] chunks[i]).valid(
                header.blk_sz as nat,
                extra.len(),
            ) && chunks[i].image(header.blk_sz as nat).len() <= usize::MAX,
    ensures
        unpacked(data, header, at, done.len() as int, fitted(done, target)) == Some(
            fitted(done + chunks_image(chunks, header.blk_sz as nat), target),
        ),
    decreases chunks.len(),
{
    let blk = header.blk_sz as nat;
    let all = done + chunks_image(chunks, blk);
    if done.len() >= target {
        assert(fitted(done, target) =~= fitted(all, target));
    } else if chunks.len() == 0 {
        assert(all =~= done);
    } else {
        let chunk = chunks[0];
        let rest = chunks.drop_first();
        let e = chunk.encoded(extra);
        let image = chunk.image(blk);
        assert(chunk.valid(blk, extra.len()));
        assert(data.subrange(at, at + e.len()) =~= e) by {
            assert(data.subrange(at, at + e.len()) =~= data.skip(at).take(e.len() as int));
        }
        chunk_header_is_read(data, at, chunk, extra, blk);
        assert(data.skip(at + e.len()) =~= chunks_encoded(rest, extra)) by {
            assert(data.skip(at + e.len()) =~= data.skip(at).skip(e.len() as int));
        }
        let room = target - done.len();
        let patch = chunk_bytes(data, header, at, room);
        let next = done + image;
        assert(chunk_len(data, header, at) == image.len()) by {
            assert(image.len() == u32_at(data, at + 4) * header.blk_sz);
        }
        let body = at + header.chunk_hdr_sz;
        match chunk {
            SparseChunk::Raw { bytes, .. } => {
                assert(patch =~= image.take(smaller(image.len() as int, room))) by {
                    assert forall|i: int| 0 <= i < bytes.len() implies data[body + i]
                        == bytes[i] by {
                        assert(data.subrange(body, body + bytes.len())[i] == bytes[i]);
                    }
                }
            },
            SparseChunk::Fill { word, .. } => {
                assert(patch =~= image.take(smaller(image.len() as int, room))) by {
                    assert forall|i: int| 0 <= i < 4 implies data[body + i] == word[i] by {
                        assert(data.subrange(body, body + 4)[i] == word[i]);
                    }
                }
            },
            SparseChunk::Skip { .. } => {
                assert(patch =~= Seq::empty());
            },
        }
        assert(overwrite(fitted(done, target), done.len() as int, patch) =~= fitted(next, target));
        assert forall|i: int| 0 <= i < rest.len() implies (#[trigger] rest[i]).valid(
            blk,
            extra.len(),
        ) && rest[i].image(blk).len() <= usize::MAX by {
            assert(rest[i] == chunks[i + 1]);
        }
        chunks_unpack(data, header, at + e.len(), rest, extra, next, target);
        assert(next + chunks_image(rest, blk) =~= all);
    }
}

/// A sparse image unpacks to the image that its chunks stand for: raw blocks as they are,
/// repeated words, and zeros where nothing is said, each where the chunks before it end.
/// How long the headers are makes no difference.
pub proof fn sparse_image_unpacks(
    data: Seq<u8>,
    head: Seq<u8>,
    extra: Seq<u8>,
    chunks: Seq<SparseChunk>,
    target: nat,
)
    requires
        data == head + chunks_encoded(chunks, extra),
        28 <= head.len() <= u16::MAX,
        u16_at(head, 8) == head.len(),
        12 + extra.len() <= u16::MAX,
        u16_at(head, 10) == 12 + extra.len(),
        0 < u32_at(head, 12) <= usize::MAX,
        data.len() <= usize::MAX,
        forall|i: int|
            0 <= i < chunks.len() ==> (#[trigger] chunks[i]).valid(
                u32_at(head, 12) as nat,
                extra.len(),
            ) && chunks[i].image(u32_at(head, 12) as nat).len() <= usize::MAX,
    ensures
        unsparsed(data, target) == Some(
            fitted(chunks_image(chunks, u32_at(head, 12) as nat), target),
        ),
{
    let header = SparseHeader::of(data);
    assert(data[8] == head[8] && data[9] == head[9] && data[10] == head[10] && data[11]
        == head[11]);
    assert(data[12] == head[12] && data[13] == head[13] && data[14] == head[14] && data[15]
        == head[15]);
    assert(data.skip(head.len() as int) =~= chunks_encoded(chunks, extra));
    chunks_unpack(data, header, head.len() as int, chunks, extra, Seq::empty(), target);
    assert(fitted(Seq::empty(), target) =~= zeros(target));
    assert(Seq::<u8>::empty() + chunks_image(chunks, header.blk_sz as nat) =~= chunks_image(
        chunks,
        header.blk_sz as nat,
    ));
}

/// No image is unpacked where the header is cut off, there are no bytes in a block, or a
/// header is shorter than it must be or longer than the file; nor where the first chunk
/// claims to be shorter than its header.
pub proof fn unusable_image_is_refused(data: Seq<u8>, target: nat)
    ensures
        data.len() < 28 || u32_at(data, 12) == 0 || u16_at(data, 10) < 12 || u16_at(data, 8) < 28
            || u16_at(data, 8) > data.len() ==> unsparsed(data, target) is None,
        data.len() >= 28 && target > 0 && u16_at(data, 8) + u16_at(data, 10) <= data.len()
            && u16_at(data, 8) >= 28 && u16_at(data, 10) >= 12 && u32_at(
            data,
            u16_at(data, 8) + 8,
        ) < u16_at(data, 10) ==> unsparsed(data, target) is None,
{
}

} // verus!
