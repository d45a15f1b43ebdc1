//! The space that the logical partitions of a `super` image take up, read from the
//! partition metadata at the start of the image, which may be sparse or compressed.

use vstd::prelude::*;

use crate::bytes::{overwrite, read_u32, read_u64, u16_at, u32_at, u64_at, zeros};
use crate::odin::firmware::{FirmwareInfo, FirmwareLz4File};
use crate::odin::lz4::{
    decompress_prefix, decompressed_is_prefix, gathered, lz4_blocks, no_empty_block,
};
use crate::odin::sparse::{
    chunk_bytes, chunks_encoded, chunks_image, fitted, smaller, sparse_image_unpacks, unpacked,
    unsparse_prefix, unsparsed, SparseChunk, SparseHeader, CHUNK_RAW, SPARSE_HEADER_MAGIC,
};

verus! {

/// First word of the geometry block, `gDla` in memory.
pub const LP_METADATA_GEOMETRY_MAGIC: u32 = 0x616c_4467;

/// First word of the metadata header, `0PLA` in memory.
pub const LP_METADATA_HEADER_MAGIC: u32 = 0x414c_5030;

/// Kind of an extent that maps sectors of the image.
pub const LP_TARGET_TYPE_LINEAR: u32 = 0;

/// Offset of the geometry block.
pub const LP_GEOMETRY_OFFSET: usize = 0x1000;

/// Offset of the metadata header.
pub const LP_PRIMARY_HEADER_OFFSET: usize = 0x3000;

/// Bytes of a sparse image that are unpacked.
pub const REQUIRED_LOGICAL_SIZE: usize = 262144;

/// Bytes of a compressed image that are decompressed.
pub const DECOMPRESS_PREFIX_LIMIT: usize = 524288;

/// Number of extents of the `num` extents of `size` bytes each from offset `base` on
/// that can be read.
pub open spec fn readable_extents(len: int, base: int, size: int, num: int) -> int {
    if base + 20 > len {
        0
    } else if (len - 20 - base) / size + 1 < num {
        (len - 20 - base) / size + 1
    } else {
        num
    }
}

/// The highest sector at which one of the first `n` extents ends that map sectors of
/// the image; zero if there is none.
pub open spec fn highest_end(raw: Seq<u8>, base: int, size: int, n: nat) -> int
    decreases n,
{
    if n == 0 {
        0
    } else {
        let before = highest_end(raw, base, size, (n - 1) as nat);
        let pos = base + (n - 1) * size;
        let end = u64_at(raw, pos + 12) + u64_at(raw, pos);
        if u32_at(raw, pos + 8) == LP_TARGET_TYPE_LINEAR && end > before {
            end
        } else {
            before
        }
    }
}

/// `raw` starts with partition metadata.
pub open spec fn has_metadata(raw: Seq<u8>) -> bool {
    &&& raw.len() >= LP_PRIMARY_HEADER_OFFSET + 104
    &&& u32_at(raw, LP_GEOMETRY_OFFSET as int) == LP_METADATA_GEOMETRY_MAGIC
    &&& u32_at(raw, LP_PRIMARY_HEADER_OFFSET as int) == LP_METADATA_HEADER_MAGIC
}

/// Offset of the extents of the metadata of `raw`.
pub open spec fn extents_base(raw: Seq<u8>) -> int {
    let header = LP_PRIMARY_HEADER_OFFSET as int;
    header + u32_at(raw, header + 8) + u32_at(raw, header + 92)
}

/// Number of extents of the metadata of `raw`.
pub open spec fn extent_count(raw: Seq<u8>) -> int {
    u32_at(raw, LP_PRIMARY_HEADER_OFFSET + 96) as int
}

/// Length of an extent in the metadata of `raw`.
pub open spec fn extent_size(raw: Seq<u8>) -> int {
    u32_at(raw, LP_PRIMARY_HEADER_OFFSET + 100) as int
}

/// Number of extents of the metadata of `raw` that can be read.
pub open spec fn extents_read(raw: Seq<u8>) -> int {
    readable_extents(raw.len() as int, extents_base(raw), extent_size(raw), extent_count(raw))
}

/// The extents of the metadata of `raw` lie at offsets that are machine words, up to
/// the first that cannot be read.
pub open spec fn extents_addressable(raw: Seq<u8>) -> bool {
    &&& extents_base(raw) <= usize::MAX
    &&& extents_read(raw) < extent_count(raw) ==> extents_base(raw) + extents_read(raw)
        * extent_size(raw) <= usize::MAX
}

/// The number of sectors that the logical partitions of the image `raw` take up.
pub open spec fn lp_used_sectors(raw: Seq<u8>) -> Option<u32> {
    let end = highest_end(raw, extents_base(raw), extent_size(raw), extents_read(raw) as nat);
    if has_metadata(raw) && extent_size(raw) >= 24 && extents_addressable(raw) && 0 < end
        <= u32::MAX {
        Some(end as u32)
    } else {
        None
    }
}

proof fn extent_index(len: int, base: int, size: int, e: int)
    requires
        size > 0,
        0 <= e,
        0 <= base,
    ensures
        base + e * size + 20 <= len <==> base + 20 <= len && e < (len - 20 - base) / size + 1,
{
    let room = len - 20 - base;
    if room >= 0 {
        vstd::arithmetic::div_mod::lemma_fundamental_div_mod(room, size);
        let q = room / size;
        let r = room % size;
        assert(0 <= r < size) by {
            vstd::arithmetic::div_mod::lemma_mod_bound(room, size);
        }
        if e <= q {
            assert(e * size <= q * size) by (nonlinear_arith)
                requires
                    e <= q,
                    size > 0,
            ;
            assert(q * size == size * q) by (nonlinear_arith);
        } else {
            assert(e * size >= (q + 1) * size) by (nonlinear_arith)
                requires
                    e >= q + 1,
                    size > 0,
            ;
            assert((q + 1) * size == size * q + size) by (nonlinear_arith);
        }
    } else {
        assert(e * size >= 0) by (nonlinear_arith)
            requires
                e >= 0,
                size > 0,
        ;
    }
}

proof fn highest_end_monotonic(raw: Seq<u8>, base: int, size: int, m: nat, n: nat)
    requires
        m <= n,
    ensures
        0 <= highest_end(raw, base, size, m) <= highest_end(raw, base, size, n),
    decreases n,
{
    if n > 0 {
        if m < n {
            highest_end_monotonic(raw, base, size, m, (n - 1) as nat);
        } else {
            highest_end_monotonic(raw, base, size, (m - 1) as nat, (n - 1) as nat);
        }
    }
}

/// Reads the partition metadata of `raw` and computes the sector after the last that
/// a partition takes up.
#[verifier::rlimit(40)]
#[verifier::spinoff_prover]
pub fn parse_lp_metadata(raw: &[u8]) -> (sectors: Option<u32>)
    ensures
        sectors == lp_used_sectors(raw@),
{
    let len: usize = raw.len();
    if len < LP_PRIMARY_HEADER_OFFSET + 104 {
        return None;
    }
    if read_u32(raw, LP_GEOMETRY_OFFSET) != LP_METADATA_GEOMETRY_MAGIC {
        return None;
    }
    if read_u32(raw, LP_PRIMARY_HEADER_OFFSET) != LP_METADATA_HEADER_MAGIC {
        return None;
    }
    let hdr_size: usize = read_u32(raw, LP_PRIMARY_HEADER_OFFSET + 8) as usize;
    let ext_desc_offset: usize = LP_PRIMARY_HEADER_OFFSET + 92;
    let ext_offset: usize = read_u32(raw, ext_desc_offset) as usize;
    let ext_num: usize = read_u32(raw, ext_desc_offset + 4) as usize;
    let ext_entry_size: usize = read_u32(raw, ext_desc_offset + 8) as usize;
    let tables_start: usize = match LP_PRIMARY_HEADER_OFFSET.checked_add(hdr_size) {
        Some(start) => start,
        None => {
            return None;
        },
    };
    if ext_entry_size < 24 {
        return None;
    }
    let extents_base: usize = match tables_start.checked_add(ext_offset) {
        Some(base) => base,
        None => {
            return None;
        },
    };
    let ghost base = extents_base as int;
    let ghost size = ext_entry_size as int;
    let ghost readable = extents_read(raw@);
    assert(base == crate::odin::lp::extents_base(raw@));

    let mut max_sector: u64 = 0;
    let mut e: usize = 0;
    while e < ext_num
        invariant
            len == raw@.len(),
            len >= 20,
            base == extents_base,
            size == ext_entry_size >= 24,
            readable == readable_extents(len as int, base, size, ext_num as int),
            has_metadata(raw@),
            base == crate::odin::lp::extents_base(raw@),
            size == extent_size(raw@),
            ext_num == extent_count(raw@),
            readable == extents_read(raw@),
            e <= readable <= ext_num,
            max_sector == highest_end(raw@, base, size, e as nat),
        ensures
            e == readable,
            extents_addressable(raw@),
            max_sector == highest_end(raw@, base, size, readable as nat),
        decreases ext_num - e,
    {
        proof {
            extent_index(len as int, base, size, e as int);
        }
        let skip: usize = match e.checked_mul(ext_entry_size) {
            Some(skip) => skip,
            None => {
                assert(e * size > usize::MAX);
                return None;
            },
        };
        let pos: usize = match extents_base.checked_add(skip) {
            Some(pos) => pos,
            None => {
                return None;
            },
        };
        assert(pos == base + e * size);
        if pos > len - 20 {
            break;
        }
        let num_sectors: u64 = read_u64(raw, pos);
        let target_type: u32 = read_u32(raw, pos + 8);
        let target_data: u64 = read_u64(raw, pos + 12);
        if target_type == LP_TARGET_TYPE_LINEAR {
            match target_data.checked_add(num_sectors) {
                Some(end_sector) => {
                    if end_sector > max_sector {
                        max_sector = end_sector;
                    }
                },
                None => {
                    proof {
                        highest_end_monotonic(
                            raw@,
                            base,
                            size,
                            (e + 1) as nat,
                            readable as nat,
                        );
                    }
                    return None;
                },
            }
        }
        e += 1;
    }
    if max_sector > 0 && max_sector <= 0xffff_ffff {
        Some(max_sector as u32)
    } else {
        None
    }
}

/// The number of sectors that the logical partitions of an image, sparse or not, take
/// up.
pub open spec fn super_used_sectors(data: Seq<u8>) -> Option<u32> {
    if data.len() < 4 {
        None
    } else if u32_at(data, 0) == SPARSE_HEADER_MAGIC {
        match unsparsed(data, REQUIRED_LOGICAL_SIZE as nat) {
            Some(image) => lp_used_sectors(image),
            None => None,
        }
    } else {
        lp_used_sectors(data)
    }
}

/// Reads the space that logical partitions take up from an image, sparse or not.
pub fn inspect_super_bytes(data: &[u8]) -> (sectors: Option<u32>)
    ensures
        sectors == super_used_sectors(data@),
{
    if data.len() < 4 {
        return None;
    }
    if read_u32(data, 0) == SPARSE_HEADER_MAGIC {
        match unsparse_prefix(data, REQUIRED_LOGICAL_SIZE) {
            Some(logical) => parse_lp_metadata(logical.as_slice()),
            None => None,
        }
    } else {
        parse_lp_metadata(data)
    }
}

/// The number of sectors that the logical partitions of the image in a firmware file
/// take up.
pub open spec fn firmware_used_sectors(info: FirmwareInfo<'_>) -> Option<u32> {
    match info {
        FirmwareInfo::Normal(f) => super_used_sectors(f.file@),
        FirmwareInfo::Lz4(f) => super_used_sectors(
            gathered(lz4_blocks(f.file@), Seq::empty(), DECOMPRESS_PREFIX_LIMIT as int),
        ),
    }
}

/// Reads the space that logical partitions take up from a firmware file.
pub fn inspect_super_firmware_info(info: &FirmwareInfo<'_>) -> (sectors: Option<u32>)
    ensures
        sectors == firmware_used_sectors(*info),
        info matches FirmwareInfo::Lz4(f) ==> {
            &&& no_empty_block(lz4_blocks(f.file@))
            &&& lz4_blocks(f.file@).flatten().len() <= DECOMPRESS_PREFIX_LIMIT ==> sectors
                == super_used_sectors(lz4_blocks(f.file@).flatten())
        },
{
    match info {
        FirmwareInfo::Normal(f) => inspect_super_bytes(f.file),
        FirmwareInfo::Lz4(f) => {
            let decompressed: Vec<u8> = decompress_prefix(f.file, DECOMPRESS_PREFIX_LIMIT);
            proof {
                if lz4_blocks(f.file@).flatten().len() <= DECOMPRESS_PREFIX_LIMIT {
                    compressed_is_inspected_like_contents(f.file@);
                }
            }
            inspect_super_bytes(decompressed.as_slice())
        },
    }
}

/// The metadata of `raw` lies within its first `n` bytes.
pub open spec fn metadata_within(raw: Seq<u8>, n: int) -> bool {
    &&& LP_PRIMARY_HEADER_OFFSET + 104 <= n <= raw.len()
    &&& extent_count(raw) > 0 ==> extents_base(raw) + (extent_count(raw) - 1) * extent_size(raw)
        + 20 <= n
}

proof fn same_highest_end(a: Seq<u8>, b: Seq<u8>, n: int, base: int, size: int, k: nat)
    requires
        n <= a.len(),
        n <= b.len(),
        forall|i: int| 0 <= i < n ==> a[i] == b[i],
        0 <= base,
        0 <= size,
        k > 0 ==> base + (k - 1) * size + 20 <= n,
    ensures
        highest_end(a, base, size, k) == highest_end(b, base, size, k),
    decreases k,
{
    if k > 0 {
        let pos = base + (k - 1) * size;
        assert(0 <= (k - 1) * size) by (nonlinear_arith)
            requires
                k > 0,
                size >= 0,
        ;
        if k > 1 {
            assert((k - 2) * size <= (k - 1) * size) by (nonlinear_arith)
                requires
                    size >= 0,
            ;
        }
        same_highest_end(a, b, n, base, size, (k - 1) as nat);
        assert(a[pos] == b[pos] && a[pos + 1] == b[pos + 1] && a[pos + 2] == b[pos + 2]
            && a[pos + 3] == b[pos + 3] && a[pos + 4] == b[pos + 4] && a[pos + 5] == b[pos + 5]
            && a[pos + 6] == b[pos + 6] && a[pos + 7] == b[pos + 7] && a[pos + 8] == b[pos + 8]
            && a[pos + 9] == b[pos + 9] && a[pos + 10] == b[pos + 10] && a[pos + 11] == b[pos + 11]
            && a[pos + 12] == b[pos + 12] && a[pos + 13] == b[pos + 13] && a[pos + 14] == b[pos
            + 14] && a[pos + 15] == b[pos + 15] && a[pos + 16] == b[pos + 16] && a[pos + 17]
            == b[pos + 17] && a[pos + 18] == b[pos + 18] && a[pos + 19] == b[pos + 19]);
    }
}

proof fn all_extents_read(raw: Seq<u8>, n: int)
    requires
        metadata_within(raw, n),
        extent_size(raw) > 0,
    ensures
        extents_read(raw) == extent_count(raw) || extent_count(raw) == 0,
        extent_count(raw) == 0 ==> extents_read(raw) == 0,
{
    let base = extents_base(raw);
    let size = extent_size(raw);
    let count = extent_count(raw);
    if count > 0 {
        extent_index(raw.len() as int, base, size, count - 1);
    } else if base + 20 <= raw.len() {
        extent_index(raw.len() as int, base, size, 0);
    }
}

/// What comes after the metadata of an image makes no difference: two images with the
/// same metadata are inspected alike.
pub proof fn metadata_decides(a: Seq<u8>, b: Seq<u8>, n: int)
    requires
        metadata_within(a, n),
        n <= b.len(),
        forall|i: int| 0 <= i < n ==> a[i] == b[i],
    ensures
        lp_used_sectors(a) == lp_used_sectors(b),
{
    let base = extents_base(a);
    let size = extent_size(a);
    let count = extent_count(a);
    assert(extents_base(b) == base && extent_size(b) == size && extent_count(b) == count);
    assert(has_metadata(a) == has_metadata(b));
    if size >= 24 {
        all_extents_read(a, n);
        all_extents_read(b, n);
        same_highest_end(a, b, n, base, size, count as nat);
    }
}

/// `data` is a sparse image of one chunk, which holds `payload` as it is.
pub open spec fn is_single_raw_chunk(data: Seq<u8>, payload: Seq<u8>) -> bool {
    let header = SparseHeader::of(data);
    &&& data.len() == 40 + payload.len()
    &&& data.len() <= usize::MAX
    &&& u32_at(data, 0) == SPARSE_HEADER_MAGIC
    &&& header.file_hdr_sz == 28
    &&& header.chunk_hdr_sz == 12
    &&& header.blk_sz > 0
    &&& u16_at(data, 28) == CHUNK_RAW
    &&& u32_at(data, 32) * header.blk_sz == payload.len()
    &&& u32_at(data, 36) == 12 + payload.len()
    &&& data.skip(40) == payload
}

/// A sparse image that holds an image as it is unpacks to that image, with zeros behind
/// it.
pub proof fn raw_chunk_unpacks(data: Seq<u8>, payload: Seq<u8>, target: nat)
    requires
        is_single_raw_chunk(data, payload),
    ensures
        unsparsed(data, target) == Some(
            Seq::new(
                target,
                |i: int|
                    if i < payload.len() {
                        payload[i]
                    } else {
                        0u8
                    },
            ),
        ),
{
    let header = SparseHeader::of(data);
    let image = zeros(target);
    if target > 0 {
        let patch = chunk_bytes(data, header, 28, target as int);
        let n = smaller(payload.len() as int, target as int);
        assert(patch =~= payload.take(n));
        let filled = overwrite(image, 0, patch);
        assert(unpacked(data, header, data.len() as int, payload.len() as int, filled) == Some(
            filled,
        ));
        assert(unsparsed(data, target) == Some(filled));
        assert(filled =~= Seq::new(
            target,
            |i: int|
                if i < payload.len() {
                    payload[i]
                } else {
                    0u8
                },
        ));
    } else {
        assert(image =~= Seq::new(
            target,
            |i: int|
                if i < payload.len() {
                    payload[i]
                } else {
                    0u8
                },
        ));
    }
}

/// A sparse image that holds an image as it is, with its metadata within what is
/// unpacked, is inspected like that image.
pub proof fn sparse_is_inspected_like_raw(data: Seq<u8>, payload: Seq<u8>)
    requires
        is_single_raw_chunk(data, payload),
        u32_at(payload, 0) != SPARSE_HEADER_MAGIC,
        metadata_within(payload, smaller(payload.len() as int, REQUIRED_LOGICAL_SIZE as int)),
    ensures
        super_used_sectors(data) == super_used_sectors(payload),
{
    let n = smaller(payload.len() as int, REQUIRED_LOGICAL_SIZE as int);
    raw_chunk_unpacks(data, payload, REQUIRED_LOGICAL_SIZE as nat);
    metadata_decides(payload, unsparsed(data, REQUIRED_LOGICAL_SIZE as nat)->0, n);
}

/// Compression does not change the answer: a compressed file whose contents are not longer
/// than what is decompressed is inspected like its contents.
pub proof fn compressed_is_inspected_like_contents(file: Seq<u8>)
    requires
        no_empty_block(lz4_blocks(file)),
        lz4_blocks(file).flatten().len() <= DECOMPRESS_PREFIX_LIMIT,
    ensures
        super_used_sectors(
            gathered(lz4_blocks(file), Seq::empty(), DECOMPRESS_PREFIX_LIMIT as int),
        ) == super_used_sectors(lz4_blocks(file).flatten()),
{
    let contents = lz4_blocks(file).flatten();
    decompressed_is_prefix(lz4_blocks(file), DECOMPRESS_PREFIX_LIMIT as int);
    assert(contents.take(contents.len() as int) =~= contents);
}

/// A compressed image of any length is inspected like its contents, where these are not
/// sparse and have their metadata within what is decompressed.
pub proof fn compressed_metadata_decides(file: Seq<u8>)
    requires
        no_empty_block(lz4_blocks(file)),
        u32_at(lz4_blocks(file).flatten(), 0) != SPARSE_HEADER_MAGIC,
        metadata_within(lz4_blocks(file).flatten(), DECOMPRESS_PREFIX_LIMIT as int),
    ensures
        super_used_sectors(
            gathered(lz4_blocks(file), Seq::empty(), DECOMPRESS_PREFIX_LIMIT as int),
        ) == super_used_sectors(lz4_blocks(file).flatten()),
{
    let contents = lz4_blocks(file).flatten();
    let start = gathered(lz4_blocks(file), Seq::empty(), DECOMPRESS_PREFIX_LIMIT as int);
    decompressed_is_prefix(lz4_blocks(file), DECOMPRESS_PREFIX_LIMIT as int);
    metadata_decides(contents, start, DECOMPRESS_PREFIX_LIMIT as int);
}

/// Where extent number `e` of the metadata of `raw` lies: behind the metadata header, at the
/// offset that the descriptor of the extents gives, one entry after the other.
pub open spec fn extent_pos(raw: Seq<u8>, e: int) -> int {
    0x3000 + u32_at(raw, 0x3008) + u32_at(raw, 0x305c) + e * u32_at(raw, 0x3064)
}

/// Extent number `e` of the metadata of `raw` is there, lies within the image, and maps
/// sectors up to, not including, `end`: it has a number of sectors, a kind, which is zero,
/// and a first sector.
pub open spec fn maps_up_to(raw: Seq<u8>, e: int, end: int) -> bool {
    let pos = extent_pos(raw, e);
    &&& 0 <= e < u32_at(raw, 0x3060)
    &&& pos + 20 <= raw.len()
    &&& u32_at(raw, pos + 8) == 0
    &&& u64_at(raw, pos) + u64_at(raw, pos + 12) == end
}

proof fn highest_end_is_bound(raw: Seq<u8>, base: int, size: int, n: nat, e: int)
    requires
        0 <= e < n,
        u32_at(raw, base + e * size + 8) == LP_TARGET_TYPE_LINEAR,
    ensures
        u64_at(raw, base + e * size + 12) + u64_at(raw, base + e * size) <= highest_end(
            raw,
            base,
            size,
            n,
        ),
    decreases n,
{
    if e < n - 1 {
        highest_end_is_bound(raw, base, size, (n - 1) as nat, e);
    }
}

proof fn highest_end_is_attained(raw: Seq<u8>, base: int, size: int, n: nat) -> (e: int)
    requires
        highest_end(raw, base, size, n) > 0,
    ensures
        0 <= e < n,
        u32_at(raw, base + e * size + 8) == LP_TARGET_TYPE_LINEAR,
        u64_at(raw, base + e * size + 12) + u64_at(raw, base + e * size) == highest_end(
            raw,
            base,
            size,
            n,
        ),
    decreases n,
{
    if highest_end(raw, base, size, (n - 1) as nat) == highest_end(raw, base, size, n) {
        highest_end_is_attained(raw, base, size, (n - 1) as nat)
    } else {
        n - 1
    }
}

/// An extent is read if and only if it is there and lies within the image.
proof fn extent_is_read(raw: Seq<u8>, e: int)
    requires
        0 <= e,
        extent_size(raw) > 0,
    ensures
        e < extents_read(raw) <==> e < u32_at(raw, 0x3060) && extent_pos(raw, e) + 20
            <= raw.len(),
{
    let base = extents_base(raw);
    let size = extent_size(raw);
    extent_index(raw.len() as int, base, size, e);
    extent_index(raw.len() as int, base, size, 0);
    assert(0 * size == 0) by (nonlinear_arith);
}

/// The number of sectors that is found is where the highest extent ends: an extent of the
/// metadata ends there, and none ends behind it.
pub proof fn found_end_is_highest(raw: Seq<u8>, m: u32) -> (e: int)
    requires
        lp_used_sectors(raw) == Some(m),
    ensures
        raw.len() >= 0x3000 + 104,
        u32_at(raw, 0x1000) == 0x616c_4467,
        u32_at(raw, 0x3000) == 0x414c_5030,
        u32_at(raw, 0x3064) >= 24,
        m > 0,
        maps_up_to(raw, e, m as int),
        forall|i: int, end: int| #[trigger] maps_up_to(raw, i, end) ==> end <= m,
{
    let base = extents_base(raw);
    let size = extent_size(raw);
    let n = extents_read(raw) as nat;
    let e = highest_end_is_attained(raw, base, size, n);
    extent_is_read(raw, e);
    assert forall|i: int, end: int| #[trigger] maps_up_to(raw, i, end) implies end <= m by {
        extent_is_read(raw, i);
        highest_end_is_bound(raw, base, size, n, i);
    }
    e
}

/// Where the metadata has its magic numbers and entries of at least 24 bytes, the highest
/// sector that an extent maps is found, wherever the extents lie. Left out are metadata
/// whose extents do not lie at offsets that are machine words, and sectors that are no
/// 32-bit number.
pub proof fn highest_end_is_found(raw: Seq<u8>, e: int, m: int)
    requires
        raw.len() >= 0x3000 + 104,
        u32_at(raw, 0x1000) == 0x616c_4467,
        u32_at(raw, 0x3000) == 0x414c_5030,
        u32_at(raw, 0x3064) >= 24,
        extent_pos(raw, u32_at(raw, 0x3060) as int) <= usize::MAX,
        maps_up_to(raw, e, m),
        forall|i: int, end: int| #[trigger] maps_up_to(raw, i, end) ==> end <= m,
        0 < m <= u32::MAX,
    ensures
        lp_used_sectors(raw) == Some(m as u32),
{
    let base = extents_base(raw);
    let size = extent_size(raw);
    let count = extent_count(raw);
    let n = extents_read(raw);
    extent_is_read(raw, e);
    highest_end_is_bound(raw, base, size, n as nat, e);
    let top = highest_end_is_attained(raw, base, size, n as nat);
    extent_is_read(raw, top);
    assert(maps_up_to(raw, top, highest_end(raw, base, size, n as nat)));
    assert(n * size <= count * size) by (nonlinear_arith)
        requires
            n <= count,
            size > 0,
    ;
    assert(0 <= count * size) by (nonlinear_arith)
        requires
            count >= 0,
            size > 0,
    ;
}

/// An image that does not start with the magic number of sparse images is inspected as it
/// is.
pub proof fn raw_image_is_inspected_as_it_is(data: Seq<u8>)
    requires
        data.len() >= 4,
        u32_at(data, 0) != 0xed26_ff3a,
    ensures
        super_used_sectors(data) == lp_used_sectors(data),
{
}

/// A sparse image is inspected like the image that its chunks stand for, whatever the
/// chunks are, where the metadata lies within the first 256 KiB.
pub proof fn sparse_is_inspected_like_image(
    data: Seq<u8>,
    head: Seq<u8>,
    extra: Seq<u8>,
    chunks: Seq<SparseChunk>,
    n: int,
)
    requires
        data == head + chunks_encoded(chunks, extra),
        28 <= head.len() <= u16::MAX,
        u32_at(head, 0) == 0xed26_ff3a,
        u16_at(head, 8) == head.len(),
        12 + extra.len() <= u16::MAX,
        u16_at(head, 10) == 12 + extra.len(),
        0 < u32_at(head, 12) <= usize::MAX,
        data.len() <= usize::MAX,
        forall|i: int|
            0 <= i < chunks.len() ==> (#[trigger] chunks[i]).valid(
                u32_at(head, 12) as nat,
                extra.len(),
            ) && chunks[i].image(u32_at(head, 12) as nat).len() <= usize::MAX,
        n <= 262144,
        metadata_within(chunks_image(chunks, u32_at(head, 12) as nat), n),
    ensures
        super_used_sectors(data) == lp_used_sectors(
            chunks_image(chunks, u32_at(head, 12) as nat),
        ),
{
    let image = chunks_image(chunks, u32_at(head, 12) as nat);
    sparse_image_unpacks(data, head, extra, chunks, REQUIRED_LOGICAL_SIZE as nat);
    assert(data[0] == head[0] && data[1] == head[1] && data[2] == head[2] && data[3] == head[3]);
    metadata_decides(image, fitted(image, REQUIRED_LOGICAL_SIZE as nat), n);
}

/// Compression does not change the answer for contents of up to 512 KiB.
pub proof fn short_compressed_file_is_inspected_like_contents(info: FirmwareLz4File<'_>)
    requires
        no_empty_block(lz4_blocks(info.file@)),
        lz4_blocks(info.file@).flatten().len() <= 524288,
    ensures
        firmware_used_sectors(FirmwareInfo::Lz4(info)) == super_used_sectors(
            lz4_blocks(info.file@).flatten(),
        ),
{
    compressed_is_inspected_like_contents(info.file@);
}

} // verus!
