use samloader::odin::firmware::{FirmwareFile, FirmwareInfo, FirmwareLz4File, Lz4Header};
use samloader::odin::lp::{
    inspect_super_bytes, inspect_super_firmware_info, parse_lp_metadata,
    LP_METADATA_GEOMETRY_MAGIC, LP_METADATA_HEADER_MAGIC, LP_TARGET_TYPE_LINEAR,
};
use samloader::odin::lz4::decompress_prefix;
use samloader::odin::pit::{BinaryType, DeviceType, PitEntry};
use samloader::odin::sparse::{unsparse_prefix, CHUNK_FILL, CHUNK_RAW, SPARSE_HEADER_MAGIC};
use std::io::Write;

fn build_test_raw_image(extents: &[(u64, u32, u64)]) -> Vec<u8> {
    let mut raw = vec![0u8; 128 * 1024];

    // Geometry at 0x1000
    raw[0x1000..0x1004].copy_from_slice(&LP_METADATA_GEOMETRY_MAGIC.to_le_bytes());

    // Header at 0x3000
    raw[0x3000..0x3004].copy_from_slice(&LP_METADATA_HEADER_MAGIC.to_le_bytes());
    let hdr_size: u32 = 256;
    raw[0x3008..0x300c].copy_from_slice(&hdr_size.to_le_bytes());

    // Extents descriptor at 0x3000 + 92
    let ext_desc_offset = 0x3000 + 92;
    let ext_offset: u32 = 0;
    let ext_num = extents.len() as u32;
    let ext_entry_size: u32 = 24;
    raw[ext_desc_offset..ext_desc_offset + 4].copy_from_slice(&ext_offset.to_le_bytes());
    raw[ext_desc_offset + 4..ext_desc_offset + 8].copy_from_slice(&ext_num.to_le_bytes());
    raw[ext_desc_offset + 8..ext_desc_offset + 12].copy_from_slice(&ext_entry_size.to_le_bytes());

    let tables_start = 0x3000 + hdr_size as usize;
    for (i, &(num_sectors, target_type, target_data)) in extents.iter().enumerate() {
        let pos = tables_start + i * 24;
        raw[pos..pos + 8].copy_from_slice(&num_sectors.to_le_bytes());
        raw[pos + 8..pos + 12].copy_from_slice(&target_type.to_le_bytes());
        raw[pos + 12..pos + 20].copy_from_slice(&target_data.to_le_bytes());
    }

    raw
}

fn sparse_header(blk_sz: u32, total_blks: u32, chunks: u32) -> Vec<u8> {
    let mut sparse = Vec::new();
    sparse.extend_from_slice(&SPARSE_HEADER_MAGIC.to_le_bytes()); // magic
    sparse.extend_from_slice(&1u16.to_le_bytes()); // major
    sparse.extend_from_slice(&0u16.to_le_bytes()); // minor
    sparse.extend_from_slice(&28u16.to_le_bytes()); // file_hdr_sz
    sparse.extend_from_slice(&12u16.to_le_bytes()); // chunk_hdr_sz
    sparse.extend_from_slice(&blk_sz.to_le_bytes()); // blk_sz
    sparse.extend_from_slice(&total_blks.to_le_bytes()); // total_blks
    sparse.extend_from_slice(&chunks.to_le_bytes()); // total_chunks
    sparse.extend_from_slice(&0u32.to_le_bytes()); // image_checksum
    sparse
}

fn sparse_chunk(sparse: &mut Vec<u8>, kind: u16, blocks: u32, payload: &[u8]) {
    sparse.extend_from_slice(&kind.to_le_bytes());
    sparse.extend_from_slice(&0u16.to_le_bytes());
    sparse.extend_from_slice(&blocks.to_le_bytes());
    sparse.extend_from_slice(&(12 + payload.len() as u32).to_le_bytes());
    sparse.extend_from_slice(payload);
}

fn build_test_sparse_image(raw_payload: &[u8]) -> Vec<u8> {
    let blk_sz = 4096u32;
    let num_blks = (raw_payload.len() as u32) / blk_sz;
    let mut sparse = sparse_header(blk_sz, num_blks, 1);
    sparse_chunk(&mut sparse, CHUNK_RAW, num_blks, raw_payload);
    sparse
}

#[test]
fn test_inspect_super_used_size() {
    let raw = build_test_raw_image(&[
        (1000, LP_TARGET_TYPE_LINEAR, 2048),
        (5000, LP_TARGET_TYPE_LINEAR, 10000), // end = 15000
        (2000, 1, 20000),                     // ZERO extent (target_type != 0), ignored
    ]);

    // Raw unsparse format
    assert_eq!(inspect_super_bytes(&raw), Some(15000));

    // Android sparse format
    let sparse = build_test_sparse_image(&raw);
    assert_eq!(inspect_super_bytes(&sparse), Some(15000));
}

#[test]
fn images_without_metadata_have_no_size() {
    let good = build_test_raw_image(&[(1, 0, 2)]);
    assert_eq!(parse_lp_metadata(&good), Some(3));
    assert_eq!(inspect_super_bytes(&[]), None);
    assert_eq!(inspect_super_bytes(&[1, 2, 3]), None);
    assert_eq!(parse_lp_metadata(&good[..0x3000 + 103]), None);
    let mut bad = good.clone();
    bad[0x1000] ^= 1;
    assert_eq!(parse_lp_metadata(&bad), None);
    let mut bad = good.clone();
    bad[0x3000] ^= 1;
    assert_eq!(parse_lp_metadata(&bad), None);
    let mut bad = good.clone();
    bad[0x3000 + 100] = 23;
    assert_eq!(parse_lp_metadata(&bad), None);
    // No extent, none that maps sectors, one that ends beyond 32 bits, one that overflows.
    assert_eq!(parse_lp_metadata(&build_test_raw_image(&[])), None);
    assert_eq!(parse_lp_metadata(&build_test_raw_image(&[(5, 1, 5)])), None);
    assert_eq!(parse_lp_metadata(&build_test_raw_image(&[(1, 0, 0xFFFF_FFFF)])), None);
    assert_eq!(
        parse_lp_metadata(&build_test_raw_image(&[(0, 0, 0xFFFF_FFFF)])),
        Some(0xFFFF_FFFF)
    );
    assert_eq!(parse_lp_metadata(&build_test_raw_image(&[(1, 0, 7), (2, 0, u64::MAX)])), None);
}

#[test]
fn extents_beyond_the_image_are_not_read() {
    let mut raw = build_test_raw_image(&[(1, 0, 2), (1, 0, 9)]);
    // Many more extents than fit: the rest of the image reads as empty ones.
    raw[0x3000 + 96..0x3000 + 100].copy_from_slice(&1_000_000u32.to_le_bytes());
    assert_eq!(parse_lp_metadata(&raw), Some(10));
    // The image ends within the second extent.
    assert_eq!(parse_lp_metadata(&raw[..0x3100 + 24 + 19]), Some(3));
    assert_eq!(parse_lp_metadata(&raw[..0x3100 + 24 + 20]), Some(10));
}

#[test]
fn sparse_chunks_are_unpacked() {
    let mut sparse = sparse_header(4, 8, 4);
    sparse_chunk(&mut sparse, CHUNK_RAW, 1, &[1, 2, 3, 4]);
    sparse_chunk(&mut sparse, 0xcac3, 2, &[]);
    sparse_chunk(&mut sparse, CHUNK_FILL, 2, &[5, 6, 7, 8]);
    sparse_chunk(&mut sparse, CHUNK_RAW, 1, &[9, 9, 9, 9]);
    let image = unsparse_prefix(&sparse, 26).unwrap();
    assert_eq!(
        image,
        vec![
            1, 2, 3, 4, 0, 0, 0, 0, 0, 0, 0, 0, 5, 6, 7, 8, 5, 6, 7, 8, 9, 9, 9, 9, 0, 0
        ]
    );
    // Only the start.
    assert_eq!(unsparse_prefix(&sparse, 14).unwrap()[10..], [0, 0, 5, 6]);
    // The file ends within the last chunk.
    let cut = &sparse[..sparse.len() - 2];
    assert_eq!(unsparse_prefix(cut, 26).unwrap()[20..], [9, 9, 0, 0, 0, 0]);
}

#[test]
fn broken_sparse_images_are_refused() {
    let mut sparse = sparse_header(4, 1, 1);
    sparse_chunk(&mut sparse, CHUNK_RAW, 1, &[1, 2, 3, 4]);
    assert!(unsparse_prefix(&sparse[..27], 8).is_none());
    let mut bad = sparse.clone();
    bad[12..16].copy_from_slice(&[0; 4]);
    assert!(unsparse_prefix(&bad, 8).is_none());
    let mut bad = sparse.clone();
    bad[10] = 11;
    assert!(unsparse_prefix(&bad, 8).is_none());
    let mut bad = sparse.clone();
    bad[8] = 27;
    assert!(unsparse_prefix(&bad, 8).is_none());
    let mut bad = sparse.clone();
    bad[8] = 200;
    assert!(unsparse_prefix(&bad, 8).is_none());
    // A chunk that is shorter than its header.
    let mut bad = sparse.clone();
    bad[28 + 8] = 11;
    assert!(unsparse_prefix(&bad, 8).is_none());
}

fn compress(data: &[u8]) -> Vec<u8> {
    let mut encoder = lz4_flex::frame::FrameEncoder::new(Vec::new());
    encoder.write_all(data).unwrap();
    encoder.finish().unwrap()
}

fn lz4_info<'a>(file: &'a [u8], pit_entry: &'a PitEntry) -> FirmwareInfo<'a> {
    FirmwareInfo::Lz4(FirmwareLz4File {
        file,
        header: Lz4Header { block_max_size: 65536, content_size: 0 },
        slices: &[],
        decompressed_slices: &[],
        pit_entry,
    })
}

#[test]
fn firmware_files_are_inspected() {
    let entry = PitEntry {
        binary_type: BinaryType::ApplicationProcessor,
        device_type: DeviceType::UFS,
        partition_id: 1,
    };
    let raw = build_test_raw_image(&[(5000, LP_TARGET_TYPE_LINEAR, 10000)]);
    let normal = FirmwareInfo::Normal(FirmwareFile { file: &raw, pit_entry: &entry });
    assert_eq!(inspect_super_firmware_info(&normal), Some(15000));

    let packed = compress(&raw);
    assert_ne!(packed, raw);
    assert_eq!(inspect_super_firmware_info(&lz4_info(&packed, &entry)), Some(15000));

    let packed = compress(&build_test_sparse_image(&raw));
    assert_eq!(inspect_super_firmware_info(&lz4_info(&packed, &entry)), Some(15000));

    // Longer than what is decompressed, with the metadata at the start.
    let mut long = raw.clone();
    long.extend((0..900_000usize).map(|i| (i % 249) as u8));
    assert_eq!(inspect_super_bytes(&long), Some(15000));
    let packed = compress(&long);
    assert_eq!(inspect_super_firmware_info(&lz4_info(&packed, &entry)), Some(15000));

    // Compressed or not, what holds no metadata is inspected alike.
    let other = vec![1u8; 1000];
    assert_eq!(inspect_super_bytes(&other), None);
    assert_eq!(inspect_super_firmware_info(&lz4_info(&compress(&other), &entry)), None);

    // Not a frame at all.
    assert_eq!(inspect_super_firmware_info(&lz4_info(&raw, &entry)), None);
}

#[test]
fn start_of_a_frame_is_decompressed() {
    let data: Vec<u8> = (0..1_000_000usize).map(|i| (i * i % 253) as u8).collect();
    let packed = compress(&data);
    let start = decompress_prefix(&packed, 100_000);
    assert!(start.len() >= 100_000 && start.len() < 100_000 + 65536);
    assert_eq!(start, data[..start.len()].to_vec());
    assert_eq!(decompress_prefix(&packed, 2_000_000), data);
    assert!(decompress_prefix(&packed, 0).is_empty());
    assert!(decompress_prefix(&[1, 2, 3], 10).is_empty());
    // A frame that breaks off gives what came before.
    let broken = decompress_prefix(&packed[..packed.len() / 2], 2_000_000);
    assert_eq!(broken, data[..broken.len()].to_vec());
    // What follows the frame is not looked at.
    let mut two = compress(&data[..1000]);
    two.extend_from_slice(&compress(&data[1000..2000]));
    assert_eq!(decompress_prefix(&two, 2_000_000), data[..1000].to_vec());
}

#[test]
fn bytes_behind_the_metadata_make_no_difference() {
    let mut raw = build_test_raw_image(&[(5000, LP_TARGET_TYPE_LINEAR, 10000)]);
    let end = 0x3000 + 256 + 24;
    assert_eq!(parse_lp_metadata(&raw), Some(15000));
    assert_eq!(parse_lp_metadata(&raw[..end]), Some(15000));
    for b in &mut raw[end..] {
        *b = 0x5A;
    }
    assert_eq!(parse_lp_metadata(&raw), Some(15000));
}
