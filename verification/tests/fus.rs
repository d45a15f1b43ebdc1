use samloader::fus::bits::{is_block_done, with_bit};
use samloader::fus::chunk::{backoff, ChunkDownload, ChunkOutcome, NextStep, MAX_STALL_RETRIES};
use samloader::fus::cipher::decrypt_in_place;
use samloader::fus::download::{
    decide_start, final_length, is_complete, split_payload, DownloadOptions, DownloadPlan,
    DownloadProgress, Start,
};
use samloader::fus::footer::{FooterLayout, ParsedFooter, BLOCK_SIZE};
use samloader::fus::info::BinaryInform;
use samloader::fus::pool::{
    Acquired, AfterStall, Chunk, DownloadError, PoolInner, WorkerState, MAX_DEAD_STALLS,
};
use samloader::fus::ranges::{
    calculate_completed_bytes, extract_uncompleted_ranges, partition_ranges_for_threads, ByteRange,
};
use samloader::fus::tracker::StateTracker;
use std::collections::VecDeque;

fn make_test_info(size: u64) -> BinaryInform {
    BinaryInform {
        version: "S931U1UES1AXB2/S931U1OYM1AXB2/S931U1UES1AXB2/S931U1UES1AXB2".to_string(),
        filename: "SM-S931U1_1_20240215120000_abcdefghij_fac.zip.enc4".to_string(),
        path: "T1/SM-S931U1/XAA/".to_string(),
        size,
        key: vec![0x42; 16],
        model_type: "SM-S931U1".to_string(),
        region: "XAA".to_string(),
    }
}

/// A file of `size` zeros, with `footer` behind it.
fn part_file(size: usize, footer: &[u8]) -> Vec<u8> {
    let mut file = vec![0u8; size];
    file.extend_from_slice(footer);
    file
}

/// A file of `size` zeros, with `data` written over its start.
fn overwritten_file(size: usize, data: &[u8]) -> Vec<u8> {
    let mut file = vec![0u8; size];
    file[..data.len()].copy_from_slice(data);
    file
}

#[test]
fn test_footer_layout_and_serialization() {
    let info = make_test_info(5 * 1024 * 1024); // 5 MiB -> 3 blocks (2 + 2 + 1)
    let layout = FooterLayout::new(&info);
    assert_eq!(layout.num_blocks, 3);
    assert_eq!(layout.bitfield_len, 1);

    let mut buf = vec![0u8; layout.footer_len];
    layout.serialize_initial(&info, &mut buf);

    let file = part_file(5 * 1024 * 1024, &buf);
    let parsed = ParsedFooter::read_and_validate(&file, &info).expect("Footer validation failed");
    assert_eq!(parsed.num_blocks, 3);
    assert_eq!(parsed.bitfield, vec![0]);
}

#[test]
fn test_footer_validation_failures() {
    let info = make_test_info(4 * 1024 * 1024);
    let layout = FooterLayout::new(&info);
    let mut buf = vec![0u8; layout.footer_len];
    layout.serialize_initial(&info, &mut buf);

    // Tamper with magic
    let mut tampered = buf.clone();
    let len = tampered.len();
    tampered[len - 1] ^= 0xFF;
    let file = overwritten_file(4 * 1024 * 1024, &tampered);
    assert!(ParsedFooter::read_and_validate(&file, &info).is_none());

    // Tamper with checksum
    let mut tampered = buf.clone();
    tampered[len - 20] ^= 0xFF;
    let file = overwritten_file(4 * 1024 * 1024, &tampered);
    assert!(ParsedFooter::read_and_validate(&file, &info).is_none());

    // Mismatched client info (e.g. different size)
    let file = overwritten_file(4 * 1024 * 1024, &buf);
    let other = make_test_info(8 * 1024 * 1024);
    assert!(ParsedFooter::read_and_validate(&file, &other).is_none());
}

#[test]
fn tampered_footer_at_the_end_is_refused() {
    let info = make_test_info(4 * 1024 * 1024);
    let layout = FooterLayout::new(&info);
    let mut buf = vec![0u8; layout.footer_len];
    layout.serialize_initial(&info, &mut buf);
    let len = buf.len();
    assert!(ParsedFooter::read_and_validate(&part_file(4 * 1024 * 1024, &buf), &info).is_some());

    // Every byte but those of the bitfield is checked.
    for i in 0..len {
        let mut tampered = buf.clone();
        tampered[i] ^= 0x01;
        let file = part_file(4 * 1024 * 1024, &tampered);
        let valid = ParsedFooter::read_and_validate(&file, &info).is_some();
        assert_eq!(valid, i == layout.bitfield_offset, "byte {}", i);
    }

    // Another payload length, another download, no footer at all.
    assert!(ParsedFooter::read_and_validate(&part_file(4 * 1024 * 1024 + 1, &buf), &info).is_none());
    let mut other = make_test_info(4 * 1024 * 1024);
    other.filename = "another.zip.enc4".to_string();
    assert!(ParsedFooter::read_and_validate(&part_file(4 * 1024 * 1024, &buf), &other).is_none());
    let mut other = make_test_info(4 * 1024 * 1024);
    other.key = vec![0x41; 16];
    assert!(ParsedFooter::read_and_validate(&part_file(4 * 1024 * 1024, &buf), &other).is_none());
    let mut other = make_test_info(4 * 1024 * 1024);
    other.key = vec![0x42; 15];
    assert!(ParsedFooter::read_and_validate(&part_file(4 * 1024 * 1024, &buf), &other).is_none());
    assert!(ParsedFooter::read_and_validate(&[], &info).is_none());
    assert!(ParsedFooter::read_and_validate(&[0u8; 27], &info).is_none());
}

#[test]
fn footer_bytes_are_exact() {
    let info = make_test_info(5 * 1024 * 1024);
    let layout = FooterLayout::new(&info);
    assert_eq!(layout.bitfield_offset, 149);
    assert_eq!(layout.footer_len, 178);
    let mut buf = vec![0xEEu8; layout.footer_len];
    layout.serialize_initial(&info, &mut buf);

    assert_eq!(&buf[0..4], &[1, 0, 0, 0]);
    assert_eq!(&buf[4..12], &[0, 0, 0x50, 0, 0, 0, 0, 0]);
    assert_eq!(&buf[12..28], &[0x42; 16]);
    assert_eq!(&buf[28..32], &[0, 0, 0x20, 0]);
    assert_eq!(&buf[32..36], &[3, 0, 0, 0]);
    assert_eq!(&buf[36..38], &[50, 0]);
    assert_eq!(&buf[38..88], info.filename.as_bytes());
    assert_eq!(&buf[88..90], &[59, 0]);
    assert_eq!(&buf[90..149], info.version.as_bytes());
    assert_eq!(buf[149], 0);
    // MD5 of the 150 bytes before it.
    assert_eq!(
        &buf[150..166],
        &[
            0x6b, 0x06, 0xf9, 0x07, 0xc1, 0x40, 0x71, 0x7e, 0xb9, 0x4c, 0x11, 0x2c, 0x9b, 0x23,
            0xe0, 0x3d
        ]
    );
    assert_eq!(&buf[166..170], &[178, 0, 0, 0]);
    assert_eq!(&buf[170..178], b"SAMLOADR");
}

#[test]
fn test_bitfield_and_range_extraction() {
    // 5 blocks: block 0 (done), block 1 (not done), block 2 (done), block 3, 4 (not done)
    let bitfield = vec![0b0000_0101]; // bit 0 and bit 2 set
    let total_size = 5 * BLOCK_SIZE as u64;
    let completed = calculate_completed_bytes(&bitfield, 5, total_size);
    assert_eq!(completed, 2 * BLOCK_SIZE as u64);

    let uncompleted = extract_uncompleted_ranges(&bitfield, 5, total_size);
    assert_eq!(
        uncompleted,
        vec![
            ByteRange {
                start: BLOCK_SIZE as u64,
                end: 2 * BLOCK_SIZE as u64,
            },
            ByteRange {
                start: 3 * BLOCK_SIZE as u64,
                end: 5 * BLOCK_SIZE as u64,
            },
        ]
    );

    let partitioned = partition_ranges_for_threads(&uncompleted, 4);
    assert_eq!(partitioned.len(), 3);
}

#[test]
fn last_block_may_be_short() {
    // 5 MiB: two whole blocks and half a block.
    let size = 5 * 1024 * 1024;
    assert_eq!(calculate_completed_bytes(&[0b100], 3, size), 1024 * 1024);
    assert_eq!(calculate_completed_bytes(&[0b111], 3, size), size);
    assert_eq!(calculate_completed_bytes(&[0], 3, size), 0);
    assert_eq!(
        extract_uncompleted_ranges(&[0b011], 3, size),
        vec![ByteRange { start: 4 * 1024 * 1024, end: size }]
    );
    assert_eq!(extract_uncompleted_ranges(&[0b111], 3, size), vec![]);
    assert_eq!(
        extract_uncompleted_ranges(&[0], 3, size),
        vec![ByteRange { start: 0, end: size }]
    );
}

#[test]
fn completed_and_missing_bytes_add_up() {
    let size = 19 * BLOCK_SIZE as u64 - 1234;
    for seed in 0u32..64 {
        let bitfield = [
            (seed * 37) as u8,
            (seed * 101 + 7) as u8,
            (seed * 13 + 3) as u8 & 0b111,
        ];
        let done = calculate_completed_bytes(&bitfield, 19, size);
        let ranges = extract_uncompleted_ranges(&bitfield, 19, size);
        let missing: u64 = ranges.iter().map(|r| r.end - r.start).sum();
        assert_eq!(done + missing, size);
        for blk in 0..19usize {
            let p = (blk * BLOCK_SIZE) as u64;
            let covered = ranges.iter().any(|r| r.start <= p && p < r.end);
            assert_eq!(covered, !is_block_done(&bitfield, blk));
        }
        for threads in 1..6 {
            let pieces = partition_ranges_for_threads(&ranges, threads);
            let total: u64 = pieces.iter().map(|r| r.end - r.start).sum();
            assert_eq!(total, missing);
            for pair in pieces.windows(2) {
                assert!(pair[0].start < pair[0].end);
                assert!(pair[0].end <= pair[1].start);
                assert_eq!(pair[1].start % BLOCK_SIZE as u64, 0);
            }
        }
    }
}

#[test]
fn pieces_are_shares_in_whole_blocks() {
    let block = BLOCK_SIZE as u64;
    let all = [ByteRange { start: 0, end: 10 * block }];
    // 10 blocks for 4 connections: 2 blocks each, five pieces.
    let pieces = partition_ranges_for_threads(&all, 4);
    assert_eq!(pieces.len(), 5);
    assert_eq!(pieces[0], ByteRange { start: 0, end: 2 * block });
    assert_eq!(pieces[4], ByteRange { start: 8 * block, end: 10 * block });
    // More connections than blocks: one block each.
    assert_eq!(partition_ranges_for_threads(&all, 100).len(), 10);
    assert_eq!(partition_ranges_for_threads(&all, 1), all.to_vec());
    assert_eq!(partition_ranges_for_threads(&[], 0), vec![]);
}

#[test]
fn bits_are_counted_from_the_lowest() {
    assert_eq!(with_bit(0, 0), 1);
    assert_eq!(with_bit(0b101, 1), 0b111);
    assert_eq!(with_bit(0x80, 7), 0x80);
    assert!(is_block_done(&[0, 0b10], 9));
    assert!(!is_block_done(&[0, 0b10], 8));
}

#[test]
fn test_state_tracker_block_completion() {
    let info = make_test_info(4 * 1024 * 1024); // 2 blocks
    let layout = FooterLayout::new(&info);
    let mut footer = vec![0u8; layout.footer_len];
    layout.serialize_initial(&info, &mut footer);

    {
        let mut tracker = StateTracker::new(
            &mut footer,
            layout.bitfield_offset,
            layout.num_blocks,
            info.size,
        );

        // Decrypt first 1 MiB (not complete block yet)
        tracker.on_bytes_decrypted(0, 0, 1024 * 1024);
        assert_eq!(tracker.footer[layout.bitfield_offset], 0);

        // Decrypt across 2 MiB boundary -> block 0 complete!
        tracker.on_bytes_decrypted(0, 1024 * 1024, BLOCK_SIZE);
        assert_eq!(tracker.footer[layout.bitfield_offset], 0b01);

        // Complete block 1
        tracker.on_bytes_decrypted(BLOCK_SIZE as u64, 0, BLOCK_SIZE);
        assert_eq!(tracker.footer[layout.bitfield_offset], 0b11);
    }

    // Verify checksum is valid immediately after block completion
    let file = part_file(4 * 1024 * 1024, &footer);
    let parsed = ParsedFooter::read_and_validate(&file, &info)
        .expect("Footer must validate immediately after block completion");
    assert_eq!(parsed.bitfield, vec![0b11]);
}

#[test]
fn test_abrupt_interruption_and_resume() {
    let info = make_test_info(10 * 1024 * 1024); // 5 blocks
    let layout = FooterLayout::new(&info);
    let mut footer = vec![0u8; layout.footer_len];
    layout.serialize_initial(&info, &mut footer);

    // First run: completes block 0 and 1, then abruptly stops (no manual flush)
    {
        let mut tracker = StateTracker::new(
            &mut footer,
            layout.bitfield_offset,
            layout.num_blocks,
            info.size,
        );
        tracker.on_bytes_decrypted(0, 0, 2 * BLOCK_SIZE);
    }

    // Validate that footer is immediately valid and recognizes blocks 0 and 1
    let file = part_file(10 * 1024 * 1024, &footer);
    let parsed = ParsedFooter::read_and_validate(&file, &info)
        .expect("Must be valid immediately after abrupt interruption");
    assert_eq!(parsed.bitfield[0] & 0b11, 0b11);
    let uncompleted = extract_uncompleted_ranges(&parsed.bitfield, parsed.num_blocks, info.size);
    assert_eq!(
        uncompleted,
        vec![ByteRange {
            start: 2 * BLOCK_SIZE as u64,
            end: 10 * 1024 * 1024,
        }]
    );

    // Second run: resumes and completes block 2 abruptly
    {
        let mut tracker = StateTracker::new(
            &mut footer,
            layout.bitfield_offset,
            layout.num_blocks,
            info.size,
        );
        tracker.on_bytes_decrypted(2 * BLOCK_SIZE as u64, 0, BLOCK_SIZE);
    }

    let file = part_file(10 * 1024 * 1024, &footer);
    let parsed2 = ParsedFooter::read_and_validate(&file, &info)
        .expect("Must be valid after second resume");
    assert_eq!(parsed2.bitfield[0] & 0b111, 0b111);
    let uncompleted2 = extract_uncompleted_ranges(&parsed2.bitfield, parsed2.num_blocks, info.size);
    assert_eq!(
        uncompleted2,
        vec![ByteRange {
            start: 3 * BLOCK_SIZE as u64,
            end: 10 * 1024 * 1024,
        }]
    );
}

#[test]
fn steps_mark_what_one_step_marks() {
    let blocks = 3;
    let size = 2 * BLOCK_SIZE as u64 + 100;
    let mut one = vec![0xAAu8, 0, 0xBB];
    let mut many = one.clone();
    StateTracker::new(&mut one, 1, blocks, size).on_bytes_decrypted(0, 0, size as usize);
    {
        let mut tracker = StateTracker::new(&mut many, 1, blocks, size);
        let mut pos = 0usize;
        while pos < size as usize {
            let next = (pos + 700_000).min(size as usize);
            tracker.on_bytes_decrypted(0, pos, next);
            pos = next;
        }
    }
    assert_eq!(one, vec![0xAA, 0b111, 0xBB]);
    assert_eq!(one, many);
}

const PLAIN: [u8; 16] = [
    0x00, 0x11, 0x22, 0x33, 0x44, 0x55, 0x66, 0x77, 0x88, 0x99, 0xaa, 0xbb, 0xcc, 0xdd, 0xee, 0xff,
];
const CIPHER: [u8; 16] = [
    0x69, 0xc4, 0xe0, 0xd8, 0x6a, 0x7b, 0x04, 0x30, 0xd8, 0xcd, 0xb7, 0x80, 0x70, 0xb4, 0xc5, 0x5a,
];

fn sample_key() -> Vec<u8> {
    (0u8..16).collect()
}

#[test]
fn blocks_are_decrypted_one_by_one() {
    let key = sample_key();
    let mut data = Vec::new();
    data.extend_from_slice(&CIPHER);
    data.extend_from_slice(&CIPHER);
    data.extend_from_slice(&[7, 8, 9]);
    decrypt_in_place(&key, &mut data);
    assert_eq!(&data[0..16], &PLAIN);
    assert_eq!(&data[16..32], &PLAIN);
    assert_eq!(&data[32..], &[7, 8, 9]);

    let mut short = vec![1u8, 2, 3];
    decrypt_in_place(&key, &mut short);
    assert_eq!(short, vec![1, 2, 3]);
}

#[test]
fn chunk_is_decrypted_as_it_comes() {
    let key = sample_key();
    let mut footer = vec![0u8; 1];
    let mut tracker = StateTracker::new(&mut footer, 0, 1, 40);
    let mut chunk = ChunkDownload::new(0, 40);
    let mut buf = vec![0u8; 40];
    let mut source = Vec::new();
    source.extend_from_slice(&CIPHER);
    source.extend_from_slice(&CIPHER);
    source.extend_from_slice(&[1, 2, 3, 4, 5, 6, 7, 8]);

    chunk.on_response();
    buf[..20].copy_from_slice(&source[..20]);
    assert_eq!(chunk.on_data(20, &mut buf, &key, &mut tracker), 16);
    assert_eq!(chunk.dec_pos, 16);
    assert_eq!(chunk.dl_pos, 20);
    assert_eq!(&buf[..16], &PLAIN);
    assert_eq!(&buf[16..20], &CIPHER[..4]);
    assert_eq!(chunk.request_offset(), 16);

    buf[20..40].copy_from_slice(&source[20..]);
    assert_eq!(chunk.on_data(20, &mut buf, &key, &mut tracker), 16);
    assert_eq!(&buf[16..32], &PLAIN);
    assert_eq!(&buf[32..], &[1, 2, 3, 4, 5, 6, 7, 8]);
    assert_eq!(chunk.on_end(&mut tracker), ChunkOutcome::Done);
    assert_eq!(tracker.footer[0], 0);
}

#[test]
fn whole_chunk_marks_its_block() {
    let key = sample_key();
    let mut footer = vec![0u8; 1];
    let mut tracker = StateTracker::new(&mut footer, 0, 1, 32);
    let mut chunk = ChunkDownload::new(0, 32);
    let mut buf = Vec::new();
    buf.extend_from_slice(&CIPHER);
    buf.extend_from_slice(&CIPHER);
    chunk.on_response();
    assert_eq!(chunk.on_data(32, &mut buf, &key, &mut tracker), 32);
    assert_eq!(tracker.footer[0], 1);
    // The connection breaks after the last byte: nothing is missing.
    assert_eq!(
        chunk.on_read_error(&mut tracker),
        NextStep::Finish(ChunkOutcome::Done)
    );
}

#[test]
fn failures_in_a_row_stall_a_chunk() {
    let mut footer = vec![0u8; 1];
    let mut tracker = StateTracker::new(&mut footer, 0, 1, 1000);
    let mut chunk = ChunkDownload::new(0, 1000);
    assert_eq!(chunk.on_request_error(), NextStep::Retry { wait: 1, retry: 1 });
    assert_eq!(chunk.on_request_error(), NextStep::Retry { wait: 2, retry: 2 });
    chunk.on_response();
    assert_eq!(
        chunk.on_read_error(&mut tracker),
        NextStep::Retry { wait: 4, retry: 3 }
    );
    assert_eq!(chunk.on_request_error(), NextStep::Retry { wait: 8, retry: 4 });
    assert_eq!(chunk.retries, MAX_STALL_RETRIES);
    assert_eq!(
        chunk.on_request_error(),
        NextStep::Finish(ChunkOutcome::Stalled { decrypted: 0 })
    );
}

#[test]
fn progress_starts_the_count_again() {
    let key = sample_key();
    let mut footer = vec![0u8; 1];
    let mut tracker = StateTracker::new(&mut footer, 0, 1, 1000);
    let mut chunk = ChunkDownload::new(0, 1000);
    let mut buf = vec![0u8; 1000];
    assert_eq!(chunk.on_request_error(), NextStep::Retry { wait: 1, retry: 1 });
    assert_eq!(chunk.on_request_error(), NextStep::Retry { wait: 2, retry: 2 });
    chunk.on_response();
    chunk.on_data(100, &mut buf, &key, &mut tracker);
    assert_eq!(
        chunk.on_read_error(&mut tracker),
        NextStep::Retry { wait: 1, retry: 1 }
    );
    // What was not decrypted comes again.
    assert_eq!(chunk.request_offset(), 96);
    chunk.on_response();
    assert_eq!(chunk.dl_pos, 96);
    assert_eq!(chunk.resume_from, 96);
}

#[test]
fn backoff_doubles_up_to_half_a_minute() {
    let waits: Vec<u64> = (1..9).map(backoff).collect();
    assert_eq!(waits, vec![1, 2, 4, 8, 16, 30, 30, 30]);
}

fn queue_of<'a>(buf: &'a mut [u8]) -> VecDeque<Chunk<'a>> {
    let mut queue = VecDeque::new();
    let (a, b) = buf.split_at_mut(10);
    queue.push_back(Chunk { buf: a, start: 0, end: Some(9) });
    queue.push_back(Chunk { buf: b, start: 10, end: None });
    queue
}

#[test]
fn workers_share_the_queue() {
    let mut data = vec![0u8; 20];
    let mut pool = PoolInner::new(queue_of(&mut data), 2);
    let first = match pool.acquire() {
        Acquired::Take(chunk) => chunk,
        _ => panic!("a chunk waits"),
    };
    assert_eq!(first.start, 0);
    assert_eq!(first.end, Some(9));
    let second = match pool.acquire() {
        Acquired::Take(chunk) => chunk,
        _ => panic!("a chunk waits"),
    };
    assert_eq!(second.start, 10);
    assert_eq!(pool.in_flight, 2);

    // The second worker stalls after three bytes: another one goes on.
    let rest = second.remainder(3);
    assert_eq!(rest.start, 13);
    assert_eq!(rest.end, None);
    assert_eq!(rest.buf.len(), 7);
    assert_eq!(pool.stall(rest), AfterStall::Retire { remaining: 1 });

    // The first worker is done, takes the rest, and stalls as the last one.
    pool.complete();
    let rest = match pool.acquire() {
        Acquired::Take(chunk) => chunk,
        _ => panic!("the rest waits"),
    };
    assert_eq!(rest.start, 13);
    assert_eq!(pool.stall(rest), AfterStall::Stay);
    assert!(matches!(pool.acquire(), Acquired::Take(_)));
    pool.complete();
    assert!(matches!(pool.acquire(), Acquired::Exit));
    assert_eq!(pool.live, 0);
    assert_eq!(pool.queue.len(), 0);
    assert_eq!(pool.error, None);
}

#[test]
fn worker_waits_for_chunks_of_others() {
    let mut data = vec![0u8; 20];
    let mut pool = PoolInner::new(queue_of(&mut data), 3);
    assert!(matches!(pool.acquire(), Acquired::Take(_)));
    assert!(matches!(pool.acquire(), Acquired::Take(_)));
    assert!(matches!(pool.acquire(), Acquired::Wait));
    pool.complete();
    pool.complete();
    assert!(matches!(pool.acquire(), Acquired::Exit));
    assert_eq!(pool.live, 2);
}

#[test]
fn failed_download_stops_all_workers() {
    let mut data = vec![0u8; 20];
    let mut pool = PoolInner::new(queue_of(&mut data), 3);
    let chunk = match pool.acquire() {
        Acquired::Take(chunk) => chunk,
        _ => panic!("a chunk waits"),
    };
    pool.give_up(77);
    assert_eq!(pool.error, Some(DownloadError::Stalled { offset: 77 }));
    assert_eq!(pool.live, 2);
    assert!(matches!(pool.acquire(), Acquired::Exit));
    assert_eq!(pool.stall(chunk), AfterStall::Exit);
    assert_eq!(pool.live, 0);
    assert_eq!(pool.in_flight, 0);
}

enum Outcome {
    Done,
    Stalled { decrypted: usize, pos: u64 },
}

/// Lets one worker run until it stops; says how many chunks it took.
fn run_alone(pool: &mut PoolInner<'_>, outcomes: Vec<Outcome>) -> usize {
    let mut state = WorkerState::new();
    let mut outcomes = outcomes.into_iter();
    let mut taken = 0;
    loop {
        let chunk = match pool.acquire() {
            Acquired::Take(chunk) => chunk,
            Acquired::Exit => return taken,
            Acquired::Wait => panic!("nobody else has a chunk"),
        };
        taken += 1;
        match outcomes.next().unwrap() {
            Outcome::Done => {
                state.on_done();
                pool.complete();
            }
            Outcome::Stalled { decrypted, pos } => {
                let rest = chunk.remainder(decrypted);
                let offset = rest.start;
                if pool.stall(rest) != AfterStall::Stay {
                    return taken;
                }
                if state.on_stall(pos) {
                    pool.give_up(offset);
                    return taken;
                }
            }
        }
    }
}

#[test]
fn run_of_a_worker() {
    // Everything goes well.
    let mut data = vec![0u8; 20];
    let mut pool = PoolInner::new(queue_of(&mut data), 1);
    assert_eq!(run_alone(&mut pool, vec![Outcome::Done, Outcome::Done]), 2);
    assert_eq!((pool.live, pool.in_flight, pool.queue.len()), (0, 0, 0));
    assert_eq!(pool.error, None);

    // One of two workers stalls, and what is left of its chunk goes to the end.
    let mut data = vec![0u8; 20];
    let mut pool = PoolInner::new(queue_of(&mut data), 2);
    let stalled = Outcome::Stalled { decrypted: 4, pos: 4 };
    assert_eq!(run_alone(&mut pool, vec![stalled]), 1);
    assert_eq!((pool.live, pool.in_flight, pool.queue.len()), (1, 0, 2));
    let last = pool.queue.back().unwrap();
    assert_eq!((last.start, last.end, last.buf.len()), (4, Some(9), 6));
    assert_eq!(pool.error, None);

    // The last worker goes on, and gives up when it gets nowhere.
    let mut stalls: Vec<Outcome> = vec![Outcome::Stalled { decrypted: 2, pos: 6 }];
    for _ in 0..5 {
        stalls.push(Outcome::Stalled { decrypted: 0, pos: 6 });
    }
    assert_eq!(run_alone(&mut pool, stalls), 6);
    assert_eq!((pool.live, pool.in_flight), (0, 0));
    assert!(matches!(pool.error, Some(DownloadError::Stalled { .. })));

    // After a failure nothing is taken.
    let mut data = vec![0u8; 20];
    let mut pool = PoolInner::new(queue_of(&mut data), 2);
    pool.give_up(5);
    assert_eq!(run_alone(&mut pool, vec![]), 0);
    assert_eq!((pool.live, pool.in_flight, pool.queue.len()), (0, 0, 2));
    assert_eq!(pool.error, Some(DownloadError::Stalled { offset: 5 }));
}

#[test]
fn chunks_make_up_the_decrypted_file() {
    let size = BLOCK_SIZE + 40;
    let key = [7u8; 16];
    let source: Vec<u8> = (0..size).map(|i| (i * 31 % 251) as u8).collect();
    let mut whole = source.clone();
    decrypt_in_place(&key, &mut whole);
    assert_ne!(whole, source);

    // From the start, and with the first block there already.
    let done = ParsedFooter { bitfield: vec![0b01], num_blocks: 2 };
    for existing in [None, Some(done)] {
        let plan = DownloadPlan::new(&existing, size as u64, 2);
        let mut payload = vec![0u8; size];
        if existing.is_some() {
            payload[..BLOCK_SIZE].copy_from_slice(&whole[..BLOCK_SIZE]);
        }
        for chunk in split_payload(&mut payload, &plan.chunks) {
            let start = chunk.start as usize;
            let len = chunk.buf.len();
            chunk.buf.copy_from_slice(&source[start..start + len]);
            decrypt_in_place(&key, chunk.buf);
        }
        assert_eq!(payload, whole);
    }
}

#[test]
fn last_worker_gives_up_without_progress() {
    let mut state = WorkerState::new();
    assert!(!state.on_stall(100));
    for _ in 0..MAX_DEAD_STALLS {
        assert!(!state.on_stall(100));
    }
    assert!(state.on_stall(100));

    let mut state = WorkerState::new();
    assert!(!state.on_stall(0));
    assert_eq!(state.dead_stalls, 1);
    assert!(!state.on_stall(5));
    assert_eq!(state.dead_stalls, 0);
    assert_eq!(state.last_progress, 5);
    assert!(!state.on_stall(5));
    state.on_done();
    assert_eq!(state.dead_stalls, 0);
}

#[test]
fn plan_of_a_fresh_download() {
    let block = BLOCK_SIZE as u64;
    let plan = DownloadPlan::new(&None, 4 * block, 2);
    assert_eq!(plan.position, 0);
    assert_eq!(
        plan.chunks,
        vec![
            ByteRange { start: 0, end: 2 * block },
            ByteRange { start: 2 * block, end: 4 * block },
        ]
    );
    assert_eq!(plan.workers, 2);
    // No more connections than chunks.
    assert_eq!(DownloadPlan::new(&None, 100, 8).workers, 1);
}

#[test]
fn plan_of_a_resumed_download() {
    let block = BLOCK_SIZE as u64;
    let footer = ParsedFooter { bitfield: vec![0b0101], num_blocks: 4 };
    let plan = DownloadPlan::new(&Some(footer), 4 * block, 8);
    assert_eq!(plan.position, 2 * block);
    assert_eq!(
        plan.chunks,
        vec![
            ByteRange { start: block, end: 2 * block },
            ByteRange { start: 3 * block, end: 4 * block },
        ]
    );
    assert_eq!(plan.workers, 2);

    let footer = ParsedFooter { bitfield: vec![0b1111], num_blocks: 4 };
    let plan = DownloadPlan::new(&Some(footer), 4 * block, 8);
    assert_eq!(plan.position, 4 * block);
    assert!(plan.chunks.is_empty());
    assert_eq!(plan.workers, 0);
}

#[test]
fn payload_is_cut_into_chunks() {
    let mut payload: Vec<u8> = (0u8..20).collect();
    {
        let chunks = [
            ByteRange { start: 2, end: 5 },
            ByteRange { start: 5, end: 6 },
            ByteRange { start: 15, end: 20 },
        ];
        let mut queue = split_payload(&mut payload, &chunks);
        assert_eq!(queue.len(), 3);
        assert_eq!(queue[0].start, 2);
        assert_eq!(queue[0].end, Some(4));
        assert_eq!(&*queue[0].buf, &[2, 3, 4]);
        assert_eq!(queue[1].end, Some(5));
        assert_eq!(queue[2].start, 15);
        assert_eq!(queue[2].end, None);
        queue[1].buf[0] = 99;
        queue[2].buf[4] = 98;
    }
    assert_eq!(payload[4], 4);
    assert_eq!(payload[5], 99);
    assert_eq!(payload[6], 6);
    assert_eq!(payload[19], 98);
}

#[test]
fn padding_is_cut_off() {
    assert_eq!(final_length(1000, 1), 999);
    assert_eq!(final_length(1000, 16), 984);
    assert_eq!(final_length(1000, 17), 1000);
    assert_eq!(final_length(1000, 0), 1000);
    for last in 0..=255u8 {
        assert!(is_complete(1000, final_length(1000, last)));
    }
    assert!(!is_complete(1000, 983));
    assert!(!is_complete(1000, 1001));
    assert!(is_complete(10, 0));
}

#[test]
fn options_and_silent_progress() {
    let options = DownloadOptions::default();
    assert_eq!(options.threads, 8);
    assert!(!options.force);
    let silent = ();
    silent.set_length(10);
    silent.set_position(5);
    silent.inc(1);
    silent.println("x");
    silent.println_verbose("y");
    assert_eq!(silent.position(), 0);
}

#[test]
fn download_starts_by_what_is_there() {
    assert_eq!(decide_start(true, Some(1000), 1000), Start::Anew);
    assert_eq!(decide_start(true, None, 1000), Start::Anew);
    assert_eq!(decide_start(false, Some(1000), 1000), Start::AlreadyComplete);
    assert_eq!(decide_start(false, Some(984), 1000), Start::AlreadyComplete);
    assert_eq!(decide_start(false, Some(983), 1000), Start::GoOn);
    assert_eq!(decide_start(false, None, 1000), Start::GoOn);
}
