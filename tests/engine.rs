use diffcopy::session::{CopySession, ReadMode, Step};
use diffcopy::window::{diff_runs, range_equal, written_bytes};
use diffcopy::image::sync_image;
use diffcopy::CopyError;

fn pseudo_random(len: usize, mut seed: u64) -> Vec<u8> {
    let mut out = Vec::with_capacity(len);
    for _ in 0..len {
        seed = seed.wrapping_mul(6364136223846793005).wrapping_add(1442695040888963407);
        out.push((seed >> 33) as u8);
    }
    out
}

/// Drives a session over in-memory targets as a caller does over files.
fn drive(src: &[u8], dst: &mut Vec<u8>, buffer: usize, block: usize, threaded: bool) -> Result<u64, CopyError> {
    let mut session = CopySession::new(src.len() as u64, buffer, block, threaded);
    let mut pos = 0usize;
    loop {
        let end = (pos + buffer).min(src.len());
        let dst_end = (pos + buffer).min(dst.len());
        let s = src[pos.min(src.len())..end].to_vec();
        let d = dst[pos.min(dst.len())..dst_end].to_vec();
        match session.step(&s, &d)? {
            Step::Done => break,
            Step::Write { offset, runs } => {
                for (a, b) in runs {
                    let at = offset as usize + a;
                    dst[at..at + (b - a)].copy_from_slice(&s[a..b]);
                }
            }
        }
        pos = end;
    }
    Ok(session.bytes_written)
}

#[test]
fn runs_merge_adjacent_differing_blocks() {
    let src = [1u8, 1, 2, 2, 3, 3, 4, 4, 5];
    let dst = [1u8, 0, 2, 0, 3, 3, 0, 4, 0];
    assert_eq!(diff_runs(&src, &dst, 2), vec![(0, 4), (6, 9)]);
}

#[test]
fn runs_of_equal_windows_are_empty() {
    assert_eq!(diff_runs(&[7u8; 10], &[7u8; 10], 3), vec![]);
}

#[test]
fn runs_with_one_byte_blocks() {
    assert_eq!(diff_runs(&[1u8, 2, 3, 4], &[0u8, 2, 0, 0], 1), vec![(0, 1), (2, 4)]);
}

#[test]
fn last_short_block_is_written() {
    assert_eq!(diff_runs(&[1u8, 2, 3, 4, 5], &[1u8, 2, 3, 4, 0], 4), vec![(4, 5)]);
}

#[test]
fn written_bytes_sums_runs() {
    assert_eq!(written_bytes(&vec![(0, 4), (6, 9)]), 7);
    assert!(range_equal(&[1, 2, 3], &[0, 2, 3], 1, 3));
    assert!(!range_equal(&[1, 2, 3], &[0, 2, 3], 0, 3));
}

#[test]
fn step_reports_done_on_empty_read() {
    let mut session = CopySession::new(10, 4, 2, false);
    assert!(matches!(session.step(&[], &[1, 2]), Ok(Step::Done)));
    assert_eq!(session.cursor, 0);
}

#[test]
fn step_stops_on_length_mismatch() {
    let mut session = CopySession::new(10, 4, 2, false);
    assert!(matches!(session.step(&[1, 2, 3], &[1, 2]), Err(CopyError::LengthMismatch)));
    let mut short = CopySession::new(2, 4, 2, false);
    assert!(matches!(short.step(&[1, 2, 3], &[1, 2, 3]), Err(CopyError::LengthMismatch)));
    assert_eq!(session.cursor, 0);
    assert_eq!(session.bytes_written, 0);
}

#[test]
fn step_advances_and_counts() {
    let mut session = CopySession::new(10, 4, 2, true);
    session.step(&[1, 2, 3, 4], &[1, 2, 3, 4]).unwrap();
    match session.step(&[1, 2, 3, 4], &[1, 0, 3, 4]).unwrap() {
        Step::Write { offset, runs } => {
            assert_eq!(offset, 4);
            assert_eq!(runs, vec![(0, 2)]);
        }
        Step::Done => panic!("expected writes"),
    }
    assert_eq!(session.cursor, 8);
    assert_eq!(session.bytes_written, 2);
}

#[test]
fn read_mode_follows_flag() {
    assert_eq!(CopySession::new(1, 1, 1, true).read_mode(), ReadMode::Concurrent);
    assert_eq!(CopySession::new(1, 1, 1, false).read_mode(), ReadMode::Sequential);
}

#[test]
fn random_over_zeros_is_fully_written() {
    let src = pseudo_random(10 * 1024 * 1024, 42);
    let mut dst = vec![0u8; src.len()];
    let written = sync_image(&src, &mut dst, 1024 * 1024, 64 * 1024, false).unwrap();
    assert_eq!(written, src.len() as u64);
    assert!(dst == src);
}

#[test]
fn identical_targets_write_nothing() {
    let src = pseudo_random(5 * 1024 * 1024, 7);
    let mut dst = src.clone();
    assert_eq!(sync_image(&src, &mut dst, 1024 * 1024, 64 * 1024, false).unwrap(), 0);
    assert!(dst == src);
}

#[test]
fn second_run_writes_nothing() {
    let src = pseudo_random(100_000, 3);
    let mut dst = pseudo_random(100_000, 4);
    dst[..50_000].copy_from_slice(&src[..50_000]);
    let first = sync_image(&src, &mut dst, 8192, 512, false).unwrap();
    assert!(first > 0 && first <= 50_000 + 512);
    assert!(dst == src);
    assert_eq!(sync_image(&src, &mut dst, 8192, 512, false).unwrap(), 0);
}

#[test]
fn threaded_flag_changes_nothing() {
    let src = pseudo_random(70_000, 9);
    let base = pseudo_random(70_000, 10);
    let mut a = base.clone();
    let mut b = base.clone();
    let wa = sync_image(&src, &mut a, 4096, 100, true).unwrap();
    let wb = sync_image(&src, &mut b, 4096, 100, false).unwrap();
    assert_eq!(wa, wb);
    assert!(a == b && a == src);
}

#[test]
fn sparse_changes_write_only_their_blocks() {
    let src = pseudo_random(4096, 11);
    let mut dst = src.clone();
    dst[10] ^= 1;
    dst[3000] ^= 1;
    let written = sync_image(&src, &mut dst, 1024, 64, false).unwrap();
    assert_eq!(written, 128);
    assert!(dst == src);
}

#[test]
fn session_driven_copy_matches_image_copy() {
    let src = pseudo_random(30_000, 21);
    let base = pseudo_random(30_000, 22);
    let mut a = base.clone();
    let mut b = base.clone();
    let wa = drive(&src, &mut a, 4096, 256, true).unwrap();
    let wb = sync_image(&src, &mut b, 4096, 256, false).unwrap();
    assert_eq!(wa, wb);
    assert!(a == src && b == src);
}

#[test]
fn image_copy_resizes_destination() {
    let src = vec![5u8; 1000];
    let mut shorter = vec![5u8; 10];
    assert_eq!(sync_image(&src, &mut shorter, 256, 10, false), Ok(990));
    assert!(shorter == src);
    let mut longer = vec![5u8; 3000];
    assert_eq!(sync_image(&src, &mut longer, 256, 16, false), Ok(0));
    assert!(longer == src);
    let mut empty = Vec::new();
    assert_eq!(sync_image(&src, &mut empty, 256, 16, false), Ok(1000));
    assert!(empty == src);
}

#[test]
fn image_copy_refuses_empty_source() {
    let mut dst = vec![1u8, 2, 3];
    assert_eq!(sync_image(&[], &mut dst, 4, 2, false), Err(CopyError::EmptySource));
    assert_eq!(dst, vec![1, 2, 3]);
}
