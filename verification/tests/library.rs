use std::path::PathBuf;

use downloader::checksum::{to_lower_hex, ChecksumError, ChecksumExtension};
use downloader::config::Config;
use downloader::headers::{content_length, parse_u64, range_header_value, supports_byte_ranges};
use downloader::plan::{plan_tasks, prepare_download, DownloadError};
use downloader::progress::{ChunkProgress, ProgressTracker};
use downloader::reporter::ConsoleProgressReporter;
use downloader::retry::retry_after_failure;
use downloader::speed_limit::SpeedLimitExtension;
use downloader::task::DownloadTask;
use downloader::transfer::write_segments;

fn config_with(threads: usize) -> Config {
    let mut c = Config::new("http://example.com/file".to_string(), PathBuf::from("out.bin"));
    c.thread_count = threads;
    c
}

fn ranges(tasks: &[DownloadTask]) -> Vec<(u64, u64)> {
    tasks.iter().map(|t| t.range()).collect()
}

#[test]
fn config_new_uses_defaults() {
    let c = Config::new("http://a/b".to_string(), PathBuf::from("x"));
    assert_eq!(c.url, "http://a/b");
    assert_eq!(c.output_path, PathBuf::from("x"));
    assert_eq!(c.thread_count, 4);
    assert_eq!(c.buffer_size, 8192);
    assert!(c.resume);
    assert_eq!(c.max_retries, 3);
}

#[test]
fn task_range_and_size() {
    let t = DownloadTask::new("u".to_string(), PathBuf::from("p"), 100, 199, 2);
    assert_eq!(t.range(), (100, 199));
    assert_eq!(t.size(), 100);
    assert_eq!(t.thread_id, 2);
    let one = DownloadTask::new("u".to_string(), PathBuf::from("p"), 7, 7, 0);
    assert_eq!(one.size(), 1);
}

#[test]
fn plan_splits_evenly_longer_ranges_first() {
    let c = config_with(4);
    let tasks = plan_tasks(&c, 10);
    assert_eq!(ranges(&tasks), vec![(0, 2), (3, 5), (6, 7), (8, 9)]);
    for (i, t) in tasks.iter().enumerate() {
        assert_eq!(t.thread_id, i);
        assert_eq!(t.url, c.url);
        assert_eq!(t.output_path, c.output_path);
    }
}

#[test]
fn plan_exact_division() {
    let tasks = plan_tasks(&config_with(4), 8192);
    assert_eq!(ranges(&tasks), vec![(0, 2047), (2048, 4095), (4096, 6143), (6144, 8191)]);
}

#[test]
fn plan_more_connections_than_bytes() {
    let tasks = plan_tasks(&config_with(5), 3);
    assert_eq!(ranges(&tasks), vec![(0, 0), (1, 1), (2, 2), (3, 2), (3, 2)]);
}

#[test]
fn plan_single_connection_and_none() {
    assert_eq!(ranges(&plan_tasks(&config_with(1), 1000)), vec![(0, 999)]);
    assert!(plan_tasks(&config_with(0), 1000).is_empty());
}

#[test]
fn plan_largest_file() {
    let tasks = plan_tasks(&config_with(2), u64::MAX);
    assert_eq!(ranges(&tasks), vec![(0, u64::MAX / 2), (u64::MAX / 2 + 1, u64::MAX - 1)]);
}

#[test]
fn plan_ranges_cover_file_once() {
    for total in 1u64..40 {
        for n in 1usize..9 {
            let tasks = plan_tasks(&config_with(n), total);
            assert_eq!(tasks.len(), n);
            assert_eq!(tasks[0].start_byte, 0);
            assert_eq!(tasks[n - 1].end_byte, total - 1);
            for i in 0..n - 1 {
                assert_eq!(tasks[i + 1].start_byte, tasks[i].end_byte + 1);
            }
            let sum: u64 = tasks.iter().map(|t| t.end_byte + 1 - t.start_byte).sum();
            assert_eq!(sum, total);
        }
    }
}

#[test]
fn content_length_reads_decimal() {
    assert_eq!(content_length(Some(b"1234")), 1234);
    assert_eq!(content_length(Some(b"+12")), 12);
    assert_eq!(content_length(Some(b"0007")), 7);
    assert_eq!(content_length(Some(b"18446744073709551615")), u64::MAX);
}

#[test]
fn content_length_refuses_what_is_not_a_size() {
    assert_eq!(content_length(None), 0);
    assert_eq!(content_length(Some(b"")), 0);
    assert_eq!(content_length(Some(b"+")), 0);
    assert_eq!(content_length(Some(b"-5")), 0);
    assert_eq!(content_length(Some(b"12a")), 0);
    assert_eq!(content_length(Some(b" 12")), 0);
    assert_eq!(content_length(Some(b"18446744073709551616")), 0);
    assert_eq!(content_length(Some(b"99999999999999999999")), 0);
    assert_eq!(content_length(Some(&[0x31, 0x7f])), 0);
}

#[test]
fn parse_u64_matches_std() {
    for s in ["0", "1", "+1", "42", "", "+", "-1", "++1", "1+", "18446744073709551615", "18446744073709551616", "00"] {
        assert_eq!(parse_u64(s.as_bytes()), s.parse::<u64>().ok(), "{}", s);
    }
}

#[test]
fn accept_ranges_bytes_only() {
    assert!(supports_byte_ranges(Some(b"bytes")));
    assert!(!supports_byte_ranges(Some(b"none")));
    assert!(!supports_byte_ranges(Some(b"Bytes")));
    assert!(!supports_byte_ranges(Some(b"bytes ")));
    assert!(!supports_byte_ranges(None));
}

#[test]
fn range_header_for_task() {
    let t = DownloadTask::new("u".to_string(), PathBuf::from("p"), 0, 1023, 0);
    assert_eq!(range_header_value(&t), b"bytes=0-1023".to_vec());
    let t = DownloadTask::new("u".to_string(), PathBuf::from("p"), 4096, u64::MAX, 3);
    assert_eq!(range_header_value(&t), format!("bytes=4096-{}", u64::MAX).into_bytes());
}

#[test]
fn prepare_download_without_size_fails() {
    let c = config_with(4);
    assert!(matches!(prepare_download(&c, None, Some(b"bytes")), Err(DownloadError::UnknownFileSize)));
    assert!(matches!(prepare_download(&c, Some(b"0"), None), Err(DownloadError::UnknownFileSize)));
    assert!(matches!(prepare_download(&c, Some(b"ten"), None), Err(DownloadError::UnknownFileSize)));
}

#[test]
fn prepare_download_plans_and_warns() {
    let c = config_with(4);
    let p = prepare_download(&c, Some(b"10"), None).ok().unwrap();
    assert_eq!(p.total_size, 10);
    assert!(!p.resume_supported);
    assert!(p.warn_resume_disabled);
    assert_eq!(ranges(&p.tasks), vec![(0, 2), (3, 5), (6, 7), (8, 9)]);
    let p = prepare_download(&c, Some(b"10"), Some(b"bytes")).ok().unwrap();
    assert!(p.resume_supported);
    assert!(!p.warn_resume_disabled);
    let mut no_resume = config_with(2);
    no_resume.resume = false;
    let p = prepare_download(&no_resume, Some(b"10"), None).ok().unwrap();
    assert!(!p.warn_resume_disabled);
}

#[test]
fn checksum_sha256_known_values() {
    let e = ChecksumExtension::new("sha256");
    assert_eq!(e.algorithm(), "sha256");
    assert_eq!(
        e.calculate_checksum(b"abc").ok().unwrap().len(),
        64
    );
    assert_eq!(
        e.calculate_checksum(b"abc").ok().unwrap(),
        "ba7816bf8f01cfea414140de5dae2223b00361a396177a9cb410ff61f20015ad"
    );
    assert_eq!(
        e.calculate_checksum(b"").ok().unwrap(),
        "e3b0c44298fc1c149afbf4c8996fb92427ae41e4649b934ca495991b7852b855"
    );
}

#[test]
fn checksum_file_skips_empty_file() {
    let e = ChecksumExtension::new("sha256");
    assert!(matches!(e.checksum_file(0, b""), Ok(None)));
    match e.checksum_file(3, b"abc") {
        Ok(Some(s)) => assert_eq!(s, "ba7816bf8f01cfea414140de5dae2223b00361a396177a9cb410ff61f20015ad"),
        _ => panic!("expected a checksum"),
    }
    match e.checksum_file(7, b"") {
        Ok(Some(s)) => assert_eq!(s, "e3b0c44298fc1c149afbf4c8996fb92427ae41e4649b934ca495991b7852b855"),
        _ => panic!("a file that read as nothing is still checksummed"),
    }
}

#[test]
fn checksum_unknown_algorithm() {
    let e = ChecksumExtension::new("md5");
    match e.calculate_checksum(b"abc") {
        Err(err) => {
            assert_eq!(err.message(), "Unsupported checksum algorithm: md5");
            match err {
                ChecksumError::UnsupportedAlgorithm(a) => assert_eq!(a, "md5"),
            }
        }
        Ok(_) => panic!("md5 is not supported"),
    }
    assert!(matches!(ChecksumExtension::new("SHA256").checksum_file(1, b"x"), Err(_)));
    assert!(matches!(ChecksumExtension::new("md5").checksum_file(0, b""), Ok(None)));
}

#[test]
fn lower_hex_digits() {
    assert_eq!(to_lower_hex(&[0x00, 0x0a, 0xff, 0x10]), "000aff10");
    assert_eq!(to_lower_hex(&[]), "");
}

#[test]
fn progress_records_and_replaces() {
    let mut p = ProgressTracker::new(100);
    assert_eq!(p.total_downloaded(), 0);
    assert_eq!(p.remaining(), 100);
    assert!(p.record(ChunkProgress::new(1, 10, 50)));
    assert!(p.record(ChunkProgress::new(0, 5, 50)));
    assert_eq!(p.total_downloaded(), 15);
    assert!(p.record(ChunkProgress::new(1, 30, 50)));
    assert_eq!(p.total_downloaded(), 35);
    assert_eq!(p.remaining(), 65);
    let ids: Vec<usize> = p.entries_slice().iter().map(|e| e.task_id).collect();
    assert_eq!(ids, vec![1, 0]);
    assert_eq!(p.entries_slice()[0].downloaded, 30);
}

#[test]
fn progress_record_same_report_twice() {
    let mut p = ProgressTracker::new(10);
    let u = ChunkProgress::new(3, 4, 10);
    assert!(p.record(u));
    let once: Vec<ChunkProgress> = p.entries_slice().to_vec();
    assert!(p.record(u));
    assert_eq!(p.entries_slice().to_vec(), once);
    assert_eq!(p.total_downloaded(), 4);
}

#[test]
fn progress_refuses_overflowing_total() {
    let mut p = ProgressTracker::new(10);
    assert!(p.record(ChunkProgress::new(0, u64::MAX, 10)));
    assert!(!p.record(ChunkProgress::new(1, 1, 10)));
    assert_eq!(p.entries_slice().len(), 1);
    assert_eq!(p.total_downloaded(), u64::MAX);
    assert_eq!(p.remaining(), 0);
    assert!(p.record(ChunkProgress::new(0, 1, 10)));
    assert_eq!(p.total_downloaded(), 1);
}

#[test]
fn progress_speed_window() {
    let mut p = ProgressTracker::new(1000);
    assert!(p.record(ChunkProgress::new(0, 100, 1000)));
    assert!(!p.sample(200_000_000));
    assert_eq!(p.window_totals(), (0, 0));
    assert!(p.sample(300_000_000));
    assert_eq!(p.window_totals(), (100, 300_000_000));
    assert!(p.record(ChunkProgress::new(0, 150, 1000)));
    assert!(p.sample(250_000_000));
    assert_eq!(p.window_totals(), (150, 550_000_000));
    for _ in 0..20 {
        assert!(p.sample(1_000_000_000));
    }
    assert_eq!(p.window_totals(), (0, 10_000_000_000));
}

#[test]
fn reporter_refresh_rule() {
    let r = ConsoleProgressReporter;
    assert!(r.should_refresh(0, 1));
    assert!(!r.should_refresh(5, 5));
    assert!(r.should_refresh(100, 100));
}

#[test]
fn speed_limit_measures_after_interval() {
    let mut l = SpeedLimitExtension::new(1000);
    assert_eq!(l.max_speed(), 1000);
    let d = l.limit_speed(300, 100_000_000);
    assert!(!d.reset_clock);
    assert_eq!(d.measured_bytes, None);
    let d = l.limit_speed(700, 199_999_999);
    assert!(!d.reset_clock);
    assert_eq!(d.measured_bytes, None);
    let d = l.limit_speed(28, 200_000_000);
    assert!(d.reset_clock);
    assert_eq!(d.measured_bytes, Some(1028));
    let d = l.limit_speed(5, 500_000_000);
    assert_eq!(d.measured_bytes, Some(5));
}

#[test]
fn speed_limit_counter_wraps() {
    let mut l = SpeedLimitExtension::new(0);
    assert_eq!(l.limit_speed(u64::MAX, 0).measured_bytes, None);
    assert_eq!(l.limit_speed(2, 300_000_000).measured_bytes, Some(1));
}

#[test]
fn retry_gives_up_after_max() {
    assert_eq!(retry_after_failure(0, 3), Some(1));
    assert_eq!(retry_after_failure(2, 3), Some(3));
    assert_eq!(retry_after_failure(3, 3), None);
    assert_eq!(retry_after_failure(0, 0), None);
    let mut attempts = 1;
    let mut count = 0;
    while let Some(c) = retry_after_failure(count, 3) {
        count = c;
        attempts += 1;
    }
    assert_eq!(attempts, 4);
}

#[test]
fn write_segments_pieces() {
    assert_eq!(write_segments(10, 4), vec![(0, 4), (4, 8), (8, 10)]);
    assert_eq!(write_segments(8, 4), vec![(0, 4), (4, 8)]);
    assert_eq!(write_segments(3, 8192), vec![(0, 3)]);
    assert!(write_segments(0, 4).is_empty());
    assert!(write_segments(0, 0).is_empty());
    assert_eq!(write_segments(5, usize::MAX), vec![(0, 5)]);
}
