use parallel_downloader::fetch::{
    accept_status, body_skip, parse_u64, preflight, start_job, ChunkFetch, DownloadError, RetryDecision,
};
use parallel_downloader::limiter::{Admission, RateLimiter};
use parallel_downloader::plan::{calculate_chunks, Chunk};
use parallel_downloader::registry::{
    next_phase, progress_percent, status_list, DaemonObserver, JobEvent, JobPhase, JobProgress,
    JobSnapshot, ProgressObserver,
};
use parallel_downloader::state::{chunks_partition, DownloadState};
use std::sync::mpsc::channel;
use std::sync::Arc;

fn bounds(chunks: &[Chunk]) -> Vec<(u64, u64)> {
    chunks.iter().map(|c| (c.start, c.end)).collect()
}

#[test]
fn plan_even_split() {
    let c = calculate_chunks(1000, 4);
    assert_eq!(bounds(&c), vec![(0, 249), (250, 499), (500, 749), (750, 999)]);
    assert!(c.iter().all(|c| !c.completed));
}

#[test]
fn plan_last_range_absorbs_remainder() {
    let c = calculate_chunks(1001, 4);
    assert_eq!(bounds(&c), vec![(0, 249), (250, 499), (500, 749), (750, 1000)]);
}

#[test]
fn plan_clamps_workers_to_size() {
    let c = calculate_chunks(2, 4);
    assert_eq!(bounds(&c), vec![(0, 0), (1, 1)]);
    assert!(c.iter().all(|c| c.start <= c.end));
}

#[test]
fn plan_empty_resource_has_no_ranges() {
    assert!(calculate_chunks(0, 4).is_empty());
}

#[test]
fn plan_zero_workers_uses_one() {
    assert_eq!(bounds(&calculate_chunks(10, 0)), vec![(0, 9)]);
}

#[test]
fn plan_is_partition_for_many_sizes() {
    for total in 1u64..200 {
        for workers in 1u64..12 {
            let c = calculate_chunks(total, workers);
            assert!(chunks_partition(&c, total));
            assert_eq!(c[0].start, 0);
            assert_eq!(c.last().unwrap().end, total - 1);
            for w in c.windows(2) {
                assert_eq!(w[1].start, w[0].end + 1);
            }
        }
    }
}

#[test]
fn plan_is_deterministic() {
    assert_eq!(calculate_chunks(12345, 7), calculate_chunks(12345, 7));
}

fn half_done_state() -> DownloadState {
    let mut s = DownloadState::new("http://example.com/f".to_string(), 1000, 4);
    s.mark_completed(0);
    s.mark_completed(1);
    s
}

#[test]
fn resume_fetches_only_incomplete_ranges() {
    let loaded = half_done_state();
    let s = DownloadState::resume_or_plan(Some(loaded), "http://example.com/f".to_string(), 1000, 4);
    assert_eq!(s.pending_chunks(), vec![2, 3]);
    assert!(s.chunks[0].completed && s.chunks[1].completed);
    assert_eq!(bounds(&s.chunks), bounds(&calculate_chunks(1000, 4)));
}

#[test]
fn resume_then_complete_matches_fresh_plan() {
    let mut s = DownloadState::resume_or_plan(
        Some(half_done_state()),
        "http://example.com/f".to_string(),
        1000,
        4,
    );
    for i in s.pending_chunks() {
        s.mark_completed(i);
    }
    assert!(s.is_complete());
    assert!(chunks_partition(&s.chunks, 1000));
}

#[test]
fn resume_foreign_url_replans() {
    let s = DownloadState::resume_or_plan(Some(half_done_state()), "http://other/f".to_string(), 1000, 4);
    assert_eq!(s.url, "http://other/f");
    assert_eq!(s.pending_chunks(), vec![0, 1, 2, 3]);
}

#[test]
fn resume_damaged_record_replans() {
    let mut loaded = half_done_state();
    loaded.chunks[2].start = 600;
    let s = DownloadState::resume_or_plan(Some(loaded), "http://example.com/f".to_string(), 1000, 4);
    assert_eq!(s.pending_chunks(), vec![0, 1, 2, 3]);
}

#[test]
fn resume_record_of_other_size_replans() {
    let s = DownloadState::resume_or_plan(Some(half_done_state()), "http://example.com/f".to_string(), 2000, 4);
    assert_eq!(bounds(&s.chunks), bounds(&calculate_chunks(2000, 4)));
}

#[test]
fn resume_without_record_plans() {
    let s = DownloadState::resume_or_plan(None, "u".to_string(), 8, 2);
    assert_eq!(bounds(&s.chunks), vec![(0, 3), (4, 7)]);
    assert!(!s.is_complete());
}

#[test]
fn partition_check_rejects_gaps_and_overlaps() {
    let c = |s, e| Chunk { start: s, end: e, completed: false };
    assert!(chunks_partition(&vec![c(0, 4), c(5, 9)], 10));
    assert!(!chunks_partition(&vec![c(0, 4), c(6, 9)], 10));
    assert!(!chunks_partition(&vec![c(0, 5), c(5, 9)], 10));
    assert!(!chunks_partition(&vec![c(1, 9)], 10));
    assert!(!chunks_partition(&vec![c(0, 8)], 10));
    assert!(!chunks_partition(&vec![], 0));
}

#[test]
fn limiter_grants_then_waits() {
    let mut l = RateLimiter::new(1000, 100, 0);
    assert_eq!(l.acquire(100, 0), Admission::Granted(100));
    assert_eq!(l.acquire(50, 0), Admission::Wait(50));
    assert_eq!(l.acquire(50, 50), Admission::Granted(50));
    assert_eq!(l.acquire(0, 50), Admission::Granted(0));
}

#[test]
fn limiter_splits_large_requests() {
    let mut l = RateLimiter::new(1000, 100, 0);
    assert_eq!(l.acquire(5000, 0), Admission::Granted(100));
    assert_eq!(l.acquire(4900, 1), Admission::Wait(99));
}

#[test]
fn limiter_refill_is_capped() {
    let mut l = RateLimiter::new(10, 100, 0);
    assert_eq!(l.acquire(100, 0), Admission::Granted(100));
    l.refill(1_000_000);
    assert_eq!(l.acquire(100, 1_000_000), Admission::Granted(100));
    assert_eq!(l.acquire(1, 1_000_000), Admission::Wait(100));
}

#[test]
fn limiter_throughput_stays_under_rate() {
    let rate = 2000u64;
    let cap = 64u64;
    let mut l = RateLimiter::new(rate, cap, 0);
    let mut total = 0u64;
    let mut now = 0u64;
    let mut worker = 0u64;
    while now < 5000 {
        let want = 10 + (worker % 3) * 20;
        match l.acquire(want, now) {
            Admission::Granted(g) => total += g,
            Admission::Wait(ms) => now += ms.min(3),
        }
        worker += 1;
    }
    assert!(total <= rate * now / 1000 + cap);
    assert!(total >= rate * 4);
}

#[test]
fn preflight_error_status() {
    assert_eq!(preflight(404, Some(b"10")), Err(DownloadError::SourceUnavailable(404)));
    assert_eq!(preflight(500, None), Err(DownloadError::SourceUnavailable(500)));
}

#[test]
fn preflight_missing_or_bad_size() {
    assert_eq!(preflight(200, None), Err(DownloadError::SizeUnknown));
    assert_eq!(preflight(200, Some(b"abc")), Err(DownloadError::SizeUnknown));
    assert_eq!(preflight(200, Some(b"")), Err(DownloadError::SizeUnknown));
}

#[test]
fn preflight_reads_size() {
    assert_eq!(preflight(200, Some(b"1234")), Ok(1234));
    assert_eq!(preflight(204, Some(b"0")), Ok(0));
}

#[test]
fn parse_matches_std() {
    for s in ["0", "7", "+5", "+", "", "12a", "-1", "18446744073709551615", "18446744073709551616", "99999999999999999999", "0042"] {
        assert_eq!(parse_u64(s.as_bytes()), s.parse::<u64>().ok(), "{}", s);
    }
}

#[test]
fn failed_preflight_yields_no_ranges() {
    let r = start_job(503, Some(b"100"), "u".to_string(), None, 4);
    assert!(matches!(r, Err(DownloadError::SourceUnavailable(503))));
    let r = start_job(200, None, "u".to_string(), None, 4);
    assert!(matches!(r, Err(DownloadError::SizeUnknown)));
}

#[test]
fn successful_preflight_plans_job() {
    let s = start_job(200, Some(b"1000"), "u".to_string(), None, 4).unwrap();
    assert_eq!(bounds(&s.chunks), vec![(0, 249), (250, 499), (500, 749), (750, 999)]);
}

#[test]
fn range_status_acceptance() {
    assert!(accept_status(200));
    assert!(accept_status(206));
    assert!(!accept_status(204));
    assert!(!accept_status(416));
}

#[test]
fn fetch_tracks_offset_and_clamps() {
    let mut f = ChunkFetch::new(Chunk { start: 100, end: 199, completed: false }, 3);
    assert_eq!(f.on_data(60), (100, 60));
    assert_eq!(f.remaining(), 40);
    assert_eq!(f.on_data(60), (160, 40));
    assert!(f.is_finished());
    assert_eq!(f.on_data(10), (200, 0));
}

#[test]
fn fetch_retries_with_backoff_then_gives_up() {
    let mut f = ChunkFetch::new(Chunk { start: 0, end: 99, completed: false }, 4);
    f.on_data(30);
    assert_eq!(f.on_error(), RetryDecision::Retry { from: 30, delay_ms: 500 });
    assert_eq!(f.on_error(), RetryDecision::Retry { from: 30, delay_ms: 1000 });
    assert_eq!(f.on_error(), RetryDecision::Retry { from: 30, delay_ms: 2000 });
    assert_eq!(f.on_error(), RetryDecision::GiveUp);
    assert_eq!(f.on_error(), RetryDecision::GiveUp);
}

#[test]
fn backoff_reaches_ceiling() {
    let mut f = ChunkFetch::new(Chunk { start: 0, end: 0, completed: false }, 100);
    let mut last = 0;
    for _ in 0..20 {
        if let RetryDecision::Retry { delay_ms, .. } = f.on_error() {
            assert!(delay_ms >= last);
            last = delay_ms;
        }
    }
    assert_eq!(last, 30000);
}

#[test]
fn percent_values() {
    assert_eq!(progress_percent(0, 0), 100);
    assert_eq!(progress_percent(50, 200), 25);
    assert_eq!(progress_percent(199, 200), 99);
    assert_eq!(progress_percent(300, 200), 100);
    assert_eq!(progress_percent(u64::MAX, u64::MAX), 100);
    assert_eq!(progress_percent(u64::MAX / 2, u64::MAX), 49);
}

#[test]
fn status_of_empty_registry() {
    assert!(status_list(&vec![]).is_empty());
}

#[test]
fn status_of_running_job_grows() {
    let mut last = 0;
    for d in [0u64, 10, 250, 999, 1000] {
        let jobs = vec![JobSnapshot {
            id: 1,
            filename: "f.bin".to_string(),
            total_bytes: 1000,
            downloaded_bytes: d,
            state: "Downloading".to_string(),
        }];
        let r = status_list(&jobs);
        assert_eq!(r.len(), 1);
        assert_eq!(r[0].id, 1);
        assert_eq!(r[0].filename, "f.bin");
        assert_eq!(r[0].state, "Downloading");
        assert!(r[0].progress_percent <= 100 && r[0].progress_percent >= last);
        last = r[0].progress_percent;
    }
    assert_eq!(last, 100);
}

#[test]
fn job_lifecycle() {
    let p = next_phase(JobPhase::Pending, JobEvent::Scheduled);
    assert_eq!(p, JobPhase::Running);
    assert_eq!(next_phase(p, JobEvent::AllRangesCompleted), JobPhase::Done);
    assert_eq!(next_phase(p, JobEvent::RangeFailed), JobPhase::Failed);
    assert_eq!(next_phase(JobPhase::Done, JobEvent::RangeFailed), JobPhase::Done);
    assert_eq!(next_phase(JobPhase::Failed, JobEvent::Scheduled), JobPhase::Failed);
    assert_eq!(next_phase(JobPhase::Pending, JobEvent::AllRangesCompleted), JobPhase::Pending);
}

#[test]
fn interleaved_increments_sum_exactly() {
    let job = Arc::new(JobProgress::new());
    let (tx, _rx) = channel();
    let workers: Vec<DaemonObserver> = (0..4)
        .map(|_| DaemonObserver { job_data: job.clone(), status: tx.clone() })
        .collect();
    for round in 0..100u64 {
        for (k, w) in workers.iter().enumerate() {
            w.inc(k as u64 + 1 + round % 2);
        }
    }
    assert_eq!(job.downloaded(), 100 * (1 + 2 + 3 + 4) + 50 * 4);
}

#[test]
fn status_updates_arrive_in_order() {
    let job = Arc::new(JobProgress::new());
    let (tx, rx) = channel();
    let obs = DaemonObserver { job_data: job, status: tx };
    obs.message("Downloading".to_string());
    obs.message("Retrying".to_string());
    obs.finish();
    let got: Vec<String> = rx.try_iter().collect();
    assert_eq!(got, vec!["Downloading", "Retrying", "Done"]);
}

#[test]
fn errors_have_reasons() {
    for e in [
        DownloadError::SourceUnavailable(404),
        DownloadError::SizeUnknown,
        DownloadError::RangeFetchFailed,
        DownloadError::UnexpectedStatus(416),
        DownloadError::IoFailure,
        DownloadError::StateCorrupt,
        DownloadError::ControlChannelUnreachable,
    ] {
        assert!(!e.reason().is_empty());
    }
    assert_eq!(DownloadError::SizeUnknown.reason(), "the source did not report a size");
    assert_eq!(DownloadError::SourceUnavailable(404).reason(), "source unavailable: the size request failed");
}

#[test]
fn unreachable_daemon_message() {
    assert_eq!(
        DownloadError::ControlChannelUnreachable.reason(),
        "Could not connect to daemon. Is it running?"
    );
}

#[test]
fn full_content_answer_skips_to_offset() {
    assert_eq!(body_skip(200, 750), 750);
    assert_eq!(body_skip(206, 750), 0);
    assert_eq!(body_skip(200, 0), 0);
}

#[test]
fn state_sizes() {
    let mut s = DownloadState::new("u".to_string(), 1001, 4);
    assert!(s.is_well_formed());
    assert_eq!(s.total_size(), 1001);
    assert_eq!(s.completed_bytes(), 0);
    s.mark_completed(1);
    s.mark_completed(3);
    assert_eq!(s.completed_bytes(), 250 + 251);
    let empty = DownloadState::new("u".to_string(), 0, 4);
    assert!(empty.is_well_formed());
    assert_eq!(empty.total_size(), 0);
    let mut bad = DownloadState::new("u".to_string(), 100, 2);
    bad.chunks[1].start = 10;
    assert!(!bad.is_well_formed());
}

#[test]
fn started_job_is_well_formed() {
    let s = start_job(200, Some(b"77"), "u".to_string(), None, 3).unwrap();
    assert!(s.is_well_formed());
    assert_eq!(s.total_size(), 77);
}
