use loserar::progress::{nothing_to_do_state, should_report, JobAction, JobEvent, JobKind, JobTracker, ProgressState, REPORT_INTERVAL};

#[test]
fn report_interval_is_four_mebibytes() {
    assert_eq!(REPORT_INTERVAL, 4 * 1024 * 1024);
}

#[test]
fn reports_only_when_a_boundary_is_crossed() {
    // 64 KiB chunks: the chunk that reaches 4 MiB triggers a report.
    let chunk = 65536u64;
    let mut total = 0u64;
    let mut reports = Vec::new();
    for _ in 0..200 {
        total += chunk;
        if should_report(total, chunk) {
            reports.push(total);
        }
    }
    assert_eq!(reports, vec![4194304, 8388608, 12582912]);
    // A chunk that ends just past a boundary also reports.
    assert!(should_report(4194305, 10));
    assert!(!should_report(4194320, 10));
    // Nothing read reports nothing.
    assert!(!should_report(4194304, 0));
    // A chunk larger than the interval always reports.
    assert!(should_report(5_000_000, 4_200_000));
}

#[test]
fn tracker_counts_entries_and_bytes() {
    let mut t = JobTracker::new(JobKind::Compression, 2, 10_000_000);
    match t.begin_entry("a.bin".to_string()) {
        ProgressState::Working { current_file, files_processed, total_files, bytes_processed, total_bytes } => {
            assert_eq!(current_file, "a.bin");
            assert_eq!(files_processed, 0);
            assert_eq!(total_files, 2);
            assert_eq!(bytes_processed, 0);
            assert_eq!(total_bytes, 10_000_000);
        }
        other => panic!("unexpected {:?}", other),
    }
    assert!(t.record_chunk(4_000_000).is_none());
    match t.record_chunk(500_000) {
        Some(ProgressState::Working { bytes_processed, .. }) => assert_eq!(bytes_processed, 4_500_000),
        other => panic!("unexpected {:?}", other),
    }
    t.complete_entry();
    assert_eq!(t.files_processed, 1);
    assert_eq!(t.bytes_processed, 4_500_000);
}

#[test]
fn finished_compression_reports_sizes_and_message() {
    let mut t = JobTracker::new(JobKind::Compression, 3, 1234);
    t.complete_entry();
    t.complete_entry();
    t.complete_entry();
    match t.finished_state("out.zip".to_string(), 600, 1500) {
        ProgressState::Finished { success, archive_name, file_count, original_size, compressed_size, duration_millis, message } => {
            assert!(success);
            assert_eq!(archive_name, "out.zip");
            assert_eq!(file_count, 3);
            assert_eq!(original_size, 1234);
            assert_eq!(compressed_size, 600);
            assert_eq!(duration_millis, 1500);
            assert_eq!(message, "Successfully created archive with 3 files.");
        }
        other => panic!("unexpected {:?}", other),
    }
}

#[test]
fn finished_extraction_reports_no_sizes() {
    let mut t = JobTracker::new(JobKind::Extraction, 12, 999);
    for _ in 0..12 {
        t.complete_entry();
    }
    match t.finished_state("in.zip".to_string(), 777, 42) {
        ProgressState::Finished { file_count, original_size, compressed_size, message, .. } => {
            assert_eq!(file_count, 12);
            assert_eq!(original_size, 0);
            assert_eq!(compressed_size, 0);
            assert_eq!(message, "Successfully extracted 12 files.");
        }
        other => panic!("unexpected {:?}", other),
    }
}

#[test]
fn cancellation_and_empty_messages() {
    let c = JobTracker::new(JobKind::Compression, 1, 0);
    let e = JobTracker::new(JobKind::Extraction, 1, 0);
    match c.cancelled_state() {
        ProgressState::Error(m) => assert_eq!(m, "Compression cancelled."),
        other => panic!("unexpected {:?}", other),
    }
    match e.cancelled_state() {
        ProgressState::Error(m) => assert_eq!(m, "Extraction cancelled."),
        other => panic!("unexpected {:?}", other),
    }
    match nothing_to_do_state(JobKind::Compression) {
        ProgressState::Error(m) => assert_eq!(m, "No files found to compress."),
        other => panic!("unexpected {:?}", other),
    }
    match nothing_to_do_state(JobKind::Extraction) {
        ProgressState::Error(m) => assert_eq!(m, "Archive is empty."),
        other => panic!("unexpected {:?}", other),
    }
}

#[test]
fn terminal_and_active_states() {
    assert!(!ProgressState::Idle.is_terminal());
    assert!(!ProgressState::Idle.is_active());
    assert!(ProgressState::Scanning.is_active());
    assert!(ProgressState::Error("x".to_string()).is_terminal());
    let t = JobTracker::new(JobKind::Extraction, 1, 0);
    assert!(t.working_state().is_active());
    assert!(t.finished_state(String::new(), 0, 0).is_terminal());
}

#[test]
fn a_run_of_events_publishes_progress_and_ends_on_cancel() {
    let mut t = JobTracker::new(JobKind::Extraction, 2, 5_000_000);
    let mut published = Vec::new();
    let events = vec![
        JobEvent::EntryStarted("a".to_string()),
        JobEvent::ChunkCopied(3_000_000),
        JobEvent::ChunkCopied(2_000_000),
        JobEvent::EntryDone,
        JobEvent::EntryStarted("b".to_string()),
    ];
    for e in events {
        match t.step(e) {
            JobAction::Publish(ProgressState::Working { current_file, files_processed, total_files, bytes_processed, total_bytes }) => {
                assert_eq!(total_files, 2);
                assert_eq!(total_bytes, 5_000_000);
                published.push((current_file, files_processed, bytes_processed));
            }
            JobAction::Continue => {}
            other => panic!("unexpected {:?}", other),
        }
    }
    assert_eq!(
        published,
        vec![("a".to_string(), 0, 0), ("a".to_string(), 0, 5_000_000), ("b".to_string(), 1, 5_000_000)]
    );
    match t.step(JobEvent::Cancelled) {
        JobAction::Stop(ProgressState::Error(m)) => assert_eq!(m, "Extraction cancelled."),
        other => panic!("unexpected {:?}", other),
    }
    assert_eq!(t.files_processed, 1);
}
