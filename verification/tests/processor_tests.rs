use file_processor::analyzer::{text_statistics, FileAnalysis, FileStats};
use file_processor::processor::{job_entry, Dispatcher, FileProcessor, Job, ProgressMessage};
use file_processor::thread_pool::ThreadPool;

fn make_analysis(name: &str, size: u64) -> FileAnalysis {
    let mut stats = FileStats::new();
    stats.size_bytes = size;
    FileAnalysis {
        filename: name.to_string(),
        stats,
        errors: Vec::new(),
        processing_time: 0,
    }
}

fn new_processor(pool_size: usize) -> FileProcessor {
    let pool: ThreadPool<Job> = ThreadPool::new(pool_size);
    FileProcessor::new(pool, "progress.json".to_string())
}

#[test]
fn test_two_file_scenario() {
    let mut fp = new_processor(2);
    let files = vec!["a.txt".to_string(), "b.txt".to_string()];
    let dispatch_events = fp.process_files(files);

    // Submission order is fixed: a.txt first, b.txt always after it, with
    // the overall progress reported after each submission.
    assert_eq!(dispatch_events.len(), 4);
    match &dispatch_events[0] {
        ProgressMessage::FileStarted(p) => assert_eq!(p, "a.txt"),
        _ => panic!("first event must announce a.txt"),
    }
    match &dispatch_events[1] {
        ProgressMessage::OverallProgress { completed, total } => {
            assert_eq!(*completed, 1);
            assert_eq!(*total, 2);
        }
        _ => panic!("second event must report progress 1 of 2"),
    }
    match &dispatch_events[2] {
        ProgressMessage::FileStarted(p) => assert_eq!(p, "b.txt"),
        _ => panic!("third event must announce b.txt"),
    }
    match &dispatch_events[3] {
        ProgressMessage::OverallProgress { completed, total } => {
            assert_eq!(*completed, 2);
            assert_eq!(*total, 2);
        }
        _ => panic!("fourth event must report progress 2 of 2"),
    }

    // a.txt: 50 bytes, 2 lines, 3 words; b.txt: empty.
    let a_lines: Vec<Vec<char>> = vec!["one two\n".chars().collect(), "three\n".chars().collect()];
    let mut a_stats = text_statistics(&a_lines);
    assert_eq!(a_stats.line_count, 2);
    assert_eq!(a_stats.word_count, 3);
    a_stats.size_bytes = 50;
    let analysis_a = FileAnalysis {
        filename: "a.txt".to_string(),
        stats: a_stats,
        errors: Vec::new(),
        processing_time: 0,
    };
    let analysis_b = make_analysis("b.txt", 0);

    let worker_events = fp.run_all_jobs(vec![analysis_a, analysis_b]);
    assert_eq!(worker_events.len(), 2);
    let mut completed_a = 0;
    let mut completed_b = 0;
    for ev in &worker_events {
        match ev {
            ProgressMessage::FileCompleted(a) if a.filename == "a.txt" => {
                completed_a += 1;
                assert_eq!(a.stats.size_bytes, 50);
            }
            ProgressMessage::FileCompleted(a) if a.filename == "b.txt" => {
                completed_b += 1;
                assert_eq!(a.stats.size_bytes, 0);
            }
            _ => panic!("only completions may appear after an uncancelled run"),
        }
    }
    assert_eq!(completed_a, 1);
    assert_eq!(completed_b, 1);
    assert_eq!(fp.total_bytes_processed(), 50);
}

#[test]
fn test_byte_counter_sums_known_sizes() {
    // The final count is the sum of the analyzed sizes, independent of
    // the worker-thread count.
    for pool_size in [1usize, 2, 8] {
        let mut fp = new_processor(pool_size);
        let files = vec!["a".to_string(), "b".to_string(), "c".to_string()];
        let _ = fp.process_files(files);
        let analyses = vec![
            make_analysis("a", 100),
            make_analysis("b", 250),
            make_analysis("c", 4096),
        ];
        let _ = fp.run_all_jobs(analyses);
        assert_eq!(fp.total_bytes_processed(), 4446);
    }
}

#[test]
fn test_byte_counter_saturates_at_limit() {
    let mut fp = new_processor(1);
    let _ = fp.process_files(vec!["a".to_string()]);
    let _ = fp.run_all_jobs(vec![make_analysis("a", u64::MAX)]);
    assert_eq!(fp.total_bytes_processed(), usize::MAX);
}

#[test]
fn test_cancellation_is_monotonic() {
    let mut fp = new_processor(1);
    assert!(!fp.is_cancelled());
    fp.cancel();
    assert!(fp.is_cancelled());
    // Requesting cancellation again never clears the flag.
    fp.cancel();
    assert!(fp.is_cancelled());
    // No later operation clears it either.
    let _ = fp.process_files(vec!["a".to_string()]);
    assert!(fp.is_cancelled());
    let _ = fp.run_all_jobs(Vec::new());
    assert!(fp.is_cancelled());
    assert_eq!(fp.total_bytes_processed(), 0);
}

#[test]
fn test_cancellation_before_dispatch_stops_everything() {
    let mut fp = new_processor(2);
    fp.cancel();
    let files: Vec<String> = (0..100).map(|i| format!("f{}.txt", i)).collect();
    let events = fp.process_files(files);
    // Submissions stop at zero files: no event is emitted for any file.
    assert!(events.is_empty());
    // No job was submitted, so no failure events appear either.
    let failed = fp.run_all_jobs(Vec::new());
    assert!(failed.is_empty());
    assert_eq!(fp.total_bytes_processed(), 0);
}

#[test]
fn test_cancellation_mid_dispatch_stops_later_files() {
    let mut d = Dispatcher::new(5);
    let mut announced: Vec<String> = Vec::new();
    for i in 0..5 {
        // The flag becomes visible to the loop after three submissions.
        let cancelled = i >= 3;
        match d.step(cancelled, format!("f{}.txt", i)) {
            Some((started, _job, _progress)) => match started {
                ProgressMessage::FileStarted(p) => announced.push(p),
                _ => panic!("a step must announce the file it submits"),
            },
            None => break,
        }
    }
    let expected: Vec<String> = vec!["f0.txt".to_string(), "f1.txt".to_string(), "f2.txt".to_string()];
    assert_eq!(announced, expected);
}

#[test]
fn test_cancelled_jobs_report_failure() {
    let mut fp = new_processor(2);
    let files = vec!["a.txt".to_string(), "b.txt".to_string()];
    let _ = fp.process_files(files);
    // Cancellation arrives after submission, before any job runs, so no
    // analysis is ever produced.
    fp.cancel();
    let events = fp.run_all_jobs(Vec::new());
    assert_eq!(events.len(), 2);
    for (i, ev) in events.iter().enumerate() {
        match ev {
            ProgressMessage::FileFailed(p, e) => {
                let expected = if i == 0 { "a.txt" } else { "b.txt" };
                assert_eq!(p, expected);
                assert_eq!(e.operation, "cancelled");
                assert_eq!(e.message, "Cancelled before start");
            }
            _ => panic!("every job must fail after cancellation"),
        }
    }
    // No analyzer ran, so no bytes were counted.
    assert_eq!(fp.total_bytes_processed(), 0);
}

#[test]
fn test_job_entry_decision() {
    let path = "x.txt".to_string();
    match job_entry(true, &path) {
        Some(ProgressMessage::FileFailed(p, e)) => {
            assert_eq!(p, "x.txt");
            assert_eq!(e.filename, "x.txt");
            assert_eq!(e.operation, "cancelled");
            assert_eq!(e.message, "Cancelled before start");
        }
        _ => panic!("a cancelled job must report failure"),
    }
    assert!(job_entry(false, &path).is_none());
}

#[test]
fn test_overall_progress_monotonic_and_bounded() {
    let mut fp = new_processor(3);
    let files: Vec<String> = (0..4).map(|i| format!("f{}.txt", i)).collect();
    let events = fp.process_files(files);
    let mut last = 0usize;
    let mut seen = 0usize;
    for ev in &events {
        if let ProgressMessage::OverallProgress { completed, total } = ev {
            assert!(*completed >= last);
            assert!(*completed <= *total);
            assert_eq!(*total, 4);
            last = *completed;
            seen += 1;
        }
    }
    assert_eq!(seen, 4);
}

#[test]
fn test_started_before_outcome_in_stream() {
    let mut fp = new_processor(2);
    let files = vec!["a".to_string(), "b".to_string(), "c".to_string()];
    let mut all_events = fp.process_files(files);
    let analyses = vec![
        make_analysis("a", 1),
        make_analysis("b", 2),
        make_analysis("c", 3),
    ];
    all_events.extend(fp.run_all_jobs(analyses));
    for name in ["a", "b", "c"] {
        let started_at = all_events
            .iter()
            .position(|ev| matches!(ev, ProgressMessage::FileStarted(p) if p == name))
            .expect("every file is announced");
        let outcome_at = all_events
            .iter()
            .position(|ev| match ev {
                ProgressMessage::FileCompleted(a) => a.filename == name,
                ProgressMessage::FileFailed(p, _) => p == name,
                _ => false,
            })
            .expect("every file gets an outcome");
        assert!(started_at < outcome_at);
    }
}

#[test]
fn test_empty_run() {
    let mut fp = new_processor(1);
    let events = fp.process_files(Vec::new());
    assert!(events.is_empty());
    let worker_events = fp.run_all_jobs(Vec::new());
    assert!(worker_events.is_empty());
    assert_eq!(fp.total_bytes_processed(), 0);
}
