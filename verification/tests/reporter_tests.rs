use linz_s3::linz_s3_filter::reporter::{Progress, Reporter};

#[test]
fn test_new_reporter() {
    let collections_total = 5;
    let reporter = Reporter::new(collections_total);
    assert_eq!(reporter.urls_read, 0);
    assert_eq!(reporter.urls_total, 0);
    assert_eq!(reporter.collections_read, 0);
    assert_eq!(reporter.open_threads, 0);
    assert_eq!(reporter.collections_total, collections_total);
    assert!(!reporter.stop_flag);
}

#[test]
fn test_report_finished_collection() {
    let mut reporter = Reporter::new(5);
    reporter.report_finished_collection();
    assert_eq!(reporter.collections_read, 1);
}

#[test]
fn test_reset_collection_read() {
    let mut reporter = Reporter::new(5);
    reporter.report_finished_collection();
    reporter.reset_collection_read();
    assert_eq!(reporter.collections_read, 0);
}

#[test]
fn test_add_urls() {
    let mut reporter = Reporter::new(5);
    reporter.add_urls(10);
    assert_eq!(reporter.urls_total, 10);
}

#[test]
fn test_report_finished_url() {
    let mut reporter = Reporter::new(5);
    reporter.add_urls(10);
    reporter.report_finished_url();
    assert_eq!(reporter.urls_read, 1);
}

#[test]
fn test_reset_urls_read() {
    let mut reporter = Reporter::new(5);
    reporter.add_urls(10);
    reporter.report_finished_url();
    reporter.reset_urls_read();
    assert_eq!(reporter.urls_read, 0);
}

#[test]
fn test_reset_urls_total() {
    let mut reporter = Reporter::new(5);
    reporter.add_urls(10);
    reporter.reset_urls_total();
    assert_eq!(reporter.urls_total, 0);
}

#[test]
fn test_add_and_finish_thread() {
    let mut reporter = Reporter::new(5);
    reporter.add_thread();
    assert_eq!(reporter.open_threads, 1);
    reporter.report_finished_thread();
    assert_eq!(reporter.open_threads, 0);
}

#[test]
fn test_reset_all() {
    let mut reporter = Reporter::new(5);
    reporter.add_urls(10);
    reporter.report_finished_url();
    reporter.report_finished_collection();
    reporter.reset_all(3);
    assert_eq!(reporter.urls_read, 0);
    assert_eq!(reporter.urls_total, 0);
    assert_eq!(reporter.collections_read, 0);
    assert_eq!(reporter.collections_total, 3);
}

#[test]
fn reset_all_clears_workers_and_stop_flag() {
    let mut reporter = Reporter::new(5);
    reporter.add_thread();
    reporter.stop();
    assert!(reporter.stop_flag);
    reporter.reset_all(2);
    assert_eq!(reporter.open_threads, 0);
    assert!(!reporter.stop_flag);
    assert_eq!(reporter, Reporter::new(2));
}

#[test]
fn report_gives_counts_until_stopped() {
    let mut reporter = Reporter::new(4);
    reporter.add_urls(7);
    reporter.report_finished_url();
    reporter.report_finished_url();
    reporter.report_finished_collection();
    reporter.add_thread();
    assert_eq!(
        reporter.report(),
        Some(Progress {
            collections_read: 1,
            collections_total: 4,
            urls_read: 2,
            urls_total: 7,
            open_threads: 1,
        })
    );
    reporter.stop();
    assert_eq!(reporter.report(), None);
    assert_eq!(reporter.urls_read, 2);
}

#[test]
fn counters_wrap_like_machine_words() {
    let mut reporter = Reporter::new(0);
    reporter.report_finished_thread();
    assert_eq!(reporter.open_threads, usize::MAX);
    reporter.add_thread();
    assert_eq!(reporter.open_threads, 0);
    reporter.add_urls(usize::MAX);
    reporter.add_urls(3);
    assert_eq!(reporter.urls_total, 2);
}
