use linz_s3::linz_s3_filter::fetcher::BoundedFetcher;
use linz_s3::linz_s3_filter::reporter::Progress;

#[test]
fn fetcher_hands_out_jobs_in_order_up_to_its_capacity() {
    let mut fetcher = BoundedFetcher::new(2, vec![0, 2, 0, 0, 1, 3, 0]);
    assert_eq!(
        fetcher.report(),
        Some(Progress {
            collections_read: 4,
            collections_total: 7,
            urls_read: 0,
            urls_total: 6,
            open_threads: 0,
        })
    );
    assert!(!fetcher.is_done());
    assert_eq!(fetcher.next_fetch(), Some((1, 0)));
    assert_eq!(fetcher.next_fetch(), Some((1, 1)));
    assert_eq!(fetcher.fetches_in_flight(), 2);
    // The ceiling: no third fetch while two are in flight.
    assert_eq!(fetcher.next_fetch(), None);
    assert_eq!(fetcher.next_fetch(), None);
    assert_eq!(fetcher.fetches_in_flight(), 2);
    assert_eq!(fetcher.report().unwrap().open_threads, 2);

    assert!(fetcher.resolve(1));
    assert_eq!(fetcher.report().unwrap().collections_read, 4);
    assert_eq!(fetcher.next_fetch(), Some((4, 0)));
    assert_eq!(fetcher.next_fetch(), None);
    assert!(fetcher.resolve(4));
    assert_eq!(fetcher.report().unwrap().collections_read, 5);
    assert!(fetcher.resolve(1));
    assert_eq!(fetcher.report().unwrap().collections_read, 6);
    assert_eq!(fetcher.fetches_in_flight(), 0);
    assert!(!fetcher.is_done());

    assert_eq!(fetcher.next_fetch(), Some((5, 0)));
    assert_eq!(fetcher.next_fetch(), Some((5, 1)));
    assert!(fetcher.resolve(5));
    assert_eq!(fetcher.next_fetch(), Some((5, 2)));
    assert_eq!(fetcher.next_fetch(), None);
    assert!(fetcher.resolve(5));
    assert_eq!(fetcher.next_fetch(), None);
    assert!(!fetcher.is_done());
    assert!(fetcher.resolve(5));
    assert!(fetcher.is_done());
    assert_eq!(
        fetcher.report(),
        Some(Progress {
            collections_read: 7,
            collections_total: 7,
            urls_read: 6,
            urls_total: 6,
            open_threads: 0,
        })
    );
    fetcher.stop();
    assert_eq!(fetcher.report(), None);
}

#[test]
fn fetcher_counts_only_fetches_that_are_in_flight() {
    let mut fetcher = BoundedFetcher::new(8, vec![2, 1]);
    assert!(!fetcher.resolve(0));
    assert!(!fetcher.resolve(7));
    assert_eq!(fetcher.next_fetch(), Some((0, 0)));
    assert!(!fetcher.resolve(1));
    assert!(fetcher.resolve(0));
    assert!(!fetcher.resolve(0));
    assert_eq!(fetcher.fetches_in_flight(), 0);
    assert_eq!(fetcher.next_fetch(), Some((0, 1)));
    assert_eq!(fetcher.next_fetch(), Some((1, 0)));
    assert_eq!(fetcher.next_fetch(), None);
    assert!(fetcher.resolve(1));
    assert!(!fetcher.resolve(1));
    assert!(fetcher.resolve(0));
    assert!(fetcher.is_done());
    assert_eq!(fetcher.report().unwrap().urls_read, 3);
}

#[test]
fn fetcher_without_permits_lets_one_fetch_through() {
    let mut fetcher = BoundedFetcher::new(0, vec![2]);
    assert_eq!(fetcher.next_fetch(), Some((0, 0)));
    assert_eq!(fetcher.next_fetch(), None);
    assert!(fetcher.resolve(0));
    assert_eq!(fetcher.next_fetch(), Some((0, 1)));
    assert!(fetcher.resolve(0));
    assert!(fetcher.is_done());
}

#[test]
fn fetcher_without_jobs_is_done() {
    let mut fetcher = BoundedFetcher::new(4, Vec::new());
    assert!(fetcher.is_done());
    assert_eq!(fetcher.next_fetch(), None);
    let mut fetcher = BoundedFetcher::new(4, vec![0, 0]);
    assert!(fetcher.is_done());
    assert_eq!(fetcher.next_fetch(), None);
    assert_eq!(fetcher.report().unwrap().collections_read, 2);
}
