use mangashelf::fetch::{collect, workers, Failure, FetchError, MAX_WORKERS};

#[test]
fn collect_all_succeeded() {
    let report = collect(&vec![Ok(3), Ok(1), Ok(4)]).unwrap();
    assert_eq!(report.values, vec![3, 1, 4]);
    assert!(report.failed.is_empty());
}

#[test]
fn collect_one_of_five_failed() {
    let outcomes = vec![Ok(10), Ok(11), Err(FetchError::Status), Ok(13), Ok(14)];
    let report = collect(&outcomes).unwrap();
    assert_eq!(report.values, vec![10, 11, 0, 13, 14]);
    assert_eq!(report.failed, vec![Failure { index: 2, cause: FetchError::Status }]);
    assert_eq!(report.values.len() - report.failed.len(), 4);
}

#[test]
fn collect_keeps_failures_in_order() {
    let outcomes = vec![Err(FetchError::Network), Ok(1), Err(FetchError::Write), Err(FetchError::Status)];
    let report = collect(&outcomes).unwrap();
    assert_eq!(
        report.failed,
        vec![
            Failure { index: 0, cause: FetchError::Network },
            Failure { index: 2, cause: FetchError::Write },
            Failure { index: 3, cause: FetchError::Status },
        ]
    );
    assert_eq!(report.values, vec![0, 1, 0, 0]);
}

#[test]
fn collect_fails_when_all_failed() {
    let outcomes = vec![Err(FetchError::Network), Err(FetchError::Status)];
    let failed = collect(&outcomes).err().unwrap();
    assert_eq!(
        failed,
        vec![
            Failure { index: 0, cause: FetchError::Network },
            Failure { index: 1, cause: FetchError::Status },
        ]
    );
}

#[test]
fn collect_of_nothing_succeeds() {
    let report = collect(&Vec::new()).unwrap();
    assert!(report.values.is_empty());
    assert!(report.failed.is_empty());
}

#[test]
fn workers_are_bounded() {
    assert_eq!(workers(0), 1);
    assert_eq!(workers(1), 1);
    assert_eq!(workers(8), 8);
    assert_eq!(workers(32), 32);
    assert_eq!(workers(33), MAX_WORKERS);
    assert_eq!(workers(usize::MAX), 32);
}
