use pg_search::aggregate_merge::{
    check_groups, merge_aggregates, AggregateReport, Combine, GroupPartial, GroupResult,
};
use pg_search::execution::{diagnostic, ExecutionError};
use pg_search::partition::{partition, WorkUnit};
use pg_search::scan_merge::{
    comes_before, is_ordered, merge_scan, ScanHit, ScanOrder, ScanReport,
};
use pg_search::{available_parallelism, planned_workers};

fn unit(start: u64, end: u64) -> WorkUnit {
    WorkUnit { start, end }
}

fn hit(row: u64, score: u64) -> ScanHit {
    ScanHit { row, score }
}

fn group(key: u64, states: &[Option<i64>]) -> GroupPartial {
    GroupPartial { key, values: states.to_vec() }
}

fn result(key: u64, values: &[Option<i128>]) -> GroupResult {
    GroupResult { key, values: values.to_vec() }
}

fn kinds() -> Vec<Combine> {
    vec![Combine::Count, Combine::Sum, Combine::Min, Combine::Max]
}

fn worker_a() -> AggregateReport {
    AggregateReport::Groups(vec![
        group(1, &[Some(2), Some(10), Some(3), Some(7)]),
        group(5, &[Some(1), Some(-4), Some(-4), Some(-4)]),
    ])
}

fn worker_b() -> AggregateReport {
    AggregateReport::Groups(vec![
        group(1, &[Some(3), Some(5), Some(1), Some(4)]),
        group(2, &[Some(4), None, None, None]),
    ])
}

fn worker_c() -> AggregateReport {
    AggregateReport::Groups(vec![
        group(2, &[None, Some(8), Some(8), Some(8)]),
        group(5, &[Some(6), Some(i64::MAX), Some(0), Some(i64::MAX)]),
        group(9, &[None, None, None, None]),
    ])
}

fn merged_abc() -> Vec<GroupResult> {
    vec![
        result(1, &[Some(5), Some(15), Some(1), Some(7)]),
        result(2, &[Some(4), Some(8), Some(8), Some(8)]),
        result(5, &[Some(7), Some(i64::MAX as i128 - 4), Some(-4), Some(i64::MAX as i128)]),
        result(9, &[Some(0), None, None, None]),
    ]
}

#[test]
fn the_machine_has_at_least_one_worker() {
    assert_eq!(available_parallelism(None), 1);
    assert_eq!(available_parallelism(Some(0)), 1);
    assert_eq!(available_parallelism(Some(1)), 1);
    assert_eq!(available_parallelism(Some(16)), 16);
}

#[test]
fn workers_stay_below_the_ceiling() {
    assert_eq!(planned_workers(8, 4), 4);
    assert_eq!(planned_workers(4, 8), 4);
    assert_eq!(planned_workers(4, 4), 4);
    assert_eq!(planned_workers(0, 8), 1);
    assert_eq!(planned_workers(8, 0), 1);
    assert_eq!(planned_workers(u32::MAX, usize::MAX), u32::MAX);
}

#[test]
fn units_share_the_space_evenly() {
    assert_eq!(partition(10, 3), vec![unit(0, 4), unit(4, 7), unit(7, 10)]);
    assert_eq!(partition(10, 1), vec![unit(0, 10)]);
    assert_eq!(partition(9, 3), vec![unit(0, 3), unit(3, 6), unit(6, 9)]);
    assert_eq!(partition(2, 4), vec![unit(0, 1), unit(1, 2), unit(2, 2), unit(2, 2)]);
    assert_eq!(partition(0, 2), vec![unit(0, 0), unit(0, 0)]);
    let whole = partition(u64::MAX, 2);
    assert_eq!(whole, vec![unit(0, 1 << 63), unit(1 << 63, u64::MAX)]);
}

#[test]
fn units_cover_the_space_without_overlap() {
    for total in 0u64..40 {
        for workers in 1u32..9 {
            let units = partition(total, workers);
            assert_eq!(units.len(), workers as usize);
            for id in 0..total {
                let owners = units.iter().filter(|u| u.start <= id && id < u.end).count();
                assert_eq!(owners, 1, "id {} of {} with {} workers", id, total, workers);
            }
            for unit in &units {
                assert!(unit.start <= unit.end && unit.end <= total);
            }
            assert_eq!(partition(total, workers), units);
        }
    }
}

#[test]
fn partition_changes_shape_with_the_worker_count() {
    assert_eq!(partition(1_000_000, 4)[3], unit(750_000, 1_000_000));
    assert_eq!(partition(1_000_000, 3)[0], unit(0, 333_334));
    assert_eq!(partition(1_000_000, 3)[2], unit(666_667, 1_000_000));
}

#[test]
fn hits_are_compared_by_the_order_of_the_query() {
    let relevance = ScanOrder::RelevanceDescending;
    let identifier = ScanOrder::IdentifierAscending;
    assert!(comes_before(relevance, &hit(9, 5), &hit(1, 4)));
    assert!(comes_before(relevance, &hit(1, 5), &hit(2, 5)));
    assert!(!comes_before(relevance, &hit(2, 5), &hit(2, 5)));
    assert!(comes_before(identifier, &hit(1, 0), &hit(2, 9)));
    assert!(comes_before(identifier, &hit(1, 9), &hit(1, 0)));
    assert!(!comes_before(identifier, &hit(2, 0), &hit(1, 0)));
    assert!(is_ordered(identifier, &vec![hit(1, 0), hit(1, 0), hit(3, 0)]));
    assert!(!is_ordered(identifier, &vec![hit(1, 0), hit(3, 0), hit(2, 0)]));
    assert!(is_ordered(relevance, &vec![hit(4, 9), hit(1, 3), hit(2, 3)]));
    assert!(!is_ordered(relevance, &vec![hit(4, 1), hit(1, 3)]));
    assert!(is_ordered(relevance, &Vec::new()));
}

#[test]
fn a_row_reported_with_two_scores_comes_out_once() {
    let relevance = ScanOrder::RelevanceDescending;
    let identifier = ScanOrder::IdentifierAscending;
    let two_workers = vec![ScanReport::Rows(vec![hit(1, 5)]), ScanReport::Rows(vec![hit(1, 3)])];
    assert_eq!(merge_scan(relevance, &two_workers), Ok(vec![hit(1, 5)]));
    assert_eq!(merge_scan(identifier, &two_workers), Ok(vec![hit(1, 5)]));
    let turned = vec![ScanReport::Rows(vec![hit(1, 3)]), ScanReport::Rows(vec![hit(1, 5)])];
    assert_eq!(merge_scan(relevance, &turned), Ok(vec![hit(1, 5)]));
    assert_eq!(merge_scan(identifier, &turned), Ok(vec![hit(1, 5)]));
    let one_worker = vec![ScanReport::Rows(vec![hit(1, 5), hit(2, 4), hit(1, 3), hit(2, 1)])];
    assert_eq!(merge_scan(relevance, &one_worker), Ok(vec![hit(1, 5), hit(2, 4)]));
    let by_row = vec![ScanReport::Rows(vec![hit(1, 5), hit(1, 3), hit(2, 4), hit(2, 1)])];
    assert_eq!(merge_scan(identifier, &by_row), Ok(vec![hit(1, 5), hit(2, 4)]));
}

#[test]
fn rows_spread_over_workers_come_out_once_in_relevance_order() {
    let reports = vec![
        ScanReport::Rows(vec![hit(7, 90), hit(3, 40), hit(5, 10)]),
        ScanReport::Rows(vec![hit(5, 80), hit(7, 20), hit(9, 20)]),
        ScanReport::Rows(vec![hit(3, 85), hit(5, 80), hit(9, 60)]),
    ];
    let merged = merge_scan(ScanOrder::RelevanceDescending, &reports).unwrap();
    assert_eq!(merged, vec![hit(7, 90), hit(3, 85), hit(5, 80), hit(9, 60)]);
    let mut rows: Vec<u64> = merged.iter().map(|h| h.row).collect();
    rows.sort();
    rows.dedup();
    assert_eq!(rows, vec![3, 5, 7, 9]);
    let by_row = vec![
        ScanReport::Rows(vec![hit(3, 40), hit(5, 10), hit(7, 90)]),
        ScanReport::Rows(vec![hit(5, 80), hit(7, 20), hit(9, 20)]),
        ScanReport::Rows(vec![hit(3, 85), hit(5, 80), hit(9, 60)]),
    ];
    assert_eq!(
        merge_scan(ScanOrder::IdentifierAscending, &by_row),
        Ok(vec![hit(3, 85), hit(5, 80), hit(7, 90), hit(9, 60)])
    );
}

#[test]
fn scan_merge_by_identifier() {
    let reports = vec![
        ScanReport::Rows(vec![hit(1, 10), hit(5, 30)]),
        ScanReport::Rows(vec![]),
        ScanReport::Rows(vec![hit(2, 40), hit(5, 30), hit(8, 20)]),
        ScanReport::Rows(vec![hit(3, 50)]),
    ];
    assert_eq!(
        merge_scan(ScanOrder::IdentifierAscending, &reports),
        Ok(vec![hit(1, 10), hit(2, 40), hit(3, 50), hit(5, 30), hit(8, 20)])
    );
}

#[test]
fn scan_merge_by_relevance() {
    let reports = vec![
        ScanReport::Rows(vec![hit(5, 30), hit(1, 10)]),
        ScanReport::Rows(vec![hit(2, 40), hit(5, 30), hit(8, 20), hit(9, 10)]),
        ScanReport::Rows(vec![hit(3, 50), hit(3, 50)]),
    ];
    assert_eq!(
        merge_scan(ScanOrder::RelevanceDescending, &reports),
        Ok(vec![hit(3, 50), hit(2, 40), hit(5, 30), hit(8, 20), hit(1, 10), hit(9, 10)])
    );
}

#[test]
fn scan_merge_does_not_depend_on_the_order_of_workers() {
    let a = vec![hit(1, 10), hit(5, 30)];
    let b = vec![hit(2, 40), hit(5, 30), hit(8, 20)];
    let c = vec![hit(3, 50)];
    let order = ScanOrder::IdentifierAscending;
    let abc = merge_scan(
        order,
        &vec![ScanReport::Rows(a.clone()), ScanReport::Rows(b.clone()), ScanReport::Rows(c.clone())],
    );
    let cab = merge_scan(order, &vec![ScanReport::Rows(c), ScanReport::Rows(a), ScanReport::Rows(b)]);
    assert_eq!(abc, cab);
    assert_eq!(merge_scan(order, &Vec::new()), Ok(Vec::new()));
}

#[test]
fn scan_merge_fails_with_a_failed_worker() {
    let reports = vec![
        ScanReport::Rows(vec![hit(1, 0)]),
        ScanReport::Rows(vec![hit(2, 0)]),
        ScanReport::Failed,
        ScanReport::Rows(vec![hit(4, 0)]),
    ];
    assert_eq!(
        merge_scan(ScanOrder::IdentifierAscending, &reports),
        Err(ExecutionError::WorkerFailed { worker: 2 })
    );
}

#[test]
fn scan_merge_fails_with_rows_out_of_order() {
    let reports = vec![
        ScanReport::Rows(vec![hit(1, 0)]),
        ScanReport::Rows(vec![hit(3, 5), hit(2, 1)]),
        ScanReport::Failed,
    ];
    assert_eq!(
        merge_scan(ScanOrder::IdentifierAscending, &reports),
        Err(ExecutionError::MalformedPartial { worker: 1 })
    );
    assert_eq!(
        merge_scan(ScanOrder::RelevanceDescending, &reports),
        Err(ExecutionError::WorkerFailed { worker: 2 })
    );
}

#[test]
fn partials_are_checked() {
    assert!(check_groups(&Vec::new(), 3));
    assert!(check_groups(&vec![group(1, &[None, None]), group(2, &[Some(1), None])], 2));
    assert!(!check_groups(&vec![group(1, &[None, None]), group(1, &[Some(1), None])], 2));
    assert!(!check_groups(&vec![group(2, &[None, None]), group(1, &[Some(1), None])], 2));
    assert!(!check_groups(&vec![group(1, &[None, None]), group(2, &[Some(1)])], 2));
}

#[test]
fn aggregates_are_combined_for_each_key() {
    let reports = vec![worker_a(), worker_b(), worker_c()];
    assert_eq!(merge_aggregates(&kinds(), &reports), Ok(merged_abc()));
}

#[test]
fn aggregate_merge_does_not_depend_on_the_order_of_workers() {
    let abc = merge_aggregates(&kinds(), &vec![worker_a(), worker_b(), worker_c()]);
    let cab = merge_aggregates(&kinds(), &vec![worker_c(), worker_a(), worker_b()]);
    let bca = merge_aggregates(&kinds(), &vec![worker_b(), worker_c(), worker_a()]);
    let cba = merge_aggregates(&kinds(), &vec![worker_c(), worker_b(), worker_a()]);
    assert_eq!(abc, Ok(merged_abc()));
    assert_eq!(cab, abc);
    assert_eq!(bca, abc);
    assert_eq!(cba, abc);
}

#[test]
fn a_missing_key_contributes_nothing() {
    let reports = vec![
        AggregateReport::Groups(vec![group(7, &[Some(1), Some(2), Some(3), Some(4)])]),
        AggregateReport::Groups(Vec::new()),
        AggregateReport::Groups(vec![group(8, &[None, None, None, None])]),
    ];
    assert_eq!(
        merge_aggregates(&kinds(), &reports),
        Ok(vec![
            result(7, &[Some(1), Some(2), Some(3), Some(4)]),
            result(8, &[Some(0), None, None, None]),
        ])
    );
    assert_eq!(merge_aggregates(&kinds(), &Vec::new()), Ok(Vec::new()));
}

#[test]
fn sums_leave_the_range_of_a_state() {
    let big = AggregateReport::Groups(vec![group(1, &[Some(i64::MAX), Some(i64::MAX)])]);
    let small = AggregateReport::Groups(vec![group(1, &[Some(i64::MAX), Some(i64::MIN)])]);
    let kinds = vec![Combine::Sum, Combine::Sum];
    assert_eq!(
        merge_aggregates(&kinds, &vec![big, small]),
        Ok(vec![result(1, &[Some(2 * (i64::MAX as i128)), Some(-1)])])
    );
}

#[test]
fn aggregate_merge_fails_when_worker_three_of_four_fails() {
    let reports = vec![worker_a(), worker_b(), AggregateReport::Failed, worker_c()];
    assert_eq!(
        merge_aggregates(&kinds(), &reports),
        Err(ExecutionError::WorkerFailed { worker: 2 })
    );
}

#[test]
fn aggregate_merge_fails_with_a_malformed_partial() {
    let unsorted = AggregateReport::Groups(vec![
        group(5, &[None, None, None, None]),
        group(1, &[None, None, None, None]),
    ]);
    let short = AggregateReport::Groups(vec![group(5, &[None, None])]);
    assert_eq!(
        merge_aggregates(&kinds(), &vec![worker_a(), unsorted, AggregateReport::Failed]),
        Err(ExecutionError::MalformedPartial { worker: 1 })
    );
    assert_eq!(
        merge_aggregates(&kinds(), &vec![short]),
        Err(ExecutionError::MalformedPartial { worker: 0 })
    );
}

#[test]
fn failures_are_described() {
    assert_eq!(
        diagnostic(&ExecutionError::CursorOpenFailed),
        "pushdown failed: could not open the index cursor"
    );
    assert_eq!(
        diagnostic(&ExecutionError::ScanInterrupted),
        "pushdown failed: the index scan was interrupted"
    );
    assert_eq!(
        diagnostic(&ExecutionError::WorkerFailed { worker: 2 }),
        "pushdown failed: no report from worker 2"
    );
    assert_eq!(
        diagnostic(&ExecutionError::MalformedPartial { worker: 10 }),
        "pushdown failed: malformed report from worker 10"
    );
}
