use pg_search::aggregate_path::{
    build_aggregate_path, is_computed, is_eligible, AggregateCall, AggregateFunction,
    AggregatePath, AggregatePlan, Capabilities, GroupingKey,
};
use pg_search::cost::{
    aggregate_cost, cost, cost_per_row, is_cheaper, sequential_scan_cost, PathCost, COST_SCALE,
    DEFAULT_STARTUP_COST, FETCH_COST_PER_BYTE, INDEX_PROBE_COST,
};
use pg_search::execution::ExecutionError;
use pg_search::filter_query::{references_parameter, Binding, Bound, FilterQuery};
use pg_search::hooks::HookRegistry;
use pg_search::predicate::{
    evaluate, fold_constant, has_search_operator, FieldType, Operator, Predicate, Scalar, Value,
};
use pg_search::scan_node::{next_demand, step, ScanAction, ScanDemand, ScanEvent, ScanState};
use pg_search::scan_path::{
    build_scan_path, find_search_predicate, PushdownSettings, Relation, ScanPath,
};
use pg_search::selectivity::{
    count_matching, estimate, estimate_query, IndexStatistics, SelectivityEstimate,
};
use pg_search::translate::{translate, translate_comparison, UnsupportedPredicate};

fn text(value: &str) -> Scalar {
    Scalar::Constant(Value::Text(value.to_string()))
}

fn number(value: i64) -> Scalar {
    Scalar::Constant(Value::Integer(value))
}

fn compare(column: u32, field_type: FieldType, op: Operator, operand: Scalar) -> Predicate {
    Predicate::Compare { column, field_type, op, operand }
}

fn search(column: u32, term: &str) -> Predicate {
    compare(column, FieldType::Text, Operator::Search, text(term))
}

fn and(left: Predicate, right: Predicate) -> Predicate {
    Predicate::And(Box::new(left), Box::new(right))
}

fn or(left: Predicate, right: Predicate) -> Predicate {
    Predicate::Or(Box::new(left), Box::new(right))
}

fn not(inner: Predicate) -> Predicate {
    Predicate::Not(Box::new(inner))
}

fn term(field: u32, token: &str) -> FilterQuery {
    FilterQuery::Term {
        field,
        field_type: FieldType::Text,
        value: Binding::Literal(Value::Text(token.to_string())),
    }
}

fn literal(value: i64) -> Binding {
    Binding::Literal(Value::Integer(value))
}

fn statistics(total_documents: u64, clause_frequencies: &[u64]) -> Option<IndexStatistics> {
    Some(IndexStatistics { total_documents, clause_frequencies: clause_frequencies.to_vec() })
}

fn ratio(matching: u64, total: u64) -> SelectivityEstimate {
    SelectivityEstimate::Ratio { matching, total }
}

fn settings() -> PushdownSettings {
    PushdownSettings { enabled: true, worker_ceiling: 4 }
}

fn all_capabilities() -> Capabilities {
    Capabilities { count: true, sum: true, min: true, max: true, average: true }
}

fn key(column: u32) -> GroupingKey {
    GroupingKey { column, indexed: true, invertible: true }
}

fn sum_by_category() -> AggregatePlan {
    AggregatePlan {
        aggregates: vec![AggregateCall { function: AggregateFunction::Sum, column: Some(3) }],
        group_by: vec![key(7)],
        window_partition: None,
    }
}

fn shoes_scan() -> ScanPath {
    build_scan_path(
        &settings(),
        &Relation { row_count: 1_000_000, width: 100 },
        &vec![search(1, "shoes")],
        &statistics(1_000_000, &[1_000]),
        DEFAULT_STARTUP_COST,
        &vec![1, 7],
        false,
    )
    .unwrap()
}

#[test]
fn scalars_are_evaluated_at_planning_time() {
    assert_eq!(evaluate(&number(5)), Some(Value::Integer(5)));
    assert_eq!(evaluate(&text("a")), Some(Value::Text("a".to_string())));
    assert_eq!(evaluate(&Scalar::Parameter(1)), None);
    let sum = Scalar::Sum(
        Box::new(number(2)),
        Box::new(Scalar::Sum(Box::new(number(30)), Box::new(number(-4)))),
    );
    assert_eq!(evaluate(&sum), Some(Value::Integer(28)));
    let overflow = Scalar::Sum(Box::new(number(i64::MAX)), Box::new(number(1)));
    assert_eq!(evaluate(&overflow), None);
    let mixed = Scalar::Sum(Box::new(number(1)), Box::new(text("a")));
    assert_eq!(evaluate(&mixed), None);
    let waiting = Scalar::Sum(Box::new(number(1)), Box::new(Scalar::Parameter(2)));
    assert_eq!(evaluate(&waiting), None);
}

#[test]
fn constant_predicates_are_folded() {
    assert_eq!(fold_constant(&Predicate::Constant(true)), Some(true));
    assert_eq!(
        fold_constant(&and(Predicate::Constant(true), not(Predicate::Constant(true)))),
        Some(false)
    );
    assert_eq!(
        fold_constant(&or(Predicate::Constant(false), not(Predicate::Constant(false)))),
        Some(true)
    );
    assert_eq!(fold_constant(&and(Predicate::Constant(true), search(1, "a"))), None);
    assert_eq!(fold_constant(&or(Predicate::Constant(false), search(1, "a"))), None);
    assert_eq!(fold_constant(&and(Predicate::Constant(false), search(1, "a"))), Some(false));
    assert_eq!(fold_constant(&and(search(1, "a"), Predicate::Constant(false))), Some(false));
    assert_eq!(fold_constant(&or(search(1, "a"), Predicate::Constant(true))), Some(true));
    assert_eq!(
        fold_constant(&not(or(Predicate::Function { function: 1, column: 2 }, Predicate::Constant(true)))),
        Some(false)
    );
    assert_eq!(fold_constant(&Predicate::Function { function: 1, column: 2 }), None);
}

#[test]
fn comparisons_become_clauses() {
    assert_eq!(translate(&search(1, "shoes")), Ok(term(1, "shoes")));
    assert_eq!(
        translate(&compare(1, FieldType::Text, Operator::Phrase, text("running shoes"))),
        Ok(FilterQuery::Phrase {
            field: 1,
            text: Binding::Literal(Value::Text("running shoes".to_string()))
        })
    );
    assert_eq!(
        translate(&compare(2, FieldType::Integer, Operator::Equal, number(5))),
        Ok(FilterQuery::Term { field: 2, field_type: FieldType::Integer, value: literal(5) })
    );
    assert_eq!(
        translate(&compare(2, FieldType::Integer, Operator::NotEqual, number(5))),
        Ok(FilterQuery::Not(Box::new(FilterQuery::Term {
            field: 2,
            field_type: FieldType::Integer,
            value: literal(5)
        })))
    );
    assert_eq!(
        translate(&compare(2, FieldType::Integer, Operator::Less, number(5))),
        Ok(FilterQuery::Range {
            field: 2,
            lower: Bound::Unbounded,
            upper: Bound::Exclusive(literal(5))
        })
    );
    assert_eq!(
        translate(&compare(2, FieldType::Integer, Operator::LessEqual, number(5))),
        Ok(FilterQuery::Range {
            field: 2,
            lower: Bound::Unbounded,
            upper: Bound::Inclusive(literal(5))
        })
    );
    assert_eq!(
        translate(&compare(2, FieldType::Integer, Operator::Greater, number(5))),
        Ok(FilterQuery::Range {
            field: 2,
            lower: Bound::Exclusive(literal(5)),
            upper: Bound::Unbounded
        })
    );
    assert_eq!(
        translate(&compare(2, FieldType::Integer, Operator::GreaterEqual, number(5))),
        Ok(FilterQuery::Range {
            field: 2,
            lower: Bound::Inclusive(literal(5)),
            upper: Bound::Unbounded
        })
    );
    assert_eq!(
        translate(&compare(
            4,
            FieldType::Boolean,
            Operator::Equal,
            Scalar::Constant(Value::Boolean(true))
        )),
        Ok(FilterQuery::Term {
            field: 4,
            field_type: FieldType::Boolean,
            value: Binding::Literal(Value::Boolean(true))
        })
    );
}

#[test]
fn boolean_nodes_become_boolean_nodes() {
    let predicate = and(
        search(1, "shoes"),
        or(
            not(search(1, "red")),
            compare(2, FieldType::Integer, Operator::Less, number(100)),
        ),
    );
    let query = FilterQuery::And(
        Box::new(term(1, "shoes")),
        Box::new(FilterQuery::Or(
            Box::new(FilterQuery::Not(Box::new(term(1, "red")))),
            Box::new(FilterQuery::Range {
                field: 2,
                lower: Bound::Unbounded,
                upper: Bound::Exclusive(literal(100)),
            }),
        )),
    );
    assert_eq!(translate(&predicate), Ok(query));
}

#[test]
fn constants_are_evaluated_before_translation() {
    assert_eq!(translate(&Predicate::Constant(true)), Ok(FilterQuery::All));
    assert_eq!(translate(&Predicate::Constant(false)), Ok(FilterQuery::Empty));
    assert_eq!(
        translate(&or(not(Predicate::Constant(true)), Predicate::Constant(true))),
        Ok(FilterQuery::All)
    );
    assert_eq!(
        translate(&and(Predicate::Constant(true), search(1, "a"))),
        Ok(FilterQuery::And(Box::new(FilterQuery::All), Box::new(term(1, "a"))))
    );
    assert_eq!(
        translate(&or(Predicate::Constant(true), Predicate::Function { function: 9, column: 1 })),
        Ok(FilterQuery::All)
    );
    assert_eq!(
        translate(&and(search(1, "a"), Predicate::Constant(false))),
        Ok(FilterQuery::Empty)
    );
    let sum = Scalar::Sum(Box::new(number(40)), Box::new(number(2)));
    assert_eq!(
        translate(&compare(2, FieldType::Integer, Operator::Equal, sum)),
        Ok(FilterQuery::Term { field: 2, field_type: FieldType::Integer, value: literal(42) })
    );
}

#[test]
fn parameters_become_placeholders() {
    assert_eq!(
        translate(&compare(1, FieldType::Text, Operator::Search, Scalar::Parameter(3))),
        Ok(FilterQuery::Term {
            field: 1,
            field_type: FieldType::Text,
            value: Binding::Placeholder(3)
        })
    );
    assert_eq!(
        translate(&compare(2, FieldType::Integer, Operator::GreaterEqual, Scalar::Parameter(1))),
        Ok(FilterQuery::Range {
            field: 2,
            lower: Bound::Inclusive(Binding::Placeholder(1)),
            upper: Bound::Unbounded
        })
    );
}

#[test]
fn what_the_index_cannot_express_is_unsupported() {
    assert_eq!(
        translate(&Predicate::Function { function: 9, column: 1 }),
        Err(UnsupportedPredicate::FunctionCall)
    );
    assert_eq!(
        translate(&compare(1, FieldType::Unindexed, Operator::Equal, number(1))),
        Err(UnsupportedPredicate::UnindexedColumn)
    );
    assert_eq!(
        translate(&compare(1, FieldType::Text, Operator::Less, text("a"))),
        Err(UnsupportedPredicate::Operator)
    );
    assert_eq!(
        translate(&compare(1, FieldType::Integer, Operator::Search, text("a"))),
        Err(UnsupportedPredicate::Operator)
    );
    assert_eq!(
        translate(&compare(1, FieldType::Boolean, Operator::Greater, number(1))),
        Err(UnsupportedPredicate::Operator)
    );
    assert_eq!(
        translate(&compare(1, FieldType::Text, Operator::Search, number(1))),
        Err(UnsupportedPredicate::DataType)
    );
    assert_eq!(
        translate(&compare(1, FieldType::Integer, Operator::Equal, text("1"))),
        Err(UnsupportedPredicate::DataType)
    );
    let waiting = Scalar::Sum(Box::new(number(1)), Box::new(Scalar::Parameter(2)));
    assert_eq!(
        translate_comparison(1, FieldType::Integer, Operator::Equal, &waiting),
        Err(UnsupportedPredicate::Expression)
    );
    assert_eq!(
        translate(&and(
            search(1, "a"),
            or(
                compare(1, FieldType::Unindexed, Operator::Equal, number(1)),
                Predicate::Function { function: 9, column: 1 }
            )
        )),
        Err(UnsupportedPredicate::UnindexedColumn)
    );
    assert_eq!(
        translate(&not(Predicate::Function { function: 9, column: 1 })),
        Err(UnsupportedPredicate::FunctionCall)
    );
}

#[test]
fn translation_is_deterministic() {
    let build = || {
        and(
            search(1, "shoes"),
            not(compare(2, FieldType::Integer, Operator::LessEqual, Scalar::Parameter(1))),
        )
    };
    let first = translate(&build());
    let second = translate(&build());
    assert!(first.is_ok());
    assert_eq!(first, second);
    let failing = || or(search(1, "a"), Predicate::Function { function: 1, column: 1 });
    assert_eq!(translate(&failing()), translate(&failing()));
}

#[test]
fn search_operators_are_found() {
    assert!(has_search_operator(&search(1, "a")));
    assert!(has_search_operator(&not(and(
        Predicate::Constant(true),
        compare(1, FieldType::Text, Operator::Phrase, text("a b"))
    ))));
    assert!(!has_search_operator(&compare(2, FieldType::Integer, Operator::Equal, number(1))));
    assert!(!has_search_operator(&Predicate::Function { function: 1, column: 1 }));
    assert_eq!(find_search_predicate(&Vec::new()), None);
    assert_eq!(
        find_search_predicate(&vec![
            compare(2, FieldType::Integer, Operator::Equal, number(1)),
            search(1, "a"),
            search(1, "b")
        ]),
        Some(1)
    );
}

#[test]
fn placeholders_are_found() {
    assert!(!references_parameter(&term(1, "a")));
    assert!(!references_parameter(&FilterQuery::All));
    assert!(references_parameter(&FilterQuery::Not(Box::new(FilterQuery::Range {
        field: 1,
        lower: Bound::Unbounded,
        upper: Bound::Exclusive(Binding::Placeholder(2)),
    }))));
    assert!(references_parameter(&FilterQuery::Phrase { field: 1, text: Binding::Placeholder(2) }));
}

#[test]
fn estimates_are_fractions() {
    assert_eq!(SelectivityEstimate::Unassigned.as_fraction(), None);
    assert_eq!(SelectivityEstimate::Unknown.as_fraction(), Some((1, 100_000)));
    assert_eq!(SelectivityEstimate::Parameterized.as_fraction(), Some((1, 10)));
    assert_eq!(SelectivityEstimate::FullRelation.as_fraction(), Some((1, 1)));
    assert_eq!(ratio(3, 8).as_fraction(), Some((3, 8)));
}

#[test]
fn an_unsupported_predicate_gets_no_estimate() {
    let predicate = Predicate::Function { function: 9, column: 1 };
    assert_eq!(estimate(&predicate, &statistics(100, &[1])), SelectivityEstimate::Unassigned);
    assert_eq!(estimate(&predicate, &None), SelectivityEstimate::Unassigned);
}

#[test]
fn a_tautology_selects_the_full_relation() {
    let tautology = or(Predicate::Constant(true), Predicate::Constant(false));
    assert_eq!(estimate(&tautology, &None), SelectivityEstimate::FullRelation);
    assert_eq!(estimate(&tautology, &statistics(0, &[])), SelectivityEstimate::FullRelation);
    assert_eq!(estimate(&tautology, &statistics(10, &[3])), SelectivityEstimate::FullRelation);
    assert_eq!(
        estimate(&Predicate::Constant(true), &statistics(10, &[])),
        SelectivityEstimate::FullRelation
    );
    let with_comparison =
        or(Predicate::Constant(true), compare(0, FieldType::Integer, Operator::Equal, number(1)));
    assert_eq!(estimate(&with_comparison, &None), SelectivityEstimate::FullRelation);
    assert_eq!(estimate(&with_comparison, &statistics(10, &[3])), SelectivityEstimate::FullRelation);
    let with_parameter = or(
        compare(1, FieldType::Text, Operator::Search, Scalar::Parameter(1)),
        not(Predicate::Constant(false)),
    );
    assert_eq!(estimate(&with_parameter, &None), SelectivityEstimate::FullRelation);
}

#[test]
fn a_parameter_gets_the_fixed_estimate_whatever_the_relation() {
    let predicate = compare(1, FieldType::Text, Operator::Search, Scalar::Parameter(1));
    for total in [0u64, 1, 1_000, 1_000_000_000] {
        assert_eq!(
            estimate(&predicate, &statistics(total, &[total / 2])),
            SelectivityEstimate::Parameterized
        );
    }
    assert_eq!(estimate(&predicate, &None), SelectivityEstimate::Parameterized);
    assert_eq!(estimate(&search(1, "a"), &None), SelectivityEstimate::Parameterized);
    assert_eq!(SelectivityEstimate::Parameterized.as_fraction(), Some((1, 10)));
}

#[test]
fn statistics_without_signal_give_the_unknown_estimate() {
    assert_eq!(estimate(&search(1, "a"), &statistics(0, &[0])), SelectivityEstimate::Unknown);
    assert_eq!(estimate(&search(1, "a"), &statistics(100, &[])), SelectivityEstimate::Unknown);
    assert_eq!(
        estimate(&and(search(1, "a"), search(1, "b")), &statistics(100, &[5])),
        SelectivityEstimate::Unknown
    );
}

#[test]
fn frequencies_give_a_ratio() {
    let stats = statistics(1_000, &[100, 40, 900]);
    assert_eq!(estimate(&search(1, "a"), &stats), ratio(100, 1_000));
    assert_eq!(estimate(&and(search(1, "a"), search(1, "b")), &stats), ratio(40, 1_000));
    assert_eq!(estimate(&or(search(1, "a"), search(1, "b")), &stats), ratio(140, 1_000));
    assert_eq!(estimate(&not(search(1, "a")), &stats), ratio(900, 1_000));
    assert_eq!(
        estimate(&or(search(1, "a"), or(search(1, "b"), search(1, "c"))), &stats),
        ratio(1_000, 1_000)
    );
    assert_eq!(
        estimate(&and(not(search(1, "a")), or(search(1, "b"), search(1, "c"))), &stats),
        ratio(900, 1_000)
    );
    assert_eq!(estimate(&Predicate::Constant(false), &stats), ratio(0, 1_000));
}

#[test]
fn a_frequency_counts_for_no_more_than_all_documents() {
    assert_eq!(estimate(&search(1, "a"), &statistics(10, &[500])), ratio(10, 10));
    assert_eq!(
        estimate_query(&FilterQuery::Not(Box::new(term(1, "a"))), &statistics(10, &[500])),
        ratio(0, 10)
    );
    let frequencies = vec![u64::MAX, u64::MAX];
    let query = FilterQuery::Or(Box::new(term(1, "a")), Box::new(term(1, "b")));
    assert_eq!(count_matching(&query, &frequencies, 0, u64::MAX), Some((u64::MAX, 2)));
    assert_eq!(count_matching(&query, &frequencies, 1, u64::MAX), None);
}

#[test]
fn cost_follows_the_formula() {
    assert_eq!(DEFAULT_STARTUP_COST, 10 * COST_SCALE);
    assert_eq!(
        cost(ratio(1, 1_000), 1_000_000, 100, DEFAULT_STARTUP_COST),
        Some(PathCost { startup: 10_000_000, total: 25_000_000 })
    );
    assert_eq!(
        cost(SelectivityEstimate::FullRelation, 10, 0, 7),
        Some(PathCost { startup: 7, total: 7 + 10 * INDEX_PROBE_COST as u128 })
    );
    assert_eq!(INDEX_PROBE_COST + 2 * FETCH_COST_PER_BYTE, 5_200);
    assert_eq!(
        cost(SelectivityEstimate::Parameterized, 1_005, 2, 0),
        Some(PathCost { startup: 0, total: 522_600 })
    );
    assert_eq!(
        cost(SelectivityEstimate::Unknown, 99_999, 8, 3),
        Some(PathCost { startup: 3, total: 3 + 5_799 })
    );
    assert_eq!(
        cost_per_row(ratio(2, 3), 10, 5, 1),
        Some(PathCost { startup: 1, total: 34 })
    );
}

#[test]
fn there_is_no_cost_without_an_estimate() {
    assert_eq!(cost(SelectivityEstimate::Unassigned, 10, 10, 10), None);
    assert_eq!(cost(ratio(1, 0), 10, 10, 10), None);
    assert_eq!(cost(ratio(5, 4), 10, 10, 10), None);
    assert_eq!(aggregate_cost(SelectivityEstimate::Unassigned, 10, 10, 10), None);
}

#[test]
fn cost_does_not_overflow() {
    let largest = cost(SelectivityEstimate::FullRelation, u64::MAX, u32::MAX, u64::MAX).unwrap();
    let per_row = INDEX_PROBE_COST as u128 + u32::MAX as u128 * FETCH_COST_PER_BYTE as u128;
    assert_eq!(largest.total, u64::MAX as u128 + u64::MAX as u128 * per_row);
    assert_eq!(
        cost(ratio(u64::MAX, u64::MAX), u64::MAX, 0, 0).unwrap().total,
        u64::MAX as u128 * INDEX_PROBE_COST as u128
    );
}

#[test]
fn an_aggregate_costs_no_fetching() {
    assert_eq!(
        aggregate_cost(ratio(1, 1_000), 1_000_000, 100, DEFAULT_STARTUP_COST),
        Some(PathCost { startup: 10_000_000, total: 15_000_000 })
    );
}

#[test]
fn a_selective_search_beats_a_sequential_scan() {
    let relation = Relation { row_count: 1_000_000, width: 100 };
    let path = shoes_scan();
    assert_eq!(path.selectivity, ratio(1_000, 1_000_000));
    assert_eq!(path.cost, PathCost { startup: 10_000_000, total: 25_000_000 });
    let sequential = sequential_scan_cost(relation.row_count, relation.width);
    assert_eq!(sequential, PathCost { startup: 0, total: 22_208_000_000 });
    assert!(path.cost.total < sequential.total);
    assert!(is_cheaper(&path.cost, &sequential));
    assert!(!is_cheaper(&sequential, &path.cost));
}

#[test]
fn the_plain_scan_pays_for_pages_and_rows() {
    assert_eq!(sequential_scan_cost(0, 100), PathCost { startup: 0, total: 0 });
    assert_eq!(sequential_scan_cost(1, 1), PathCost { startup: 0, total: 1_010_000 });
    assert_eq!(sequential_scan_cost(8_192, 1), PathCost { startup: 0, total: 82_920_000 });
    assert_eq!(sequential_scan_cost(8_193, 1), PathCost { startup: 0, total: 83_930_000 });
    assert_eq!(sequential_scan_cost(10, 0), PathCost { startup: 0, total: 100_000 });
    let largest = sequential_scan_cost(u64::MAX, u32::MAX);
    assert!(largest.total > u64::MAX as u128);
    let cost = PathCost { startup: 5, total: 9 };
    assert!(!is_cheaper(&cost, &cost));
}

#[test]
fn the_startup_cost_keeps_pushdown_from_tiny_relations() {
    let relation = Relation { row_count: 20, width: 100 };
    let path = build_scan_path(
        &settings(),
        &relation,
        &vec![search(1, "shoes")],
        &statistics(20, &[1]),
        DEFAULT_STARTUP_COST,
        &Vec::new(),
        false,
    )
    .unwrap();
    assert!(path.cost.total >= DEFAULT_STARTUP_COST as u128);
    assert!(is_cheaper(&sequential_scan_cost(relation.row_count, relation.width), &path.cost));
}

#[test]
fn a_scan_path_records_what_the_executor_needs() {
    let predicates = vec![
        compare(2, FieldType::Integer, Operator::Less, number(10)),
        and(search(1, "shoes"), compare(2, FieldType::Integer, Operator::Greater, number(3))),
        search(1, "other"),
    ];
    let path = build_scan_path(
        &settings(),
        &Relation { row_count: 500, width: 10 },
        &predicates,
        &statistics(500, &[50, 400]),
        1_000,
        &vec![4, 2],
        true,
    );
    assert_eq!(
        path,
        Some(ScanPath {
            predicate: 1,
            query: FilterQuery::And(
                Box::new(term(1, "shoes")),
                Box::new(FilterQuery::Range {
                    field: 2,
                    lower: Bound::Exclusive(literal(3)),
                    upper: Bound::Unbounded
                })
            ),
            selectivity: ratio(50, 500),
            cost: PathCost { startup: 1_000, total: 1_000 + 50 * 6_000 },
            target_columns: vec![4, 2],
            needs_scores: true,
        })
    );
}

#[test]
fn no_scan_path_without_a_supported_search() {
    let relation = Relation { row_count: 500, width: 10 };
    let stats = statistics(500, &[50]);
    let build = |settings: &PushdownSettings, predicates: &Vec<Predicate>| {
        build_scan_path(settings, &relation, predicates, &stats, 1_000, &Vec::new(), false)
    };
    assert_eq!(build(&settings(), &Vec::new()), None);
    assert_eq!(
        build(&settings(), &vec![compare(2, FieldType::Integer, Operator::Less, number(10))]),
        None
    );
    assert_eq!(
        build(
            &settings(),
            &vec![and(search(1, "a"), Predicate::Function { function: 1, column: 1 }), search(1, "b")]
        ),
        None
    );
    let disabled = PushdownSettings { enabled: false, worker_ceiling: 4 };
    assert_eq!(build(&disabled, &vec![search(1, "a")]), None);
    assert!(build(&settings(), &vec![search(1, "a")]).is_some());
}

#[test]
fn the_capability_table_decides() {
    let capabilities = Capabilities { count: true, sum: false, min: true, max: false, average: true };
    assert!(is_computed(&capabilities, AggregateFunction::Count));
    assert!(!is_computed(&capabilities, AggregateFunction::Sum));
    assert!(is_computed(&capabilities, AggregateFunction::Min));
    assert!(!is_computed(&capabilities, AggregateFunction::Max));
    assert!(is_computed(&capabilities, AggregateFunction::Average));
    assert!(!is_computed(&capabilities, AggregateFunction::Other));
    assert!(!is_computed(&all_capabilities(), AggregateFunction::Other));
}

#[test]
fn a_computable_aggregate_is_pushed_down() {
    let relation = Relation { row_count: 1_000_000, width: 100 };
    let path = build_aggregate_path(
        &HookRegistry::new(),
        &all_capabilities(),
        &relation,
        shoes_scan(),
        &sum_by_category(),
        DEFAULT_STARTUP_COST,
    );
    assert_eq!(
        path,
        Some(AggregatePath {
            query: term(1, "shoes"),
            aggregates: vec![AggregateCall { function: AggregateFunction::Sum, column: Some(3) }],
            group_columns: vec![7],
            cost: PathCost { startup: 10_000_000, total: 15_000_000 },
        })
    );
    assert!(path.unwrap().cost.total < shoes_scan().cost.total);
}

#[test]
fn no_aggregate_path_without_native_sum() {
    let relation = Relation { row_count: 1_000_000, width: 100 };
    let without_sum = Capabilities { sum: false, ..all_capabilities() };
    assert_eq!(
        build_aggregate_path(
            &HookRegistry::new(),
            &without_sum,
            &relation,
            shoes_scan(),
            &sum_by_category(),
            DEFAULT_STARTUP_COST,
        ),
        None
    );
}

#[test]
fn an_aggregate_is_pushed_down_as_a_whole_or_not_at_all() {
    let registry = HookRegistry::new();
    let mut plan = sum_by_category();
    plan.aggregates.push(AggregateCall { function: AggregateFunction::Other, column: Some(3) });
    assert!(!is_eligible(&registry, &all_capabilities(), &plan));
    let mut plan = sum_by_category();
    plan.group_by.push(GroupingKey { column: 8, indexed: true, invertible: false });
    assert!(!is_eligible(&registry, &all_capabilities(), &plan));
    let mut plan = sum_by_category();
    plan.group_by.push(GroupingKey { column: 8, indexed: false, invertible: true });
    assert!(!is_eligible(&registry, &all_capabilities(), &plan));
    let plan = AggregatePlan { aggregates: Vec::new(), group_by: Vec::new(), window_partition: None };
    assert!(is_eligible(&registry, &all_capabilities(), &plan));
}

#[test]
fn a_window_must_be_partitioned_by_the_grouping() {
    let relation = Relation { row_count: 1_000_000, width: 100 };
    let mut registry = HookRegistry::new();
    assert!(!registry.handles_window_aggregates());
    let mut plan = sum_by_category();
    plan.window_partition = Some(vec![7]);
    assert!(!is_eligible(&registry, &all_capabilities(), &plan));
    registry.register_window_aggregate_hook();
    registry.register_window_aggregate_hook();
    assert!(registry.handles_window_aggregates());
    assert!(is_eligible(&registry, &all_capabilities(), &plan));
    for partition in [vec![8], vec![], vec![7, 8], vec![8, 7]] {
        let mut diverging = sum_by_category();
        diverging.window_partition = Some(partition);
        assert!(!is_eligible(&registry, &all_capabilities(), &diverging));
        assert_eq!(
            build_aggregate_path(
                &registry,
                &all_capabilities(),
                &relation,
                shoes_scan(),
                &diverging,
                DEFAULT_STARTUP_COST,
            ),
            None
        );
    }
    let mut two_keys = sum_by_category();
    two_keys.group_by.push(key(8));
    two_keys.window_partition = Some(vec![7, 8]);
    assert!(is_eligible(&registry, &all_capabilities(), &two_keys));
}

#[test]
fn a_scan_node_runs_from_unopened_to_closed() {
    assert_eq!(step(ScanState::Unopened, ScanEvent::Opened), (ScanState::Open, ScanAction::Nothing));
    assert_eq!(step(ScanState::Open, ScanEvent::Row), (ScanState::Open, ScanAction::EmitRow));
    assert_eq!(
        step(ScanState::Open, ScanEvent::EndOfRows),
        (ScanState::Exhausted, ScanAction::Nothing)
    );
    assert_eq!(
        step(ScanState::Exhausted, ScanEvent::Terminate),
        (ScanState::Closed, ScanAction::ReleaseCursor)
    );
    assert_eq!(
        step(ScanState::Closed, ScanEvent::Terminate),
        (ScanState::Closed, ScanAction::Nothing)
    );
}

#[test]
fn a_scan_node_releases_its_cursor_on_every_way_out() {
    assert_eq!(
        step(ScanState::Open, ScanEvent::Terminate),
        (ScanState::Closed, ScanAction::ReleaseCursor)
    );
    assert_eq!(
        step(ScanState::Unopened, ScanEvent::Terminate),
        (ScanState::Closed, ScanAction::Nothing)
    );
    assert_eq!(
        step(ScanState::Open, ScanEvent::ReadFailed),
        (ScanState::Closed, ScanAction::ReleaseCursorAndAbort(ExecutionError::ScanInterrupted))
    );
    assert_eq!(
        step(ScanState::Unopened, ScanEvent::OpenFailed),
        (ScanState::Closed, ScanAction::Abort(ExecutionError::CursorOpenFailed))
    );
}

#[test]
fn a_scan_node_cannot_be_restarted() {
    for state in [ScanState::Open, ScanState::Exhausted, ScanState::Closed] {
        assert_eq!(step(state, ScanEvent::Opened), (state, ScanAction::Nothing));
        assert_eq!(step(state, ScanEvent::OpenFailed), (state, ScanAction::Nothing));
    }
    for state in [ScanState::Unopened, ScanState::Exhausted, ScanState::Closed] {
        assert_eq!(step(state, ScanEvent::Row), (state, ScanAction::Nothing));
        assert_eq!(step(state, ScanEvent::EndOfRows), (state, ScanAction::Nothing));
        assert_eq!(step(state, ScanEvent::ReadFailed), (state, ScanAction::Nothing));
    }
}

#[test]
fn a_scan_node_reads_until_the_limit() {
    assert_eq!(next_demand(ScanState::Unopened, 0, 10), ScanDemand::OpenCursor);
    assert_eq!(next_demand(ScanState::Unopened, 0, 0), ScanDemand::OpenCursor);
    assert_eq!(next_demand(ScanState::Open, 0, 10), ScanDemand::ReadNext);
    assert_eq!(next_demand(ScanState::Open, 9, 10), ScanDemand::ReadNext);
    assert_eq!(next_demand(ScanState::Open, 10, 10), ScanDemand::Terminate);
    assert_eq!(next_demand(ScanState::Open, 0, 0), ScanDemand::Terminate);
    assert_eq!(next_demand(ScanState::Exhausted, 3, 10), ScanDemand::Terminate);
    assert_eq!(next_demand(ScanState::Closed, 3, 10), ScanDemand::Finished);
}
