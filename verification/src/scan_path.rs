//! Offering the planner a scan through the index in place of its own scan
//! of a base relation.

use vstd::prelude::*;
use crate::cost::{cost, path_cost, per_row_probe_cost, PathCost};
use crate::filter_query::FilterQuery;
use crate::predicate::{has_search_operator, uses_search, Predicate};
use crate::selectivity::{estimate_query, query_estimate, IndexStatistics, SelectivityEstimate};
use crate::translate::{translate, translation, UnsupportedPredicate};

verus! {

/// The tunables that the planner reads from the configuration.
#[derive(Debug, Clone, Copy, PartialEq, Eq, Structural)]
pub struct PushdownSettings {
    /// Whether pushdown is allowed at all.
    pub enabled: bool,
    /// The most workers that a parallel execution may use.
    pub worker_ceiling: u32,
}

/// What the planner knows of a base relation.
#[derive(Debug, Clone, Copy, PartialEq, Eq, Structural)]
pub struct Relation {
    /// How many rows it has.
    pub row_count: u64,
    /// How many bytes a row has on average.
    pub width: u32,
}

/// A scan through the index, with all that the executor needs to run it.
#[derive(Debug, PartialEq, Eq)]
pub struct ScanPath {
    /// The position, in the relation's list of predicates, of the
    /// predicate that the index answers.
    pub predicate: usize,
    /// That predicate as a query of the index.
    pub query: FilterQuery,
    /// The estimated fraction of the relation that the query selects.
    pub selectivity: SelectivityEstimate,
    /// What the path costs.
    pub cost: PathCost,
    /// The columns that the scan has to return.
    pub target_columns: Vec<u32>,
    /// Whether the scan has to return relevance scores.
    pub needs_scores: bool,
}

/// Whether `position` is the first predicate of the list that uses a
/// search operator.
pub open spec fn is_first_search(predicates: Seq<Predicate>, position: int) -> bool {
    &&& 0 <= position < predicates.len()
    &&& uses_search(predicates[position])
    &&& forall|k: int| 0 <= k < position ==> !uses_search(#[trigger] predicates[k])
}

/// Whether no predicate of the list uses a search operator.
pub open spec fn no_search(predicates: Seq<Predicate>) -> bool {
    forall|k: int| 0 <= k < predicates.len() ==> !uses_search(#[trigger] predicates[k])
}

/// Whether `path` is the scan path for the predicate at `position`.
pub open spec fn is_scan_path(
    path: ScanPath,
    relation: Relation,
    predicates: Seq<Predicate>,
    position: int,
    statistics: Option<IndexStatistics>,
    startup_const: u64,
    target_columns: Seq<u32>,
    needs_scores: bool,
) -> bool {
    &&& path.predicate == position
    &&& translation(predicates[position]) == Ok::<FilterQuery, UnsupportedPredicate>(path.query)
    &&& path.selectivity == query_estimate(path.query, statistics)
    &&& path.selectivity.in_unit_interval()
    &&& (path.cost.startup as int, path.cost.total as int) == path_cost(
        path.selectivity,
        relation.row_count as int,
        per_row_probe_cost(relation.width as int),
        startup_const as int,
    )
    &&& path.target_columns@ == target_columns
    &&& path.needs_scores == needs_scores
}

/// The position of the first predicate that uses a search operator.
pub fn find_search_predicate(predicates: &Vec<Predicate>) -> (position: Option<usize>)
    ensures
        match position {
            Some(found) => is_first_search(predicates@, found as int),
            None => no_search(predicates@),
        },
{
    let mut i: usize = 0;
    while i < predicates.len()
        invariant
            i <= predicates.len(),
            forall|k: int| 0 <= k < i ==> !uses_search(#[trigger] predicates[k]),
        decreases predicates.len() - i,
    {
        if has_search_operator(&predicates[i]) {
            return Some(i);
        }
        i += 1;
    }
    None
}

/// A copy of a list of columns.
pub fn copy_columns(columns: &Vec<u32>) -> (copy: Vec<u32>)
    ensures
        copy@ == columns@,
{
    let mut copy: Vec<u32> = Vec::new();
    let mut i: usize = 0;
    while i < columns.len()
        invariant
            i <= columns.len(),
            copy@ == columns@.take(i as int),
        decreases columns.len() - i,
    {
        copy.push(columns[i]);
        proof {
            assert(copy@ =~= columns@.take(i + 1));
        }
        i += 1;
    }
    proof {
        assert(columns@.take(columns.len() as int) == columns@);
    }
    copy
}

/// Builds the scan path for a base relation, if there is one.
///
/// There is none where pushdown is switched off, where no predicate of the
/// list uses a search operator, and where the index cannot answer the
/// first predicate that does. Otherwise the path holds that predicate's
/// translation, its estimated selectivity, the cost of a scan with that
/// selectivity, and the target columns and the need for scores as they
/// were given.
pub fn build_scan_path(
    settings: &PushdownSettings,
    relation: &Relation,
    predicates: &Vec<Predicate>,
    statistics: &Option<IndexStatistics>,
    startup_const: u64,
    target_columns: &Vec<u32>,
    needs_scores: bool,
) -> (offer: Option<ScanPath>)
    ensures
        match offer {
            Some(path) => {
                &&& settings.enabled
                &&& is_first_search(predicates@, path.predicate as int)
                &&& is_scan_path(
                    path,
                    *relation,
                    predicates@,
                    path.predicate as int,
                    *statistics,
                    startup_const,
                    target_columns@,
                    needs_scores,
                )
            },
            None => {
                ||| !settings.enabled
                ||| no_search(predicates@)
                ||| exists|position: int| #[trigger]
                    is_first_search(predicates@, position) && translation(predicates[position])
                        is Err
            },
        },
{
    if !settings.enabled {
        return None;
    }
    let position = match find_search_predicate(predicates) {
        Some(position) => position,
        None => {
            return None;
        },
    };
    let query = match translate(&predicates[position]) {
        Ok(query) => query,
        Err(_) => {
            proof {
                assert(is_first_search(predicates@, position as int));
            }
            return None;
        },
    };
    let selectivity = estimate_query(&query, statistics);
    match cost(selectivity, relation.row_count, relation.width, startup_const) {
        Some(path_cost) => Some(
            ScanPath {
                predicate: position,
                query,
                selectivity,
                cost: path_cost,
                target_columns: copy_columns(target_columns),
                needs_scores,
            },
        ),
        None => None,
    }
}

} // verus!
