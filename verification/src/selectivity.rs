//! Estimating which fraction of a relation a predicate selects.

use vstd::prelude::*;
use crate::filter_query::{clause_count, has_placeholder, references_parameter, FilterQuery};
use crate::predicate::{constant_value, Predicate};
use crate::translate::{translate, translation};

verus! {

/// The estimated fraction of the rows that a predicate selects.
#[derive(Debug, Clone, Copy, PartialEq, Eq, Structural)]
pub enum SelectivityEstimate {
    /// Nothing was estimated: the index cannot answer the predicate.
    Unassigned,
    /// The statistics say nothing: one row in 100,000, so that a search of
    /// the index still looks better than a scan of the whole relation.
    Unknown,
    /// The predicate waits for a run-time parameter, or there are no
    /// statistics: one row in ten, whatever the relation.
    Parameterized,
    /// The constants of the predicate make it true of every row.
    FullRelation,
    /// `matching` rows out of `total`.
    Ratio { matching: u64, total: u64 },
}

impl SelectivityEstimate {
    /// The fraction as a numerator and a denominator; `None` where nothing
    /// was estimated.
    pub open spec fn fraction(self) -> Option<(nat, nat)> {
        match self {
            SelectivityEstimate::Unassigned => None,
            SelectivityEstimate::Unknown => Some((1, 100_000)),
            SelectivityEstimate::Parameterized => Some((1, 10)),
            SelectivityEstimate::FullRelation => Some((1, 1)),
            SelectivityEstimate::Ratio { matching, total } => Some((matching as nat, total as nat)),
        }
    }

    /// Whether the estimate is a fraction between 0 and 1.
    pub open spec fn in_unit_interval(self) -> bool {
        match self.fraction() {
            Some((numerator, denominator)) => 0 <= numerator <= denominator && denominator > 0,
            None => false,
        }
    }

    /// The numerator and the denominator of the fraction; `None` where
    /// nothing was estimated.
    pub fn as_fraction(&self) -> (parts: Option<(u64, u64)>)
        ensures
            match (parts, self.fraction()) {
                (Some((numerator, denominator)), Some((n, d))) => numerator == n && denominator == d,
                (None, None) => true,
                _ => false,
            },
    {
        match self {
            SelectivityEstimate::Unassigned => None,
            SelectivityEstimate::Unknown => Some((1, 100_000)),
            SelectivityEstimate::Parameterized => Some((1, 10)),
            SelectivityEstimate::FullRelation => Some((1, 1)),
            SelectivityEstimate::Ratio { matching, total } => Some((*matching, *total)),
        }
    }
}

/// What the index reports about itself: how many documents it holds, and
/// for each clause of the query, in the order of the clauses, in how many
/// documents the clause is found.
#[derive(Debug, PartialEq, Eq)]
pub struct IndexStatistics {
    pub total_documents: u64,
    pub clause_frequencies: Vec<u64>,
}

/// The smaller of two numbers.
pub open spec fn least(a: int, b: int) -> int {
    if a <= b {
        a
    } else {
        b
    }
}

/// An estimate of how many of `total` documents the query matches, from
/// the document frequencies of its clauses. A frequency counts for no more
/// than all documents. A conjunction matches no more than its rarer part, a
/// disjunction no more than both parts together and no more than all
/// documents, a negation all that its inner query does not match.
pub open spec fn matching(query: FilterQuery, frequencies: Seq<u64>, total: int) -> int
    decreases query,
{
    match query {
        FilterQuery::All => total,
        FilterQuery::Empty => 0,
        FilterQuery::Term { .. } => least(frequencies[0] as int, total),
        FilterQuery::Phrase { .. } => least(frequencies[0] as int, total),
        FilterQuery::Range { .. } => least(frequencies[0] as int, total),
        FilterQuery::And(left, right) => least(
            matching(*left, frequencies, total),
            matching(*right, frequencies.skip(clause_count(*left) as int), total),
        ),
        FilterQuery::Or(left, right) => least(
            matching(*left, frequencies, total) + matching(
                *right,
                frequencies.skip(clause_count(*left) as int),
                total,
            ),
            total,
        ),
        FilterQuery::Not(inner) => total - matching(*inner, frequencies, total),
    }
}

/// The estimate for a query of the index.
///
/// The query that matches all documents selects the full relation.
/// Otherwise, without statistics or with a placeholder in the query, the
/// estimate is the one for parameters; with statistics that count no
/// document, or that lack a frequency for a clause, it is the one for the
/// unknown; and else the ratio of the matching documents to all.
pub open spec fn query_estimate(query: FilterQuery, statistics: Option<IndexStatistics>)
    -> SelectivityEstimate {
    if query == FilterQuery::All {
        SelectivityEstimate::FullRelation
    } else {
        match statistics {
            None => SelectivityEstimate::Parameterized,
            Some(known) => if has_placeholder(query) {
                SelectivityEstimate::Parameterized
            } else if known.total_documents == 0 || known.clause_frequencies@.len() < clause_count(
                query,
            ) {
                SelectivityEstimate::Unknown
            } else {
                SelectivityEstimate::Ratio {
                    matching: matching(
                        query,
                        known.clause_frequencies@,
                        known.total_documents as int,
                    ) as u64,
                    total: known.total_documents,
                }
            },
        }
    }
}

/// The estimate for a predicate: none where the index cannot answer it,
/// and else the estimate for its translation.
pub open spec fn estimation(predicate: Predicate, statistics: Option<IndexStatistics>)
    -> SelectivityEstimate {
    match translation(predicate) {
        Err(_) => SelectivityEstimate::Unassigned,
        Ok(query) => query_estimate(query, statistics),
    }
}

/// The estimated number of matching documents lies between none and all.
pub proof fn lemma_matching_is_bounded(query: FilterQuery, frequencies: Seq<u64>, total: int)
    requires
        0 <= total,
    ensures
        0 <= matching(query, frequencies, total) <= total,
    decreases query,
{
    match query {
        FilterQuery::And(left, right) => {
            lemma_matching_is_bounded(*left, frequencies, total);
            lemma_matching_is_bounded(*right, frequencies.skip(clause_count(*left) as int), total);
        },
        FilterQuery::Or(left, right) => {
            lemma_matching_is_bounded(*left, frequencies, total);
            lemma_matching_is_bounded(*right, frequencies.skip(clause_count(*left) as int), total);
        },
        FilterQuery::Not(inner) => {
            lemma_matching_is_bounded(*inner, frequencies, total);
        },
        _ => {},
    }
}

/// Every estimate for a predicate that the index can answer is a fraction
/// between 0 and 1. The estimate is exactly the full relation, with or
/// without statistics, for the predicates that their constants make true of
/// every row (`TRUE`, `TRUE OR p`, `NOT (FALSE AND p)`), and for no other:
/// a predicate that is true of every row for another reason, as
/// `x = 1 OR x <> 1` is, gets the estimate of its clauses.
pub proof fn lemma_selectivity_is_a_fraction(
    predicate: Predicate,
    statistics: Option<IndexStatistics>,
)
    requires
        translation(predicate) is Ok,
    ensures
        estimation(predicate, statistics).in_unit_interval(),
        constant_value(predicate) == Some(true) <==> estimation(predicate, statistics)
            == SelectivityEstimate::FullRelation,
{
    let query = translation(predicate)->Ok_0;
    if let Some(known) = statistics {
        lemma_matching_is_bounded(
            query,
            known.clause_frequencies@,
            known.total_documents as int,
        );
    }
}

/// Walks the query and counts the documents that it is estimated to match,
/// reading the frequencies of its clauses from position `from` on. Returns
/// the count and the position after the query's last clause, or `None`
/// where the frequencies end before the clauses do.
pub fn count_matching(query: &FilterQuery, frequencies: &Vec<u64>, from: usize, total: u64) -> (found:
    Option<(u64, usize)>)
    requires
        from <= frequencies.len(),
    ensures
        found is Some <==> from + clause_count(*query) <= frequencies.len(),
        found matches Some((count, next)) ==> {
            &&& count == matching(*query, frequencies@.skip(from as int), total as int)
            &&& next == from + clause_count(*query)
            &&& count <= total
        },
    decreases query,
{
    proof {
        lemma_matching_is_bounded(*query, frequencies@.skip(from as int), total as int);
    }
    match query {
        FilterQuery::All => Some((total, from)),
        FilterQuery::Empty => Some((0, from)),
        FilterQuery::Term { .. } | FilterQuery::Phrase { .. } | FilterQuery::Range { .. } => {
            if from < frequencies.len() {
                let frequency: u64 = frequencies[from];
                proof {
                    assert(frequencies@.skip(from as int)[0] == frequency);
                }
                Some((if frequency <= total { frequency } else { total }, from + 1))
            } else {
                None
            }
        },
        FilterQuery::And(left, right) => {
            let (first, middle) = match count_matching(left, frequencies, from, total) {
                Some(pair) => pair,
                None => {
                    return None;
                },
            };
            proof {
                assert(frequencies@.skip(from as int).skip(clause_count(**left) as int)
                    =~= frequencies@.skip(middle as int));
            }
            match count_matching(right, frequencies, middle, total) {
                Some((second, next)) => Some((if first <= second { first } else { second }, next)),
                None => None,
            }
        },
        FilterQuery::Or(left, right) => {
            let (first, middle) = match count_matching(left, frequencies, from, total) {
                Some(pair) => pair,
                None => {
                    return None;
                },
            };
            proof {
                assert(frequencies@.skip(from as int).skip(clause_count(**left) as int)
                    =~= frequencies@.skip(middle as int));
            }
            match count_matching(right, frequencies, middle, total) {
                Some((second, next)) => Some(
                    (if first <= total - second { first + second } else { total }, next),
                ),
                None => None,
            }
        },
        FilterQuery::Not(inner) => match count_matching(inner, frequencies, from, total) {
            Some((count, next)) => Some((total - count, next)),
            None => None,
        },
    }
}

/// Estimates the selectivity of a query of the index.
pub fn estimate_query(query: &FilterQuery, statistics: &Option<IndexStatistics>) -> (estimate:
    SelectivityEstimate)
    ensures
        estimate == query_estimate(*query, *statistics),
        estimate.in_unit_interval(),
{
    match query {
        FilterQuery::All => {
            return SelectivityEstimate::FullRelation;
        },
        _ => {},
    }
    let known = match statistics {
        None => {
            return SelectivityEstimate::Parameterized;
        },
        Some(known) => known,
    };
    if references_parameter(query) {
        return SelectivityEstimate::Parameterized;
    }
    if known.total_documents == 0 {
        return SelectivityEstimate::Unknown;
    }
    proof {
        assert(known.clause_frequencies@.skip(0) =~= known.clause_frequencies@);
    }
    match count_matching(query, &known.clause_frequencies, 0, known.total_documents) {
        Some((count, _)) => SelectivityEstimate::Ratio {
            matching: count,
            total: known.total_documents,
        },
        None => SelectivityEstimate::Unknown,
    }
}

/// Estimates the selectivity of a predicate from the statistics of the
/// index.
///
/// A predicate that the index cannot answer gets no estimate, and the
/// caller builds no path for it. Every other estimate is a fraction between
/// 0 and 1, and a predicate that its constants make true of every row gets
/// exactly the full relation.
pub fn estimate(predicate: &Predicate, statistics: &Option<IndexStatistics>) -> (estimate:
    SelectivityEstimate)
    ensures
        estimate == estimation(*predicate, *statistics),
        estimate is Unassigned <==> translation(*predicate) is Err,
        !(estimate is Unassigned) ==> estimate.in_unit_interval(),
        constant_value(*predicate) == Some(true) <==> estimate == SelectivityEstimate::FullRelation,
{
    match translate(predicate) {
        Err(_) => SelectivityEstimate::Unassigned,
        Ok(query) => estimate_query(&query, statistics),
    }
}

} // verus!
