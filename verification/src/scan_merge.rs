//! Merging the rows that parallel workers found into the one sequence that
//! the query asked for.

use std::collections::HashSet;
use vstd::prelude::*;
use crate::execution::ExecutionError;

verus! {

/// A row that matched: its identifier and the key by which relevance is
/// compared, where a larger key is a better match.
#[derive(Debug, Clone, Copy, PartialEq, Eq, Structural)]
pub struct ScanHit {
    pub row: u64,
    pub score: u64,
}

/// The order in which a query wants its rows.
#[derive(Debug, Clone, Copy, PartialEq, Eq, Structural)]
pub enum ScanOrder {
    /// Best match first; among equal scores the smaller identifier first.
    RelevanceDescending,
    /// Smallest identifier first; among equal identifiers the better score
    /// first.
    IdentifierAscending,
}

/// What one worker handed in.
#[derive(Debug, PartialEq, Eq)]
pub enum ScanReport {
    /// The worker ended before it reported.
    Failed,
    /// The rows that the worker found in its unit.
    Rows(Vec<ScanHit>),
}

/// Whether `a` comes strictly before `b` in the given order.
pub open spec fn precedes(order: ScanOrder, a: ScanHit, b: ScanHit) -> bool {
    match order {
        ScanOrder::RelevanceDescending => a.score > b.score || (a.score == b.score && a.row
            < b.row),
        ScanOrder::IdentifierAscending => a.row < b.row || (a.row == b.row && a.score > b.score),
    }
}

/// No hit comes after one that it should come before.
pub open spec fn ordered(order: ScanOrder, hits: Seq<ScanHit>) -> bool {
    forall|i: int, j: int| 0 <= i < j < hits.len() ==> !precedes(order, hits[j], hits[i])
}

/// Each hit comes strictly before all that follow it, so that no hit
/// occurs twice.
pub open spec fn strictly_ordered(order: ScanOrder, hits: Seq<ScanHit>) -> bool {
    forall|i: int, j: int| 0 <= i < j < hits.len() ==> precedes(order, hits[i], hits[j])
}

/// Whether a report can be merged: the worker reported, and its rows are in
/// the order of the query.
pub open spec fn sound(order: ScanOrder, report: ScanReport) -> bool {
    match report {
        ScanReport::Failed => false,
        ScanReport::Rows(hits) => ordered(order, hits@),
    }
}

/// The hits of a report; none for a worker that failed.
pub open spec fn hits_of(report: ScanReport) -> Seq<ScanHit> {
    match report {
        ScanReport::Failed => Seq::empty(),
        ScanReport::Rows(hits) => hits@,
    }
}

/// Whether one of the reports holds the hit.
pub open spec fn reported(reports: Seq<ScanReport>, hit: ScanHit) -> bool {
    exists|w: int| 0 <= w < reports.len() && #[trigger] hits_of(reports[w]).contains(hit)
}

/// Whether `a` comes strictly before `b` in the given order.
pub fn comes_before(order: ScanOrder, a: &ScanHit, b: &ScanHit) -> (before: bool)
    ensures
        before == precedes(order, *a, *b),
{
    match order {
        ScanOrder::RelevanceDescending => a.score > b.score || (a.score == b.score && a.row
            < b.row),
        ScanOrder::IdentifierAscending => a.row < b.row || (a.row == b.row && a.score > b.score),
    }
}

/// Whether the hits are in the given order.
pub fn is_ordered(order: ScanOrder, hits: &Vec<ScanHit>) -> (fine: bool)
    ensures
        fine == ordered(order, hits@),
{
    if hits.len() == 0 {
        return true;
    }
    let mut i: usize = 1;
    while i < hits.len()
        invariant
            1 <= i <= hits.len(),
            ordered(order, hits@.take(i as int)),
        decreases hits.len() - i,
    {
        if comes_before(order, &hits[i], &hits[i - 1]) {
            return false;
        }
        proof {
            let grown = hits@.take(i + 1);
            let seen = hits@.take(i as int);
            assert forall|a: int, b: int| 0 <= a < b < grown.len() implies !precedes(
                order,
                grown[b],
                grown[a],
            ) by {
                if b < i {
                    assert(!precedes(order, seen[b], seen[a]));
                } else if a < i - 1 {
                    assert(!precedes(order, seen[i - 1], seen[a]));
                }
            }
        }
        i += 1;
    }
    proof {
        assert(hits@.take(hits.len() as int) == hits@);
    }
    true
}

/// A run with one more item holds what it held before and that item.
pub proof fn lemma_take_step<T>(items: Seq<T>, n: int, item: T)
    requires
        0 <= n < items.len(),
    ensures
        items.take(n + 1).contains(item) <==> items.take(n).contains(item) || item == items[n],
{
    let grown = items.take(n + 1);
    let seen = items.take(n);
    if grown.contains(item) {
        let at = choose|at: int| 0 <= at < grown.len() && grown[at] == item;
        if at < n {
            assert(seen[at] == item);
        }
    }
    if seen.contains(item) {
        let at = choose|at: int| 0 <= at < seen.len() && seen[at] == item;
        assert(grown[at] == item);
    }
    if item == items[n] {
        assert(grown[n] == item);
    }
}

/// Merges two runs of hits into one, in which no hit occurs twice. Hits of
/// one row with different scores all stay; `best_of_each_row` picks among
/// them afterwards.
fn merge_runs(order: ScanOrder, left: &Vec<ScanHit>, right: &Vec<ScanHit>) -> (merged: Vec<
    ScanHit,
>)
    requires
        ordered(order, left@),
        ordered(order, right@),
    ensures
        strictly_ordered(order, merged@),
        forall|hit: ScanHit|
            merged@.contains(hit) <==> left@.contains(hit) || right@.contains(hit),
{
    let mut merged: Vec<ScanHit> = Vec::new();
    let mut i: usize = 0;
    let mut j: usize = 0;
    proof {
        assert forall|hit: ScanHit|
            merged@.contains(hit) <==> left@.take(0).contains(hit) || right@.take(0).contains(
                hit,
            ) by {
            assert(left@.take(0).len() == 0);
            assert(right@.take(0).len() == 0);
        }
    }
    while i < left.len() || j < right.len()
        invariant
            i <= left.len(),
            j <= right.len(),
            ordered(order, left@),
            ordered(order, right@),
            strictly_ordered(order, merged@),
            merged.len() > 0 ==> forall|k: int|
                i <= k < left.len() ==> !precedes(order, #[trigger] left[k], merged@.last()),
            merged.len() > 0 ==> forall|k: int|
                j <= k < right.len() ==> !precedes(order, #[trigger] right[k], merged@.last()),
            forall|hit: ScanHit|
                merged@.contains(hit) <==> left@.take(i as int).contains(hit) || right@.take(
                    j as int,
                ).contains(hit),
        decreases (left.len() - i) + (right.len() - j),
    {
        let from_left = i < left.len() && (j >= right.len() || !comes_before(
            order,
            &right[j],
            &left[i],
        ));
        let next = if from_left {
            left[i]
        } else {
            right[j]
        };
        let ghost earlier = merged@;
        let fresh = merged.len() == 0 || merged[merged.len() - 1].row != next.row || merged[merged.len()
            - 1].score != next.score;
        if fresh {
            merged.push(next);
        }
        proof {
            assert(earlier.len() > 0 ==> !precedes(order, next, earlier.last()));
            if fresh {
                assert forall|a: int, b: int| 0 <= a < b < merged.len() implies precedes(
                    order,
                    merged[a],
                    merged[b],
                ) by {
                    if b < earlier.len() {
                        assert(precedes(order, earlier[a], earlier[b]));
                    } else if a < earlier.len() - 1 {
                        assert(precedes(order, earlier[a], earlier[earlier.len() - 1]));
                    }
                }
            } else {
                assert(earlier.last() == next);
                assert(earlier[earlier.len() - 1] == next);
                assert(earlier.contains(next));
            }
            assert(merged@.last() == next);
            assert forall|k: int| i + (if from_left { 1int } else { 0int }) <= k
                < left.len() implies !precedes(order, #[trigger] left[k], next) by {
                if from_left {
                    assert(!precedes(order, left[k], left[i as int]));
                } else if i < left.len() {
                    assert(i <= k);
                    if i < k {
                        assert(!precedes(order, left[k], left[i as int]));
                    }
                }
            }
            assert forall|k: int| j + (if from_left { 0int } else { 1int }) <= k
                < right.len() implies !precedes(order, #[trigger] right[k], next) by {
                if !from_left {
                    assert(!precedes(order, right[k], right[j as int]));
                } else if j < right.len() {
                    if j < k {
                        assert(!precedes(order, right[k], right[j as int]));
                    }
                }
            }
            assert forall|hit: ScanHit|
                merged@.contains(hit) <==> left@.take(
                    i + (if from_left { 1int } else { 0int }),
                ).contains(hit) || right@.take(j + (if from_left { 0int } else { 1int })).contains(
                    hit,
                ) by {
                if from_left {
                    lemma_take_step(left@, i as int, hit);
                } else {
                    lemma_take_step(right@, j as int, hit);
                }
                if fresh {
                    vstd::seq_lib::lemma_seq_contains_after_push(earlier, next, hit);
                }
            }
        }
        if from_left {
            i += 1;
        } else {
            j += 1;
        }
    }
    proof {
        assert(left@.take(left.len() as int) == left@);
        assert(right@.take(right.len() as int) == right@);
    }
    merged
}

/// The rows of the hits, in their order.
pub open spec fn rows(hits: Seq<ScanHit>) -> Seq<u64> {
    hits.map_values(|hit: ScanHit| hit.row)
}

/// Whether one of the hits is of the row.
pub open spec fn has_row(hits: Seq<ScanHit>, row: u64) -> bool {
    rows(hits).contains(row)
}

/// No two of the hits are of the same row.
pub open spec fn distinct_rows(hits: Seq<ScanHit>) -> bool {
    forall|i: int, j: int|
        0 <= i < j < hits.len() ==> (#[trigger] hits[i]).row != (#[trigger] hits[j]).row
}

/// Whether the hit at `position` is the first of its row.
pub open spec fn first_of_row(hits: Seq<ScanHit>, position: int) -> bool {
    &&& 0 <= position < hits.len()
    &&& forall|j: int| 0 <= j < position ==> (#[trigger] hits[j]).row != hits[position].row
}

/// Whether the hit is, among the first `upto` hits, the first of its row.
pub open spec fn leads_row(hits: Seq<ScanHit>, upto: int, hit: ScanHit) -> bool {
    exists|k: int| 0 <= k < upto && #[trigger] first_of_row(hits, k) && hits[k] == hit
}

/// Whether one of the reports holds a hit of the row.
pub open spec fn row_reported(reports: Seq<ScanReport>, row: u64) -> bool {
    exists|hit: ScanHit| #[trigger] reported(reports, hit) && hit.row == row
}

/// Whether the hit stays in the merge: it was reported, and no reported
/// hit of the same row comes before it in the order of the query.
pub open spec fn kept(order: ScanOrder, reports: Seq<ScanReport>, hit: ScanHit) -> bool {
    &&& reported(reports, hit)
    &&& forall|other: ScanHit| #[trigger]
        reported(reports, other) && other.row == hit.row ==> !precedes(order, other, hit)
}

/// Whether `hits` is the merge of the reports: in the order of the query,
/// with no row twice, holding of each reported row the hit that comes
/// first in that order, and nothing else.
pub open spec fn is_scan_merge_of(order: ScanOrder, reports: Seq<ScanReport>, hits: Seq<ScanHit>)
    -> bool {
    &&& strictly_ordered(order, hits)
    &&& distinct_rows(hits)
    &&& forall|hit: ScanHit| hits.contains(hit) <==> kept(order, reports, hit)
    &&& forall|row: u64| has_row(hits, row) <==> row_reported(reports, row)
}

/// Keeps of each row the hit that comes first.
fn best_of_each_row(order: ScanOrder, hits: &Vec<ScanHit>) -> (best: Vec<ScanHit>)
    requires
        strictly_ordered(order, hits@),
    ensures
        strictly_ordered(order, best@),
        distinct_rows(best@),
        forall|hit: ScanHit| best@.contains(hit) <==> leads_row(hits@, hits.len() as int, hit),
        forall|row: u64| has_row(best@, row) <==> has_row(hits@, row),
{
    broadcast use vstd::std_specs::hash::group_hash_axioms;

    let mut best: Vec<ScanHit> = Vec::new();
    let mut seen: HashSet<u64> = HashSet::new();
    let mut i: usize = 0;
    while i < hits.len()
        invariant
            i <= hits.len(),
            strictly_ordered(order, hits@),
            strictly_ordered(order, best@),
            distinct_rows(best@),
            forall|hit: ScanHit| best@.contains(hit) <==> leads_row(hits@, i as int, hit),
            forall|row: u64| has_row(best@, row) <==> has_row(hits@.take(i as int), row),
            forall|row: u64| seen@.contains(row) <==> has_row(hits@.take(i as int), row),
        decreases hits.len() - i,
    {
        let hit = hits[i];
        let ghost earlier = best@;
        let ghost before = hits@.take(i as int);
        let ghost grown = hits@.take(i + 1);
        let ghost old_seen = seen@;
        let fresh = !seen.contains(&hit.row);
        proof {
            if fresh {
                assert forall|j: int| 0 <= j < i implies (#[trigger] hits@[j]).row != hit.row by {
                    if hits@[j].row == hit.row {
                        assert(rows(before)[j] == hit.row);
                    }
                }
                assert(first_of_row(hits@, i as int));
            } else {
                let j = choose|j: int| 0 <= j < rows(before).len() && rows(before)[j] == hit.row;
                assert(hits@[j].row == hit.row);
                assert(!first_of_row(hits@, i as int));
            }
        }
        if fresh {
            seen.insert(hit.row);
            best.push(hit);
        }
        proof {
            assert(best@ == if fresh { earlier.push(hit) } else { earlier });
            assert(rows(before) =~= rows(hits@).take(i as int));
            assert(rows(grown) =~= rows(hits@).take(i + 1));
            assert(rows(earlier.push(hit)) =~= rows(earlier).push(hit.row));
            assert forall|row: u64| has_row(best@, row) <==> has_row(grown, row) by {
                lemma_take_step(rows(hits@), i as int, row);
                vstd::seq_lib::lemma_seq_contains_after_push(rows(earlier), hit.row, row);
                assert(has_row(earlier, row) <==> has_row(before, row));
                assert(old_seen.contains(hit.row) <==> has_row(before, hit.row));
            }
            assert forall|row: u64| seen@.contains(row) <==> has_row(grown, row) by {
                lemma_take_step(rows(hits@), i as int, row);
                assert(old_seen.contains(row) <==> has_row(before, row));
            }
            assert forall|other: ScanHit| best@.contains(other) <==> leads_row(
                hits@,
                i + 1,
                other,
            ) by {
                if fresh {
                    vstd::seq_lib::lemma_seq_contains_after_push(earlier, hit, other);
                }
                if leads_row(hits@, i as int, other) {
                    let k = choose|k: int|
                        0 <= k < i && #[trigger] first_of_row(hits@, k) && hits@[k] == other;
                    assert(0 <= k < i + 1 && first_of_row(hits@, k) && hits@[k] == other);
                }
                if fresh && other == hit {
                    assert(0 <= i < i + 1 && first_of_row(hits@, i as int) && hits@[i as int]
                        == other);
                }
                if leads_row(hits@, i + 1, other) {
                    let k = choose|k: int|
                        0 <= k < i + 1 && #[trigger] first_of_row(hits@, k) && hits@[k] == other;
                    if k < i {
                        assert(leads_row(hits@, i as int, other));
                    }
                }
            }
            if fresh {
                assert forall|a: int, b: int| 0 <= a < b < best.len() implies precedes(
                    order,
                    best@[a],
                    best@[b],
                ) by {
                    if b < earlier.len() {
                        assert(precedes(order, earlier[a], earlier[b]));
                    } else {
                        assert(earlier.contains(earlier[a]));
                        let k = choose|k: int|
                            0 <= k < i && #[trigger] first_of_row(hits@, k) && hits@[k]
                                == earlier[a];
                        assert(precedes(order, hits@[k], hits@[i as int]));
                    }
                }
                assert forall|a: int, b: int| 0 <= a < b < best.len() implies (
                #[trigger] best@[a]).row != (#[trigger] best@[b]).row by {
                    if b < earlier.len() {
                        assert(earlier[a].row != earlier[b].row);
                    } else if earlier[a].row == hit.row {
                        assert(rows(earlier)[a] == hit.row);
                        assert(has_row(earlier, hit.row));
                        assert(old_seen.contains(hit.row));
                    }
                }
            }
        }
        i += 1;
    }
    proof {
        assert(hits@.take(hits.len() as int) == hits@);
    }
    best
}

/// Whether every report before position `upto` can be merged.
pub open spec fn sound_before(order: ScanOrder, reports: Seq<ScanReport>, upto: int) -> bool {
    forall|w: int| 0 <= w < upto ==> sound(order, #[trigger] reports[w])
}

/// Merges the reports of all workers into the rows of the query.
///
/// The query fails with the first report, in the order of the workers,
/// that cannot be merged: `WorkerFailed` for a worker that did not report,
/// `MalformedPartial` for rows that are not in the order of the query.
/// Otherwise the result is in that order and holds every reported row
/// once, however often and by however many workers it was reported: of
/// the hits of one row the one stays that comes first in that order.
pub fn merge_scan(order: ScanOrder, reports: &Vec<ScanReport>) -> (result: Result<
    Vec<ScanHit>,
    ExecutionError,
>)
    ensures
        match result {
            Ok(hits) => {
                &&& sound_before(order, reports@, reports.len() as int)
                &&& is_scan_merge_of(order, reports@, hits@)
            },
            Err(ExecutionError::WorkerFailed { worker }) => {
                &&& worker < reports.len()
                &&& reports[worker as int] is Failed
                &&& sound_before(order, reports@, worker as int)
            },
            Err(ExecutionError::MalformedPartial { worker }) => {
                &&& worker < reports.len()
                &&& reports[worker as int] is Rows
                &&& !sound(order, reports[worker as int])
                &&& sound_before(order, reports@, worker as int)
            },
            Err(_) => false,
        },
{
    let mut merged: Vec<ScanHit> = Vec::new();
    let mut w: usize = 0;
    proof {
        assert forall|hit: ScanHit| merged@.contains(hit) <==> reported(
            reports@.take(0),
            hit,
        ) by {
            assert(reports@.take(0).len() == 0);
        }
    }
    while w < reports.len()
        invariant
            w <= reports.len(),
            sound_before(order, reports@, w as int),
            strictly_ordered(order, merged@),
            forall|hit: ScanHit| merged@.contains(hit) <==> reported(reports@.take(w as int), hit),
        decreases reports.len() - w,
    {
        match &reports[w] {
            ScanReport::Failed => {
                return Err(ExecutionError::WorkerFailed { worker: w });
            },
            ScanReport::Rows(hits) => {
                if !is_ordered(order, hits) {
                    return Err(ExecutionError::MalformedPartial { worker: w });
                }
                let ghost earlier = merged@;
                proof {
                    lemma_strict_is_ordered(order, merged@);
                }
                merged = merge_runs(order, &merged, hits);
                proof {
                    let seen = reports@.take(w as int);
                    let grown = reports@.take(w + 1);
                    assert forall|hit: ScanHit| merged@.contains(hit) <==> reported(
                        grown,
                        hit,
                    ) by {
                        if reported(seen, hit) {
                            let k = choose|k: int|
                                0 <= k < seen.len() && #[trigger] hits_of(seen[k]).contains(hit);
                            assert(grown[k] == seen[k]);
                        }
                        if hits@.contains(hit) {
                            assert(hits_of(grown[w as int]).contains(hit));
                        }
                        if reported(grown, hit) {
                            let k = choose|k: int|
                                0 <= k < grown.len() && #[trigger] hits_of(grown[k]).contains(hit);
                            if k < w {
                                assert(seen[k] == grown[k]);
                            }
                        }
                    }
                }
            },
        }
        w += 1;
    }
    proof {
        assert(reports@.take(reports.len() as int) == reports@);
    }
    let hits = best_of_each_row(order, &merged);
    proof {
        lemma_best_hits_are_kept(order, reports@, merged@, hits@);
    }
    Ok(hits)
}

/// Picking the first hit of each row out of all reported hits, in the
/// order of the query, gives the merge of the reports.
proof fn lemma_best_hits_are_kept(
    order: ScanOrder,
    reports: Seq<ScanReport>,
    merged: Seq<ScanHit>,
    hits: Seq<ScanHit>,
)
    requires
        strictly_ordered(order, merged),
        forall|hit: ScanHit| merged.contains(hit) <==> reported(reports, hit),
        strictly_ordered(order, hits),
        distinct_rows(hits),
        forall|hit: ScanHit| hits.contains(hit) <==> leads_row(merged, merged.len() as int, hit),
        forall|row: u64| has_row(hits, row) <==> has_row(merged, row),
    ensures
        is_scan_merge_of(order, reports, hits),
{
    assert forall|hit: ScanHit| hits.contains(hit) <==> kept(order, reports, hit) by {
        if hits.contains(hit) {
            let k = choose|k: int|
                0 <= k < merged.len() && #[trigger] first_of_row(merged, k) && merged[k] == hit;
            assert(merged.contains(hit));
            assert forall|other: ScanHit| #[trigger]
                reported(reports, other) && other.row == hit.row implies !precedes(
                order,
                other,
                hit,
            ) by {
                assert(merged.contains(other));
                let m = choose|m: int| 0 <= m < merged.len() && merged[m] == other;
                if m < k {
                    assert(merged[m].row != merged[k].row);
                } else if m > k {
                    assert(precedes(order, merged[k], merged[m]));
                }
            }
        }
        if kept(order, reports, hit) {
            assert(merged.contains(hit));
            let k = choose|k: int| 0 <= k < merged.len() && merged[k] == hit;
            assert forall|j: int| 0 <= j < k implies (#[trigger] merged[j]).row != merged[k].row by {
                assert(merged.contains(merged[j]));
                assert(reported(reports, merged[j]));
                assert(precedes(order, merged[j], merged[k]));
            }
            assert(first_of_row(merged, k));
            assert(leads_row(merged, merged.len() as int, hit));
        }
    }
    assert forall|row: u64| has_row(hits, row) <==> row_reported(reports, row) by {
        if has_row(merged, row) {
            let i = choose|i: int| 0 <= i < rows(merged).len() && rows(merged)[i] == row;
            assert(merged.contains(merged[i]));
            assert(reported(reports, merged[i]));
        }
        if row_reported(reports, row) {
            let hit = choose|hit: ScanHit| #[trigger] reported(reports, hit) && hit.row == row;
            assert(merged.contains(hit));
            let i = choose|i: int| 0 <= i < merged.len() && merged[i] == hit;
            assert(rows(merged)[i] == row);
        }
    }
}

/// A run without repetition is in order.
pub proof fn lemma_strict_is_ordered(order: ScanOrder, hits: Seq<ScanHit>)
    requires
        strictly_ordered(order, hits),
    ensures
        ordered(order, hits),
{
    assert forall|i: int, j: int| 0 <= i < j < hits.len() implies !precedes(
        order,
        hits[j],
        hits[i],
    ) by {
        assert(precedes(order, hits[i], hits[j]));
    }
}

/// Two runs without repetition, in the same order, that hold the same hits
/// are the same run.
pub proof fn lemma_merge_is_unique(order: ScanOrder, a: Seq<ScanHit>, b: Seq<ScanHit>)
    requires
        strictly_ordered(order, a),
        strictly_ordered(order, b),
        forall|hit: ScanHit| a.contains(hit) <==> b.contains(hit),
    ensures
        a == b,
    decreases a.len(),
{
    if a.len() == 0 {
        if b.len() > 0 {
            assert(b.contains(b[0]));
        }
        assert(a =~= b);
    } else {
        assert(a.contains(a[0]));
        let p = choose|p: int| 0 <= p < b.len() && b[p] == a[0];
        assert(b.contains(b[0]));
        let q = choose|q: int| 0 <= q < a.len() && a[q] == b[0];
        if p > 0 {
            assert(precedes(order, b[0], b[p]));
            if q > 0 {
                assert(precedes(order, a[0], a[q]));
            }
        }
        assert(a[0] == b[0]);
        let rest_a = a.skip(1);
        let rest_b = b.skip(1);
        assert forall|i: int, j: int| 0 <= i < j < rest_a.len() implies precedes(
            order,
            rest_a[i],
            rest_a[j],
        ) by {
            assert(precedes(order, a[i + 1], a[j + 1]));
        }
        assert forall|i: int, j: int| 0 <= i < j < rest_b.len() implies precedes(
            order,
            rest_b[i],
            rest_b[j],
        ) by {
            assert(precedes(order, b[i + 1], b[j + 1]));
        }
        assert forall|hit: ScanHit| rest_a.contains(hit) <==> rest_b.contains(hit) by {
            if rest_a.contains(hit) {
                let i = choose|i: int| 0 <= i < rest_a.len() && rest_a[i] == hit;
                assert(a[i + 1] == hit);
                assert(precedes(order, a[0], a[i + 1]));
                assert(a.contains(hit));
                let k = choose|k: int| 0 <= k < b.len() && b[k] == hit;
                assert(k > 0);
                assert(rest_b[k - 1] == hit);
            }
            if rest_b.contains(hit) {
                let i = choose|i: int| 0 <= i < rest_b.len() && rest_b[i] == hit;
                assert(b[i + 1] == hit);
                assert(precedes(order, b[0], b[i + 1]));
                assert(b.contains(hit));
                let k = choose|k: int| 0 <= k < a.len() && a[k] == hit;
                assert(k > 0);
                assert(rest_a[k - 1] == hit);
            }
        }
        lemma_merge_is_unique(order, rest_a, rest_b);
        assert(a =~= seq![a[0]] + rest_a);
        assert(b =~= seq![b[0]] + rest_b);
    }
}

/// The result of a merge is determined by the hits that were reported:
/// neither the order of the workers nor the way the hits are spread over
/// them changes what the query returns.
pub proof fn lemma_scan_merge_order_independent(
    order: ScanOrder,
    first: Seq<ScanReport>,
    second: Seq<ScanReport>,
    a: Seq<ScanHit>,
    b: Seq<ScanHit>,
)
    requires
        forall|hit: ScanHit| reported(first, hit) <==> reported(second, hit),
        is_scan_merge_of(order, first, a),
        is_scan_merge_of(order, second, b),
    ensures
        a == b,
{
    assert forall|hit: ScanHit| a.contains(hit) <==> b.contains(hit) by {
        assert(a.contains(hit) <==> kept(order, first, hit));
        assert(b.contains(hit) <==> kept(order, second, hit));
        if kept(order, first, hit) {
            assert(kept(order, second, hit));
        }
        if kept(order, second, hit) {
            assert(kept(order, first, hit));
        }
    }
    lemma_merge_is_unique(order, a, b);
}

} // verus!
