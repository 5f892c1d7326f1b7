//! Combining the partial aggregates of parallel workers into one final
//! value for each grouping key.

use vstd::prelude::*;
use vstd::seq_lib::{commutative_foldl, lemma_fold_left_permutation};
use crate::execution::ExecutionError;

verus! {

/// How two partial values of an aggregate become one.
#[derive(Debug, Clone, Copy, PartialEq, Eq, Structural)]
pub enum Combine {
    /// Counts are added.
    Count,
    /// Sums are added.
    Sum,
    /// The smaller value stays.
    Min,
    /// The larger value stays.
    Max,
}

/// What is held for one grouping key: a value for each aggregate of the
/// query, `None` where no value was seen.
#[derive(Debug, PartialEq, Eq)]
pub struct Group<V> {
    pub key: u64,
    pub values: Vec<Option<V>>,
}

/// What one worker accumulated for one grouping key: its states.
pub type GroupPartial = Group<i64>;

/// The final values of one grouping key.
pub type GroupResult = Group<i128>;

/// What one worker handed in.
#[derive(Debug, PartialEq, Eq)]
pub enum AggregateReport {
    /// The worker ended before it reported.
    Failed,
    /// The worker's partial aggregates, one entry for each grouping key
    /// that it met, in ascending order of the keys.
    Groups(Vec<GroupPartial>),
}

/// A worker's state as a number without bounds.
pub open spec fn lift(state: Option<i64>) -> Option<int> {
    match state {
        Some(v) => Some(v as int),
        None => None,
    }
}

/// A merged value as a number without bounds.
pub open spec fn wide(value: Option<i128>) -> Option<int> {
    match value {
        Some(v) => Some(v as int),
        None => None,
    }
}

/// Two partial values combined. A missing value is the identity: it leaves
/// the other one as it is.
pub open spec fn combine(kind: Combine, a: Option<int>, b: Option<int>) -> Option<int> {
    match (a, b) {
        (None, _) => b,
        (_, None) => a,
        (Some(x), Some(y)) => Some(
            match kind {
                Combine::Count => x + y,
                Combine::Sum => x + y,
                Combine::Min => if x <= y { x } else { y },
                Combine::Max => if x >= y { x } else { y },
            },
        ),
    }
}

/// The value that leaves the coordinator: a count that no worker
/// contributed to is zero, every other value is what the workers' states
/// combine to.
pub open spec fn finalized(kind: Combine, value: Option<int>) -> Option<int> {
    if kind == Combine::Count && value is None {
        Some(0)
    } else {
        value
    }
}

/// Whether there is a group for the key.
pub open spec fn has_key<V>(groups: Seq<Group<V>>, key: u64) -> bool {
    exists|i: int| 0 <= i < groups.len() && (#[trigger] groups[i]).key == key
}

/// What the groups hold for the key at position `slot`: the value of the
/// key's group, and nothing where the key has no group.
pub open spec fn entry_of<V>(groups: Seq<Group<V>>, key: u64, slot: int) -> Option<V> {
    if has_key(groups, key) {
        let i = choose|i: int| 0 <= i < groups.len() && (#[trigger] groups[i]).key == key;
        groups[i].values@[slot]
    } else {
        None
    }
}

/// What a worker contributes to the aggregate at position `slot` for the
/// key: its state for that key, and the identity where it has no entry.
pub open spec fn state_of(groups: Seq<GroupPartial>, key: u64, slot: int) -> Option<int> {
    lift(entry_of(groups, key, slot))
}

/// The merged value at position `slot` for the key, and the identity where
/// the key has no entry.
pub open spec fn value_in(groups: Seq<GroupResult>, key: u64, slot: int) -> Option<int> {
    wide(entry_of(groups, key, slot))
}

/// The keys of the groups ascend, so that no key occurs twice.
pub open spec fn keys_ascend<V>(groups: Seq<Group<V>>) -> bool {
    forall|a: int, b: int|
        0 <= a < b < groups.len() ==> (#[trigger] groups[a]).key < (#[trigger] groups[b]).key
}

/// Every group has one value for each of `slots` aggregates.
pub open spec fn values_fit<V>(groups: Seq<Group<V>>, slots: int) -> bool {
    forall|i: int| 0 <= i < groups.len() ==> (#[trigger] groups[i]).values@.len() == slots
}

/// The largest magnitude that one worker's state can have.
pub open spec fn state_magnitude() -> int {
    0x8000_0000_0000_0000
}

/// Whether a merged value is what at most `limit` states can add up to.
pub open spec fn within(value: Option<i128>, limit: int) -> bool {
    value matches Some(v) ==> -limit * state_magnitude() <= v <= limit * state_magnitude()
}

/// Whether every merged value is what at most `limit` states can add up to.
pub open spec fn all_within(groups: Seq<GroupResult>, limit: int) -> bool {
    forall|i: int, slot: int|
        0 <= i < groups.len() && 0 <= slot < groups[i].values@.len() ==> within(
            #[trigger] groups[i].values@[slot],
            limit,
        )
}

/// With ascending keys the group for a key is the only one.
pub proof fn lemma_entry_at<V>(groups: Seq<Group<V>>, i: int, slot: int)
    requires
        keys_ascend(groups),
        0 <= i < groups.len(),
    ensures
        has_key(groups, groups[i].key),
        entry_of(groups, groups[i].key, slot) == groups[i].values@[slot],
{
    let key = groups[i].key;
    assert(has_key(groups, key));
    let k = choose|k: int| 0 <= k < groups.len() && (#[trigger] groups[k]).key == key;
    if k < i {
        assert(groups[k].key < groups[i].key);
    } else if i < k {
        assert(groups[i].key < groups[k].key);
    }
}

/// Combines one merged value with one worker's state.
fn combine_slot(kind: Combine, value: Option<i128>, state: Option<i64>, Ghost(limit): Ghost<
    int,
>) -> (out: Option<i128>)
    requires
        0 <= limit < u64::MAX,
        within(value, limit),
    ensures
        wide(out) == combine(kind, wide(value), lift(state)),
        within(out, limit + 1),
{
    match (value, state) {
        (None, None) => None,
        (None, Some(y)) => Some(y as i128),
        (Some(x), None) => Some(x),
        (Some(x), Some(y)) => {
            let y: i128 = y as i128;
            match kind {
                Combine::Count => Some(x + y),
                Combine::Sum => Some(x + y),
                Combine::Min => Some(if x <= y { x } else { y }),
                Combine::Max => Some(if x >= y { x } else { y }),
            }
        },
    }
}

/// The values of a group that takes up one worker's states.
fn combine_values(
    kinds: &Vec<Combine>,
    values: &Vec<Option<i128>>,
    states: &Vec<Option<i64>>,
    Ghost(limit): Ghost<int>,
) -> (out: Vec<Option<i128>>)
    requires
        values.len() == kinds.len(),
        states.len() == kinds.len(),
        0 <= limit < u64::MAX,
        forall|slot: int| 0 <= slot < values.len() ==> within(#[trigger] values[slot], limit),
    ensures
        out.len() == kinds.len(),
        forall|slot: int|
            0 <= slot < kinds.len() ==> wide(#[trigger] out[slot]) == combine(
                kinds[slot],
                wide(values[slot]),
                lift(states[slot]),
            ),
        forall|slot: int| 0 <= slot < out.len() ==> within(#[trigger] out[slot], limit + 1),
{
    let mut out: Vec<Option<i128>> = Vec::new();
    let mut slot: usize = 0;
    while slot < kinds.len()
        invariant
            slot <= kinds.len(),
            values.len() == kinds.len(),
            states.len() == kinds.len(),
            0 <= limit < u64::MAX,
            forall|s: int| 0 <= s < values.len() ==> within(#[trigger] values[s], limit),
            out.len() == slot,
            forall|s: int|
                0 <= s < slot ==> wide(#[trigger] out[s]) == combine(
                    kinds[s],
                    wide(values[s]),
                    lift(states[s]),
                ),
            forall|s: int| 0 <= s < slot ==> within(#[trigger] out[s], limit + 1),
        decreases kinds.len() - slot,
    {
        out.push(combine_slot(kinds[slot], values[slot], states[slot], Ghost(limit)));
        slot += 1;
    }
    out
}

/// The values of a group that only one worker's states go into.
fn widen_states(states: &Vec<Option<i64>>) -> (out: Vec<Option<i128>>)
    ensures
        out.len() == states.len(),
        forall|slot: int| 0 <= slot < states.len() ==> wide(#[trigger] out[slot]) == lift(states[slot]),
        forall|slot: int| 0 <= slot < out.len() ==> within(#[trigger] out[slot], 1),
{
    let mut out: Vec<Option<i128>> = Vec::new();
    let mut slot: usize = 0;
    while slot < states.len()
        invariant
            slot <= states.len(),
            out.len() == slot,
            forall|s: int| 0 <= s < slot ==> wide(#[trigger] out[s]) == lift(states[s]),
            forall|s: int| 0 <= s < slot ==> within(#[trigger] out[s], 1),
        decreases states.len() - slot,
    {
        let value: Option<i128> = match states[slot] {
            Some(v) => Some(v as i128),
            None => None,
        };
        out.push(value);
        slot += 1;
    }
    out
}

/// A copy of the values of a group.
fn copy_values(values: &Vec<Option<i128>>) -> (out: Vec<Option<i128>>)
    ensures
        out@ == values@,
{
    let mut out: Vec<Option<i128>> = Vec::new();
    let mut slot: usize = 0;
    while slot < values.len()
        invariant
            slot <= values.len(),
            out@ == values@.take(slot as int),
        decreases values.len() - slot,
    {
        out.push(values[slot]);
        proof {
            assert(out@ =~= values@.take(slot + 1));
        }
        slot += 1;
    }
    proof {
        assert(values@.take(values.len() as int) == values@);
    }
    out
}

/// A longer prefix of groups has the keys of the shorter one and the key of
/// the group that was added.
pub proof fn lemma_keys_step<V>(groups: Seq<Group<V>>, n: int, key: u64)
    requires
        0 <= n < groups.len(),
    ensures
        has_key(groups.take(n + 1), key) <==> has_key(groups.take(n), key) || groups[n].key == key,
{
    let grown = groups.take(n + 1);
    let seen = groups.take(n);
    if has_key(grown, key) {
        let at = choose|at: int| 0 <= at < grown.len() && (#[trigger] grown[at]).key == key;
        if at < n {
            assert(seen[at].key == key);
        }
    }
    if has_key(seen, key) {
        let at = choose|at: int| 0 <= at < seen.len() && (#[trigger] seen[at]).key == key;
        assert(grown[at].key == key);
    }
    if groups[n].key == key {
        assert(grown[n].key == key);
    }
}

/// After a push the groups have the keys that they had and the key of the
/// new group.
pub proof fn lemma_keys_push<V>(groups: Seq<Group<V>>, added: Group<V>, key: u64)
    ensures
        has_key(groups.push(added), key) <==> has_key(groups, key) || added.key == key,
{
    let grown = groups.push(added);
    if has_key(grown, key) {
        let at = choose|at: int| 0 <= at < grown.len() && (#[trigger] grown[at]).key == key;
        if at < groups.len() {
            assert(groups[at].key == key);
        }
    }
    if has_key(groups, key) {
        let at = choose|at: int| 0 <= at < groups.len() && (#[trigger] groups[at]).key == key;
        assert(grown[at].key == key);
    }
    if added.key == key {
        assert(grown[groups.len() as int].key == key);
    }
}

/// Takes one worker's entries up into the merged groups.
fn absorb(
    kinds: &Vec<Combine>,
    merged: &Vec<GroupResult>,
    groups: &Vec<GroupPartial>,
    Ghost(limit): Ghost<int>,
) -> (out: Vec<GroupResult>)
    requires
        keys_ascend(merged@),
        values_fit(merged@, kinds.len() as int),
        all_within(merged@, limit),
        keys_ascend(groups@),
        values_fit(groups@, kinds.len() as int),
        0 <= limit < u64::MAX,
    ensures
        keys_ascend(out@),
        values_fit(out@, kinds.len() as int),
        all_within(out@, limit + 1),
        forall|key: u64| #[trigger]
            has_key(out@, key) <==> has_key(merged@, key) || has_key(groups@, key),
        forall|key: u64, slot: int|
            0 <= slot < kinds.len() ==> #[trigger] value_in(out@, key, slot) == combine(
                kinds[slot],
                value_in(merged@, key, slot),
                state_of(groups@, key, slot),
            ),
{
    let mut out: Vec<GroupResult> = Vec::new();
    let mut i: usize = 0;
    let mut j: usize = 0;
    proof {
        assert forall|key: u64| #[trigger]
            has_key(out@, key) <==> has_key(merged@.take(0), key) || has_key(
                groups@.take(0),
                key,
            ) by {
            assert(merged@.take(0).len() == 0);
            assert(groups@.take(0).len() == 0);
        }
    }
    while i < merged.len() || j < groups.len()
        invariant
            i <= merged.len(),
            j <= groups.len(),
            keys_ascend(merged@),
            values_fit(merged@, kinds.len() as int),
            all_within(merged@, limit),
            keys_ascend(groups@),
            values_fit(groups@, kinds.len() as int),
            0 <= limit < u64::MAX,
            keys_ascend(out@),
            values_fit(out@, kinds.len() as int),
            all_within(out@, limit + 1),
            forall|x: int|
                0 <= x < out.len() ==> {
                    &&& i < merged.len() ==> (#[trigger] out[x]).key < merged[i as int].key
                    &&& j < groups.len() ==> out[x].key < groups[j as int].key
                },
            forall|key: u64| #[trigger]
                has_key(out@, key) <==> has_key(merged@.take(i as int), key) || has_key(
                    groups@.take(j as int),
                    key,
                ),
            forall|x: int, slot: int|
                0 <= x < out.len() && 0 <= slot < kinds.len() ==> wide(
                    #[trigger] out[x].values@[slot],
                ) == combine(
                    kinds[slot],
                    value_in(merged@, out[x].key, slot),
                    state_of(groups@, out[x].key, slot),
                ),
        decreases (merged.len() - i) + (groups.len() - j),
    {
        let take_merged = i < merged.len() && (j >= groups.len() || merged[i].key <= groups[j].key);
        let take_groups = j < groups.len() && (i >= merged.len() || groups[j].key <= merged[i].key);
        let key: u64 = if take_merged {
            merged[i].key
        } else {
            groups[j].key
        };
        proof {
            if take_merged {
                assert forall|slot: int| 0 <= slot < merged[i as int].values.len() implies within(
                    #[trigger] merged[i as int].values[slot],
                    limit,
                ) by {
                    assert(within(merged@[i as int].values@[slot], limit));
                }
            }
        }
        let values = if take_merged && take_groups {
            combine_values(kinds, &merged[i].values, &groups[j].values, Ghost(limit))
        } else if take_merged {
            copy_values(&merged[i].values)
        } else {
            widen_states(&groups[j].values)
        };
        let ghost earlier = out@;
        let added = GroupResult { key, values };
        proof {
            // What the inputs hold for the key.
            if take_merged {
                assert forall|slot: int| 0 <= slot < kinds.len() implies value_in(
                    merged@,
                    key,
                    slot,
                ) == wide(merged[i as int].values@[slot]) by {
                    lemma_entry_at(merged@, i as int, slot);
                }
            } else {
                if has_key(merged@, key) {
                    let p = choose|p: int|
                        0 <= p < merged.len() && (#[trigger] merged@[p]).key == key;
                    if p < i {
                        assert(merged@.take(i as int)[p].key == key);
                        assert(has_key(merged@.take(i as int), key));
                        assert(has_key(earlier, key));
                        let x = choose|x: int|
                            0 <= x < earlier.len() && (#[trigger] earlier[x]).key == key;
                        assert(earlier[x].key < groups[j as int].key);
                    } else if p > i {
                        assert(merged@[i as int].key < merged@[p].key);
                    }
                    assert(false);
                }
            }
            if take_groups {
                assert forall|slot: int| 0 <= slot < kinds.len() implies state_of(
                    groups@,
                    key,
                    slot,
                ) == lift(groups[j as int].values@[slot]) by {
                    lemma_entry_at(groups@, j as int, slot);
                }
            } else {
                if has_key(groups@, key) {
                    let q = choose|q: int|
                        0 <= q < groups.len() && (#[trigger] groups@[q]).key == key;
                    if q < j {
                        assert(groups@.take(j as int)[q].key == key);
                        assert(has_key(groups@.take(j as int), key));
                        assert(has_key(earlier, key));
                        let x = choose|x: int|
                            0 <= x < earlier.len() && (#[trigger] earlier[x]).key == key;
                        assert(earlier[x].key < merged[i as int].key);
                    } else if q > j {
                        assert(groups@[j as int].key < groups@[q].key);
                    }
                    assert(false);
                }
            }
            assert forall|slot: int| 0 <= slot < kinds.len() implies wide(
                #[trigger] added.values@[slot],
            ) == combine(
                kinds[slot],
                value_in(merged@, key, slot),
                state_of(groups@, key, slot),
            ) by {
                if take_merged && !take_groups {
                    assert(added.values@[slot] == merged[i as int].values@[slot]);
                }
            }
            assert forall|slot: int| 0 <= slot < added.values@.len() implies within(
                #[trigger] added.values@[slot],
                limit + 1,
            ) by {
                if take_merged && !take_groups {
                    assert(within(merged@[i as int].values@[slot], limit));
                    assert(added.values@[slot] == merged[i as int].values@[slot]);
                    assert(limit * state_magnitude() <= (limit + 1) * state_magnitude());
                } else if !take_merged {
                    assert(within(added.values@[slot], 1));
                    assert(state_magnitude() <= (limit + 1) * state_magnitude());
                }
            }
        }
        out.push(added);
        proof {
            let next_i = if take_merged { i + 1 } else { i as int };
            let next_j = if take_groups { j + 1 } else { j as int };
            assert forall|a: int, b: int| 0 <= a < b < out.len() implies (#[trigger] out@[a]).key < (
            #[trigger] out@[b]).key by {
                if b < earlier.len() {
                    assert(earlier[a].key < earlier[b].key);
                } else {
                    assert(out@[a] == earlier[a]);
                }
            }
            assert forall|x: int| 0 <= x < out.len() implies (#[trigger] out@[x]).values@.len()
                == kinds.len() by {
                if x < earlier.len() {
                    assert(out@[x] == earlier[x]);
                }
            }
            assert forall|x: int, slot: int|
                0 <= x < out.len() && 0 <= slot < out@[x].values@.len() implies within(
                #[trigger] out@[x].values@[slot],
                limit + 1,
            ) by {
                if x < earlier.len() {
                    assert(out@[x] == earlier[x]);
                    assert(within(earlier[x].values@[slot], limit + 1));
                }
            }
            assert forall|x: int| 0 <= x < out.len() implies {
                &&& next_i < merged.len() ==> (#[trigger] out@[x]).key < merged[next_i].key
                &&& next_j < groups.len() ==> out@[x].key < groups[next_j].key
            } by {
                if x < earlier.len() {
                    assert(out@[x] == earlier[x]);
                }
                if next_i < merged.len() && take_merged {
                    assert(merged@[i as int].key < merged@[next_i].key);
                }
                if next_j < groups.len() && take_groups {
                    assert(groups@[j as int].key < groups@[next_j].key);
                }
            }
            assert forall|k: u64| #[trigger]
                has_key(out@, k) <==> has_key(merged@.take(next_i), k) || has_key(
                    groups@.take(next_j),
                    k,
                ) by {
                lemma_keys_push(earlier, added, k);
                if take_merged {
                    lemma_keys_step(merged@, i as int, k);
                }
                if take_groups {
                    lemma_keys_step(groups@, j as int, k);
                }
            }
            assert forall|x: int, slot: int|
                0 <= x < out.len() && 0 <= slot < kinds.len() implies wide(
                #[trigger] out@[x].values@[slot],
            ) == combine(
                kinds[slot],
                value_in(merged@, out@[x].key, slot),
                state_of(groups@, out@[x].key, slot),
            ) by {
                if x < earlier.len() {
                    assert(out@[x] == earlier[x]);
                }
            }
        }
        if take_merged {
            i += 1;
        }
        if take_groups {
            j += 1;
        }
    }
    proof {
        assert(merged@.take(merged.len() as int) == merged@);
        assert(groups@.take(groups.len() as int) == groups@);
        assert forall|key: u64, slot: int| 0 <= slot < kinds.len() implies #[trigger] value_in(
            out@,
            key,
            slot,
        ) == combine(kinds[slot], value_in(merged@, key, slot), state_of(groups@, key, slot)) by {
            if has_key(out@, key) {
                let x = choose|x: int| 0 <= x < out.len() && (#[trigger] out@[x]).key == key;
                lemma_entry_at(out@, x, slot);
            }
        }
    }
    out
}

/// The entries of a report; none for a worker that failed.
pub open spec fn groups_of(report: AggregateReport) -> Seq<GroupPartial> {
    match report {
        AggregateReport::Failed => Seq::empty(),
        AggregateReport::Groups(groups) => groups@,
    }
}

/// The entries of each report, in the order of the workers.
pub open spec fn partials_of(reports: Seq<AggregateReport>) -> Seq<Seq<GroupPartial>> {
    Seq::new(reports.len(), |w: int| groups_of(reports[w]))
}

/// Whether a report can be merged into a query with `slots` aggregates: the
/// worker reported, its keys ascend, and each entry has one state for each
/// aggregate.
pub open spec fn well_formed(report: AggregateReport, slots: int) -> bool {
    match report {
        AggregateReport::Failed => false,
        AggregateReport::Groups(groups) => keys_ascend(groups@) && values_fit(groups@, slots),
    }
}

/// Whether every report before position `upto` can be merged.
pub open spec fn well_formed_before(reports: Seq<AggregateReport>, slots: int, upto: int) -> bool {
    forall|w: int| 0 <= w < upto ==> well_formed(#[trigger] reports[w], slots)
}

/// Whether one of the workers has an entry for the key.
pub open spec fn key_reported(partials: Seq<Seq<GroupPartial>>, key: u64) -> bool {
    exists|w: int| 0 <= w < partials.len() && has_key(#[trigger] partials[w], key)
}

/// The step of a merge: what is there so far, combined with what one more
/// worker contributes.
pub open spec fn taking_up(kind: Combine, key: u64, slot: int) -> spec_fn(
    Option<int>,
    Seq<GroupPartial>,
) -> Option<int> {
    |so_far: Option<int>, groups: Seq<GroupPartial>|
        combine(kind, so_far, state_of(groups, key, slot))
}

/// What the workers' states for the key combine to, at position `slot`:
/// the contributions of all workers, taken up one after the other.
pub open spec fn total(kind: Combine, partials: Seq<Seq<GroupPartial>>, key: u64, slot: int)
    -> Option<int> {
    partials.fold_left(None, taking_up(kind, key, slot))
}

/// Combining is commutative.
pub proof fn lemma_combine_commutes(kind: Combine, a: Option<int>, b: Option<int>)
    ensures
        combine(kind, a, b) == combine(kind, b, a),
{
}

/// Combining is associative.
pub proof fn lemma_combine_associates(kind: Combine, a: Option<int>, b: Option<int>, c: Option<int>)
    ensures
        combine(kind, combine(kind, a, b), c) == combine(kind, a, combine(kind, b, c)),
{
}

/// One more worker adds its contribution to the total.
pub proof fn lemma_total_step(
    kind: Combine,
    partials: Seq<Seq<GroupPartial>>,
    n: int,
    key: u64,
    slot: int,
)
    requires
        0 <= n < partials.len(),
    ensures
        total(kind, partials.take(n + 1), key, slot) == combine(
            kind,
            total(kind, partials.take(n), key, slot),
            state_of(partials[n], key, slot),
        ),
{
    let grown = partials.take(n + 1);
    assert(grown.drop_last() == partials.take(n));
    assert(grown.last() == partials[n]);
}

/// Merging is independent of the order of the workers: two runs of reports
/// that hold the same reports, in whatever order, give the same keys and
/// the same total for each key and aggregate.
pub proof fn lemma_merge_order_independent(
    kind: Combine,
    a: Seq<Seq<GroupPartial>>,
    b: Seq<Seq<GroupPartial>>,
    key: u64,
    slot: int,
)
    requires
        a.to_multiset() == b.to_multiset(),
    ensures
        total(kind, a, key, slot) == total(kind, b, key, slot),
        key_reported(a, key) == key_reported(b, key),
{
    broadcast use vstd::seq_lib::group_to_multiset_ensures;

    let step = taking_up(kind, key, slot);
    assert(commutative_foldl(step)) by {
        assert forall|x: Seq<GroupPartial>, y: Seq<GroupPartial>, v: Option<int>| #[trigger]
            step(step(v, x), y) == step(step(v, y), x) by {
            let sx = state_of(x, key, slot);
            let sy = state_of(y, key, slot);
            lemma_combine_associates(kind, v, sx, sy);
            lemma_combine_commutes(kind, sx, sy);
            lemma_combine_associates(kind, v, sy, sx);
        }
    }
    lemma_fold_left_permutation(a, b, step, None);
    if key_reported(a, key) {
        let w = choose|w: int| 0 <= w < a.len() && has_key(#[trigger] a[w], key);
        assert(a.contains(a[w]));
        assert(b.to_multiset().count(a[w]) > 0);
        assert(b.contains(a[w]));
        let v = choose|v: int| 0 <= v < b.len() && b[v] == a[w];
        assert(has_key(b[v], key));
    }
    if key_reported(b, key) {
        let w = choose|w: int| 0 <= w < b.len() && has_key(#[trigger] b[w], key);
        assert(b.contains(b[w]));
        assert(a.to_multiset().count(b[w]) > 0);
        assert(a.contains(b[w]));
        let v = choose|v: int| 0 <= v < a.len() && a[v] == b[w];
        assert(has_key(a[v], key));
    }
}

/// Merging is associative: the total over two runs of reports, one after
/// the other, is the total of the first combined with the total of the
/// second. So partial merges can be merged again.
pub proof fn lemma_merge_associative(
    kind: Combine,
    a: Seq<Seq<GroupPartial>>,
    b: Seq<Seq<GroupPartial>>,
    key: u64,
    slot: int,
)
    ensures
        total(kind, a + b, key, slot) == combine(
            kind,
            total(kind, a, key, slot),
            total(kind, b, key, slot),
        ),
    decreases b.len(),
{
    if b.len() == 0 {
        assert(a + b == a);
    } else {
        let whole = a + b;
        assert(whole.drop_last() == a + b.drop_last());
        assert(whole.last() == b.last());
        lemma_merge_associative(kind, a, b.drop_last(), key, slot);
        lemma_combine_associates(
            kind,
            total(kind, a, key, slot),
            total(kind, b.drop_last(), key, slot),
            state_of(b.last(), key, slot),
        );
    }
}

/// Three reports merged in one order give what they give in another:
/// `[a, b, c]` and `[c, a, b]` have the same total for every key and
/// aggregate.
pub proof fn lemma_merge_rotation(
    kind: Combine,
    a: Seq<GroupPartial>,
    b: Seq<GroupPartial>,
    c: Seq<GroupPartial>,
    key: u64,
    slot: int,
)
    ensures
        total(kind, seq![a, b, c], key, slot) == total(kind, seq![c, a, b], key, slot),
{
    let front = seq![a, b];
    let back = seq![c];
    assert(seq![a, b, c] == front + back);
    assert(seq![c, a, b] == back + front);
    lemma_merge_associative(kind, front, back, key, slot);
    lemma_merge_associative(kind, back, front, key, slot);
    lemma_combine_commutes(kind, total(kind, front, key, slot), total(kind, back, key, slot));
}

/// Whether `groups` is the merge of the workers' entries: one group for
/// each key that a worker reported, in ascending order of the keys, with
/// one value for each aggregate, which is what the workers' states for the
/// key combine to.
pub open spec fn is_merge_of(
    kinds: Seq<Combine>,
    partials: Seq<Seq<GroupPartial>>,
    groups: Seq<GroupResult>,
) -> bool {
    &&& keys_ascend(groups)
    &&& values_fit(groups, kinds.len() as int)
    &&& forall|key: u64| #[trigger] has_key(groups, key) <==> key_reported(partials, key)
    &&& forall|g: int, slot: int|
        0 <= g < groups.len() && 0 <= slot < kinds.len() ==> wide(
            #[trigger] groups[g].values@[slot],
        ) == finalized(kinds[slot], total(kinds[slot], partials, groups[g].key, slot))
}

/// Merged groups with the same keys have them at the same places.
pub proof fn lemma_groups_align(a: Seq<GroupResult>, b: Seq<GroupResult>)
    requires
        keys_ascend(a),
        keys_ascend(b),
        forall|key: u64| has_key(a, key) <==> has_key(b, key),
    ensures
        a.len() == b.len(),
        forall|g: int| 0 <= g < a.len() ==> (#[trigger] a[g]).key == b[g].key,
    decreases a.len(),
{
    if a.len() == 0 {
        if b.len() > 0 {
            assert(has_key(b, b[0].key));
            let at = choose|at: int| 0 <= at < a.len() && (#[trigger] a[at]).key == b[0].key;
        }
    } else {
        let top = a.last().key;
        assert(has_key(a, a[a.len() - 1].key));
        let p = choose|p: int| 0 <= p < b.len() && (#[trigger] b[p]).key == top;
        assert(has_key(b, b[b.len() - 1].key));
        let q = choose|q: int| 0 <= q < a.len() && (#[trigger] a[q]).key == b.last().key;
        if p < b.len() - 1 {
            assert(b[p].key < b[b.len() - 1].key);
            if q < a.len() - 1 {
                assert(a[q].key < a[a.len() - 1].key);
            }
        }
        assert(p == b.len() - 1);
        let rest_a = a.drop_last();
        let rest_b = b.drop_last();
        assert forall|key: u64| has_key(rest_a, key) <==> has_key(rest_b, key) by {
            if has_key(rest_a, key) {
                let i = choose|i: int| 0 <= i < rest_a.len() && (#[trigger] rest_a[i]).key == key;
                assert(a[i].key == key);
                assert(a[i].key < a[a.len() - 1].key);
                assert(has_key(a, key));
                let k = choose|k: int| 0 <= k < b.len() && (#[trigger] b[k]).key == key;
                assert(rest_b[k].key == key);
            }
            if has_key(rest_b, key) {
                let i = choose|i: int| 0 <= i < rest_b.len() && (#[trigger] rest_b[i]).key == key;
                assert(b[i].key == key);
                assert(b[i].key < b[b.len() - 1].key);
                assert(has_key(b, key));
                let k = choose|k: int| 0 <= k < a.len() && (#[trigger] a[k]).key == key;
                assert(rest_a[k].key == key);
            }
        }
        assert(keys_ascend(rest_a)) by {
            assert forall|x: int, y: int| 0 <= x < y < rest_a.len() implies (#[trigger] rest_a[x]).key
                < (#[trigger] rest_a[y]).key by {
                assert(a[x].key < a[y].key);
            }
        }
        assert(keys_ascend(rest_b)) by {
            assert forall|x: int, y: int| 0 <= x < y < rest_b.len() implies (#[trigger] rest_b[x]).key
                < (#[trigger] rest_b[y]).key by {
                assert(b[x].key < b[y].key);
            }
        }
        lemma_groups_align(rest_a, rest_b);
        assert forall|g: int| 0 <= g < a.len() implies (#[trigger] a[g]).key == b[g].key by {
            if g < a.len() - 1 {
                assert(rest_a[g].key == rest_b[g].key);
            }
        }
    }
}

/// The result of a merge does not depend on the order of the workers:
/// whatever `merge_aggregates` returns for a run of reports and for the
/// same reports in another order, it is the same groups with the same
/// values.
pub proof fn lemma_merge_result_order_independent(
    kinds: Seq<Combine>,
    first: Seq<Seq<GroupPartial>>,
    second: Seq<Seq<GroupPartial>>,
    a: Seq<GroupResult>,
    b: Seq<GroupResult>,
)
    requires
        first.to_multiset() == second.to_multiset(),
        is_merge_of(kinds, first, a),
        is_merge_of(kinds, second, b),
    ensures
        a.len() == b.len(),
        forall|g: int|
            0 <= g < a.len() ==> (#[trigger] a[g]).key == b[g].key && a[g].values@ == b[g].values@,
{
    assert forall|key: u64| has_key(a, key) <==> has_key(b, key) by {
        lemma_merge_order_independent(Combine::Count, first, second, key, 0);
    }
    lemma_groups_align(a, b);
    assert forall|g: int| 0 <= g < a.len() implies (#[trigger] a[g]).key == b[g].key
        && a[g].values@ == b[g].values@ by {
        assert forall|slot: int| 0 <= slot < kinds.len() implies a[g].values@[slot]
            == b[g].values@[slot] by {
            lemma_merge_order_independent(kinds[slot], first, second, a[g].key, slot);
            assert(wide(a[g].values@[slot]) == wide(b[g].values@[slot]));
        }
        assert(a[g].values@ =~= b[g].values@);
    }
}

/// Whether a worker's entries can be merged into a query with `slots`
/// aggregates.
pub fn check_groups(groups: &Vec<GroupPartial>, slots: usize) -> (fine: bool)
    ensures
        fine == (keys_ascend(groups@) && values_fit(groups@, slots as int)),
{
    let mut i: usize = 0;
    while i < groups.len()
        invariant
            i <= groups.len(),
            keys_ascend(groups@.take(i as int)),
            values_fit(groups@.take(i as int), slots as int),
        decreases groups.len() - i,
    {
        if groups[i].values.len() != slots {
            proof {
                assert(groups@[i as int].values@.len() != slots);
            }
            return false;
        }
        if i > 0 && groups[i - 1].key >= groups[i].key {
            proof {
                assert(!(groups@[i - 1].key < groups@[i as int].key));
            }
            return false;
        }
        proof {
            let grown = groups@.take(i + 1);
            let seen = groups@.take(i as int);
            assert forall|a: int, b: int| 0 <= a < b < grown.len() implies (#[trigger] grown[a]).key
                < (#[trigger] grown[b]).key by {
                if b < i {
                    assert(seen[a].key < seen[b].key);
                } else if a < i - 1 {
                    assert(seen[a].key < seen[i - 1].key);
                }
            }
            assert forall|k: int| 0 <= k < grown.len() implies (#[trigger] grown[k]).values@.len()
                == slots by {
                if k < i {
                    assert(seen[k].values@.len() == slots);
                }
            }
        }
        i += 1;
    }
    proof {
        assert(groups@.take(groups.len() as int) == groups@);
    }
    true
}

/// Merges the partial aggregates of all workers into one group for each
/// grouping key.
///
/// `kinds` says, for each aggregate of the query, how its partial values
/// combine. The query fails with the first report, in the order of the
/// workers, that cannot be merged: `WorkerFailed` for a worker that did not
/// report, `MalformedPartial` for entries whose keys do not ascend or that
/// do not hold one state for each aggregate. Otherwise the result holds one
/// group for each key that a worker reported, in ascending order of the
/// keys, and each of its values is what the workers' states for that key
/// combine to; a worker without an entry for the key contributes nothing.
pub fn merge_aggregates(kinds: &Vec<Combine>, reports: &Vec<AggregateReport>) -> (result: Result<
    Vec<GroupResult>,
    ExecutionError,
>)
    ensures
        match result {
            Ok(groups) => {
                &&& well_formed_before(reports@, kinds.len() as int, reports.len() as int)
                &&& is_merge_of(kinds@, partials_of(reports@), groups@)
            },
            Err(ExecutionError::WorkerFailed { worker }) => {
                &&& worker < reports.len()
                &&& reports[worker as int] is Failed
                &&& well_formed_before(reports@, kinds.len() as int, worker as int)
            },
            Err(ExecutionError::MalformedPartial { worker }) => {
                &&& worker < reports.len()
                &&& reports[worker as int] is Groups
                &&& !well_formed(reports[worker as int], kinds.len() as int)
                &&& well_formed_before(reports@, kinds.len() as int, worker as int)
            },
            Err(_) => false,
        },
{
    let ghost partials = partials_of(reports@);
    let mut merged: Vec<GroupResult> = Vec::new();
    let mut w: usize = 0;
    proof {
        assert(partials.take(0).len() == 0);
    }
    while w < reports.len()
        invariant
            w <= reports.len(),
            partials == partials_of(reports@),
            well_formed_before(reports@, kinds.len() as int, w as int),
            keys_ascend(merged@),
            values_fit(merged@, kinds.len() as int),
            all_within(merged@, w as int),
            forall|key: u64| #[trigger]
                has_key(merged@, key) <==> key_reported(partials.take(w as int), key),
            forall|key: u64, slot: int|
                0 <= slot < kinds.len() ==> #[trigger] value_in(merged@, key, slot) == total(
                    kinds[slot],
                    partials.take(w as int),
                    key,
                    slot,
                ),
        decreases reports.len() - w,
    {
        match &reports[w] {
            AggregateReport::Failed => {
                return Err(ExecutionError::WorkerFailed { worker: w });
            },
            AggregateReport::Groups(groups) => {
                if !check_groups(groups, kinds.len()) {
                    return Err(ExecutionError::MalformedPartial { worker: w });
                }
                let ghost earlier = merged@;
                merged = absorb(kinds, &merged, groups, Ghost(w as int));
                proof {
                    let seen = partials.take(w as int);
                    let grown = partials.take(w + 1);
                    assert(partials[w as int] == groups@);
                    assert forall|key: u64| #[trigger]
                        has_key(merged@, key) <==> key_reported(grown, key) by {
                        if key_reported(seen, key) {
                            let k = choose|k: int|
                                0 <= k < seen.len() && has_key(#[trigger] seen[k], key);
                            assert(grown[k] == seen[k]);
                        }
                        if has_key(groups@, key) {
                            assert(has_key(grown[w as int], key));
                        }
                        if key_reported(grown, key) {
                            let k = choose|k: int|
                                0 <= k < grown.len() && has_key(#[trigger] grown[k], key);
                            if k < w {
                                assert(seen[k] == grown[k]);
                            }
                        }
                    }
                    assert forall|key: u64, slot: int| 0 <= slot < kinds.len() implies #[trigger]
                        value_in(merged@, key, slot) == total(kinds[slot], grown, key, slot) by {
                        lemma_total_step(kinds[slot], partials, w as int, key, slot);
                        assert(value_in(earlier, key, slot) == total(kinds[slot], seen, key, slot));
                    }
                }
            },
        }
        w += 1;
    }
    proof {
        assert(partials.take(reports.len() as int) == partials);
    }
    let mut groups: Vec<GroupResult> = Vec::new();
    let mut g: usize = 0;
    while g < merged.len()
        invariant
            g <= merged.len(),
            keys_ascend(merged@),
            values_fit(merged@, kinds.len() as int),
            groups.len() == g,
            forall|x: int| 0 <= x < g ==> (#[trigger] groups[x]).key == merged[x].key,
            forall|x: int| 0 <= x < g ==> (#[trigger] groups[x]).values@.len() == kinds.len(),
            forall|x: int, slot: int|
                0 <= x < g && 0 <= slot < kinds.len() ==> wide(#[trigger] groups[x].values@[slot])
                    == finalized(kinds[slot], wide(merged[x].values@[slot])),
        decreases merged.len() - g,
    {
        let source = &merged[g];
        let mut values: Vec<Option<i128>> = Vec::new();
        let mut slot: usize = 0;
        while slot < kinds.len()
            invariant
                slot <= kinds.len(),
                source.values@.len() == kinds.len(),
                values.len() == slot,
                forall|s: int|
                    0 <= s < slot ==> wide(#[trigger] values[s]) == finalized(
                        kinds[s],
                        wide(source.values@[s]),
                    ),
            decreases kinds.len() - slot,
        {
            let value: Option<i128> = match (kinds[slot], source.values[slot]) {
                (Combine::Count, None) => Some(0),
                (_, value) => value,
            };
            values.push(value);
            slot += 1;
        }
        groups.push(GroupResult { key: source.key, values });
        g += 1;
    }
    proof {
        assert forall|a: int, b: int| 0 <= a < b < groups.len() implies (#[trigger] groups@[a]).key
            < (#[trigger] groups@[b]).key by {
            assert(merged@[a].key < merged@[b].key);
        }
        assert forall|key: u64| #[trigger]
            has_key(groups@, key) <==> key_reported(partials, key) by {
            if has_key(groups@, key) {
                let x = choose|x: int| 0 <= x < groups.len() && (#[trigger] groups@[x]).key == key;
                assert(merged@[x].key == key);
                assert(has_key(merged@, key));
            }
            if has_key(merged@, key) {
                let x = choose|x: int| 0 <= x < merged.len() && (#[trigger] merged@[x]).key == key;
                assert(groups@[x].key == key);
            }
        }
        assert forall|x: int, slot: int|
            0 <= x < groups.len() && 0 <= slot < kinds.len() implies wide(
            #[trigger] groups[x].values@[slot],
        ) == finalized(kinds[slot], total(kinds[slot], partials, groups[x].key, slot)) by {
            lemma_entry_at(merged@, x, slot);
            assert(value_in(merged@, merged@[x].key, slot) == total(
                kinds[slot],
                partials,
                merged@[x].key,
                slot,
            ));
        }
    }
    Ok(groups)
}

} // verus!
