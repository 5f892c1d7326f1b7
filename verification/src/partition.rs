//! Cutting the identifier space of an index into work units, one for each
//! parallel worker.

use vstd::prelude::*;

verus! {

/// A contiguous slice of the identifier space: the identifiers from `start`
/// up to, but not including, `end`. It belongs to one worker.
#[derive(Debug, Clone, Copy, PartialEq, Eq, Structural)]
pub struct WorkUnit {
    pub start: u64,
    pub end: u64,
}

impl WorkUnit {
    /// Whether the identifier `id` belongs to this unit.
    pub open spec fn owns(self, id: int) -> bool {
        self.start <= id < self.end
    }

    /// How many identifiers the unit holds.
    pub open spec fn size(self) -> int {
        self.end - self.start
    }
}

/// Where the unit of worker `index` starts when `total` identifiers are
/// shared out among `workers` workers: every worker gets the same share,
/// and the first `total % workers` of them one identifier more.
pub open spec fn unit_start(total: nat, workers: nat, index: nat) -> nat {
    let share = total / workers;
    let extra = total % workers;
    index * share + if index < extra { index } else { extra }
}

/// The work units for `total` identifiers and `workers` workers, in the
/// order of the workers.
pub open spec fn partition_plan(total: nat, workers: nat) -> Seq<WorkUnit> {
    Seq::new(
        workers,
        |i: int|
            WorkUnit {
                start: unit_start(total, workers, i as nat) as u64,
                end: unit_start(total, workers, (i + 1) as nat) as u64,
            },
    )
}

/// The units follow one another without a gap from 0 to `total`.
pub open spec fn chained(units: Seq<WorkUnit>, total: int) -> bool {
    &&& units.len() > 0
    &&& units[0].start == 0
    &&& units.last().end == total
    &&& forall|i: int| 0 <= i < units.len() ==> (#[trigger] units[i]).start <= units[i].end
    &&& forall|i: int| 0 <= i < units.len() - 1 ==> (#[trigger] units[i]).end == units[i + 1].start
}

/// Whether one of the units holds the identifier `id`.
pub open spec fn has_owner(units: Seq<WorkUnit>, id: int) -> bool {
    exists|i: int| 0 <= i < units.len() && (#[trigger] units[i]).owns(id)
}

/// The units cover the identifiers below `total`, each of them once, and
/// nothing else.
pub open spec fn exact_cover(units: Seq<WorkUnit>, total: int) -> bool {
    &&& forall|id: int| 0 <= id < total ==> #[trigger] has_owner(units, id)
    &&& forall|i: int, id: int|
        0 <= i < units.len() && #[trigger] units[i].owns(id) ==> 0 <= id < total
    &&& forall|i: int, j: int, id: int|
        0 <= i < j < units.len() ==> !(#[trigger] units[i].owns(id) && #[trigger] units[j].owns(id))
}

/// In a chain a later unit starts where an earlier one has ended, or after.
pub proof fn lemma_chain_is_monotone(units: Seq<WorkUnit>, total: int, i: int, j: int)
    requires
        chained(units, total),
        0 <= i < j < units.len(),
    ensures
        units[i].end <= units[j].start,
    decreases j - i,
{
    if i + 1 < j {
        lemma_chain_is_monotone(units, total, i + 1, j);
        assert(units[i].end == units[i + 1].start);
        assert(units[i + 1].start <= units[i + 1].end);
    } else {
        assert(units[i].end == units[i + 1].start);
    }
}

/// In a chain no unit reaches beyond `total`.
pub proof fn lemma_chain_is_bounded(units: Seq<WorkUnit>, total: int, i: int)
    requires
        chained(units, total),
        0 <= i < units.len(),
    ensures
        units[i].end <= total,
{
    let last = units.len() - 1;
    if i < last {
        lemma_chain_is_monotone(units, total, i, last);
        assert(units[last].start <= units[last].end);
    }
}

/// In a chain every identifier from the start of unit `from` on belongs to
/// a unit.
pub proof fn lemma_chain_has_owner(units: Seq<WorkUnit>, total: int, id: int, from: int) -> (owner:
    int)
    requires
        chained(units, total),
        0 <= from < units.len(),
        units[from].start <= id < total,
    ensures
        0 <= owner < units.len(),
        units[owner].owns(id),
    decreases units.len() - from,
{
    if id < units[from].end {
        from
    } else {
        assert(from < units.len() - 1);
        assert(units[from].end == units[from + 1].start);
        lemma_chain_has_owner(units, total, id, from + 1)
    }
}

/// A chain of units covers the identifier space exactly: the units'
/// union is the whole space and no two of them share an identifier.
pub proof fn lemma_chain_covers(units: Seq<WorkUnit>, total: int)
    requires
        chained(units, total),
    ensures
        exact_cover(units, total),
{
    assert forall|id: int| 0 <= id < total implies #[trigger] has_owner(units, id) by {
        let owner = lemma_chain_has_owner(units, total, id, 0);
        assert(units[owner].owns(id));
    }
    assert forall|i: int, id: int| 0 <= i < units.len() && #[trigger] units[i].owns(id) implies 0
        <= id < total by {
        lemma_chain_is_bounded(units, total, i);
    }
    assert forall|i: int, j: int, id: int| 0 <= i < j < units.len() implies !(
    #[trigger] units[i].owns(id) && #[trigger] units[j].owns(id)) by {
        lemma_chain_is_monotone(units, total, i, j);
    }
}

/// The starts of the units grow by a share, or by a share and one, and the
/// last unit ends at `total`.
pub proof fn lemma_unit_start_steps(total: nat, workers: nat, index: nat)
    requires
        workers >= 1,
        index < workers,
    ensures
        unit_start(total, workers, 0) == 0,
        unit_start(total, workers, workers) == total,
        unit_start(total, workers, index + 1) == unit_start(total, workers, index) + total / workers
            + if index < total % workers { 1nat } else { 0nat },
        unit_start(total, workers, index + 1) <= total,
{
    let share = total / workers;
    let extra = total % workers;
    assert(total == workers * share + extra) by (nonlinear_arith)
        requires
            workers >= 1,
            share == total / workers,
            extra == total % workers,
    ;
    assert(extra < workers);
    assert((index + 1) * share == index * share + share) by (nonlinear_arith);
    assert((index + 1) * share <= workers * share) by (nonlinear_arith)
        requires
            index + 1 <= workers,
    ;
}

/// The planned units cover the identifier space exactly, whatever its size
/// and however many workers there are: their union is the whole space, and
/// no identifier belongs to two of them.
pub proof fn lemma_partition_covers(total: nat, workers: nat)
    requires
        workers >= 1,
        total <= u64::MAX,
    ensures
        chained(partition_plan(total, workers), total as int),
        exact_cover(partition_plan(total, workers), total as int),
{
    let units = partition_plan(total, workers);
    lemma_unit_start_steps(total, workers, 0);
    assert forall|i: int| 0 <= i < units.len() implies (#[trigger] units[i]).start
        <= units[i].end && units[i].start == unit_start(total, workers, i as nat) && units[i].end
        == unit_start(total, workers, (i + 1) as nat) by {
        lemma_unit_start_steps(total, workers, i as nat);
    }
    assert forall|i: int| 0 <= i < units.len() - 1 implies (#[trigger] units[i]).end == units[i
        + 1].start by {
        assert(units[i + 1].start == unit_start(total, workers, (i + 1) as nat));
    }
    lemma_unit_start_steps(total, workers, (workers - 1) as nat);
    lemma_chain_covers(units, total as int);
}

/// Shares the identifiers `0 .. total` out among `worker_count` workers.
///
/// The result has one unit for each worker, in the order of the workers.
/// The units follow one another from 0 to `total`, so that each identifier
/// belongs to exactly one of them, and no unit holds more than one
/// identifier more than another. The same arguments give the same units.
pub fn partition(total: u64, worker_count: u32) -> (units: Vec<WorkUnit>)
    requires
        worker_count >= 1,
    ensures
        units@ == partition_plan(total as nat, worker_count as nat),
        units.len() == worker_count,
        chained(units@, total as int),
        exact_cover(units@, total as int),
        forall|i: int, j: int|
            0 <= i < units.len() && 0 <= j < units.len() ==> (#[trigger] units[i]).size() <= (
            #[trigger] units[j]).size() + 1,
{
    let workers: u64 = worker_count as u64;
    let share: u64 = total / workers;
    let extra: u64 = total % workers;
    let mut units: Vec<WorkUnit> = Vec::new();
    let mut start: u64 = 0;
    let mut index: u64 = 0;
    proof {
        lemma_unit_start_steps(total as nat, workers as nat, 0);
    }
    while index < workers
        invariant
            workers == worker_count,
            workers >= 1,
            share == total / workers,
            extra == total % workers,
            index <= workers,
            units.len() == index,
            start == unit_start(total as nat, workers as nat, index as nat),
            start <= total,
            forall|i: int|
                0 <= i < index ==> {
                    &&& (#[trigger] units[i]).start == unit_start(
                        total as nat,
                        workers as nat,
                        i as nat,
                    )
                    &&& units[i].end == unit_start(total as nat, workers as nat, (i + 1) as nat)
                    &&& share <= units[i].size() <= share + 1
                },
        decreases workers - index,
    {
        proof {
            lemma_unit_start_steps(total as nat, workers as nat, index as nat);
        }
        let size: u64 = if index < extra {
            share + 1
        } else {
            share
        };
        let end: u64 = start + size;
        units.push(WorkUnit { start, end });
        start = end;
        index += 1;
    }
    proof {
        lemma_unit_start_steps(total as nat, workers as nat, 0);
        assert(units@ =~= partition_plan(total as nat, worker_count as nat));
        assert(chained(units@, total as int));
        lemma_chain_covers(units@, total as int);
    }
    units
}

} // verus!
