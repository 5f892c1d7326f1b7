//! Offering the planner an aggregate that the index computes in place of
//! an aggregate over rows that a scan has fetched.

use vstd::prelude::*;
use crate::cost::{aggregate_cost, path_cost, per_row_aggregate_cost, PathCost};
use crate::filter_query::FilterQuery;
use crate::hooks::HookRegistry;
use crate::scan_path::{Relation, ScanPath};

verus! {

/// An aggregate function of a query.
#[derive(Debug, Clone, Copy, PartialEq, Eq, Structural)]
pub enum AggregateFunction {
    Count,
    Sum,
    Min,
    Max,
    Average,
    /// Any other function: the index computes none of them.
    Other,
}

/// Which aggregate functions the index computes by itself.
#[derive(Debug, Clone, Copy, PartialEq, Eq, Structural)]
pub struct Capabilities {
    pub count: bool,
    pub sum: bool,
    pub min: bool,
    pub max: bool,
    pub average: bool,
}

/// One aggregate of a query: the function, and the column that it reads
/// (none for a count of rows).
#[derive(Debug, Clone, Copy, PartialEq, Eq, Structural)]
pub struct AggregateCall {
    pub function: AggregateFunction,
    pub column: Option<u32>,
}

/// One key of a grouping.
#[derive(Debug, Clone, Copy, PartialEq, Eq, Structural)]
pub struct GroupingKey {
    pub column: u32,
    /// Whether the column is in the index.
    pub indexed: bool,
    /// Whether the column's value can be read back from the index.
    pub invertible: bool,
}

/// The shape of an aggregate plan.
#[derive(Debug, PartialEq, Eq)]
pub struct AggregatePlan {
    pub aggregates: Vec<AggregateCall>,
    pub group_by: Vec<GroupingKey>,
    /// The partition columns of the window, for a windowed aggregate.
    pub window_partition: Option<Vec<u32>>,
}

/// An aggregate inside the index: one request that holds the query, the
/// aggregates and the grouping columns.
#[derive(Debug, PartialEq, Eq)]
pub struct AggregatePath {
    pub query: FilterQuery,
    pub aggregates: Vec<AggregateCall>,
    pub group_columns: Vec<u32>,
    pub cost: PathCost,
}

/// Whether the index computes the function by itself, by the table of its
/// capabilities. What the table does not name it does not compute.
pub open spec fn computes(capabilities: Capabilities, function: AggregateFunction) -> bool {
    match function {
        AggregateFunction::Count => capabilities.count,
        AggregateFunction::Sum => capabilities.sum,
        AggregateFunction::Min => capabilities.min,
        AggregateFunction::Max => capabilities.max,
        AggregateFunction::Average => capabilities.average,
        AggregateFunction::Other => false,
    }
}

/// Whether the index computes every aggregate of the list.
pub open spec fn all_computed(capabilities: Capabilities, aggregates: Seq<AggregateCall>) -> bool {
    forall|i: int| 0 <= i < aggregates.len() ==> computes(capabilities, (#[trigger] aggregates[i]).function)
}

/// Whether every grouping key is indexed and can be read back.
pub open spec fn all_groupable(keys: Seq<GroupingKey>) -> bool {
    forall|i: int| 0 <= i < keys.len() ==> (#[trigger] keys[i]).indexed && keys[i].invertible
}

/// The columns of the grouping keys, in order.
pub open spec fn group_columns(keys: Seq<GroupingKey>) -> Seq<u32> {
    Seq::new(keys.len(), |i: int| keys[i].column)
}

/// Whether a window fits: a plan without a window always does; a windowed
/// plan does where the hook for windowed aggregates is registered and the
/// window is partitioned by the grouping columns, in their order.
pub open spec fn window_fits(registry: HookRegistry, plan: AggregatePlan) -> bool {
    match plan.window_partition {
        None => true,
        Some(partition) => registry.window_aggregates && partition@ == group_columns(
            plan.group_by@,
        ),
    }
}

/// Whether the plan can be computed inside the index as a whole.
pub open spec fn eligible(registry: HookRegistry, capabilities: Capabilities, plan: AggregatePlan)
    -> bool {
    &&& all_computed(capabilities, plan.aggregates@)
    &&& all_groupable(plan.group_by@)
    &&& window_fits(registry, plan)
}

/// Whether the index computes the function by itself.
pub fn is_computed(capabilities: &Capabilities, function: AggregateFunction) -> (computed: bool)
    ensures
        computed == computes(*capabilities, function),
{
    match function {
        AggregateFunction::Count => capabilities.count,
        AggregateFunction::Sum => capabilities.sum,
        AggregateFunction::Min => capabilities.min,
        AggregateFunction::Max => capabilities.max,
        AggregateFunction::Average => capabilities.average,
        AggregateFunction::Other => false,
    }
}

/// Whether the plan can be computed inside the index as a whole.
#[verifier::loop_isolation(false)]
pub fn is_eligible(registry: &HookRegistry, capabilities: &Capabilities, plan: &AggregatePlan) -> (fine:
    bool)
    ensures
        fine == eligible(*registry, *capabilities, *plan),
{
    let mut i: usize = 0;
    while i < plan.aggregates.len()
        invariant
            i <= plan.aggregates.len(),
            forall|k: int|
                0 <= k < i ==> computes(*capabilities, (#[trigger] plan.aggregates[k]).function),
        decreases plan.aggregates.len() - i,
    {
        if !is_computed(capabilities, plan.aggregates[i].function) {
            return false;
        }
        i += 1;
    }
    let mut j: usize = 0;
    while j < plan.group_by.len()
        invariant
            j <= plan.group_by.len(),
            forall|k: int| 0 <= k < j ==> (#[trigger] plan.group_by[k]).indexed && plan.group_by[k].invertible,
        decreases plan.group_by.len() - j,
    {
        if !plan.group_by[j].indexed || !plan.group_by[j].invertible {
            return false;
        }
        j += 1;
    }
    match &plan.window_partition {
        None => true,
        Some(partition) => {
            if !registry.handles_window_aggregates() {
                return false;
            }
            if partition.len() != plan.group_by.len() {
                proof {
                    assert(group_columns(plan.group_by@).len() != partition@.len());
                }
                return false;
            }
            let mut k: usize = 0;
            while k < partition.len()
                invariant
                    k <= partition.len(),
                    partition.len() == plan.group_by.len(),
                    forall|x: int| 0 <= x < k ==> partition[x] == plan.group_by[x].column,
                decreases partition.len() - k,
            {
                if partition[k] != plan.group_by[k].column {
                    proof {
                        assert(group_columns(plan.group_by@)[k as int] != partition@[k as int]);
                    }
                    return false;
                }
                k += 1;
            }
            proof {
                assert(partition@ =~= group_columns(plan.group_by@));
            }
            true
        },
    }
}

/// Builds the aggregate path on top of a scan path, if there is one.
///
/// The plan is pushed down as a whole or not at all: there is no path
/// where the index does not compute one of the aggregates, where a
/// grouping key is not indexed or cannot be read back, and where a window
/// is partitioned by other columns than the grouping (or the hook for
/// windowed aggregates is not registered). Otherwise the path holds the
/// query of the scan, the aggregates and the grouping columns, and costs
/// what the scan costs without fetching rows.
pub fn build_aggregate_path(
    registry: &HookRegistry,
    capabilities: &Capabilities,
    relation: &Relation,
    scan: ScanPath,
    plan: &AggregatePlan,
    startup_const: u64,
) -> (offer: Option<AggregatePath>)
    ensures
        offer is Some <==> eligible(*registry, *capabilities, *plan)
            && scan.selectivity.in_unit_interval(),
        offer matches Some(path) ==> {
            &&& path.query == scan.query
            &&& path.aggregates@ == plan.aggregates@
            &&& path.group_columns@ == group_columns(plan.group_by@)
            &&& (path.cost.startup as int, path.cost.total as int) == path_cost(
                scan.selectivity,
                relation.row_count as int,
                per_row_aggregate_cost(relation.width as int),
                startup_const as int,
            )
        },
{
    if !is_eligible(registry, capabilities, plan) {
        return None;
    }
    let path_cost = match aggregate_cost(
        scan.selectivity,
        relation.row_count,
        relation.width,
        startup_const,
    ) {
        Some(path_cost) => path_cost,
        None => {
            return None;
        },
    };
    let mut aggregates: Vec<AggregateCall> = Vec::new();
    let mut i: usize = 0;
    while i < plan.aggregates.len()
        invariant
            i <= plan.aggregates.len(),
            aggregates@ == plan.aggregates@.take(i as int),
        decreases plan.aggregates.len() - i,
    {
        aggregates.push(plan.aggregates[i]);
        proof {
            assert(aggregates@ =~= plan.aggregates@.take(i + 1));
        }
        i += 1;
    }
    let mut columns: Vec<u32> = Vec::new();
    let mut j: usize = 0;
    while j < plan.group_by.len()
        invariant
            j <= plan.group_by.len(),
            columns@ == group_columns(plan.group_by@).take(j as int),
        decreases plan.group_by.len() - j,
    {
        columns.push(plan.group_by[j].column);
        proof {
            assert(columns@ =~= group_columns(plan.group_by@).take(j + 1));
        }
        j += 1;
    }
    proof {
        assert(plan.aggregates@.take(plan.aggregates.len() as int) == plan.aggregates@);
        assert(group_columns(plan.group_by@).take(plan.group_by.len() as int) == group_columns(
            plan.group_by@,
        ));
    }
    Some(AggregatePath { query: scan.query, aggregates, group_columns: columns, cost: path_cost })
}

} // verus!
