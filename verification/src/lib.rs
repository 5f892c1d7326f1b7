//! Query pushdown planning and parallel execution for a search index that
//! lives beside a relational engine, together with the maintenance rules of
//! the tokenizer's user dictionary.

use vstd::prelude::*;

pub mod aggregate_merge;
pub mod aggregate_path;
pub mod coordinator;
pub mod cost;
pub mod execution;
pub mod filter_query;
pub mod hooks;
pub mod partition;
pub mod predicate;
pub mod scan_merge;
pub mod scan_node;
pub mod scan_path;
pub mod selectivity;
pub mod semantics;
pub mod text;
pub mod translate;
pub mod user_dict;
pub mod words;

verus! {

/// How many workers can run at the same time, from what the machine
/// reports: the reported number, and one where the machine reports none
/// (or none that makes sense).
pub open spec fn usable_parallelism(detected: Option<usize>) -> usize {
    match detected {
        Some(count) => if count >= 1 {
            count
        } else {
            1
        },
        None => 1,
    }
}

/// How many workers can run at the same time. `detected` is what the
/// machine reports, if it reports anything; the result is at least one.
pub fn available_parallelism(detected: Option<usize>) -> (workers: usize)
    ensures
        workers == usable_parallelism(detected),
        workers >= 1,
{
    match detected {
        Some(count) => if count >= 1 {
            count
        } else {
            1
        },
        None => 1,
    }
}

/// How many workers a parallel execution gets: as many as can run at the
/// same time, but no more than the configured ceiling, and at least one.
pub fn planned_workers(worker_ceiling: u32, available: usize) -> (workers: u32)
    ensures
        workers >= 1,
        workers as int == if worker_ceiling == 0 || available == 0 {
            1
        } else if available < worker_ceiling {
            available as int
        } else {
            worker_ceiling as int
        },
{
    if worker_ceiling == 0 || available == 0 {
        1
    } else if available < worker_ceiling as usize {
        available as u32
    } else {
        worker_ceiling
    }
}

} // verus!
