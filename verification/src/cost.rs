//! The cost of a pushdown path, in millionths of the planner's cost unit.

use vstd::prelude::*;
use crate::selectivity::SelectivityEstimate;

verus! {

/// How many of this module's units make one cost unit of the planner.
pub const COST_SCALE: u64 = 1_000_000;

/// What it costs to open the index and start a query, whatever the query:
/// ten cost units of the planner.
pub const DEFAULT_STARTUP_COST: u64 = 10_000_000;

/// What it costs to find one matching row in the index.
pub const INDEX_PROBE_COST: u64 = 5_000;

/// What it costs to fetch one byte of a matching row.
pub const FETCH_COST_PER_BYTE: u64 = 100;

/// What the host planner charges by default for reading one page of a
/// relation in sequence: one cost unit.
pub const SEQUENTIAL_PAGE_COST: u64 = 1_000_000;

/// What the host planner charges by default for handling one row: a
/// hundredth of a cost unit.
pub const ROW_COST: u64 = 10_000;

/// How many bytes a page of a relation holds.
pub const PAGE_SIZE: u64 = 8_192;

/// The cost of a path: what it costs before the first row, and what it
/// costs in all.
#[derive(Debug, Clone, Copy, PartialEq, Eq, Structural)]
pub struct PathCost {
    pub startup: u128,
    pub total: u128,
}

/// What it costs to fetch a matching row of the given width.
pub open spec fn fetch_cost(width: int) -> int {
    width * FETCH_COST_PER_BYTE
}

/// What one matching row costs a scan: finding it and fetching it.
pub open spec fn per_row_probe_cost(width: int) -> int {
    INDEX_PROBE_COST + fetch_cost(width)
}

/// What one matching row costs an aggregate that the index computes: the
/// cost for a scan less the share of fetching, since no row is fetched.
pub open spec fn per_row_aggregate_cost(width: int) -> int {
    per_row_probe_cost(width) - fetch_cost(width)
}

/// What the selected rows cost together: the estimated fraction of `rows`
/// rows at `per_row` each, rounded down to a whole unit.
pub open spec fn selected_cost(selectivity: SelectivityEstimate, rows: int, per_row: int) -> int {
    match selectivity.fraction() {
        Some((numerator, denominator)) => (numerator * rows * per_row) / (denominator as int),
        None => 0,
    }
}

/// The cost of a path that pays `startup` first and `per_row` for each
/// selected row: the startup cost and the total cost.
pub open spec fn path_cost(
    selectivity: SelectivityEstimate,
    rows: int,
    per_row: int,
    startup: int,
) -> (int, int) {
    (startup, startup + selected_cost(selectivity, rows, per_row))
}

/// A product can be divided in two steps: the quotient of one factor, and
/// what its remainder still yields.
pub proof fn lemma_scaled_division(amount: int, scale: int, divisor: int)
    requires
        0 <= amount,
        0 <= scale,
        0 < divisor,
    ensures
        (amount * scale) / divisor == (amount / divisor) * scale + ((amount % divisor) * scale)
            / divisor,
{
    let quotient = amount / divisor;
    let remainder = amount % divisor;
    let rest = remainder * scale;
    vstd::arithmetic::div_mod::lemma_fundamental_div_mod(amount, divisor);
    vstd::arithmetic::div_mod::lemma_fundamental_div_mod(rest, divisor);
    vstd::arithmetic::div_mod::lemma_mod_bound(rest, divisor);
    assert(amount * scale == (quotient * scale + rest / divisor) * divisor + rest % divisor)
        by (nonlinear_arith)
        requires
            amount == divisor * quotient + remainder,
            rest == remainder * scale,
            rest == divisor * (rest / divisor) + rest % divisor,
    ;
    vstd::arithmetic::div_mod::lemma_fundamental_div_mod_converse(
        amount * scale,
        divisor,
        quotient * scale + rest / divisor,
        rest % divisor,
    );
}

/// A fraction between 0 and 1 of an amount is no more than the amount.
pub proof fn lemma_fraction_is_bounded(numerator: int, denominator: int, amount: int)
    requires
        0 <= numerator <= denominator,
        0 < denominator,
        0 <= amount,
    ensures
        0 <= (numerator * amount) / denominator <= amount,
{
    assert(numerator * amount <= denominator * amount) by (nonlinear_arith)
        requires
            0 <= numerator <= denominator,
            0 <= amount,
    ;
    assert(0 <= numerator * amount) by (nonlinear_arith)
        requires
            0 <= numerator,
            0 <= amount,
    ;
    vstd::arithmetic::div_mod::lemma_div_is_ordered(
        numerator * amount,
        denominator * amount,
        denominator,
    );
    vstd::arithmetic::div_mod::lemma_div_multiples_vanish(amount, denominator);
    vstd::arithmetic::div_mod::lemma_div_pos_is_pos(numerator * amount, denominator);
}

/// The cost of a path with the given cost for each selected row; `None`
/// where the estimate is no fraction between 0 and 1.
pub fn cost_per_row(
    selectivity: SelectivityEstimate,
    relation_row_count: u64,
    per_row: u64,
    startup_const: u64,
) -> (cost: Option<PathCost>)
    ensures
        cost is Some <==> selectivity.in_unit_interval(),
        cost matches Some(c) ==> {
            &&& (c.startup as int, c.total as int) == path_cost(
                selectivity,
                relation_row_count as int,
                per_row as int,
                startup_const as int,
            )
            &&& c.startup == startup_const
            &&& c.total >= c.startup
        },
{
    let (numerator, denominator) = match selectivity.as_fraction() {
        Some(parts) => parts,
        None => {
            return None;
        },
    };
    if denominator == 0 || numerator > denominator {
        return None;
    }
    let ghost part = numerator as int * relation_row_count as int;
    proof {
        lemma_fraction_is_bounded(numerator as int, denominator as int, relation_row_count as int);
        assert(0 <= part <= u64::MAX * u64::MAX) by (nonlinear_arith)
            requires
                part == numerator as int * relation_row_count as int,
                0 <= numerator <= u64::MAX,
                0 <= relation_row_count <= u64::MAX,
        ;
        lemma_scaled_division(part, per_row as int, denominator as int);
        vstd::arithmetic::div_mod::lemma_mod_bound(part, denominator as int);
        lemma_fraction_is_bounded(
            numerator as int,
            denominator as int,
            relation_row_count as int * per_row as int,
        );
        assert(numerator as int * (relation_row_count as int * per_row as int) == part
            * per_row as int) by (nonlinear_arith)
            requires
                part == numerator as int * relation_row_count as int,
        ;
        assert(relation_row_count as int * per_row as int <= u64::MAX * u64::MAX)
            by (nonlinear_arith)
            requires
                0 <= relation_row_count <= u64::MAX,
                0 <= per_row <= u64::MAX,
        ;
    }
    let product: u128 = (numerator as u128) * (relation_row_count as u128);
    let whole: u128 = product / (denominator as u128);
    let rest: u128 = product % (denominator as u128);
    proof {
        assert(whole * per_row <= u64::MAX * u64::MAX) by (nonlinear_arith)
            requires
                0 <= whole <= u64::MAX,
                0 <= per_row <= u64::MAX,
        ;
        assert(rest * per_row <= u64::MAX * u64::MAX) by (nonlinear_arith)
            requires
                0 <= rest <= u64::MAX,
                0 <= per_row <= u64::MAX,
        ;
        vstd::arithmetic::div_mod::lemma_div_pos_is_pos(
            rest as int * per_row as int,
            denominator as int,
        );
    }
    let startup: u128 = startup_const as u128;
    let total: u128 = startup + whole * (per_row as u128) + (rest * (per_row as u128)) / (
    denominator as u128);
    Some(PathCost { startup, total })
}

/// The cost of scanning a relation through the index.
///
/// `startup_cost` is `startup_const`, and `total_cost` is `startup_cost`
/// plus the estimated fraction of `relation_row_count` times what finding
/// and fetching a row of `relation_width` bytes costs, rounded down to a
/// whole unit. There is no cost where there is no
/// estimate.
pub fn cost(
    selectivity: SelectivityEstimate,
    relation_row_count: u64,
    relation_width: u32,
    startup_const: u64,
) -> (cost: Option<PathCost>)
    ensures
        cost is Some <==> selectivity.in_unit_interval(),
        cost matches Some(c) ==> {
            &&& (c.startup as int, c.total as int) == path_cost(
                selectivity,
                relation_row_count as int,
                per_row_probe_cost(relation_width as int),
                startup_const as int,
            )
            &&& c.startup == startup_const
            &&& c.total >= c.startup
        },
{
    let per_row: u64 = INDEX_PROBE_COST + (relation_width as u64) * FETCH_COST_PER_BYTE;
    cost_per_row(selectivity, relation_row_count, per_row, startup_const)
}

/// The cost of computing an aggregate inside the index: the cost of a scan
/// with the cost of each selected row reduced by the share of fetching the
/// row.
pub fn aggregate_cost(
    selectivity: SelectivityEstimate,
    relation_row_count: u64,
    relation_width: u32,
    startup_const: u64,
) -> (cost: Option<PathCost>)
    ensures
        cost is Some <==> selectivity.in_unit_interval(),
        cost matches Some(c) ==> {
            &&& (c.startup as int, c.total as int) == path_cost(
                selectivity,
                relation_row_count as int,
                per_row_aggregate_cost(relation_width as int),
                startup_const as int,
            )
            &&& c.startup == startup_const
            &&& c.total >= c.startup
        },
{
    cost_per_row(selectivity, relation_row_count, INDEX_PROBE_COST, startup_const)
}

/// An aggregate inside the index never costs more than the scan that it
/// replaces.
pub proof fn lemma_aggregate_is_cheaper(
    selectivity: SelectivityEstimate,
    rows: int,
    width: int,
    startup: int,
)
    requires
        selectivity.in_unit_interval(),
        0 <= rows,
        0 <= width,
    ensures
        path_cost(selectivity, rows, per_row_aggregate_cost(width), startup).1 <= path_cost(
            selectivity,
            rows,
            per_row_probe_cost(width),
            startup,
        ).1,
{
    let (numerator, denominator) = selectivity.fraction()->0;
    let part = numerator * rows;
    assert(part * per_row_aggregate_cost(width) <= part * per_row_probe_cost(width))
        by (nonlinear_arith)
        requires
            0 <= part,
            per_row_aggregate_cost(width) <= per_row_probe_cost(width),
    ;
    vstd::arithmetic::div_mod::lemma_div_is_ordered(
        part * per_row_aggregate_cost(width),
        part * per_row_probe_cost(width),
        denominator as int,
    );
}

/// How many pages a relation fills.
pub open spec fn pages(rows: int, width: int) -> int {
    (rows * width + PAGE_SIZE - 1) / (PAGE_SIZE as int)
}

/// What the host planner charges, by its defaults, for the plain scan that
/// reads every page and handles every row of a relation.
pub open spec fn sequential_cost(rows: int, width: int) -> int {
    pages(rows, width) * SEQUENTIAL_PAGE_COST + rows * ROW_COST
}

/// The cost of the plain scan of a relation, as the host planner reckons
/// it by its defaults: nothing to start with, then each page and each row.
pub fn sequential_scan_cost(relation_row_count: u64, relation_width: u32) -> (cost: PathCost)
    ensures
        cost.startup == 0,
        cost.total == sequential_cost(relation_row_count as int, relation_width as int),
{
    proof {
        assert(relation_row_count * relation_width <= u64::MAX * u32::MAX) by (nonlinear_arith)
            requires
                0 <= relation_row_count <= u64::MAX,
                0 <= relation_width <= u32::MAX,
        ;
    }
    let bytes: u128 = (relation_row_count as u128) * (relation_width as u128);
    let filled: u128 = (bytes + (PAGE_SIZE as u128 - 1)) / (PAGE_SIZE as u128);
    proof {
        assert(bytes <= 0x1_0000_0000_0000_0000 * 0x1_0000_0000);
        assert(filled <= bytes + 8191);
        assert(filled * 1_000_000 <= 0x1_0000_0000_0000_0000_0000_0000_0000);
        assert(relation_row_count * 10_000 <= 0x1_0000_0000_0000_0000_0000);
    }
    let total: u128 = filled * (SEQUENTIAL_PAGE_COST as u128) + (relation_row_count as u128) * (
    ROW_COST as u128);
    PathCost { startup: 0, total }
}

/// Whether the planner takes `candidate` rather than `other`: it takes the
/// path that costs less in all.
pub fn is_cheaper(candidate: &PathCost, other: &PathCost) -> (cheaper: bool)
    ensures
        cheaper == (candidate.total < other.total),
{
    candidate.total < other.total
}

/// A selective search beats the plain scan: where the estimate is at most
/// one row in a thousand and the relation has more than a thousand rows,
/// the scan through the index, at the default startup cost, costs less in
/// all than reading the relation in sequence, whatever the width of its
/// rows.
pub proof fn lemma_selective_search_beats_plain_scan(
    selectivity: SelectivityEstimate,
    rows: int,
    width: int,
)
    requires
        selectivity.in_unit_interval(),
        ({
            let (numerator, denominator) = selectivity.fraction()->0;
            1000 * numerator <= denominator
        }),
        rows > 1000,
        0 <= width,
    ensures
        path_cost(selectivity, rows, per_row_probe_cost(width), DEFAULT_STARTUP_COST as int).1
            < sequential_cost(rows, width),
{
    let (numerator, denominator) = selectivity.fraction()->0;
    let n = numerator as int;
    let d = denominator as int;
    let per_row = per_row_probe_cost(width);
    let part = n * rows * per_row;
    let share = part / d;
    let bytes = rows * width;
    let filled = pages(rows, width);
    assert(0 <= bytes) by (nonlinear_arith)
        requires
            bytes == rows * width,
            0 <= rows,
            0 <= width,
    ;
    vstd::arithmetic::div_mod::lemma_fundamental_div_mod(part, d);
    vstd::arithmetic::div_mod::lemma_mod_bound(part, d);
    assert(1000 * share <= rows * per_row) by (nonlinear_arith)
        requires
            part == n * rows * per_row,
            part == d * share + part % d,
            0 <= part % d,
            1000 * n <= d,
            0 < d,
            0 <= n,
            0 <= rows,
            0 <= per_row,
    ;
    assert(rows * per_row == 5000 * rows + 100 * bytes) by (nonlinear_arith)
        requires
            per_row == 5000 + width * 100,
            bytes == rows * width,
    ;
    vstd::arithmetic::div_mod::lemma_fundamental_div_mod(bytes + 8191, 8192);
    vstd::arithmetic::div_mod::lemma_mod_bound(bytes + 8191, 8192);
    assert(8192 * filled >= bytes);
}

} // verus!
