//! The index's own query form: boolean combinations of term, phrase and
//! range clauses.

use vstd::prelude::*;
use crate::predicate::{FieldType, Value};

verus! {

/// The value of a clause: a constant, or a placeholder that the index
/// fills in from the run-time parameters when the query is executed.
#[derive(Debug, PartialEq, Eq)]
pub enum Binding {
    Literal(Value),
    Placeholder(u32),
}

/// One end of a range.
#[derive(Debug, PartialEq, Eq)]
pub enum Bound {
    Unbounded,
    Inclusive(Binding),
    Exclusive(Binding),
}

/// A query in the form that the index executes.
#[derive(Debug, PartialEq, Eq)]
pub enum FilterQuery {
    /// Matches every document.
    All,
    /// Matches no document.
    Empty,
    /// The field holds the value: a token for a text field, the number or
    /// the truth value itself for the others.
    Term { field: u32, field_type: FieldType, value: Binding },
    /// The text field holds the phrase.
    Phrase { field: u32, text: Binding },
    /// The number in the field lies between the bounds.
    Range { field: u32, lower: Bound, upper: Bound },
    And(Box<FilterQuery>, Box<FilterQuery>),
    Or(Box<FilterQuery>, Box<FilterQuery>),
    Not(Box<FilterQuery>),
}

/// Whether the query has a placeholder in it.
pub open spec fn has_placeholder(query: FilterQuery) -> bool
    decreases query,
{
    match query {
        FilterQuery::All => false,
        FilterQuery::Empty => false,
        FilterQuery::Term { value, .. } => value is Placeholder,
        FilterQuery::Phrase { text, .. } => text is Placeholder,
        FilterQuery::Range { lower, upper, .. } => bound_has_placeholder(lower)
            || bound_has_placeholder(upper),
        FilterQuery::And(left, right) => has_placeholder(*left) || has_placeholder(*right),
        FilterQuery::Or(left, right) => has_placeholder(*left) || has_placeholder(*right),
        FilterQuery::Not(inner) => has_placeholder(*inner),
    }
}

/// Whether the bound is a placeholder.
pub open spec fn bound_has_placeholder(bound: Bound) -> bool {
    match bound {
        Bound::Unbounded => false,
        Bound::Inclusive(binding) => binding is Placeholder,
        Bound::Exclusive(binding) => binding is Placeholder,
    }
}

/// How many clauses the query has: its terms, phrases and ranges.
pub open spec fn clause_count(query: FilterQuery) -> nat
    decreases query,
{
    match query {
        FilterQuery::All => 0,
        FilterQuery::Empty => 0,
        FilterQuery::Term { .. } => 1,
        FilterQuery::Phrase { .. } => 1,
        FilterQuery::Range { .. } => 1,
        FilterQuery::And(left, right) => clause_count(*left) + clause_count(*right),
        FilterQuery::Or(left, right) => clause_count(*left) + clause_count(*right),
        FilterQuery::Not(inner) => clause_count(*inner),
    }
}

/// Whether the bound is a placeholder.
pub fn bound_is_open(bound: &Bound) -> (open: bool)
    ensures
        open == bound_has_placeholder(*bound),
{
    match bound {
        Bound::Unbounded => false,
        Bound::Inclusive(Binding::Placeholder(_)) => true,
        Bound::Inclusive(Binding::Literal(_)) => false,
        Bound::Exclusive(Binding::Placeholder(_)) => true,
        Bound::Exclusive(Binding::Literal(_)) => false,
    }
}

/// Whether the query has a placeholder in it.
pub fn references_parameter(query: &FilterQuery) -> (found: bool)
    ensures
        found == has_placeholder(*query),
    decreases query,
{
    match query {
        FilterQuery::All => false,
        FilterQuery::Empty => false,
        FilterQuery::Term { value: Binding::Placeholder(_), .. } => true,
        FilterQuery::Term { value: Binding::Literal(_), .. } => false,
        FilterQuery::Phrase { text: Binding::Placeholder(_), .. } => true,
        FilterQuery::Phrase { text: Binding::Literal(_), .. } => false,
        FilterQuery::Range { lower, upper, .. } => bound_is_open(lower) || bound_is_open(upper),
        FilterQuery::And(left, right) => references_parameter(left) || references_parameter(right),
        FilterQuery::Or(left, right) => references_parameter(left) || references_parameter(right),
        FilterQuery::Not(inner) => references_parameter(inner),
    }
}

} // verus!
