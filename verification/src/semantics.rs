//! What predicates and queries mean on a row, and that a translation means
//! what its predicate means.

use vstd::prelude::*;
use crate::filter_query::{Binding, Bound, FilterQuery};
use crate::predicate::{constant_value, scalar_value, FieldType, Operator, Predicate, Scalar, Value};
use crate::translate::translation;

verus! {

/// A row as both the host and the index see it: the numbers and truth
/// values of its columns, the tokens and phrases that its text columns
/// hold, and the function calls that are true of it.
pub struct Row {
    pub integers: Map<u32, int>,
    pub booleans: Map<u32, bool>,
    pub terms: Set<(u32, Seq<char>)>,
    pub phrases: Set<(u32, Seq<char>)>,
    pub calls: Set<(u32, u32)>,
}

/// The value of a parameter at execution time, if it is bound.
pub open spec fn parameter_value(parameters: Map<u32, Value>, number: u32) -> Option<Value> {
    if parameters.contains_key(number) {
        Some(parameters[number])
    } else {
        None
    }
}

/// What a scalar is worth at execution time.
pub open spec fn resolved(scalar: Scalar, parameters: Map<u32, Value>) -> Option<Value>
    decreases scalar,
{
    match scalar {
        Scalar::Constant(value) => Some(value),
        Scalar::Parameter(number) => parameter_value(parameters, number),
        Scalar::Sum(left, right) => match (resolved(*left, parameters), resolved(*right, parameters)) {
            (Some(Value::Integer(x)), Some(Value::Integer(y))) => if i64::MIN <= x + y
                <= i64::MAX {
                Some(Value::Integer((x + y) as i64))
            } else {
                None
            },
            _ => None,
        },
    }
}

/// Whether the column holds the value, for a column of the given type.
pub open spec fn holds_value(row: Row, column: u32, field_type: FieldType, value: Option<Value>)
    -> bool {
    match (field_type, value) {
        (FieldType::Text, Some(Value::Text(token))) => row.terms.contains((column, token@)),
        (FieldType::Integer, Some(Value::Integer(number))) => row.integers[column] == number,
        (FieldType::Boolean, Some(Value::Boolean(truth))) => row.booleans[column] == truth,
        _ => false,
    }
}

/// Whether a comparison is true of the row.
pub open spec fn compares(
    row: Row,
    column: u32,
    field_type: FieldType,
    op: Operator,
    value: Option<Value>,
) -> bool {
    match op {
        Operator::Equal => holds_value(row, column, field_type, value),
        Operator::Search => holds_value(row, column, field_type, value),
        Operator::NotEqual => !holds_value(row, column, field_type, value),
        Operator::Phrase => match value {
            Some(Value::Text(phrase)) => row.phrases.contains((column, phrase@)),
            _ => false,
        },
        Operator::Less => match value {
            Some(Value::Integer(number)) => row.integers[column] < number,
            _ => false,
        },
        Operator::LessEqual => match value {
            Some(Value::Integer(number)) => row.integers[column] <= number,
            _ => false,
        },
        Operator::Greater => match value {
            Some(Value::Integer(number)) => row.integers[column] > number,
            _ => false,
        },
        Operator::GreaterEqual => match value {
            Some(Value::Integer(number)) => row.integers[column] >= number,
            _ => false,
        },
    }
}

/// Whether the predicate is true of the row, as the host evaluates it.
pub open spec fn holds(predicate: Predicate, row: Row, parameters: Map<u32, Value>) -> bool
    decreases predicate,
{
    match predicate {
        Predicate::Constant(truth) => truth,
        Predicate::Compare { column, field_type, op, operand } => compares(
            row,
            column,
            field_type,
            op,
            resolved(operand, parameters),
        ),
        Predicate::Function { function, column } => row.calls.contains((function, column)),
        Predicate::And(left, right) => holds(*left, row, parameters) && holds(
            *right,
            row,
            parameters,
        ),
        Predicate::Or(left, right) => holds(*left, row, parameters) || holds(
            *right,
            row,
            parameters,
        ),
        Predicate::Not(inner) => !holds(*inner, row, parameters),
    }
}

/// The value of a clause at execution time.
pub open spec fn bound_value(binding: Binding, parameters: Map<u32, Value>) -> Option<Value> {
    match binding {
        Binding::Literal(value) => Some(value),
        Binding::Placeholder(number) => parameter_value(parameters, number),
    }
}

/// Whether a number lies at or above the lower end of a range.
pub open spec fn above(number: int, bound: Bound, parameters: Map<u32, Value>) -> bool {
    match bound {
        Bound::Unbounded => true,
        Bound::Inclusive(binding) => match bound_value(binding, parameters) {
            Some(Value::Integer(least)) => number >= least,
            _ => false,
        },
        Bound::Exclusive(binding) => match bound_value(binding, parameters) {
            Some(Value::Integer(least)) => number > least,
            _ => false,
        },
    }
}

/// Whether a number lies at or below the upper end of a range.
pub open spec fn below(number: int, bound: Bound, parameters: Map<u32, Value>) -> bool {
    match bound {
        Bound::Unbounded => true,
        Bound::Inclusive(binding) => match bound_value(binding, parameters) {
            Some(Value::Integer(most)) => number <= most,
            _ => false,
        },
        Bound::Exclusive(binding) => match bound_value(binding, parameters) {
            Some(Value::Integer(most)) => number < most,
            _ => false,
        },
    }
}

/// Whether the query matches the row, as the index evaluates it.
pub open spec fn matches_row(query: FilterQuery, row: Row, parameters: Map<u32, Value>) -> bool
    decreases query,
{
    match query {
        FilterQuery::All => true,
        FilterQuery::Empty => false,
        FilterQuery::Term { field, field_type, value } => holds_value(
            row,
            field,
            field_type,
            bound_value(value, parameters),
        ),
        FilterQuery::Phrase { field, text } => match bound_value(text, parameters) {
            Some(Value::Text(phrase)) => row.phrases.contains((field, phrase@)),
            _ => false,
        },
        FilterQuery::Range { field, lower, upper } => above(row.integers[field], lower, parameters)
            && below(row.integers[field], upper, parameters),
        FilterQuery::And(left, right) => matches_row(*left, row, parameters) && matches_row(
            *right,
            row,
            parameters,
        ),
        FilterQuery::Or(left, right) => matches_row(*left, row, parameters) || matches_row(
            *right,
            row,
            parameters,
        ),
        FilterQuery::Not(inner) => !matches_row(*inner, row, parameters),
    }
}

/// A scalar that is worth a constant at planning time is worth the same
/// at execution time, whatever the parameters are.
pub proof fn lemma_constant_scalar(scalar: Scalar, parameters: Map<u32, Value>)
    requires
        scalar_value(scalar) is Some,
    ensures
        resolved(scalar, parameters) == scalar_value(scalar),
    decreases scalar,
{
    match scalar {
        Scalar::Sum(left, right) => {
            lemma_constant_scalar(*left, parameters);
            lemma_constant_scalar(*right, parameters);
        },
        _ => {},
    }
}

/// A predicate that its constants decide is true of every row, or of
/// none, as they say.
pub proof fn lemma_constant_predicate(predicate: Predicate, row: Row, parameters: Map<u32, Value>)
    requires
        constant_value(predicate) is Some,
    ensures
        holds(predicate, row, parameters) == constant_value(predicate)->0,
    decreases predicate,
{
    match predicate {
        Predicate::And(left, right) | Predicate::Or(left, right) => {
            if constant_value(*left) is Some {
                lemma_constant_predicate(*left, row, parameters);
            }
            if constant_value(*right) is Some {
                lemma_constant_predicate(*right, row, parameters);
            }
        },
        Predicate::Not(inner) => {
            lemma_constant_predicate(*inner, row, parameters);
        },
        _ => {},
    }
}

/// Pushing a predicate down does not change which rows come back: the
/// translation of a predicate matches a row exactly when the predicate is
/// true of it, whatever the row and the parameters are.
pub proof fn lemma_pushdown_preserves_rows(
    predicate: Predicate,
    query: FilterQuery,
    row: Row,
    parameters: Map<u32, Value>,
)
    requires
        translation(predicate) == Ok::<FilterQuery, crate::translate::UnsupportedPredicate>(query),
    ensures
        matches_row(query, row, parameters) == holds(predicate, row, parameters),
    decreases predicate,
{
    reveal_with_fuel(matches_row, 3);
    if constant_value(predicate) is Some {
        lemma_constant_predicate(predicate, row, parameters);
    } else {
        match predicate {
            Predicate::Compare { column, field_type, op, operand } => {
                if scalar_value(operand) is Some {
                    lemma_constant_scalar(operand, parameters);
                }
            },
            Predicate::And(left, right) => {
                lemma_pushdown_preserves_rows(*left, translation(*left)->Ok_0, row, parameters);
                lemma_pushdown_preserves_rows(*right, translation(*right)->Ok_0, row, parameters);
            },
            Predicate::Or(left, right) => {
                lemma_pushdown_preserves_rows(*left, translation(*left)->Ok_0, row, parameters);
                lemma_pushdown_preserves_rows(*right, translation(*right)->Ok_0, row, parameters);
            },
            Predicate::Not(inner) => {
                lemma_pushdown_preserves_rows(*inner, translation(*inner)->Ok_0, row, parameters);
            },
            _ => {},
        }
    }
}

/// The rows that a scan returns are the same with and without pushdown:
/// filtering a relation by the translated query keeps exactly the rows
/// that filtering by the predicate keeps, in the same order.
pub proof fn lemma_pushdown_preserves_contents(
    predicate: Predicate,
    query: FilterQuery,
    rows: Seq<Row>,
    parameters: Map<u32, Value>,
)
    requires
        translation(predicate) == Ok::<FilterQuery, crate::translate::UnsupportedPredicate>(query),
    ensures
        rows.filter(|row: Row| matches_row(query, row, parameters)) == rows.filter(
            |row: Row| holds(predicate, row, parameters),
        ),
{
    let pushed = |row: Row| matches_row(query, row, parameters);
    let plain = |row: Row| holds(predicate, row, parameters);
    assert forall|row: Row| #[trigger] pushed(row) == plain(row) by {
        lemma_pushdown_preserves_rows(predicate, query, row, parameters);
    }
    assert(pushed =~= plain);
}

} // verus!
