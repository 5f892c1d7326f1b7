//! The predicates that the host planner hands over: trees of comparisons
//! and boolean nodes over columns, constants and run-time parameters.

use vstd::prelude::*;

verus! {

/// A constant of a predicate.
#[derive(Debug, PartialEq, Eq)]
pub enum Value {
    Integer(i64),
    Boolean(bool),
    Text(String),
}

/// How the index holds a column.
#[derive(Debug, Clone, Copy, PartialEq, Eq, Structural)]
pub enum FieldType {
    /// Tokenized text: searched by term and by phrase.
    Text,
    /// Whole numbers: compared by value.
    Integer,
    /// Truth values: compared for equality.
    Boolean,
    /// The column is not in the index.
    Unindexed,
}

/// The operator of a comparison.
#[derive(Debug, Clone, Copy, PartialEq, Eq, Structural)]
pub enum Operator {
    Equal,
    NotEqual,
    Less,
    LessEqual,
    Greater,
    GreaterEqual,
    /// The search operator: the column holds the term.
    Search,
    /// The phrase operator: the column holds the phrase.
    Phrase,
}

/// The right-hand side of a comparison.
#[derive(Debug, PartialEq, Eq)]
pub enum Scalar {
    /// A constant.
    Constant(Value),
    /// A run-time parameter, known only when the plan is executed.
    Parameter(u32),
    /// The sum of two whole numbers.
    Sum(Box<Scalar>, Box<Scalar>),
}

/// A predicate over the rows of a relation.
#[derive(Debug, PartialEq, Eq)]
pub enum Predicate {
    /// True of every row, or of none.
    Constant(bool),
    /// A comparison of a column with a scalar.
    Compare { column: u32, field_type: FieldType, op: Operator, operand: Scalar },
    /// A call of a function on a column.
    Function { function: u32, column: u32 },
    And(Box<Predicate>, Box<Predicate>),
    Or(Box<Predicate>, Box<Predicate>),
    Not(Box<Predicate>),
}

/// What a scalar is worth at planning time: the constant that it evaluates
/// to, and `None` where it depends on a parameter, adds what is no whole
/// number, or leaves the range of 64-bit numbers.
pub open spec fn scalar_value(scalar: Scalar) -> Option<Value>
    decreases scalar,
{
    match scalar {
        Scalar::Constant(value) => Some(value),
        Scalar::Parameter(_) => None,
        Scalar::Sum(left, right) => match (scalar_value(*left), scalar_value(*right)) {
            (Some(Value::Integer(x)), Some(Value::Integer(y))) => if i64::MIN <= x + y
                <= i64::MAX {
                Some(Value::Integer((x + y) as i64))
            } else {
                None
            },
            _ => None,
        },
    }
}

/// What the constants of a predicate make of it: `Some(true)` where they
/// alone make it true of every row, `Some(false)` where they alone make it
/// true of none, and `None` where it depends on a comparison or a function
/// call. A conjunction with a false side is false and a disjunction with a
/// true side is true, whatever the other side is.
pub open spec fn constant_value(predicate: Predicate) -> Option<bool>
    decreases predicate,
{
    match predicate {
        Predicate::Constant(truth) => Some(truth),
        Predicate::Compare { .. } => None,
        Predicate::Function { .. } => None,
        Predicate::And(left, right) => match (constant_value(*left), constant_value(*right)) {
            (Some(false), _) => Some(false),
            (_, Some(false)) => Some(false),
            (Some(true), Some(true)) => Some(true),
            _ => None,
        },
        Predicate::Or(left, right) => match (constant_value(*left), constant_value(*right)) {
            (Some(true), _) => Some(true),
            (_, Some(true)) => Some(true),
            (Some(false), Some(false)) => Some(false),
            _ => None,
        },
        Predicate::Not(inner) => match constant_value(*inner) {
            Some(x) => Some(!x),
            None => None,
        },
    }
}

/// Whether the predicate uses one of the index's search operators.
pub open spec fn uses_search(predicate: Predicate) -> bool
    decreases predicate,
{
    match predicate {
        Predicate::Constant(_) => false,
        Predicate::Compare { op, .. } => op == Operator::Search || op == Operator::Phrase,
        Predicate::Function { .. } => false,
        Predicate::And(left, right) => uses_search(*left) || uses_search(*right),
        Predicate::Or(left, right) => uses_search(*left) || uses_search(*right),
        Predicate::Not(inner) => uses_search(*inner),
    }
}

/// A copy of a constant.
pub fn copy_value(value: &Value) -> (copy: Value)
    ensures
        copy == *value,
{
    match value {
        Value::Integer(number) => Value::Integer(*number),
        Value::Boolean(truth) => Value::Boolean(*truth),
        Value::Text(text) => Value::Text(text.clone()),
    }
}

/// Evaluates a scalar at planning time.
pub fn evaluate(scalar: &Scalar) -> (value: Option<Value>)
    ensures
        value == scalar_value(*scalar),
    decreases scalar,
{
    match scalar {
        Scalar::Constant(value) => Some(copy_value(value)),
        Scalar::Parameter(_) => None,
        Scalar::Sum(left, right) => {
            match (evaluate(left), evaluate(right)) {
                (Some(Value::Integer(x)), Some(Value::Integer(y))) => match x.checked_add(y) {
                    Some(sum) => Some(Value::Integer(sum)),
                    None => None,
                },
                _ => None,
            }
        },
    }
}

/// Evaluates what the constants of a predicate make of it.
pub fn fold_constant(predicate: &Predicate) -> (value: Option<bool>)
    ensures
        value == constant_value(*predicate),
    decreases predicate,
{
    match predicate {
        Predicate::Constant(truth) => Some(*truth),
        Predicate::Compare { .. } => None,
        Predicate::Function { .. } => None,
        Predicate::And(left, right) => match (fold_constant(left), fold_constant(right)) {
            (Some(false), _) => Some(false),
            (_, Some(false)) => Some(false),
            (Some(true), Some(true)) => Some(true),
            _ => None,
        },
        Predicate::Or(left, right) => match (fold_constant(left), fold_constant(right)) {
            (Some(true), _) => Some(true),
            (_, Some(true)) => Some(true),
            (Some(false), Some(false)) => Some(false),
            _ => None,
        },
        Predicate::Not(inner) => match fold_constant(inner) {
            Some(x) => Some(!x),
            None => None,
        },
    }
}

/// Whether the predicate uses one of the index's search operators.
pub fn has_search_operator(predicate: &Predicate) -> (found: bool)
    ensures
        found == uses_search(*predicate),
    decreases predicate,
{
    match predicate {
        Predicate::Constant(_) => false,
        Predicate::Compare { op, .. } => match op {
            Operator::Search => true,
            Operator::Phrase => true,
            _ => false,
        },
        Predicate::Function { .. } => false,
        Predicate::And(left, right) => has_search_operator(left) || has_search_operator(right),
        Predicate::Or(left, right) => has_search_operator(left) || has_search_operator(right),
        Predicate::Not(inner) => has_search_operator(inner),
    }
}

} // verus!
