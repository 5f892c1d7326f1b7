//! Translating a predicate of the host planner into a query of the index.

use vstd::prelude::*;
use crate::filter_query::{Binding, Bound, FilterQuery};
use crate::predicate::{
    constant_value, evaluate, fold_constant, scalar_value, FieldType, Operator, Predicate, Scalar,
    Value,
};

verus! {

/// Why the index cannot answer a predicate. This is no failure of the
/// query: the planner goes on with its own scan.
#[derive(Debug, Clone, Copy, PartialEq, Eq, Structural)]
pub enum UnsupportedPredicate {
    /// A function is called on a column.
    FunctionCall,
    /// A comparison reads a column that is not in the index.
    UnindexedColumn,
    /// The index has no clause for the operator on a field of this type.
    Operator,
    /// The constant is not of the field's type.
    DataType,
    /// The right-hand side is neither a parameter nor worth a constant at
    /// planning time.
    Expression,
}

/// What stands in the clause for the right-hand side of a comparison: a
/// placeholder for a parameter, the constant that any other scalar is worth,
/// and `None` where it is worth none.
pub open spec fn binding_of(operand: Scalar) -> Option<Binding> {
    match operand {
        Scalar::Parameter(number) => Some(Binding::Placeholder(number)),
        _ => match scalar_value(operand) {
            Some(value) => Some(Binding::Literal(value)),
            None => None,
        },
    }
}

/// Whether the index has a clause for the operator on a field of this type.
pub open spec fn supports(field_type: FieldType, op: Operator) -> bool {
    match field_type {
        FieldType::Text => op == Operator::Search || op == Operator::Phrase,
        FieldType::Integer => op != Operator::Search && op != Operator::Phrase,
        FieldType::Boolean => op == Operator::Equal || op == Operator::NotEqual,
        FieldType::Unindexed => false,
    }
}

/// Whether the value can stand in a clause on a field of this type. A
/// placeholder always can: its value comes later.
pub open spec fn fits(field_type: FieldType, binding: Binding) -> bool {
    match binding {
        Binding::Placeholder(_) => true,
        Binding::Literal(Value::Text(_)) => field_type == FieldType::Text,
        Binding::Literal(Value::Integer(_)) => field_type == FieldType::Integer,
        Binding::Literal(Value::Boolean(_)) => field_type == FieldType::Boolean,
    }
}

/// The clause for a comparison of a column with a value.
pub open spec fn clause(column: u32, field_type: FieldType, op: Operator, binding: Binding)
    -> FilterQuery {
    match op {
        Operator::Equal => FilterQuery::Term { field: column, field_type, value: binding },
        Operator::Search => FilterQuery::Term { field: column, field_type, value: binding },
        Operator::NotEqual => FilterQuery::Not(
            Box::new(FilterQuery::Term { field: column, field_type, value: binding }),
        ),
        Operator::Phrase => FilterQuery::Phrase { field: column, text: binding },
        Operator::Less => FilterQuery::Range {
            field: column,
            lower: Bound::Unbounded,
            upper: Bound::Exclusive(binding),
        },
        Operator::LessEqual => FilterQuery::Range {
            field: column,
            lower: Bound::Unbounded,
            upper: Bound::Inclusive(binding),
        },
        Operator::Greater => FilterQuery::Range {
            field: column,
            lower: Bound::Exclusive(binding),
            upper: Bound::Unbounded,
        },
        Operator::GreaterEqual => FilterQuery::Range {
            field: column,
            lower: Bound::Inclusive(binding),
            upper: Bound::Unbounded,
        },
    }
}

/// The translation of a comparison, or the reason why it has none.
pub open spec fn leaf_query(column: u32, field_type: FieldType, op: Operator, operand: Scalar)
    -> Result<FilterQuery, UnsupportedPredicate> {
    if field_type == FieldType::Unindexed {
        Err(UnsupportedPredicate::UnindexedColumn)
    } else if !supports(field_type, op) {
        Err(UnsupportedPredicate::Operator)
    } else {
        match binding_of(operand) {
            None => Err(UnsupportedPredicate::Expression),
            Some(binding) => if fits(field_type, binding) {
                Ok(clause(column, field_type, op, binding))
            } else {
                Err(UnsupportedPredicate::DataType)
            },
        }
    }
}

/// The translation of a predicate, or the reason why it has none.
///
/// A predicate that its constants decide is evaluated first and becomes
/// the query that matches all documents, or none. Otherwise a
/// comparison becomes its clause, the boolean nodes become the boolean
/// nodes of the query, and what cannot be expressed fails; of two failures
/// the left one is reported.
pub open spec fn translation(predicate: Predicate) -> Result<FilterQuery, UnsupportedPredicate>
    decreases predicate,
{
    match constant_value(predicate) {
        Some(truth) => Ok(if truth { FilterQuery::All } else { FilterQuery::Empty }),
        None => match predicate {
            Predicate::Constant(truth) => Ok(
                if truth { FilterQuery::All } else { FilterQuery::Empty },
            ),
            Predicate::Compare { column, field_type, op, operand } => leaf_query(
                column,
                field_type,
                op,
                operand,
            ),
            Predicate::Function { .. } => Err(UnsupportedPredicate::FunctionCall),
            Predicate::And(left, right) => match (translation(*left), translation(*right)) {
                (Err(reason), _) => Err(reason),
                (_, Err(reason)) => Err(reason),
                (Ok(first), Ok(second)) => Ok(FilterQuery::And(Box::new(first), Box::new(second))),
            },
            Predicate::Or(left, right) => match (translation(*left), translation(*right)) {
                (Err(reason), _) => Err(reason),
                (_, Err(reason)) => Err(reason),
                (Ok(first), Ok(second)) => Ok(FilterQuery::Or(Box::new(first), Box::new(second))),
            },
            Predicate::Not(inner) => match translation(*inner) {
                Err(reason) => Err(reason),
                Ok(query) => Ok(FilterQuery::Not(Box::new(query))),
            },
        },
    }
}

/// What stands in the clause for the right-hand side of a comparison.
pub fn bind(operand: &Scalar) -> (binding: Option<Binding>)
    ensures
        binding == binding_of(*operand),
{
    match operand {
        Scalar::Parameter(number) => Some(Binding::Placeholder(*number)),
        _ => match evaluate(operand) {
            Some(value) => Some(Binding::Literal(value)),
            None => None,
        },
    }
}

/// Whether the index has a clause for the operator on a field of this type.
pub fn is_supported(field_type: FieldType, op: Operator) -> (supported: bool)
    ensures
        supported == supports(field_type, op),
{
    match field_type {
        FieldType::Text => match op {
            Operator::Search => true,
            Operator::Phrase => true,
            _ => false,
        },
        FieldType::Integer => match op {
            Operator::Search => false,
            Operator::Phrase => false,
            _ => true,
        },
        FieldType::Boolean => match op {
            Operator::Equal => true,
            Operator::NotEqual => true,
            _ => false,
        },
        FieldType::Unindexed => false,
    }
}

/// Whether the value can stand in a clause on a field of this type.
pub fn is_fitting(field_type: FieldType, binding: &Binding) -> (fitting: bool)
    ensures
        fitting == fits(field_type, *binding),
{
    match binding {
        Binding::Placeholder(_) => true,
        Binding::Literal(Value::Text(_)) => match field_type {
            FieldType::Text => true,
            _ => false,
        },
        Binding::Literal(Value::Integer(_)) => match field_type {
            FieldType::Integer => true,
            _ => false,
        },
        Binding::Literal(Value::Boolean(_)) => match field_type {
            FieldType::Boolean => true,
            _ => false,
        },
    }
}

/// Translates a comparison.
pub fn translate_comparison(
    column: u32,
    field_type: FieldType,
    op: Operator,
    operand: &Scalar,
) -> (result: Result<FilterQuery, UnsupportedPredicate>)
    ensures
        result == leaf_query(column, field_type, op, *operand),
{
    match field_type {
        FieldType::Unindexed => {
            return Err(UnsupportedPredicate::UnindexedColumn);
        },
        _ => {},
    }
    if !is_supported(field_type, op) {
        return Err(UnsupportedPredicate::Operator);
    }
    let binding = match bind(operand) {
        None => {
            return Err(UnsupportedPredicate::Expression);
        },
        Some(binding) => binding,
    };
    if !is_fitting(field_type, &binding) {
        return Err(UnsupportedPredicate::DataType);
    }
    let field = column;
    Ok(
        match op {
            Operator::Equal => FilterQuery::Term { field, field_type, value: binding },
            Operator::Search => FilterQuery::Term { field, field_type, value: binding },
            Operator::NotEqual => FilterQuery::Not(
                Box::new(FilterQuery::Term { field, field_type, value: binding }),
            ),
            Operator::Phrase => FilterQuery::Phrase { field, text: binding },
            Operator::Less => FilterQuery::Range {
                field,
                lower: Bound::Unbounded,
                upper: Bound::Exclusive(binding),
            },
            Operator::LessEqual => FilterQuery::Range {
                field,
                lower: Bound::Unbounded,
                upper: Bound::Inclusive(binding),
            },
            Operator::Greater => FilterQuery::Range {
                field,
                lower: Bound::Exclusive(binding),
                upper: Bound::Unbounded,
            },
            Operator::GreaterEqual => FilterQuery::Range {
                field,
                lower: Bound::Inclusive(binding),
                upper: Bound::Unbounded,
            },
        },
    )
}

/// Translates a predicate into a query of the index.
///
/// Fails where the index cannot express the predicate; the caller then
/// leaves the predicate to the planner's own scan. The result depends on
/// the predicate alone, so translating it again gives the same query.
pub fn translate(predicate: &Predicate) -> (result: Result<FilterQuery, UnsupportedPredicate>)
    ensures
        result == translation(*predicate),
    decreases predicate,
{
    match fold_constant(predicate) {
        Some(true) => {
            return Ok(FilterQuery::All);
        },
        Some(false) => {
            return Ok(FilterQuery::Empty);
        },
        None => {},
    }
    match predicate {
        Predicate::Constant(truth) => Ok(if *truth { FilterQuery::All } else { FilterQuery::Empty }),
        Predicate::Compare { column, field_type, op, operand } => translate_comparison(
            *column,
            *field_type,
            *op,
            operand,
        ),
        Predicate::Function { .. } => Err(UnsupportedPredicate::FunctionCall),
        Predicate::And(left, right) => {
            let first = translate(left);
            let second = translate(right);
            match (first, second) {
                (Err(reason), _) => Err(reason),
                (_, Err(reason)) => Err(reason),
                (Ok(first), Ok(second)) => Ok(FilterQuery::And(Box::new(first), Box::new(second))),
            }
        },
        Predicate::Or(left, right) => {
            let first = translate(left);
            let second = translate(right);
            match (first, second) {
                (Err(reason), _) => Err(reason),
                (_, Err(reason)) => Err(reason),
                (Ok(first), Ok(second)) => Ok(FilterQuery::Or(Box::new(first), Box::new(second))),
            }
        },
        Predicate::Not(inner) => match translate(inner) {
            Err(reason) => Err(reason),
            Ok(query) => Ok(FilterQuery::Not(Box::new(query))),
        },
    }
}

/// Two constants with the same content.
pub open spec fn same_value(a: Value, b: Value) -> bool {
    match (a, b) {
        (Value::Integer(x), Value::Integer(y)) => x == y,
        (Value::Boolean(x), Value::Boolean(y)) => x == y,
        (Value::Text(x), Value::Text(y)) => x@ == y@,
        _ => false,
    }
}

/// Two scalars of the same structure and content.
pub open spec fn same_scalar(a: Scalar, b: Scalar) -> bool
    decreases a,
{
    match (a, b) {
        (Scalar::Constant(x), Scalar::Constant(y)) => same_value(x, y),
        (Scalar::Parameter(m), Scalar::Parameter(n)) => m == n,
        (Scalar::Sum(l1, r1), Scalar::Sum(l2, r2)) => same_scalar(*l1, *l2) && same_scalar(
            *r1,
            *r2,
        ),
        _ => false,
    }
}

/// Two predicates of the same structure and content.
pub open spec fn same_predicate(a: Predicate, b: Predicate) -> bool
    decreases a,
{
    match (a, b) {
        (Predicate::Constant(x), Predicate::Constant(y)) => x == y,
        (
            Predicate::Compare { column: c1, field_type: f1, op: o1, operand: s1 },
            Predicate::Compare { column: c2, field_type: f2, op: o2, operand: s2 },
        ) => c1 == c2 && f1 == f2 && o1 == o2 && same_scalar(s1, s2),
        (
            Predicate::Function { function: f1, column: c1 },
            Predicate::Function { function: f2, column: c2 },
        ) => f1 == f2 && c1 == c2,
        (Predicate::And(l1, r1), Predicate::And(l2, r2)) => same_predicate(*l1, *l2)
            && same_predicate(*r1, *r2),
        (Predicate::Or(l1, r1), Predicate::Or(l2, r2)) => same_predicate(*l1, *l2)
            && same_predicate(*r1, *r2),
        (Predicate::Not(x), Predicate::Not(y)) => same_predicate(*x, *y),
        _ => false,
    }
}

/// Two clause values with the same content.
pub open spec fn same_binding(a: Binding, b: Binding) -> bool {
    match (a, b) {
        (Binding::Literal(x), Binding::Literal(y)) => same_value(x, y),
        (Binding::Placeholder(m), Binding::Placeholder(n)) => m == n,
        _ => false,
    }
}

/// Two bounds with the same content.
pub open spec fn same_bound(a: Bound, b: Bound) -> bool {
    match (a, b) {
        (Bound::Unbounded, Bound::Unbounded) => true,
        (Bound::Inclusive(x), Bound::Inclusive(y)) => same_binding(x, y),
        (Bound::Exclusive(x), Bound::Exclusive(y)) => same_binding(x, y),
        _ => false,
    }
}

/// Two queries of the same structure and content.
pub open spec fn same_query(a: FilterQuery, b: FilterQuery) -> bool
    decreases a,
{
    match (a, b) {
        (FilterQuery::All, FilterQuery::All) => true,
        (FilterQuery::Empty, FilterQuery::Empty) => true,
        (
            FilterQuery::Term { field: f1, field_type: t1, value: v1 },
            FilterQuery::Term { field: f2, field_type: t2, value: v2 },
        ) => f1 == f2 && t1 == t2 && same_binding(v1, v2),
        (
            FilterQuery::Phrase { field: f1, text: v1 },
            FilterQuery::Phrase { field: f2, text: v2 },
        ) => f1 == f2 && same_binding(v1, v2),
        (
            FilterQuery::Range { field: f1, lower: l1, upper: u1 },
            FilterQuery::Range { field: f2, lower: l2, upper: u2 },
        ) => f1 == f2 && same_bound(l1, l2) && same_bound(u1, u2),
        (FilterQuery::And(l1, r1), FilterQuery::And(l2, r2)) => same_query(*l1, *l2) && same_query(
            *r1,
            *r2,
        ),
        (FilterQuery::Or(l1, r1), FilterQuery::Or(l2, r2)) => same_query(*l1, *l2) && same_query(
            *r1,
            *r2,
        ),
        (FilterQuery::Not(x), FilterQuery::Not(y)) => same_query(*x, *y),
        _ => false,
    }
}

/// Two outcomes of a translation that agree: the same failure, or queries
/// of the same structure and content.
pub open spec fn same_outcome(
    a: Result<FilterQuery, UnsupportedPredicate>,
    b: Result<FilterQuery, UnsupportedPredicate>,
) -> bool {
    match (a, b) {
        (Ok(x), Ok(y)) => same_query(x, y),
        (Err(x), Err(y)) => x == y,
        _ => false,
    }
}

/// Scalars of the same structure and content are worth the same.
pub proof fn lemma_same_scalar_value(a: Scalar, b: Scalar)
    requires
        same_scalar(a, b),
    ensures
        match (scalar_value(a), scalar_value(b)) {
            (Some(x), Some(y)) => same_value(x, y),
            (None, None) => true,
            _ => false,
        },
    decreases a,
{
    match (a, b) {
        (Scalar::Sum(l1, r1), Scalar::Sum(l2, r2)) => {
            lemma_same_scalar_value(*l1, *l2);
            lemma_same_scalar_value(*r1, *r2);
        },
        _ => {},
    }
}

/// Predicates of the same structure and content are worth the same where
/// they are constant.
pub proof fn lemma_same_constant(a: Predicate, b: Predicate)
    requires
        same_predicate(a, b),
    ensures
        constant_value(a) == constant_value(b),
    decreases a,
{
    match (a, b) {
        (Predicate::And(l1, r1), Predicate::And(l2, r2)) => {
            lemma_same_constant(*l1, *l2);
            lemma_same_constant(*r1, *r2);
        },
        (Predicate::Or(l1, r1), Predicate::Or(l2, r2)) => {
            lemma_same_constant(*l1, *l2);
            lemma_same_constant(*r1, *r2);
        },
        (Predicate::Not(x), Predicate::Not(y)) => {
            lemma_same_constant(*x, *y);
        },
        _ => {},
    }
}

/// Translation is deterministic: predicates of the same structure and
/// content have the same translation, be it a failure or a query.
pub proof fn lemma_translate_deterministic(a: Predicate, b: Predicate)
    requires
        same_predicate(a, b),
    ensures
        same_outcome(translation(a), translation(b)),
    decreases a,
{
    reveal_with_fuel(same_query, 3);
    lemma_same_constant(a, b);
    if constant_value(a) is None {
        match (a, b) {
            (
                Predicate::Compare { operand: s1, .. },
                Predicate::Compare { operand: s2, .. },
            ) => {
                lemma_same_scalar_value(s1, s2);
            },
            (Predicate::And(l1, r1), Predicate::And(l2, r2)) => {
                lemma_translate_deterministic(*l1, *l2);
                lemma_translate_deterministic(*r1, *r2);
            },
            (Predicate::Or(l1, r1), Predicate::Or(l2, r2)) => {
                lemma_translate_deterministic(*l1, *l2);
                lemma_translate_deterministic(*r1, *r2);
            },
            (Predicate::Not(x), Predicate::Not(y)) => {
                lemma_translate_deterministic(*x, *y);
            },
            _ => {},
        }
    }
}

} // verus!
