use pg_search::filter_query::{bound_is_open, Binding, Bound};
use pg_search::predicate::{FieldType, Operator, Scalar, Value};
use pg_search::scan_path::copy_columns;
use pg_search::text::{contains_text, push_all, push_digits, same_text, slice_of};
use pg_search::translate::{bind, is_fitting, is_supported};
use pg_search::user_dict::nothing_requested;

fn chars(text: &str) -> Vec<char> {
    text.chars().collect()
}

#[test]
fn digits_are_appended() {
    let mut out = chars("n=");
    push_digits(&mut out, 0);
    push_digits(&mut out, 905);
    assert_eq!(out, chars("n=0905"));
    let mut large = Vec::new();
    push_digits(&mut large, u128::MAX);
    assert_eq!(large, chars(&u128::MAX.to_string()));
}

#[test]
fn texts_are_compared_and_copied() {
    assert!(same_text(&chars("词条"), &chars("词条")));
    assert!(same_text(&chars(""), &chars("")));
    assert!(!same_text(&chars("abc"), &chars("abd")));
    assert!(!same_text(&chars("abc"), &chars("ab")));
    assert_eq!(slice_of(&chars("hello"), 1, 4), chars("ell"));
    assert_eq!(slice_of(&chars("hello"), 2, 2), chars(""));
    assert_eq!(slice_of(&chars("hello"), 0, 5), chars("hello"));
    let mut out = chars("ab");
    push_all(&mut out, &chars("cd"));
    push_all(&mut out, &chars(""));
    assert_eq!(out, chars("abcd"));
}

#[test]
fn words_are_looked_up() {
    let wanted = vec![chars("foo"), chars("bar")];
    assert!(contains_text(&wanted, &chars("bar")));
    assert!(!contains_text(&wanted, &chars("ba")));
    assert!(!contains_text(&Vec::new(), &chars("foo")));
    assert!(nothing_requested(&Vec::new()));
    assert!(nothing_requested(&vec![None, None]));
    assert!(!nothing_requested(&vec![None, Some(String::new())]));
}

#[test]
fn operands_are_bound() {
    assert_eq!(bind(&Scalar::Parameter(4)), Some(Binding::Placeholder(4)));
    assert_eq!(
        bind(&Scalar::Constant(Value::Boolean(false))),
        Some(Binding::Literal(Value::Boolean(false)))
    );
    let sum = Scalar::Sum(
        Box::new(Scalar::Constant(Value::Integer(-2))),
        Box::new(Scalar::Constant(Value::Integer(2))),
    );
    assert_eq!(bind(&sum), Some(Binding::Literal(Value::Integer(0))));
    let waiting =
        Scalar::Sum(Box::new(Scalar::Parameter(1)), Box::new(Scalar::Constant(Value::Integer(2))));
    assert_eq!(bind(&waiting), None);
}

#[test]
fn operators_depend_on_the_field_type() {
    let operators = [
        Operator::Equal,
        Operator::NotEqual,
        Operator::Less,
        Operator::LessEqual,
        Operator::Greater,
        Operator::GreaterEqual,
        Operator::Search,
        Operator::Phrase,
    ];
    let supported = |field_type: FieldType| -> Vec<bool> {
        operators.iter().map(|op| is_supported(field_type, *op)).collect()
    };
    assert_eq!(
        supported(FieldType::Text),
        vec![false, false, false, false, false, false, true, true]
    );
    assert_eq!(
        supported(FieldType::Integer),
        vec![true, true, true, true, true, true, false, false]
    );
    assert_eq!(
        supported(FieldType::Boolean),
        vec![true, true, false, false, false, false, false, false]
    );
    assert_eq!(supported(FieldType::Unindexed), vec![false; 8]);
}

#[test]
fn constants_must_have_the_type_of_the_field() {
    let text = Binding::Literal(Value::Text("a".to_string()));
    let number = Binding::Literal(Value::Integer(1));
    let truth = Binding::Literal(Value::Boolean(true));
    let later = Binding::Placeholder(1);
    for (field_type, fitting) in [
        (FieldType::Text, [true, false, false, true]),
        (FieldType::Integer, [false, true, false, true]),
        (FieldType::Boolean, [false, false, true, true]),
        (FieldType::Unindexed, [false, false, false, true]),
    ] {
        assert_eq!(is_fitting(field_type, &text), fitting[0]);
        assert_eq!(is_fitting(field_type, &number), fitting[1]);
        assert_eq!(is_fitting(field_type, &truth), fitting[2]);
        assert_eq!(is_fitting(field_type, &later), fitting[3]);
    }
}

#[test]
fn bounds_and_columns() {
    assert!(!bound_is_open(&Bound::Unbounded));
    assert!(bound_is_open(&Bound::Inclusive(Binding::Placeholder(1))));
    assert!(bound_is_open(&Bound::Exclusive(Binding::Placeholder(1))));
    assert!(!bound_is_open(&Bound::Inclusive(Binding::Literal(Value::Integer(1)))));
    assert!(!bound_is_open(&Bound::Exclusive(Binding::Literal(Value::Integer(1)))));
    assert_eq!(copy_columns(&vec![3, 1, 2]), vec![3, 1, 2]);
    assert_eq!(copy_columns(&Vec::new()), Vec::<u32>::new());
}
