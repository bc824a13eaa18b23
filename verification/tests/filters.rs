//! The legacy filter evaluator and its array-form parser.

use maplibre_core::expression::{
    ComparisonLiteral, ExpressionComparisonOp, FilterError, FilterParseError,
    LegacyFilterExpression, Properties, StyleValue,
};

fn props(entries: &[(&str, ComparisonLiteral)]) -> Properties {
    let mut p = Properties::new();
    for (k, v) in entries {
        p.insert(k.to_string(), clone_lit(v));
    }
    p
}

fn clone_lit(v: &ComparisonLiteral) -> ComparisonLiteral {
    match v {
        ComparisonLiteral::Float(b) => ComparisonLiteral::Float(*b),
        ComparisonLiteral::Integer(i) => ComparisonLiteral::Integer(*i),
        ComparisonLiteral::Bool(b) => ComparisonLiteral::Bool(*b),
        ComparisonLiteral::String(s) => ComparisonLiteral::String(s.clone()),
    }
}

#[test]
fn has_is_key_presence() {
    let e = LegacyFilterExpression::Has("x".to_string());
    assert_eq!(e.evaluate(&props(&[("x", ComparisonLiteral::Integer(1))])), Ok(true));
    assert_eq!(e.evaluate(&props(&[("y", ComparisonLiteral::Integer(1))])), Ok(false));
    let n = LegacyFilterExpression::NotHas("x".to_string());
    assert_eq!(n.evaluate(&props(&[])), Ok(true));
    assert_eq!(n.evaluate(&props(&[("x", ComparisonLiteral::Bool(true))])), Ok(false));
}

#[test]
fn comparison_gt_truth_table() {
    let e = LegacyFilterExpression::Comparison(
        ExpressionComparisonOp::Gt,
        "x".to_string(),
        ComparisonLiteral::Integer(5),
    );
    assert_eq!(e.evaluate(&props(&[])), Ok(false));
    assert_eq!(e.evaluate(&props(&[("x", ComparisonLiteral::Integer(10))])), Ok(true));
    assert_eq!(e.evaluate(&props(&[("x", ComparisonLiteral::Integer(3))])), Ok(false));
}

#[test]
fn comparison_mixed_numeric_and_string() {
    let gt = LegacyFilterExpression::Comparison(
        ExpressionComparisonOp::Gt,
        "x".to_string(),
        ComparisonLiteral::Float((5.5f64).to_bits()),
    );
    assert_eq!(gt.evaluate(&props(&[("x", ComparisonLiteral::Integer(6))])), Ok(true));
    assert_eq!(gt.evaluate(&props(&[("x", ComparisonLiteral::Integer(5))])), Ok(false));
    // ordering a string against a number is false rather than an error
    assert_eq!(
        gt.evaluate(&props(&[("x", ComparisonLiteral::String("9".to_string()))])),
        Ok(false)
    );
    let lt = LegacyFilterExpression::Comparison(
        ExpressionComparisonOp::Lt,
        "s".to_string(),
        ComparisonLiteral::String("b".to_string()),
    );
    assert_eq!(lt.evaluate(&props(&[("s", ComparisonLiteral::String("a".to_string()))])), Ok(true));
    assert_eq!(lt.evaluate(&props(&[("s", ComparisonLiteral::String("c".to_string()))])), Ok(false));
}

#[test]
fn equality_is_tagged() {
    let eq = LegacyFilterExpression::Comparison(
        ExpressionComparisonOp::Eq,
        "x".to_string(),
        ComparisonLiteral::Integer(1),
    );
    // a float property value never equals an integer literal
    assert_eq!(eq.evaluate(&props(&[("x", ComparisonLiteral::Float((1.0f64).to_bits()))])), Ok(false));
    assert_eq!(eq.evaluate(&props(&[("x", ComparisonLiteral::Integer(1))])), Ok(true));
}

#[test]
fn combinators_vacuous_and_none() {
    let all = LegacyFilterExpression::All(vec![]);
    assert_eq!(all.evaluate(&props(&[])), Ok(true));
    let any = LegacyFilterExpression::Any(vec![]);
    assert_eq!(any.evaluate(&props(&[])), Ok(false));
    let none = LegacyFilterExpression::NoneOf(vec![
        LegacyFilterExpression::Has("a".to_string()),
        LegacyFilterExpression::Has("b".to_string()),
    ]);
    assert_eq!(none.evaluate(&props(&[])), Ok(true));
    assert_eq!(none.evaluate(&props(&[("a", ComparisonLiteral::Bool(true))])), Ok(false));
    assert_eq!(none.evaluate(&props(&[("b", ComparisonLiteral::Bool(true))])), Ok(false));
}

#[test]
fn membership_on_non_string_is_fatal() {
    let e = LegacyFilterExpression::In("x".to_string(), vec!["a".to_string()]);
    assert_eq!(
        e.evaluate(&props(&[("x", ComparisonLiteral::Integer(1))])),
        Err(FilterError::UnsupportedOperation)
    );
    assert_eq!(e.evaluate(&props(&[])), Ok(false));
    assert_eq!(e.evaluate(&props(&[("x", ComparisonLiteral::String("a".to_string()))])), Ok(true));
    let n = LegacyFilterExpression::NotIn("x".to_string(), vec!["a".to_string()]);
    assert_eq!(n.evaluate(&props(&[("x", ComparisonLiteral::String("b".to_string()))])), Ok(true));
}

fn sv(s: &str) -> StyleValue {
    StyleValue::String(s.to_string())
}

#[test]
fn parse_comparison_filter() {
    let v = StyleValue::Array(vec![sv("=="), sv("class"), sv("water")]);
    match LegacyFilterExpression::parse(v) {
        Ok(LegacyFilterExpression::Comparison(ExpressionComparisonOp::Eq, key, lit)) => {
            assert_eq!(key, "class");
            assert!(matches!(lit, ComparisonLiteral::String(s) if s == "water"));
        },
        other => panic!("unexpected parse: {other:?}"),
    }
}

#[test]
fn parse_nested_combinator() {
    let v = StyleValue::Array(vec![
        sv("all"),
        StyleValue::Array(vec![sv("has"), sv("a")]),
        StyleValue::Array(vec![sv("none"), StyleValue::Array(vec![sv("!has"), sv("b")])]),
    ]);
    match LegacyFilterExpression::parse(v) {
        Ok(LegacyFilterExpression::All(children)) => {
            assert_eq!(children.len(), 2);
            assert!(matches!(&children[0], LegacyFilterExpression::Has(k) if k == "a"));
            assert!(matches!(&children[1], LegacyFilterExpression::NoneOf(cs) if cs.len() == 1));
        },
        other => panic!("unexpected parse: {other:?}"),
    }
}

#[test]
fn parse_membership_filter() {
    let v = StyleValue::Array(vec![sv("!in"), sv("kind"), sv("a"), sv("b")]);
    match LegacyFilterExpression::parse(v) {
        Ok(LegacyFilterExpression::NotIn(key, preds)) => {
            assert_eq!(key, "kind");
            assert_eq!(preds, vec!["a".to_string(), "b".to_string()]);
        },
        other => panic!("unexpected parse: {other:?}"),
    }
}

#[test]
fn parse_errors() {
    assert_eq!(
        LegacyFilterExpression::parse(sv("has")).unwrap_err(),
        FilterParseError::NotAnArray
    );
    assert_eq!(
        LegacyFilterExpression::parse(StyleValue::Array(vec![])).unwrap_err(),
        FilterParseError::EmptyFilter
    );
    assert_eq!(
        LegacyFilterExpression::parse(StyleValue::Array(vec![sv("frobnicate")])).unwrap_err(),
        FilterParseError::InvalidKeyword
    );
    assert_eq!(
        LegacyFilterExpression::parse(StyleValue::Array(vec![sv("has")])).unwrap_err(),
        FilterParseError::MissingProperty
    );
    assert_eq!(
        LegacyFilterExpression::parse(StyleValue::Array(vec![sv("=="), sv("k")])).unwrap_err(),
        FilterParseError::MissingLiteral
    );
    assert_eq!(
        LegacyFilterExpression::parse(StyleValue::Array(vec![
            sv("=="),
            sv("k"),
            StyleValue::Array(vec![]),
        ]))
        .unwrap_err(),
        FilterParseError::InvalidLiteral
    );
    assert_eq!(
        LegacyFilterExpression::parse(StyleValue::Array(vec![
            sv("in"),
            sv("k"),
            StyleValue::Bool(true),
        ]))
        .unwrap_err(),
        FilterParseError::InvalidPredicate
    );
}

#[test]
fn parse_operator_tokens() {
    for (tok, expect) in [
        ("==", ExpressionComparisonOp::Eq),
        ("!=", ExpressionComparisonOp::Neq),
        (">", ExpressionComparisonOp::Gt),
        (">=", ExpressionComparisonOp::Geq),
        ("<", ExpressionComparisonOp::Lt),
        ("<=", ExpressionComparisonOp::Leq),
    ] {
        assert_eq!(ExpressionComparisonOp::try_from(tok), Some(expect));
    }
    assert_eq!(ExpressionComparisonOp::try_from("~="), None);
}

#[test]
fn property_insert_overrides() {
    let mut p = Properties::new();
    p.insert("k".to_string(), ComparisonLiteral::Integer(1));
    p.insert("k".to_string(), ComparisonLiteral::Integer(2));
    let e = LegacyFilterExpression::Comparison(
        ExpressionComparisonOp::Eq,
        "k".to_string(),
        ComparisonLiteral::Integer(2),
    );
    assert_eq!(e.evaluate(&p), Ok(true));
}

#[test]
fn non_strict_orders() {
    let geq = LegacyFilterExpression::Comparison(
        ExpressionComparisonOp::Geq,
        "x".to_string(),
        ComparisonLiteral::Integer(5),
    );
    assert_eq!(geq.evaluate(&props(&[("x", ComparisonLiteral::Integer(5))])), Ok(true));
    assert_eq!(geq.evaluate(&props(&[("x", ComparisonLiteral::Integer(4))])), Ok(false));
    let leq = LegacyFilterExpression::Comparison(
        ExpressionComparisonOp::Leq,
        "x".to_string(),
        ComparisonLiteral::Float((5.0f64).to_bits()),
    );
    assert_eq!(leq.evaluate(&props(&[("x", ComparisonLiteral::Integer(5))])), Ok(true));
    assert_eq!(leq.evaluate(&props(&[("x", ComparisonLiteral::Integer(6))])), Ok(false));
    let neq = LegacyFilterExpression::Comparison(
        ExpressionComparisonOp::Neq,
        "x".to_string(),
        ComparisonLiteral::Bool(true),
    );
    assert_eq!(neq.evaluate(&props(&[("x", ComparisonLiteral::Bool(true))])), Ok(false));
    assert_eq!(neq.evaluate(&props(&[("x", ComparisonLiteral::Bool(false))])), Ok(true));
}
