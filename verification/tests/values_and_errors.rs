//! Exact arithmetic failures, and the evaluator's defensive handling of
//! hand-built malformed trees.

use matpars::{eval_tree, Operator, Tree, Type, Value, VarMap};

fn leaf(n: i64, id: usize) -> Tree {
    Tree::new(Type::Constant(Value { num: n, den: 1 }), None, None, id)
}

#[test]
fn division_by_zero_fails() {
    let parsed = matpars::TreeParser::parse("1 / 0").unwrap();
    let err = parsed.eval().unwrap_err();
    assert_eq!(
        err.message(),
        "Evaluation failed, a '/' operation divides by zero."
    );
}

#[test]
fn fractional_exponent_fails() {
    let parsed = matpars::TreeParser::parse("4 ^ x").unwrap();
    let mut map = VarMap::new();
    map.put("x", Value { num: 1, den: 2 });
    let err = parsed.eval_for(map).unwrap_err();
    assert_eq!(
        err.message(),
        "Evaluation failed, a '^' operation has a fractional exponent."
    );
}

#[test]
fn overflow_fails() {
    let parsed = matpars::TreeParser::parse("9000000000000000000 + 9000000000000000000").unwrap();
    let err = parsed.eval().unwrap_err();
    assert_eq!(err.message(), "Evaluation failed, a '+' operation overflows.");
}

#[test]
fn zero_to_the_zero_is_one() {
    let parsed = matpars::TreeParser::parse("0 ^ 0").unwrap();
    assert_eq!(parsed.eval().unwrap(), Value { num: 1, den: 1 });
}

#[test]
fn missing_operands_are_reported_first_found() {
    let none_at_all = Tree::new(Type::Operator(Operator::Plus), None, None, 0);
    let err = eval_tree(&none_at_all, &VarMap::new()).unwrap_err();
    assert_eq!(
        err.message(),
        "Evaluation failed, a '+' operation has no operands."
    );

    let no_left = Tree::new(Type::Operator(Operator::Times), None, Some(leaf(2, 0)), 1);
    let err = eval_tree(&no_left, &VarMap::new()).unwrap_err();
    assert_eq!(
        err.message(),
        "Evaluation failed, a '*' operation has no left operand."
    );

    let no_right = Tree::new(Type::Operator(Operator::Minus), Some(leaf(2, 0)), None, 1);
    let err = eval_tree(&no_right, &VarMap::new()).unwrap_err();
    assert_eq!(
        err.message(),
        "Evaluation failed, a '-' operation has no right operand."
    );
}

#[test]
fn left_failure_reported_before_right() {
    // Both sides would fail; the left one is evaluated first and its
    // failure propagates.
    let left = Tree::new(Type::Variable("a".to_string()), None, None, 0);
    let right = Tree::new(Type::Variable("b".to_string()), None, None, 1);
    let both = Tree::new(Type::Operator(Operator::Plus), Some(left), Some(right), 2);
    let err = eval_tree(&both, &VarMap::new()).unwrap_err();
    assert_eq!(err.message(), "Value for variable 'a' not found");
}

#[test]
fn unreduced_results_compare_by_quotient() {
    let parsed = matpars::TreeParser::parse("x / 10").unwrap();
    let mut map = VarMap::new();
    map.put("x", Value { num: 5, den: 1 });
    let y = parsed.eval_for(map).unwrap();
    // The result is not reduced to lowest terms.
    assert_eq!(y, Value { num: 5, den: 10 });
    assert_eq!(y.num as f64 / y.den as f64, 0.5f64);
}
