//! Precedence, associativity, parenthesis handling and parse failures.

use matpars::{TreeParser, Value, VarMap};

fn int_value(n: i64) -> Value {
    Value { num: n, den: 1 }
}

#[test]
fn precedence_times_over_plus() {
    let parsed = TreeParser::parse("2 + 3 * 4").unwrap();
    assert_eq!(parsed.eval().unwrap(), int_value(14));
}

#[test]
fn parentheses_override_precedence() {
    let parsed = TreeParser::parse("(2 + 3) * 4").unwrap();
    assert_eq!(parsed.eval().unwrap(), int_value(20));
}

#[test]
fn power_binds_tighter_than_times() {
    let mut parsed = TreeParser::parse("3 * 2 ^ 2").unwrap();
    assert_eq!(parsed.eval().unwrap(), int_value(12));

    parsed = TreeParser::parse("2 ^ 2 * 3").unwrap();
    assert_eq!(parsed.eval().unwrap(), int_value(12));
}

#[test]
fn whitespace_is_removed_everywhere() {
    let parsed = TreeParser::parse(" \t2 +\n3 * 4 ").unwrap();
    assert_eq!(parsed.eval().unwrap(), int_value(14));
}

#[test]
fn mixed_leaf_is_rejected() {
    let err = TreeParser::parse("12x").unwrap_err();
    assert_eq!(
        err.message(),
        "Malformed expression: cannot classify '12x'"
    );
}

#[test]
fn unmatched_close_paren_is_rejected() {
    let err = TreeParser::parse("2 + 3)").unwrap_err();
    assert_eq!(err.message(), "Malformed expression: unmatched ')'");
}

#[test]
fn unmatched_open_paren_is_not_detected() {
    // An unclosed parenthesis carries no diagnostic of its own: the
    // accumulator simply ends nonzero.
    let parsed = TreeParser::parse("(2 + 3").unwrap();
    assert_eq!(parsed.eval().unwrap(), int_value(5));
}

#[test]
fn oversized_constant_is_rejected() {
    let err = TreeParser::parse("99999999999999999999").unwrap_err();
    assert_eq!(
        err.message(),
        "Malformed expression: constant '99999999999999999999' is too large"
    );
}

#[test]
fn trailing_operator_makes_empty_variable() {
    // An operator at the end leaves an empty right operand, which parses as
    // the variable with the empty name; the collector then defaults it to
    // zero, so the container's own mapping evaluates, while a mapping
    // without it fails.
    let parsed = TreeParser::parse("2 +").unwrap();
    assert_eq!(parsed.eval().unwrap(), int_value(2));

    let err = parsed.eval_for(VarMap::new()).unwrap_err();
    assert_eq!(err.message(), "Value for variable '' not found");
}

#[test]
fn deep_nesting_outranks_everything_outside() {
    let parsed = TreeParser::parse("2 * (3 + (4 - 2))").unwrap();
    assert_eq!(parsed.eval().unwrap(), int_value(10));
}
