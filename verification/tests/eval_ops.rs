//! Evaluation of parsed expressions, one test per operator.

use matpars::{TreeParser, Value, VarMap};

fn values(pairs: &[(&str, Value)]) -> VarMap {
    let mut map = VarMap::new();
    for (name, value) in pairs {
        map.put(name, *value);
    }
    map
}

fn whole_number(n: i64) -> Value {
    Value { num: n, den: 1 }
}

fn as_f64(v: Value) -> f64 {
    v.num as f64 / v.den as f64
}

#[test]
fn plus() {
    let parsed = TreeParser::parse("10 + x").unwrap();

    let y = parsed.eval_for(values(&[("x", whole_number(10))])).unwrap();
    assert_eq!(y, whole_number(20));

    let y = parsed.eval_for(values(&[("x", whole_number(4))])).unwrap();
    assert_eq!(y, whole_number(14));
}

#[test]
fn minus() {
    let parsed = TreeParser::parse("100 - x - 10").unwrap();

    let y = parsed.eval_for(values(&[("x", whole_number(20))])).unwrap();
    assert_eq!(y, whole_number(70));

    let y = parsed.eval_for(values(&[("x", whole_number(1))])).unwrap();
    assert_eq!(y, whole_number(89));
}

#[test]
fn times() {
    let parsed = TreeParser::parse("4 * x").unwrap();

    let y = parsed.eval_for(values(&[("x", whole_number(2))])).unwrap();
    assert_eq!(y, whole_number(8));

    let y = parsed.eval_for(values(&[("x", whole_number(110))])).unwrap();
    assert_eq!(y, whole_number(440));
}

#[test]
fn division() {
    let parsed = TreeParser::parse("x / 10").unwrap();

    let y = parsed.eval_for(values(&[("x", whole_number(100))])).unwrap();
    assert_eq!(as_f64(y), 10.0f64);
}

#[test]
fn power() {
    let parsed = TreeParser::parse("2 ^ x").unwrap();

    let y = parsed.eval_for(values(&[("x", whole_number(2))])).unwrap();
    assert_eq!(y, whole_number(4));

    let y = parsed.eval_for(values(&[("x", whole_number(4))])).unwrap();
    assert_eq!(y, whole_number(16));
}

#[test]
fn unknown_variable_fails() {
    let parsed = TreeParser::parse("y").unwrap();

    let err = parsed.eval_for(VarMap::new()).unwrap_err();
    assert_eq!(err.message(), "Value for variable 'y' not found");
}

#[test]
fn division_by_variable_fraction() {
    let parsed = TreeParser::parse("10 / x").unwrap();

    let y = parsed.eval_for(values(&[("x", whole_number(4))])).unwrap();
    assert_eq!(as_f64(y), 2.5f64);
}

#[test]
fn negative_exponent_inverts() {
    let parsed = TreeParser::parse("2 ^ x").unwrap();

    let y = parsed
        .eval_for(values(&[("x", Value { num: -2, den: 1 })]))
        .unwrap();
    assert_eq!(as_f64(y), 0.25f64);
}
