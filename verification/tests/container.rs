//! The container: the closed variable universe of `set_variable`, and
//! evaluation against the stored mapping.

use matpars::{TreeParser, Value};

fn whole(n: i64) -> Value {
    Value { num: n, den: 1 }
}

#[test]
fn set_unknown_variable_fails_listing_known_names() {
    let mut parsed = TreeParser::parse("x + y").unwrap();
    let err = parsed.set_variable("z", whole(1)).unwrap_err();
    assert_eq!(
        err.message(),
        "Cannot set variable 'z', expected one of: [\"x\", \"y\"]"
    );
}

#[test]
fn set_known_variable_updates_evaluation() {
    let mut parsed = TreeParser::parse("x + 1").unwrap();

    // Variables default to zero at parse time.
    assert_eq!(parsed.eval().unwrap(), whole(1));

    parsed.set_variable("x", whole(41)).unwrap();
    assert_eq!(parsed.eval().unwrap(), whole(42));

    parsed.set_variable("x", whole(9)).unwrap();
    assert_eq!(parsed.eval().unwrap(), whole(10));
}

#[test]
fn set_variable_never_adds_keys() {
    let mut parsed = TreeParser::parse("x * x").unwrap();
    assert!(parsed.set_variable("x", whole(3)).is_ok());
    assert!(parsed.set_variable("y", whole(3)).is_err());
    // The rejected name is still not assignable afterwards.
    assert!(parsed.set_variable("y", whole(4)).is_err());
    assert_eq!(parsed.eval().unwrap(), whole(9));
}

#[test]
fn duplicate_names_collapse_to_one_entry() {
    let parsed = TreeParser::parse("x + x + x").unwrap();
    assert_eq!(parsed.variables.keys().len(), 1);
    assert_eq!(parsed.eval().unwrap(), whole(0));
}

#[test]
fn variables_are_collected_in_traversal_order() {
    let mut parsed = TreeParser::parse("a + b * c").unwrap();
    let keys = parsed.variables.keys();
    let names: Vec<&str> = keys.iter().map(|k| k.as_str()).collect();
    assert_eq!(names, ["a", "b", "c"]);

    let err = parsed.set_variable("d", whole(1)).unwrap_err();
    assert_eq!(
        err.message(),
        "Cannot set variable 'd', expected one of: [\"a\", \"b\", \"c\"]"
    );
}
