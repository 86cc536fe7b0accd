use buzz::json::Json;
use buzz::operation::Operation;

fn json(text: &str) -> Json {
    Json::parse(text).unwrap()
}

#[test]
fn operators_are_read_by_name() {
    assert_eq!(Operation::parse("or"), Some(Operation::Or));
    assert_eq!(Operation::parse("and"), Some(Operation::And));
    for name in ["", "Or", "AND", "or ", "xor", "+", "an", "andd"] {
        assert_eq!(Operation::parse(name), None, "{name}");
    }
}

#[test]
fn reading_undoes_writing() {
    for operation in [Operation::Or, Operation::And] {
        assert_eq!(Operation::parse(operation.to_text()), Some(operation));
    }
    assert_eq!(Operation::Or.to_text(), "or");
    assert_eq!(Operation::And.to_text(), "and");
}

#[test]
fn conjunction_needs_two_truths() {
    for (left, right, result) in [
        ("true", "true", "true"),
        ("true", "false", "false"),
        ("false", "false", "false"),
        ("1", "true", "true"),
        ("2.5", "-3", "true"),
        ("0", "true", "false"),
        ("-0.0", "1", "false"),
        ("null", "true", "null"),
        ("false", "null", "null"),
        ("\"x\"", "1", "null"),
        ("[true]", "{}", "null"),
    ] {
        let applied = Operation::And.apply(json(left), json(right));
        assert_eq!(applied, json(result), "{left} and {right}");
    }
}

#[test]
fn disjunction_takes_one_truth() {
    for (left, right, result) in [
        ("true", "true", "true"),
        ("true", "false", "true"),
        ("false", "false", "false"),
        ("0", "0.0", "false"),
        ("0", "0.5", "true"),
        ("null", "true", "true"),
        ("1", "\"x\"", "true"),
        ("null", "null", "false"),
        ("\"true\"", "[1]", "false"),
        ("{}", "-1", "true"),
    ] {
        let applied = Operation::Or.apply(json(left), json(right));
        assert_eq!(applied, json(result), "{left} or {right}");
    }
}

#[test]
fn operators_commute() {
    let samples = ["null", "true", "false", "0", "1", "-0.0", "0.5", "\"\"", "[]", "{}"];
    for operation in [Operation::Or, Operation::And] {
        for left in samples {
            for right in samples {
                assert_eq!(
                    operation.apply(json(left), json(right)),
                    operation.apply(json(right), json(left)),
                );
            }
        }
    }
}

#[test]
fn operators_do_not_tell_zeros_apart() {
    for other in ["null", "true", "false", "1"] {
        for operation in [Operation::Or, Operation::And] {
            assert_eq!(
                operation.apply(json("0.0"), json(other)),
                operation.apply(json("-0.0"), json(other)),
            );
        }
    }
}

#[test]
fn operators_on_booleans_are_those_of_logic() {
    for a in [false, true] {
        for b in [false, true] {
            assert_eq!(Operation::And.apply(Json::Bool(a), Json::Bool(b)), Json::Bool(a && b));
            assert_eq!(Operation::Or.apply(Json::Bool(a), Json::Bool(b)), Json::Bool(a || b));
        }
    }
}
