use ilp::evaluation::{eval, Assignment, EvalError};
use ilp::{evaluation_expression, parser, Expression};

fn arrange_expression(input: &str) -> Expression {
    parser(input).unwrap().0
}

fn arrange_variables() -> Assignment {
    let mut variables = Assignment::new();

    variables.insert("p1".to_string(), true);
    variables.insert("p2".to_string(), true);

    variables
}

fn assignment(values: &[(&str, bool)]) -> Assignment {
    let mut a = Assignment::new();
    for (name, value) in values {
        a.insert(name.to_string(), *value);
    }
    a
}

#[test]
fn when_valid_inputs_then_ok() {
    let inputs = vec!["p1 & p2", "p1 | p2", "~(p1 & p2)"];

    let variables = arrange_variables();

    inputs.iter().for_each(|input| {
        let expression = arrange_expression(&input);
        let result = eval(&expression, &variables);

        assert!(matches!(result, Ok(_)));
    })
}

#[test]
fn when_should_be_true_then_true() {
    let expression = arrange_expression("~(p1 & p2)");
    let mut variables = arrange_variables();

    let mut result = eval(&expression, &variables).unwrap();
    assert_eq!(result, false);

    variables.insert("p2".to_string(), false);

    result = eval(&expression, &variables).unwrap();
    assert_eq!(result, true);
}

#[test]
fn implication_false_only_when_antecedent_true_and_consequent_false() {
    let expression = arrange_expression("(p1|p2)->p3");
    let row = assignment(&[("p1", true), ("p2", false), ("p3", false)]);
    assert_eq!(evaluation_expression(&expression, &row).unwrap(), false);
    for p1 in [false, true] {
        for p2 in [false, true] {
            let row = assignment(&[("p1", p1), ("p2", p2), ("p3", true)]);
            assert_eq!(evaluation_expression(&expression, &row).unwrap(), true);
        }
    }
    let row = assignment(&[("p1", false), ("p2", false), ("p3", false)]);
    assert_eq!(evaluation_expression(&expression, &row).unwrap(), true);
}

#[test]
fn implication_truth_table() {
    let expression = arrange_expression("p1 -> p2");
    let cases = [(false, false, true), (false, true, true), (true, false, false), (true, true, true)];
    for (p1, p2, expected) in cases {
        let row = assignment(&[("p1", p1), ("p2", p2)]);
        assert_eq!(eval(&expression, &row).unwrap(), expected);
    }
}

#[test]
fn iff_is_equality() {
    let expression = arrange_expression("p1 <-> p2");
    for p1 in [false, true] {
        for p2 in [false, true] {
            let row = assignment(&[("p1", p1), ("p2", p2)]);
            assert_eq!(eval(&expression, &row).unwrap(), p1 == p2);
        }
    }
}

#[test]
fn missing_variable_is_an_error() {
    let expression = arrange_expression("p1 & p7");
    let row = assignment(&[("p1", true)]);
    match eval(&expression, &row) {
        Err(EvalError::UndefinedVariable(name)) => assert_eq!(name, "p7"),
        other => panic!("{:?}", other),
    }
}

#[test]
fn short_circuit_hides_missing_right_side() {
    let row = assignment(&[("p1", false)]);
    assert_eq!(eval(&arrange_expression("p1 & p2"), &row).unwrap(), false);
    assert_eq!(eval(&arrange_expression("p1 -> p2"), &row).unwrap(), true);
    assert!(eval(&arrange_expression("p1 | p2"), &row).is_err());
    assert!(eval(&arrange_expression("p1 <-> p2"), &row).is_err());
    let row = assignment(&[("p1", true)]);
    assert_eq!(eval(&arrange_expression("p1 | p2"), &row).unwrap(), true);
    assert!(eval(&arrange_expression("p1 & p2"), &row).is_err());
}

#[test]
fn later_insert_overrides() {
    let mut a = assignment(&[("p1", true)]);
    a.insert("p1".to_string(), false);
    assert_eq!(a.get(&"p1".to_string()), Some(false));
    assert_eq!(a.get(&"p2".to_string()), None);
}
