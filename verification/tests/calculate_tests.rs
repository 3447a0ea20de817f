use bytecalc::calculate::{calculate, calculate_checked};
use bytecalc::parser::{OperatorKind, Symbol};

#[test]
fn calculate_empty_input() {
    assert_eq!(Ok(0), calculate(vec![]));
}

#[test]
fn calculate_single_quantity() {
    assert_eq!(Ok(1_024), calculate(vec![Symbol::Quantity(1_024)]));
}

#[test]
fn calculate_addition() {
    assert_eq!(
        Ok(2_048),
        calculate(vec![
            Symbol::Quantity(1_024),
            Symbol::Operator(OperatorKind::Add),
            Symbol::Quantity(1_024)
        ])
    );
}

#[test]
fn calculate_multiply() {
    assert_eq!(
        Ok(5120),
        calculate(vec![
            Symbol::Quantity(1_024),
            Symbol::Operator(OperatorKind::Multiply),
            Symbol::Number(5),
        ])
    );
}

#[test]
fn calculate_trailing_operator() {
    assert_eq!(
        Err("Expecting another number, but input finished with an operator"),
        calculate(vec![Symbol::Quantity(1), Symbol::Operator(OperatorKind::Add)])
    );
}

#[test]
fn calculate_subtraction_and_division() {
    assert_eq!(
        Ok(500),
        calculate(vec![
            Symbol::Quantity(2_048),
            Symbol::Operator(OperatorKind::Subtract),
            Symbol::Number(48),
            Symbol::Operator(OperatorKind::Divide),
            Symbol::Number(4),
        ])
    );
}

#[test]
fn calculate_value_replaces_accumulator() {
    // Two values with no operator between them: the second one wins.
    assert_eq!(
        Ok(7),
        calculate(vec![Symbol::Number(3), Symbol::Number(7)])
    );
}

#[test]
fn calculate_operator_overwrites_pending() {
    // Two operators in a row: the later one is applied.
    assert_eq!(
        Ok(20),
        calculate(vec![
            Symbol::Number(10),
            Symbol::Operator(OperatorKind::Add),
            Symbol::Operator(OperatorKind::Multiply),
            Symbol::Number(2),
        ])
    );
}

#[test]
fn calculate_checked_agrees_on_good_input() {
    assert_eq!(
        Some(Ok(2_048)),
        calculate_checked(vec![
            Symbol::Quantity(1_024),
            Symbol::Operator(OperatorKind::Add),
            Symbol::Quantity(1_024)
        ])
    );
}

#[test]
fn calculate_checked_divide_by_zero() {
    assert_eq!(
        None,
        calculate_checked(vec![
            Symbol::Number(10),
            Symbol::Operator(OperatorKind::Divide),
            Symbol::Number(0),
        ])
    );
}

#[test]
fn calculate_checked_overflow() {
    assert_eq!(
        None,
        calculate_checked(vec![
            Symbol::Quantity(u64::MAX),
            Symbol::Operator(OperatorKind::Multiply),
            Symbol::Number(2),
        ])
    );
}

#[test]
fn calculate_checked_underflow() {
    assert_eq!(
        None,
        calculate_checked(vec![
            Symbol::Number(1),
            Symbol::Operator(OperatorKind::Subtract),
            Symbol::Number(2),
        ])
    );
}

#[test]
fn calculate_checked_trailing_operator() {
    assert_eq!(
        Some(Err(
            "Expecting another number, but input finished with an operator"
        )),
        calculate_checked(vec![Symbol::Quantity(1), Symbol::Operator(OperatorKind::Add)])
    );
}
