use bytecalc::parser::{OperatorKind, Parser, Symbol};

#[test]
fn parse_arg_empty_string() {
    let parser = Parser::new();

    assert!(parser.parse("").is_empty());
}

#[test]
fn parse_arg_number() {
    let parser = Parser::new();

    let expected: Vec<Symbol> = vec![Symbol::Number(1234)];
    assert_eq!(expected, parser.parse("1234"));
}

#[test]
fn parse_arg_addition() {
    let parser = Parser::new();

    let expected: Vec<Symbol> = vec![
        Symbol::Quantity(12_884_901_888),
        Symbol::Operator(OperatorKind::Add),
        Symbol::Quantity(14_680_064),
        Symbol::Operator(OperatorKind::Multiply),
        Symbol::Number(2),
    ];
    assert_eq!(expected, parser.parse("12 GiB + 14MiB * 2"));
}

#[test]
fn parse_all_units() {
    let parser = Parser::new();

    assert_eq!(vec![Symbol::Quantity(3)], parser.parse("3B"));
    assert_eq!(vec![Symbol::Quantity(3)], parser.parse("3b"));
    assert_eq!(vec![Symbol::Quantity(3 << 10)], parser.parse("3KiB"));
    assert_eq!(vec![Symbol::Quantity(3 << 20)], parser.parse("3MiB"));
    assert_eq!(vec![Symbol::Quantity(3 << 30)], parser.parse("3GiB"));
    assert_eq!(vec![Symbol::Quantity(3 << 40)], parser.parse("3TiB"));
    assert_eq!(vec![Symbol::Quantity(3 << 50)], parser.parse("3PiB"));
}

#[test]
fn parse_loose_unit_spellings() {
    let parser = Parser::new();

    // A suffix without the exact binary spelling still marks a quantity,
    // but carries no multiplier.
    assert_eq!(vec![Symbol::Quantity(12)], parser.parse("12GB"));
    assert_eq!(vec![Symbol::Quantity(12)], parser.parse("12Gib"));
    assert_eq!(vec![Symbol::Quantity(12)], parser.parse("12Kb"));
    assert_eq!(vec![Symbol::Quantity(12)], parser.parse("12iB"));
    // A lower-case prefix is no unit at all: the digits are a plain number.
    assert_eq!(vec![Symbol::Number(12)], parser.parse("12gib"));
}

#[test]
fn parse_whitespace_between_digits_and_unit() {
    let parser = Parser::new();

    assert_eq!(vec![Symbol::Quantity(2 << 20)], parser.parse("2   MiB"));
    assert_eq!(vec![Symbol::Quantity(5 << 10)], parser.parse("5\tKiB"));
}

#[test]
fn parse_all_operators() {
    let parser = Parser::new();

    let expected: Vec<Symbol> = vec![
        Symbol::Operator(OperatorKind::Add),
        Symbol::Operator(OperatorKind::Subtract),
        Symbol::Operator(OperatorKind::Multiply),
        Symbol::Operator(OperatorKind::Divide),
    ];
    assert_eq!(expected, parser.parse("+ - * /"));
}

#[test]
fn parse_skips_unrecognized_characters() {
    let parser = Parser::new();

    let expected: Vec<Symbol> = vec![Symbol::Number(1), Symbol::Number(2)];
    assert_eq!(expected, parser.parse("1 ? 2"));
    assert_eq!(
        vec![Symbol::Number(3), Symbol::Operator(OperatorKind::Add), Symbol::Number(4)],
        parser.parse("x3x + _4_")
    );
}

#[test]
fn parse_drops_values_beyond_u64() {
    let parser = Parser::new();

    // Twenty-one digits exceed u64; the digits are consumed, nothing is kept.
    assert!(parser.parse("999999999999999999999").is_empty());
    // A quantity whose unit conversion leaves u64 is dropped as well.
    assert!(parser.parse("999999999 PiB").is_empty());
    assert_eq!(
        vec![Symbol::Number(5)],
        parser.parse("999999999999999999999 5")
    );
}

#[test]
fn parse_number_keeps_following_unit_separate() {
    let parser = Parser::new();

    // The quantity pattern is tried first: "12" plus "GiB" never splits into
    // a number and stranded letters.
    assert_eq!(vec![Symbol::Quantity(12 << 30)], parser.parse("12GiB"));
    // With an operator in between, the digits are a plain number.
    assert_eq!(
        vec![
            Symbol::Number(12),
            Symbol::Operator(OperatorKind::Add),
            Symbol::Quantity(1 << 30)
        ],
        parser.parse("12 + 1GiB")
    );
}
