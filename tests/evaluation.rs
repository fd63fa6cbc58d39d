use intcalc::calculator::{CalcError, Calculator};
use intcalc::nodes::{Loc, Node};
use intcalc::parser::parse;

fn run(calc: &mut Calculator, src: &str) -> Vec<Result<Option<i128>, CalcError>> {
    let stmts = parse(src).unwrap();
    calc.evaluate(&stmts)
}

fn value_of(src: &str) -> Result<Option<i128>, CalcError> {
    let mut calc = Calculator::new();
    let mut r = run(&mut calc, src);
    assert_eq!(r.len(), 1);
    r.remove(0)
}

fn sorted_vars(calc: &Calculator) -> Vec<(String, i128)> {
    let mut v = calc.variables();
    v.sort();
    v
}

#[test]
fn precedence_of_product_over_sum() {
    let stmts = parse("3 + 22 * 11 + 65").unwrap();
    assert_eq!(stmts.0.len(), 1);
    assert_eq!(value_of("3 + 22 * 11 + 65").unwrap(), Some(310));
}

#[test]
fn chained_unary_minus_and_power() {
    // -3 + ((-22 * (-11) ** 3) * 1) + 65 = -3 + 29282 + 65
    assert_eq!(value_of("-3+-22*-11**3*1+ 65").unwrap(), Some(29344));
    assert_eq!(
        parse("-3+-22*-11**3*1+ 65").unwrap().to_string(),
        "-3 + -22 * -11 ** 3 * 1 + 65;"
    );
}

#[test]
fn unary_minus_binds_tighter_than_power() {
    assert_eq!(value_of("-11 ** 3").unwrap(), Some(-1331));
    assert_eq!(value_of("-2 ** 2").unwrap(), Some(4));
}

#[test]
fn assignment_and_reuse() {
    let mut calc = Calculator::new();
    let r = run(&mut calc, "a=3;b=5;a+b;");
    assert_eq!(r.len(), 3);
    assert!(matches!(r[0], Ok(None)));
    assert!(matches!(r[1], Ok(None)));
    assert!(matches!(r[2], Ok(Some(8))));
    assert_eq!(
        sorted_vars(&calc),
        vec![("a".to_string(), 3), ("b".to_string(), 5)]
    );
}

#[test]
fn environment_persists_across_calls() {
    let mut calc = Calculator::new();
    run(&mut calc, "a = 4");
    let r = run(&mut calc, "a * a; a = a + 1; a");
    assert!(matches!(r[0], Ok(Some(16))));
    assert!(matches!(r[1], Ok(None)));
    assert!(matches!(r[2], Ok(Some(5))));
    assert_eq!(sorted_vars(&calc), vec![("a".to_string(), 5)]);
}

#[test]
fn unknown_variable() {
    let mut calc = Calculator::new();
    let r = run(&mut calc, "x + 1");
    match &r[0] {
        Err(CalcError::UnknownVariable(name)) => assert_eq!(name, "x"),
        _ => panic!("expected an unknown variable"),
    }
    assert!(calc.variables().is_empty());
}

#[test]
fn failing_statement_does_not_stop_the_batch() {
    let mut calc = Calculator::new();
    let r = run(&mut calc, "y = z; w = 2; w * 3");
    assert!(matches!(&r[0], Err(CalcError::UnknownVariable(n)) if n == "z"));
    assert!(matches!(r[1], Ok(None)));
    assert!(matches!(r[2], Ok(Some(6))));
    assert_eq!(sorted_vars(&calc), vec![("w".to_string(), 2)]);
}

#[test]
fn chained_unary_minus_evaluates() {
    assert_eq!(value_of("1---2").unwrap(), Some(-1));
}

#[test]
fn round_trip_keeps_value() {
    let sources = ["-3+-22*-11**3*1+ 65", "(1+2)*(3-4)/2", "2**3**2", "- PI* (10)", "--(7)"];
    for src in sources.iter() {
        let first = parse(src).unwrap();
        let text = first.to_string();
        let second = parse(&text).unwrap();
        assert_eq!(second.to_string(), text);
        let mut c1 = Calculator::new();
        let mut c2 = Calculator::new();
        let a = c1.evaluate(&first);
        let b = c2.evaluate(&second);
        assert_eq!(format!("{:?}", a), format!("{:?}", b));
    }
}

#[test]
fn pi_is_three() {
    assert_eq!(value_of("PI").unwrap(), Some(3));
    assert_eq!(value_of("-PI * (10)").unwrap(), Some(-30));
}

#[test]
fn division_truncates_toward_zero() {
    assert_eq!(value_of("7 / 2").unwrap(), Some(3));
    assert_eq!(value_of("-7 / 2").unwrap(), Some(-3));
    assert_eq!(value_of("7 / -2").unwrap(), Some(-3));
    assert_eq!(value_of("-7 / -2").unwrap(), Some(3));
}

#[test]
fn power_groups_to_the_right() {
    assert_eq!(value_of("2 ** 3 ** 2").unwrap(), Some(512));
    assert_eq!(value_of("5 ** 0").unwrap(), Some(1));
    assert_eq!(value_of("-1 ** 100001").unwrap(), Some(-1));
    assert_eq!(value_of("0 ** 99999999999999999999").unwrap(), Some(0));
    assert_eq!(value_of("2 ** 126").unwrap(), Some(1i128 << 126));
    assert_eq!(value_of("-2 ** 127").unwrap(), Some(i128::MIN));
}

#[test]
fn sum_and_difference_group_to_the_left() {
    assert_eq!(value_of("10 - 3 - 2").unwrap(), Some(5));
    assert_eq!(value_of("100 / 10 / 5").unwrap(), Some(2));
}

#[test]
fn division_by_zero() {
    assert!(matches!(value_of("1 / 0"), Err(CalcError::DivisionByZero)));
    assert!(matches!(value_of("1 / (2 - 2)"), Err(CalcError::DivisionByZero)));
}

#[test]
fn negative_exponent() {
    assert!(matches!(value_of("2 ** -1"), Err(CalcError::NegativeExponent)));
}

#[test]
fn overflow_is_reported() {
    assert!(matches!(value_of("2 ** 127"), Err(CalcError::Overflow)));
    assert!(matches!(
        value_of("170141183460469231731687303715884105727 + 1"),
        Err(CalcError::Overflow)
    ));
    assert!(matches!(
        value_of("-170141183460469231731687303715884105727 - 2"),
        Err(CalcError::Overflow)
    ));
    assert!(matches!(value_of("(-2 ** 127) / -1"), Err(CalcError::Overflow)));
    assert!(matches!(value_of("-(-2 ** 127)"), Err(CalcError::Overflow)));
    assert!(matches!(value_of("3 ** 81"), Err(CalcError::Overflow)));
}

#[test]
fn largest_literal() {
    assert_eq!(
        value_of("170141183460469231731687303715884105727").unwrap(),
        Some(i128::MAX)
    );
}

#[test]
fn wrong_node_tree() {
    let mut calc = Calculator::new();
    let assign = Node::Assignment(
        Loc(0, 5),
        Box::new(Node::Variable(Loc(0, 1), "a".to_string())),
        Box::new(Node::NumberLiteral(Loc(4, 5), 1)),
    );
    let sum = Node::Add(
        Loc(0, 9),
        Box::new(assign),
        Box::new(Node::NumberLiteral(Loc(8, 9), 2)),
    );
    assert!(matches!(calc.process_node(&sum), Err(CalcError::WrongNodeTree)));
    let bad_target = Node::Assignment(
        Loc(0, 5),
        Box::new(Node::NumberLiteral(Loc(0, 1), 7)),
        Box::new(Node::NumberLiteral(Loc(4, 5), 1)),
    );
    assert!(matches!(calc.process_node(&bad_target), Err(CalcError::WrongNodeTree)));
    let negated = Node::UnaryMinus(
        Loc(0, 8),
        Box::new(Node::Assignment(
            Loc(2, 7),
            Box::new(Node::Variable(Loc(2, 3), "b".to_string())),
            Box::new(Node::NumberLiteral(Loc(6, 7), 3)),
        )),
    );
    assert!(matches!(calc.process_node(&negated), Err(CalcError::WrongNodeTree)));
}

#[test]
fn statement_report_lines() {
    let mut calc = Calculator::new();
    let stmts = parse("3+4; a = 2; x; 1/0; -a").unwrap();
    let lines: Vec<Option<String>> =
        stmts.0.iter().map(|s| calc.process_statement(&s.0)).collect();
    assert_eq!(lines[0].as_deref(), Some("3 + 4 = 7; "));
    assert_eq!(lines[1], None);
    assert_eq!(
        lines[2].as_deref(),
        Some("Computation error: using unknown variable 'x'. Context: 'x' ")
    );
    assert_eq!(
        lines[3].as_deref(),
        Some("Computation error: division by zero. Context: '1 / 0' ")
    );
    assert_eq!(lines[4].as_deref(), Some("-a = -2; "));
}

#[test]
fn error_messages() {
    assert_eq!(
        CalcError::UnknownVariable("v1".to_string()).message(),
        "Computation error: using unknown variable 'v1'"
    );
    assert_eq!(CalcError::WrongNodeTree.message(), "Computation error: wrong token sequence");
    assert_eq!(CalcError::DivisionByZero.message(), "Computation error: division by zero");
    assert_eq!(CalcError::NegativeExponent.message(), "Computation error: negative exponent");
    assert_eq!(CalcError::Overflow.message(), "Computation error: result out of range");
}

#[test]
fn rendering_of_numbers() {
    assert_eq!(Node::NumberLiteral(Loc(0, 0), -5).to_string(), "-5");
    assert_eq!(Node::NumberLiteral(Loc(0, 0), 0).to_string(), "0");
    assert_eq!(
        Node::NumberLiteral(Loc(0, 0), i128::MIN).to_string(),
        "-170141183460469231731687303715884105728"
    );
    assert_eq!(
        Node::NumberLiteral(Loc(0, 0), i128::MAX).to_string(),
        "170141183460469231731687303715884105727"
    );
}
