use intcalc::parser::{parse, ParseError};

#[test]
fn test_expressions_ok() {
    let result = parse("3 + 22 * 11 + 65");
    assert!(result.is_ok());
    assert_eq!(&result.unwrap().to_string(), "3 + 22 * 11 + 65;");

    let result = parse("(3 + 22) * 11 + 65;");
    assert!(result.is_ok());
    assert_eq!(&result.unwrap().to_string(), "(3 + 22) * 11 + 65;");

    let result = parse("3 + 22 * (11 + 65)");
    assert!(result.is_ok());
    assert_eq!(&result.unwrap().to_string(), "3 + 22 * (11 + 65);");

    let result = parse("(3 + 22) * (11 + 65)");
    assert!(result.is_ok());
    assert_eq!(&result.unwrap().to_string(), "(3 + 22) * (11 + 65);");

    let result = parse("-(3 + - 22) * (-11 + 65)");
    assert!(result.is_ok());
    assert_eq!(&result.unwrap().to_string(), "-(3 + -22) * (-11 + 65);");

    let result = parse("-3+-22*-11**3*1+ 65");
    assert!(result.is_ok());
    assert_eq!(&result.unwrap().to_string(), "-3 + -22 * -11 ** 3 * 1 + 65;");

    let result = parse("-3+-22--11**3*1+ 65");
    assert!(result.is_ok());
    assert_eq!(&result.unwrap().to_string(), "-3 + -22 - -11 ** 3 * 1 + 65;");

    let result = parse("- PI* (10)");
    assert!(result.is_ok());
    assert_eq!(&result.unwrap().to_string(), "-PI * (10);");
}

#[test]
fn test_errors() {
    let result = parse("3 + 22 * ? + 65");
    assert!(result.is_err());
    match result.unwrap_err() {
        ParseError::User { error: _ } => (),
        _ => assert!(false, "wrong error type"),
    };

    let result = parse("1---2");
    assert!(result.is_ok());

    let result = parse("1++2");
    assert!(result.is_err());
    match result.unwrap_err() {
        ParseError::UnrecognizedToken { token: (_l, _token, _r), expected: _ } => (),
        _ => assert!(false, "wrong error type"),
    };

    let result = parse("1 2");
    assert!(result.is_err());
    match result.unwrap_err() {
        ParseError::UnrecognizedToken { token: (_l, _token, _r), expected: _ } => (),
        _ => assert!(false, "wrong error type"),
    };

    let result = parse("1+");
    assert!(result.is_err());
    match result.unwrap_err() {
        ParseError::UnrecognizedEof { location: _, expected: _ } => (),
        _ => assert!(false, "wrong error type"),
    };
}

#[test]
fn test_statements() {
    let result = parse(";;;;;");
    assert!(result.is_ok());
    assert_eq!(&result.unwrap().to_string(), "");

    let result = parse(";;;;");
    assert!(result.is_ok());

    let result = parse("32;;;;;");
    assert!(result.is_ok());
    assert_eq!(&result.unwrap().to_string(), "32;");

    let result = parse("32;;;;12;;;;;45");
    assert!(result.is_ok());
    assert_eq!(&result.unwrap().to_string(), "32; 12; 45;");

    let result = parse("3+2;12-3;-42;");
    assert!(result.is_ok());
    assert_eq!(&result.unwrap().to_string(), "3 + 2; 12 - 3; -42;");

    let result = parse("3+2;12-3;-42;");
    assert!(result.is_ok());
    assert_eq!(&result.unwrap().to_string(), "3 + 2; 12 - 3; -42;");

    let result = parse("  a=3  ");
    assert!(result.is_ok());
    assert_eq!(&result.unwrap().to_string(), "a = 3;");

    let result = parse(";;; a= 3 ;;;;;");
    assert!(result.is_ok());
    assert_eq!(&result.unwrap().to_string(), "a = 3;");

    let result = parse(";a=3;;;; \n ;b=5;;;a+b;;");
    assert!(result.is_ok());
    assert_eq!(&result.unwrap().to_string(), "a = 3; b = 5; a + b;");
}
