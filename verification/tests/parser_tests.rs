use pimp_my_axis::config::Axis;
use pimp_my_axis::expr::{AxisExpression, Operator};
use pimp_my_axis::parser::{parse_expr, ParseError};

#[test]
fn test() {
    let parsed = parse_expr("2 + 1 * (1 + 2)").unwrap();
    println!("{:?}", parsed)
}

fn lit(v: i32) -> Box<AxisExpression> {
    Box::new(AxisExpression::Literal(v))
}

fn bi(op: Operator, l: Box<AxisExpression>, r: Box<AxisExpression>) -> Box<AxisExpression> {
    Box::new(AxisExpression::BiOp(op, l, r))
}

#[test]
fn precedence_shapes_the_tree() {
    let parsed = parse_expr("2 + 1 * (1 + 2)").unwrap();
    let expected = AxisExpression::BiOp(
        Operator::Add,
        lit(2),
        bi(Operator::Mul, lit(1), bi(Operator::Add, lit(1), lit(2))),
    );
    assert_eq!(parsed, expected);
}

#[test]
fn axis_references_parse() {
    let parsed = parse_expr("stick:X + stick:RY").unwrap();
    let expected = AxisExpression::BiOp(
        Operator::Add,
        Box::new(AxisExpression::AxisReference("stick".to_owned(), Axis::X)),
        Box::new(AxisExpression::AxisReference("stick".to_owned(), Axis::RY)),
    );
    assert_eq!(parsed, expected);
}

#[test]
fn all_axis_names_parse() {
    let cases = [
        ("X", Axis::X),
        ("Y", Axis::Y),
        ("Z", Axis::Z),
        ("RX", Axis::RX),
        ("RY", Axis::RY),
        ("RZ", Axis::RZ),
        ("Throttle", Axis::Throttle),
        ("Rudder", Axis::Rudder),
        ("Wheel", Axis::Wheel),
        ("Gas", Axis::Gas),
        ("Brake", Axis::Brake),
    ];
    for (name, axis) in cases {
        let input = format!("d:{}", name);
        let parsed = parse_expr(&input).unwrap();
        assert_eq!(
            parsed,
            AxisExpression::AxisReference("d".to_owned(), axis),
            "axis {}",
            name
        );
    }
}

#[test]
fn unknown_axis_name_is_rejected() {
    let err = parse_expr("dev:Foo + 1").unwrap_err();
    match err {
        ParseError::UnknownAxisName(word) => assert_eq!(word, "Foo"),
        other => panic!("expected UnknownAxisName, got {:?}", other),
    }
}

#[test]
fn axis_name_is_case_sensitive() {
    assert!(matches!(
        parse_expr("dev:x"),
        Err(ParseError::UnknownAxisName(_))
    ));
    assert!(matches!(
        parse_expr("dev:throttle"),
        Err(ParseError::UnknownAxisName(_))
    ));
}

#[test]
fn negative_literals_parse() {
    assert_eq!(parse_expr("-5").unwrap(), AxisExpression::Literal(-5));
    assert_eq!(
        parse_expr("2 + -3").unwrap(),
        AxisExpression::BiOp(Operator::Add, lit(2), lit(-3))
    );
}

#[test]
fn literal_bounds() {
    assert_eq!(
        parse_expr("2147483647").unwrap(),
        AxisExpression::Literal(2147483647)
    );
    assert_eq!(
        parse_expr("-2147483648").unwrap(),
        AxisExpression::Literal(i32::MIN)
    );
    assert!(matches!(
        parse_expr("2147483648"),
        Err(ParseError::LiteralOutOfRange(_))
    ));
    assert!(matches!(
        parse_expr("99999999999"),
        Err(ParseError::NumberTooLarge(_))
    ));
}

#[test]
fn whitespace_is_insignificant() {
    assert_eq!(
        parse_expr("  1+2 ").unwrap(),
        parse_expr("1 \t + \n 2").unwrap()
    );
}

#[test]
fn unbalanced_parentheses_are_rejected() {
    assert!(matches!(parse_expr("(1 + 2"), Err(ParseError::UnexpectedEnd)));
    assert!(matches!(
        parse_expr("1 + 2)"),
        Err(ParseError::TrailingToken(_))
    ));
}

#[test]
fn malformed_inputs_are_rejected() {
    assert!(matches!(parse_expr(""), Err(ParseError::UnexpectedEnd)));
    assert!(matches!(parse_expr("1 +"), Err(ParseError::UnexpectedEnd)));
    assert!(matches!(
        parse_expr("* 2"),
        Err(ParseError::UnexpectedToken(_))
    ));
    assert!(matches!(
        parse_expr("1 2"),
        Err(ParseError::TrailingToken(_))
    ));
    assert!(matches!(
        parse_expr("1 @ 2"),
        Err(ParseError::InvalidToken(_))
    ));
    assert!(matches!(
        parse_expr(": 1"),
        Err(ParseError::UnexpectedChar(':'))
    ));
    assert!(matches!(
        parse_expr("abc"),
        Err(ParseError::InvalidToken(_))
    ));
    assert!(matches!(
        parse_expr("2x + 1"),
        Err(ParseError::InvalidToken(_))
    ));
    assert!(matches!(
        parse_expr("dev: + 1"),
        Err(ParseError::MissingAxisName(_))
    ));
}

#[test]
fn operator_from_str_maps_the_four_tokens() {
    assert_eq!(Operator::from_str("+"), Some(Operator::Add));
    assert_eq!(Operator::from_str("-"), Some(Operator::Sub));
    assert_eq!(Operator::from_str("*"), Some(Operator::Mul));
    assert_eq!(Operator::from_str("/"), Some(Operator::Div));
    assert_eq!(Operator::from_str("%"), None);
    assert_eq!(Operator::from_str(""), None);
}

#[test]
fn operator_from_str_ignores_surrounding_whitespace() {
    assert_eq!(Operator::from_str(" + "), Some(Operator::Add));
    assert_eq!(Operator::from_str("\t*\n"), Some(Operator::Mul));
    assert_eq!(Operator::from_str("  /"), Some(Operator::Div));
    assert_eq!(Operator::from_str("- "), Some(Operator::Sub));
    assert_eq!(Operator::from_str("+ +"), None);
}

#[test]
fn device_names_are_opaque_strings() {
    // Anything but whitespace, operators, parentheses and the colon
    // may appear in a device name.
    let parsed = parse_expr("my.dev#2:X").unwrap();
    assert_eq!(
        parsed,
        AxisExpression::AxisReference("my.dev#2".to_owned(), Axis::X)
    );
    let parsed = parse_expr("j\u{00e4}ger:Gas + 1").unwrap();
    assert_eq!(
        parsed,
        AxisExpression::BiOp(
            Operator::Add,
            Box::new(AxisExpression::AxisReference(
                "j\u{00e4}ger".to_owned(),
                Axis::Gas
            )),
            Box::new(AxisExpression::Literal(1)),
        )
    );
}

#[test]
fn axis_names_round_trip() {
    for name in [
        "X", "Y", "Z", "RX", "RY", "RZ", "Throttle", "Rudder", "Wheel", "Gas", "Brake",
    ] {
        let axis = Axis::from_str(name).unwrap();
        assert_eq!(axis.name(), name);
    }
}

#[test]
fn axis_from_str_maps_the_eleven_names() {
    assert_eq!(Axis::from_str("X"), Some(Axis::X));
    assert_eq!(Axis::from_str("Throttle"), Some(Axis::Throttle));
    assert_eq!(Axis::from_str("Brake"), Some(Axis::Brake));
    assert_eq!(Axis::from_str("Foo"), None);
    assert_eq!(Axis::from_str("x"), None);
}
