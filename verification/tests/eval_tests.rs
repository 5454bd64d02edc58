use pimp_my_axis::config::Axis;
use pimp_my_axis::eval::{AxisKey, Bindings, EvalError};
use pimp_my_axis::parser::parse_expr;

fn key(device: &str, axis: Axis) -> AxisKey {
    AxisKey {
        device: device.to_owned(),
        axis,
    }
}

#[test]
fn example_expression_evaluates_to_five() {
    let expr = parse_expr("2 + 1 * (1 + 2)").unwrap();
    let bindings = Bindings::new();
    assert_eq!(expr.eval(&bindings), Ok(5));
}

#[test]
fn multiplication_binds_tighter_than_addition() {
    let expr = parse_expr("2 + 3 * 4").unwrap();
    let bindings = Bindings::new();
    assert_eq!(expr.eval(&bindings), Ok(14));
}

#[test]
fn subtraction_is_left_associative() {
    let expr = parse_expr("10 - 3 - 2").unwrap();
    let bindings = Bindings::new();
    assert_eq!(expr.eval(&bindings), Ok(5));
}

#[test]
fn division_truncates_toward_zero() {
    let bindings = Bindings::new();
    assert_eq!(parse_expr("7 / 2").unwrap().eval(&bindings), Ok(3));
    assert_eq!(parse_expr("-7 / 2").unwrap().eval(&bindings), Ok(-3));
    assert_eq!(parse_expr("7 / -2").unwrap().eval(&bindings), Ok(-3));
    assert_eq!(parse_expr("-7 / -2").unwrap().eval(&bindings), Ok(3));
}

#[test]
fn division_by_zero_is_an_error() {
    let expr = parse_expr("1 / 0").unwrap();
    let bindings = Bindings::new();
    assert_eq!(expr.eval(&bindings), Err(EvalError::DivisionByZero));
}

#[test]
fn overflow_is_an_error() {
    let bindings = Bindings::new();
    assert_eq!(
        parse_expr("2147483647 + 1").unwrap().eval(&bindings),
        Err(EvalError::Overflow)
    );
    assert_eq!(
        parse_expr("-2147483648 - 1").unwrap().eval(&bindings),
        Err(EvalError::Overflow)
    );
    assert_eq!(
        parse_expr("65536 * 65536").unwrap().eval(&bindings),
        Err(EvalError::Overflow)
    );
    assert_eq!(
        parse_expr("-2147483648 / -1").unwrap().eval(&bindings),
        Err(EvalError::Overflow)
    );
}

#[test]
fn axis_reference_reads_its_binding() {
    let expr = parse_expr("stick:X * 2").unwrap();
    let mut bindings = Bindings::new();
    bindings.insert(key("stick", Axis::X), 21);
    assert_eq!(expr.eval(&bindings), Ok(42));
}

#[test]
fn missing_binding_is_an_error() {
    let expr = parse_expr("stick:X + wheel:Y").unwrap();
    let mut bindings = Bindings::new();
    bindings.insert(key("stick", Axis::X), 1);
    assert_eq!(
        expr.eval(&bindings),
        Err(EvalError::MissingBinding(key("wheel", Axis::Y)))
    );
}

#[test]
fn left_operand_evaluates_before_right() {
    // The left operand's failure wins over the right one's.
    let expr = parse_expr("a:X + 1 / 0").unwrap();
    let bindings = Bindings::new();
    assert_eq!(
        expr.eval(&bindings),
        Err(EvalError::MissingBinding(key("a", Axis::X)))
    );
}

#[test]
fn evaluation_is_pure() {
    let expr = parse_expr("stick:X * 3 - 4").unwrap();
    let mut bindings = Bindings::new();
    bindings.insert(key("stick", Axis::X), 10);
    let first = expr.eval(&bindings);
    let second = expr.eval(&bindings);
    assert_eq!(first, Ok(26));
    assert_eq!(first, second);
}

#[test]
fn dependencies_are_deduplicated_in_first_occurrence_order() {
    let expr = parse_expr("A:X + B:Y - A:X").unwrap();
    let deps = expr.dependencies();
    assert_eq!(deps, vec![key("A", Axis::X), key("B", Axis::Y)]);
}

#[test]
fn literal_has_no_dependencies() {
    let expr = parse_expr("1 + 2 * 3").unwrap();
    assert_eq!(expr.dependencies(), Vec::<AxisKey>::new());
}

#[test]
fn same_device_different_axes_are_distinct_dependencies() {
    let expr = parse_expr("d:X + d:Y + d:X").unwrap();
    let deps = expr.dependencies();
    assert_eq!(deps, vec![key("d", Axis::X), key("d", Axis::Y)]);
}

#[test]
fn bindings_later_insert_overrides() {
    let mut bindings = Bindings::new();
    bindings.insert(key("d", Axis::X), 1);
    bindings.insert(key("d", Axis::X), 2);
    assert_eq!(bindings.get(&key("d", Axis::X)), Some(2));
    assert_eq!(bindings.get(&key("d", Axis::Y)), None);
    assert!(bindings.contains(&key("d", Axis::X)));
    assert!(!bindings.contains(&key("e", Axis::X)));
}
