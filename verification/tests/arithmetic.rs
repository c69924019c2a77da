use jp_lox::numbers::{Decimal, NumericError};
use jp_lox::values::{value_eq, Value};

#[test]
fn one_plus_two_is_three() {
    let a = Decimal::from_integer(1);
    let b = Decimal::from_integer(2);
    assert_eq!(a.plus(b), Ok(Decimal { mantissa: 3, scale: 0 }));
}

#[test]
fn fractions_add_exactly() {
    let a = Decimal { mantissa: 1, scale: 1 };
    let b = Decimal { mantissa: 2, scale: 1 };
    assert_eq!(a.plus(b), Ok(Decimal { mantissa: 3, scale: 1 }));
    let c = Decimal { mantissa: 25, scale: 2 };
    assert_eq!(c.plus(c), Ok(Decimal { mantissa: 5, scale: 1 }));
}

#[test]
fn product_and_difference() {
    let a = Decimal { mantissa: 25, scale: 1 };
    let two = Decimal::from_integer(2);
    assert_eq!(a.times(two), Ok(Decimal { mantissa: 5, scale: 0 }));
    assert_eq!(two.minus(a), Ok(Decimal { mantissa: -5, scale: 1 }));
}

#[test]
fn quarter_divides_exactly() {
    let one = Decimal::from_integer(1);
    let four = Decimal::from_integer(4);
    assert_eq!(one.divide(four), Ok(Decimal { mantissa: 25, scale: 2 }));
}

#[test]
fn thirds_truncate() {
    let one = Decimal::from_integer(1);
    let three = Decimal::from_integer(3);
    let q = one.divide(three).unwrap();
    assert_eq!(q.scale, 19);
    assert_eq!(q.to_text(), "0.3333333333333333333");
}

#[test]
fn division_by_zero_fails() {
    let one = Decimal::from_integer(1);
    let zero = Decimal::zero();
    assert_eq!(one.divide(zero), Err(NumericError::DivisionByZero));
}

#[test]
fn comparisons_cross_scales() {
    let a = Decimal { mantissa: 25, scale: 1 };
    let b = Decimal::from_integer(3);
    assert!(a.below(b));
    assert!(!b.below(a));
    assert!(a.at_or_below(a));
}

#[test]
fn negative_rendering() {
    let d = Decimal { mantissa: -25, scale: 1 };
    assert_eq!(d.to_text(), "-2.5");
    let w = Decimal { mantissa: -3, scale: 0 };
    assert_eq!(w.to_text(), "-3");
    assert_eq!(w.to_display_text(), "-3.0");
}

#[test]
fn small_fraction_pads_zeros() {
    let d = Decimal { mantissa: 5, scale: 2 };
    assert_eq!(d.to_text(), "0.05");
}

#[test]
fn print_and_display_asymmetry() {
    let ten = Value::Number(Decimal { mantissa: 10, scale: 0 });
    assert_eq!(ten.to_print_text(), "10");
    assert_eq!(ten.to_display_text(), "10.0");
    let frac = Value::Number(Decimal { mantissa: 25, scale: 1 });
    assert_eq!(frac.to_print_text(), "2.5");
    assert_eq!(frac.to_display_text(), "2.5");
}

#[test]
fn equality_never_coerces() {
    let one = Value::Number(Decimal::from_integer(1));
    let one_text = Value::Str(String::from("1"));
    assert!(!value_eq(&one, &one_text));
    assert!(value_eq(&Value::Nil, &Value::Nil));
    assert!(!value_eq(&Value::Nil, &Value::Bool(false)));
    assert!(value_eq(&one, &one.clone()));
}

#[test]
fn value_renderings() {
    assert_eq!(Value::Nil.to_display_text(), "nil");
    assert_eq!(Value::Bool(true).to_display_text(), "true");
    assert_eq!(Value::Bool(false).to_display_text(), "false");
    assert_eq!(Value::Str(String::from("hi")).to_display_text(), "hi");
}
