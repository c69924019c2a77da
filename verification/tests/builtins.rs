use jp_lox::builtins::{BuiltIn, CallError};
use jp_lox::numbers::Decimal;
use jp_lox::values::Value;

fn num(n: i64) -> Value {
    Value::Number(Decimal::from_integer(n))
}

fn text(s: &str) -> Value {
    Value::Str(String::from(s))
}

#[test]
fn plus_concatenates_strings() {
    let r = BuiltIn::Plus.call(&vec![text("a"), text("b")]).unwrap();
    match r.0 {
        Value::Str(s) => assert_eq!(s, "ab"),
        other => panic!("expected string, got {:?}", other),
    }
}

#[test]
fn plus_adds_numbers() {
    let r = BuiltIn::Plus.call(&vec![num(1), num(2)]).unwrap();
    match r.0 {
        Value::Number(d) => assert_eq!(d, Decimal { mantissa: 3, scale: 0 }),
        other => panic!("expected number, got {:?}", other),
    }
}

#[test]
fn plus_refuses_mixed_kinds() {
    let r = BuiltIn::Plus.call(&vec![num(1), text("a")]);
    assert_eq!(r.unwrap_err(), CallError::BadArguments);
}

#[test]
fn equality_crosses_no_kinds() {
    let r = BuiltIn::Equal.call(&vec![num(1), text("1")]).unwrap();
    assert!(matches!(r.0, Value::Bool(false)));
    let r2 = BuiltIn::Equal.call(&vec![Value::Nil, Value::Nil]).unwrap();
    assert!(matches!(r2.0, Value::Bool(true)));
    let r3 = BuiltIn::NotEqual.call(&vec![num(1), num(1)]).unwrap();
    assert!(matches!(r3.0, Value::Bool(false)));
}

#[test]
fn print_hands_back_nil_and_bare_text() {
    let r = BuiltIn::Print.call(&vec![num(10)]).unwrap();
    assert!(matches!(r.0, Value::Nil));
    assert_eq!(r.1.unwrap(), "10");
}

#[test]
fn unary_minus_negates() {
    let r = BuiltIn::Minus.call(&vec![num(3)]).unwrap();
    match r.0 {
        Value::Number(d) => assert_eq!(d, Decimal { mantissa: -3, scale: 0 }),
        other => panic!("expected number, got {:?}", other),
    }
}

#[test]
fn division_by_zero_is_reported() {
    let r = BuiltIn::Divide.call(&vec![num(1), num(0)]);
    assert_eq!(r.unwrap_err(), CallError::DivisionByZero);
}

#[test]
fn comparisons_and_logic() {
    let lt = BuiltIn::LessThan.call(&vec![num(1), num(2)]).unwrap();
    assert!(matches!(lt.0, Value::Bool(true)));
    let ge = BuiltIn::GreaterThanOrEqual.call(&vec![num(1), num(2)]).unwrap();
    assert!(matches!(ge.0, Value::Bool(false)));
    let and = BuiltIn::And
        .call(&vec![Value::Bool(true), Value::Bool(false)])
        .unwrap();
    assert!(matches!(and.0, Value::Bool(false)));
    let not = BuiltIn::Not.call(&vec![Value::Bool(false)]).unwrap();
    assert!(matches!(not.0, Value::Bool(true)));
    let bad = BuiltIn::Not.call(&vec![num(1)]);
    assert_eq!(bad.unwrap_err(), CallError::BadArguments);
}

#[test]
fn builtin_spellings_resolve() {
    assert_eq!(BuiltIn::from_name("+"), Some(BuiltIn::Plus));
    assert_eq!(BuiltIn::from_name("print"), Some(BuiltIn::Print));
    assert_eq!(BuiltIn::from_name("=="), Some(BuiltIn::Equal));
    assert_eq!(BuiltIn::from_name("class"), None);
}
