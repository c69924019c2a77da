use jp_lox::environment::{Environment, EnvironmentStack};
use jp_lox::named_source::NamedSource;
use jp_lox::numbers::Decimal;
use jp_lox::span::Span;
use jp_lox::values::{value_eq, Value};

fn num(n: i64) -> Value {
    Value::Number(Decimal::from_integer(n))
}

#[test]
fn inner_declaration_shadows_and_restores() {
    let mut env = EnvironmentStack::new();
    env.set("x", num(1));
    env.enter();
    env.set("x", num(2));
    let inner = env.get("x").unwrap();
    assert!(value_eq(&inner, &num(2)));
    env.exit();
    let outer = env.get("x").unwrap();
    assert!(value_eq(&outer, &num(1)));
}

#[test]
fn undefined_name_is_absent() {
    let env = EnvironmentStack::new();
    assert!(env.get("x").is_none());
}

#[test]
fn rebinding_in_same_frame_shadows() {
    let mut env = EnvironmentStack::new();
    env.set("x", num(1));
    env.set("x", num(2));
    let v = env.get("x").unwrap();
    assert!(value_eq(&v, &num(2)));
}

#[test]
fn lookup_scans_outer_frames() {
    let mut env = EnvironmentStack::new();
    env.set("y", Value::Str(String::from("out")));
    env.enter();
    let v = env.get("y").unwrap();
    assert!(value_eq(&v, &Value::Str(String::from("out"))));
}

#[test]
fn named_source_keeps_text() {
    let s = NamedSource::new(String::from("<stdin>"), String::from("var x"));
    assert_eq!(s.name, "<stdin>");
    assert_eq!(s.bytes, "var x");
    assert_eq!(s.chars.len(), 5);
}

#[test]
fn span_merge_covers_both() {
    let a = Span { line: 1, start: 2, end: 5 };
    let b = Span { line: 2, start: 4, end: 9 };
    assert_eq!(a.merge(&b), Span { line: 1, start: 2, end: 9 });
    assert_eq!(Span::zero(), Span { line: 0, start: 0, end: 0 });
}
