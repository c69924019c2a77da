use vstd::prelude::*;

use crate::numbers::{decimal_display_text, decimal_text, Decimal};

verus! {

/// A runtime datum: nothing, a truth value, a number, a piece of text,
/// or a reference to one of the built-in operations.
#[derive(Debug)]
pub enum Value {
    Nil,
    Bool(bool),
    Number(Decimal),
    Str(String),
    Builtin(String),
}

/// The mathematical model of a [`Value`]: text is a character sequence.
#[verifier::ext_equal]
pub enum ValueModel {
    Nil,
    Bool(bool),
    Number(Decimal),
    Str(Seq<char>),
    Builtin(Seq<char>),
}

impl View for Value {
    type V = ValueModel;

    open spec fn view(&self) -> ValueModel {
        match self {
            Value::Nil => ValueModel::Nil,
            Value::Bool(b) => ValueModel::Bool(*b),
            Value::Number(d) => ValueModel::Number(*d),
            Value::Str(s) => ValueModel::Str(s@),
            Value::Builtin(s) => ValueModel::Builtin(s@),
        }
    }
}

impl ValueModel {
    /// Number payloads are kept canonical, so equal numbers have equal
    /// fields.
    pub open spec fn wf(self) -> bool {
        match self {
            ValueModel::Number(d) => d.wf(),
            _ => true,
        }
    }
}

impl Value {
    pub open spec fn wf(self) -> bool {
        self@.wf()
    }

    /// A structural copy, equal to the original.
    pub fn duplicate(&self) -> (r: Value)
        ensures
            r == *self,
    {
        match self {
            Value::Nil => Value::Nil,
            Value::Bool(b) => Value::Bool(*b),
            Value::Number(d) => Value::Number(*d),
            Value::Str(s) => Value::Str(s.clone()),
            Value::Builtin(s) => Value::Builtin(s.clone()),
        }
    }
}

impl Clone for Value {
    fn clone(&self) -> (r: Self)
        ensures
            r == *self,
    {
        self.duplicate()
    }
}

/// Structural equality of values: values of different kinds are unequal,
/// and no coercion happens.
pub open spec fn model_eq(a: ValueModel, b: ValueModel) -> bool {
    match (a, b) {
        (ValueModel::Nil, ValueModel::Nil) => true,
        (ValueModel::Bool(x), ValueModel::Bool(y)) => x == y,
        (ValueModel::Number(x), ValueModel::Number(y)) => x == y,
        (ValueModel::Str(x), ValueModel::Str(y)) => x == y,
        (ValueModel::Builtin(x), ValueModel::Builtin(y)) => x == y,
        _ => false,
    }
}

/// Decides [`model_eq`] on two values.
pub fn value_eq(a: &Value, b: &Value) -> (r: bool)
    ensures
        r == model_eq(a@, b@),
{
    match (a, b) {
        (Value::Nil, Value::Nil) => true,
        (Value::Bool(x), Value::Bool(y)) => *x == *y,
        (Value::Number(x), Value::Number(y)) => x.mantissa == y.mantissa && x.scale == y.scale,
        (Value::Str(x), Value::Str(y)) => x.eq(y),
        (Value::Builtin(x), Value::Builtin(y)) => x.eq(y),
        _ => false,
    }
}

/// The general renderer of §values: `nil`, `true`/`false`, the text of a
/// string, the name of a builtin, and numbers with a forced `.0` on
/// whole values.
pub open spec fn value_display_text(v: ValueModel) -> Seq<char> {
    match v {
        ValueModel::Nil => "nil"@,
        ValueModel::Bool(b) => if b {
            "true"@
        } else {
            "false"@
        },
        ValueModel::Number(d) => decimal_display_text(d),
        ValueModel::Str(s) => s,
        ValueModel::Builtin(s) => s,
    }
}

/// What `print` writes: as the general renderer, except that whole
/// numbers keep their bare form with no forced `.0`.
pub open spec fn value_print_text(v: ValueModel) -> Seq<char> {
    match v {
        ValueModel::Number(d) => decimal_text(d),
        _ => value_display_text(v),
    }
}

impl Value {
    /// The general rendering of the value.
    pub fn to_display_text(&self) -> (s: String)
        requires
            self.wf(),
        ensures
            s@ == value_display_text(self@),
    {
        match self {
            Value::Nil => <String as vstd::string::StringExecFns>::from_str("nil"),
            Value::Bool(b) => {
                if *b {
                    <String as vstd::string::StringExecFns>::from_str("true")
                } else {
                    <String as vstd::string::StringExecFns>::from_str("false")
                }
            },
            Value::Number(d) => d.to_display_text(),
            Value::Str(s) => s.clone(),
            Value::Builtin(s) => s.clone(),
        }
    }

    /// The rendering `print` uses.
    pub fn to_print_text(&self) -> (s: String)
        requires
            self.wf(),
        ensures
            s@ == value_print_text(self@),
    {
        match self {
            Value::Number(d) => d.to_text(),
            _ => self.to_display_text(),
        }
    }
}

} // verus!
