use vstd::prelude::*;

use crate::numbers::{abs_int, canon_decimal, exact_sum, pow10, quot_mag, quot_scale, smax,
    apply_sign, Decimal, NumericError};
use crate::values::{model_eq, value_eq, Value, ValueModel};

verus! {

/// One of the fixed built-in operations the evaluator dispatches on.
#[derive(Debug, Clone, Copy, PartialEq, Eq, Structural)]
pub enum BuiltIn {
    Plus,
    Minus,
    Times,
    Divide,
    And,
    Or,
    Not,
    LessThan,
    LessThanOrEqual,
    GreaterThanOrEqual,
    GreaterThan,
    Equal,
    NotEqual,
    Print,
}

/// The models of a run of values.
pub open spec fn views_of(s: Seq<Value>) -> Seq<ValueModel> {
    Seq::new(s.len(), |i: int| s[i]@)
}

/// Why a call into a builtin failed.
#[derive(Debug, Clone, Copy, PartialEq, Eq, Structural)]
pub enum CallError {
    /// The arguments match none of the shapes the builtin accepts.
    BadArguments,
    /// A number result was out of the representable range.
    NumberRange,
    /// Division by the number zero.
    DivisionByZero,
}

/// The number an arithmetic step denotes, in canonical form, when its
/// canonical mantissa fits.
pub open spec fn fitted_number(neg: bool, mag: nat, s: nat) -> Result<Decimal, CallError> {
    let c = canon_decimal(mag, s);
    if c.0 <= i64::MAX {
        Ok(Decimal { mantissa: apply_sign(neg, c.0) as i64, scale: c.1 as u32 })
    } else {
        Err(CallError::NumberRange)
    }
}

/// The sum of two canonical numbers.
pub open spec fn sum_model(a: Decimal, b: Decimal) -> Result<Decimal, CallError> {
    fitted_number(exact_sum(a, b) < 0, abs_int(exact_sum(a, b)), smax(a, b))
}

/// The difference of two canonical numbers.
pub open spec fn diff_model(a: Decimal, b: Decimal) -> Result<Decimal, CallError> {
    sum_model(a, b.negated_spec())
}

/// The product of two canonical numbers, truncated at the largest scale.
pub open spec fn prod_model(a: Decimal, b: Decimal) -> Result<Decimal, CallError> {
    fitted_number(
        (a.mantissa < 0) != (b.mantissa < 0),
        abs_int(a.mantissa as int) * abs_int(b.mantissa as int),
        (a.scale + b.scale) as nat,
    )
}

/// The quotient of two canonical numbers, truncated toward zero.
pub open spec fn quot_model(a: Decimal, b: Decimal) -> Result<Decimal, CallError> {
    if b.mantissa == 0 {
        Err(CallError::DivisionByZero)
    } else {
        fitted_number((a.mantissa < 0) != (b.mantissa < 0), quot_mag(a, b), quot_scale(a, b))
    }
}

/// Whether `a` lies strictly below `b`, by cross multiplication.
pub open spec fn below_model(a: Decimal, b: Decimal) -> bool {
    a.mantissa * pow10((smax(a, b) - a.scale) as nat) < b.mantissa * pow10(
        (smax(a, b) - b.scale) as nat,
    )
}

/// What a builtin call returns: the produced value together with the
/// line `print` writes, or the error telling why the call was refused.
pub open spec fn call_model(op: BuiltIn, args: Seq<ValueModel>) -> Result<
    (ValueModel, Option<Seq<char>>),
    CallError,
> {
    match op {
        BuiltIn::Plus => {
            if args.len() == 2 && args[0] is Number && args[1] is Number {
                match sum_model(args[0]->Number_0, args[1]->Number_0) {
                    Ok(d) => Ok((ValueModel::Number(d), None)),
                    Err(e) => Err(e),
                }
            } else if args.len() == 2 && args[0] is Str && args[1] is Str {
                Ok((ValueModel::Str(args[0]->Str_0 + args[1]->Str_0), None))
            } else {
                Err(CallError::BadArguments)
            }
        },
        BuiltIn::Minus => {
            if args.len() == 2 && args[0] is Number && args[1] is Number {
                match diff_model(args[0]->Number_0, args[1]->Number_0) {
                    Ok(d) => Ok((ValueModel::Number(d), None)),
                    Err(e) => Err(e),
                }
            } else if args.len() == 1 && args[0] is Number {
                Ok(
                    (
                        ValueModel::Number(
                            Decimal {
                                mantissa: (-(args[0]->Number_0.mantissa as int)) as i64,
                                scale: args[0]->Number_0.scale,
                            },
                        ),
                        None,
                    ),
                )
            } else {
                Err(CallError::BadArguments)
            }
        },
        BuiltIn::Times => {
            if args.len() == 2 && args[0] is Number && args[1] is Number {
                match prod_model(args[0]->Number_0, args[1]->Number_0) {
                    Ok(d) => Ok((ValueModel::Number(d), None)),
                    Err(e) => Err(e),
                }
            } else {
                Err(CallError::BadArguments)
            }
        },
        BuiltIn::Divide => {
            if args.len() == 2 && args[0] is Number && args[1] is Number {
                match quot_model(args[0]->Number_0, args[1]->Number_0) {
                    Ok(d) => Ok((ValueModel::Number(d), None)),
                    Err(e) => Err(e),
                }
            } else {
                Err(CallError::BadArguments)
            }
        },
        BuiltIn::And => {
            if args.len() == 2 && args[0] is Bool && args[1] is Bool {
                Ok((ValueModel::Bool(args[0]->Bool_0 && args[1]->Bool_0), None))
            } else {
                Err(CallError::BadArguments)
            }
        },
        BuiltIn::Or => {
            if args.len() == 2 && args[0] is Bool && args[1] is Bool {
                Ok((ValueModel::Bool(args[0]->Bool_0 || args[1]->Bool_0), None))
            } else {
                Err(CallError::BadArguments)
            }
        },
        BuiltIn::Not => {
            if args.len() == 1 && args[0] is Bool {
                Ok((ValueModel::Bool(!(args[0]->Bool_0)), None))
            } else {
                Err(CallError::BadArguments)
            }
        },
        BuiltIn::LessThan => {
            if args.len() == 2 && args[0] is Number && args[1] is Number {
                Ok((ValueModel::Bool(below_model(args[0]->Number_0, args[1]->Number_0)), None))
            } else {
                Err(CallError::BadArguments)
            }
        },
        BuiltIn::LessThanOrEqual => {
            if args.len() == 2 && args[0] is Number && args[1] is Number {
                Ok((ValueModel::Bool(!below_model(args[1]->Number_0, args[0]->Number_0)), None))
            } else {
                Err(CallError::BadArguments)
            }
        },
        BuiltIn::GreaterThanOrEqual => {
            if args.len() == 2 && args[0] is Number && args[1] is Number {
                Ok((ValueModel::Bool(!below_model(args[0]->Number_0, args[1]->Number_0)), None))
            } else {
                Err(CallError::BadArguments)
            }
        },
        BuiltIn::GreaterThan => {
            if args.len() == 2 && args[0] is Number && args[1] is Number {
                Ok((ValueModel::Bool(below_model(args[1]->Number_0, args[0]->Number_0)), None))
            } else {
                Err(CallError::BadArguments)
            }
        },
        BuiltIn::Equal => {
            if args.len() == 2 {
                Ok((ValueModel::Bool(model_eq(args[0], args[1])), None))
            } else {
                Err(CallError::BadArguments)
            }
        },
        BuiltIn::NotEqual => {
            if args.len() == 2 {
                Ok((ValueModel::Bool(!model_eq(args[0], args[1])), None))
            } else {
                Err(CallError::BadArguments)
            }
        },
        BuiltIn::Print => {
            if args.len() == 1 {
                Ok((ValueModel::Nil, Some(crate::values::value_print_text(args[0]))))
            } else {
                Err(CallError::BadArguments)
            }
        },
    }
}

impl BuiltIn {
    /// The builtin a spelling names, if any.
    pub fn from_name(s: &str) -> (r: Option<BuiltIn>)
        ensures
            r == builtin_of(s@),
    {
        proof {
            reveal(builtin_of);
        }
        if crate::strutil::str_eq(s, "+") {
            Some(BuiltIn::Plus)
        } else if crate::strutil::str_eq(s, "-") {
            Some(BuiltIn::Minus)
        } else if crate::strutil::str_eq(s, "*") {
            Some(BuiltIn::Times)
        } else if crate::strutil::str_eq(s, "/") {
            Some(BuiltIn::Divide)
        } else if crate::strutil::str_eq(s, "and") {
            Some(BuiltIn::And)
        } else if crate::strutil::str_eq(s, "or") {
            Some(BuiltIn::Or)
        } else if crate::strutil::str_eq(s, "!") {
            Some(BuiltIn::Not)
        } else if crate::strutil::str_eq(s, "<") {
            Some(BuiltIn::LessThan)
        } else if crate::strutil::str_eq(s, "<=") {
            Some(BuiltIn::LessThanOrEqual)
        } else if crate::strutil::str_eq(s, ">=") {
            Some(BuiltIn::GreaterThanOrEqual)
        } else if crate::strutil::str_eq(s, ">") {
            Some(BuiltIn::GreaterThan)
        } else if crate::strutil::str_eq(s, "==") {
            Some(BuiltIn::Equal)
        } else if crate::strutil::str_eq(s, "!=") {
            Some(BuiltIn::NotEqual)
        } else if crate::strutil::str_eq(s, "print") {
            Some(BuiltIn::Print)
        } else {
            None
        }
    }

    /// Applies the builtin to already evaluated arguments: the value it
    /// produces and the line `print` would write, or the refusal.
    #[verifier::rlimit(100)]
    pub fn call(&self, args: &Vec<Value>) -> (r: Result<(Value, Option<String>), CallError>)
        requires
            forall|i: int| 0 <= i < args@.len() ==> (#[trigger] args@[i]@).wf(),
        ensures
            match (r, call_model(*self, views_of(args@))) {
                (Ok((v, out)), Ok((mv, mout))) => {
                    &&& v@ == mv
                    &&& v@.wf()
                    &&& (out is Some) == (mout is Some)
                    &&& (out matches Some(line) && mout matches Some(mline)) ==> (out
                        matches Some(line2) && mout matches Some(mline2) && line2@ == mline2)
                },
                (Err(e), Err(me)) => e == me,
                _ => false,
            },
    {

        match self {
            BuiltIn::Plus => {
                if args.len() == 2 {
                    match (&args[0], &args[1]) {
                        (Value::Number(a), Value::Number(b)) => {
                            let res = a.plus(*b);
                            proof {
                                lemma_fitted(
                                    exact_sum(*a, *b) < 0,
                                    abs_int(exact_sum(*a, *b)),
                                    smax(*a, *b),
                                    res,
                                );
                            }
                            match res {
                                Ok(d) => Ok((Value::Number(d), None)),
                                Err(e) => Err(numeric_call_error(e)),
                            }
                        },
                        (Value::Str(a), Value::Str(b)) => {
                            let joined = <String as vstd::string::StringExecFns>::concat(
                                a.clone(),
                                b.as_str(),
                            );
                            Ok((Value::Str(joined), None))
                        },
                        _ => Err(CallError::BadArguments),
                    }
                } else {
                    Err(CallError::BadArguments)
                }
            },
            BuiltIn::Minus => {
                if args.len() == 2 {
                    match (&args[0], &args[1]) {
                        (Value::Number(a), Value::Number(b)) => {
                            let res = a.minus(*b);
                            proof {
                                lemma_fitted(
                                    exact_sum(*a, b.negated_spec()) < 0,
                                    abs_int(exact_sum(*a, b.negated_spec())),
                                    smax(*a, *b),
                                    res,
                                );
                            }
                            match res {
                                Ok(d) => Ok((Value::Number(d), None)),
                                Err(e) => Err(numeric_call_error(e)),
                            }
                        },
                        _ => Err(CallError::BadArguments),
                    }
                } else if args.len() == 1 {
                    match &args[0] {
                        Value::Number(a) => Ok((Value::Number(a.negated()), None)),
                        _ => Err(CallError::BadArguments),
                    }
                } else {
                    Err(CallError::BadArguments)
                }
            },
            BuiltIn::Times => {
                if args.len() == 2 {
                    match (&args[0], &args[1]) {
                        (Value::Number(a), Value::Number(b)) => {
                            let res = a.times(*b);
                            proof {
                                lemma_fitted(
                                    (a.mantissa < 0) != (b.mantissa < 0),
                                    abs_int(a.mantissa as int) * abs_int(b.mantissa as int),
                                    (a.scale + b.scale) as nat,
                                    res,
                                );
                            }
                            match res {
                                Ok(d) => Ok((Value::Number(d), None)),
                                Err(e) => Err(numeric_call_error(e)),
                            }
                        },
                        _ => Err(CallError::BadArguments),
                    }
                } else {
                    Err(CallError::BadArguments)
                }
            },
            BuiltIn::Divide => {
                if args.len() == 2 {
                    match (&args[0], &args[1]) {
                        (Value::Number(a), Value::Number(b)) => {
                            let res = a.divide(*b);
                            proof {
                                if b.mantissa != 0 {
                                    lemma_fitted(
                                        (a.mantissa < 0) != (b.mantissa < 0),
                                        quot_mag(*a, *b),
                                        quot_scale(*a, *b),
                                        res,
                                    );
                                }
                            }
                            match res {
                                Ok(d) => Ok((Value::Number(d), None)),
                                Err(e) => Err(numeric_call_error(e)),
                            }
                        },
                        _ => Err(CallError::BadArguments),
                    }
                } else {
                    Err(CallError::BadArguments)
                }
            },
            BuiltIn::And => {
                if args.len() == 2 {
                    match (&args[0], &args[1]) {
                        (Value::Bool(a), Value::Bool(b)) => Ok((Value::Bool(*a && *b), None)),
                        _ => Err(CallError::BadArguments),
                    }
                } else {
                    Err(CallError::BadArguments)
                }
            },
            BuiltIn::Or => {
                if args.len() == 2 {
                    match (&args[0], &args[1]) {
                        (Value::Bool(a), Value::Bool(b)) => Ok((Value::Bool(*a || *b), None)),
                        _ => Err(CallError::BadArguments),
                    }
                } else {
                    Err(CallError::BadArguments)
                }
            },
            BuiltIn::Not => {
                if args.len() == 1 {
                    match &args[0] {
                        Value::Bool(a) => Ok((Value::Bool(!*a), None)),
                        _ => Err(CallError::BadArguments),
                    }
                } else {
                    Err(CallError::BadArguments)
                }
            },
            BuiltIn::LessThan => {
                if args.len() == 2 {
                    match (&args[0], &args[1]) {
                        (Value::Number(a), Value::Number(b)) => Ok(
                            (Value::Bool(a.below(*b)), None),
                        ),
                        _ => Err(CallError::BadArguments),
                    }
                } else {
                    Err(CallError::BadArguments)
                }
            },
            BuiltIn::LessThanOrEqual => {
                if args.len() == 2 {
                    match (&args[0], &args[1]) {
                        (Value::Number(a), Value::Number(b)) => Ok(
                            (Value::Bool(a.at_or_below(*b)), None),
                        ),
                        _ => Err(CallError::BadArguments),
                    }
                } else {
                    Err(CallError::BadArguments)
                }
            },
            BuiltIn::GreaterThanOrEqual => {
                if args.len() == 2 {
                    match (&args[0], &args[1]) {
                        (Value::Number(a), Value::Number(b)) => Ok(
                            (Value::Bool(b.at_or_below(*a)), None),
                        ),
                        _ => Err(CallError::BadArguments),
                    }
                } else {
                    Err(CallError::BadArguments)
                }
            },
            BuiltIn::GreaterThan => {
                if args.len() == 2 {
                    match (&args[0], &args[1]) {
                        (Value::Number(a), Value::Number(b)) => Ok(
                            (Value::Bool(b.below(*a)), None),
                        ),
                        _ => Err(CallError::BadArguments),
                    }
                } else {
                    Err(CallError::BadArguments)
                }
            },
            BuiltIn::Equal => {
                if args.len() == 2 {
                    Ok((Value::Bool(value_eq(&args[0], &args[1])), None))
                } else {
                    Err(CallError::BadArguments)
                }
            },
            BuiltIn::NotEqual => {
                if args.len() == 2 {
                    Ok((Value::Bool(!value_eq(&args[0], &args[1])), None))
                } else {
                    Err(CallError::BadArguments)
                }
            },
            BuiltIn::Print => {
                if args.len() == 1 {
                    let line = args[0].to_print_text();
                    Ok((Value::Nil, Some(line)))
                } else {
                    Err(CallError::BadArguments)
                }
            },
        }
    }
}

/// The builtin a spelling names.
#[verifier::opaque]
pub open spec fn builtin_of(s: Seq<char>) -> Option<BuiltIn> {
    if s == "+"@ {
        Some(BuiltIn::Plus)
    } else if s == "-"@ {
        Some(BuiltIn::Minus)
    } else if s == "*"@ {
        Some(BuiltIn::Times)
    } else if s == "/"@ {
        Some(BuiltIn::Divide)
    } else if s == "and"@ {
        Some(BuiltIn::And)
    } else if s == "or"@ {
        Some(BuiltIn::Or)
    } else if s == "!"@ {
        Some(BuiltIn::Not)
    } else if s == "<"@ {
        Some(BuiltIn::LessThan)
    } else if s == "<="@ {
        Some(BuiltIn::LessThanOrEqual)
    } else if s == ">="@ {
        Some(BuiltIn::GreaterThanOrEqual)
    } else if s == ">"@ {
        Some(BuiltIn::GreaterThan)
    } else if s == "=="@ {
        Some(BuiltIn::Equal)
    } else if s == "!="@ {
        Some(BuiltIn::NotEqual)
    } else if s == "print"@ {
        Some(BuiltIn::Print)
    } else {
        None
    }
}

/// Carries a normalized arithmetic result over to [`fitted_number`].
proof fn lemma_fitted(neg: bool, mag: nat, s: nat, r: Result<Decimal, NumericError>)
    requires
        crate::numbers::normalized(neg, mag, s, r),
    ensures
        match r {
            Ok(d) => fitted_number(neg, mag, s) == Ok::<Decimal, CallError>(d),
            Err(e) => e is Range && fitted_number(neg, mag, s) == Err::<Decimal, CallError>(
                CallError::NumberRange,
            ),
        },
{
    let c = canon_decimal(mag, s);
    match r {
        Ok(d) => {
            assert(d.mantissa == apply_sign(neg, c.0));
        },
        Err(_) => {},
    }
}

/// Maps a numeric failure onto the call's error kind.
fn numeric_call_error(e: NumericError) -> (r: CallError)
    ensures
        e is Range ==> r == CallError::NumberRange,
        e is DivisionByZero ==> r == CallError::DivisionByZero,
{
    match e {
        NumericError::Range => CallError::NumberRange,
        NumericError::DivisionByZero => CallError::DivisionByZero,
    }
}

} // verus!
