use vstd::prelude::*;

use crate::builtins::{call_model, sum_model, BuiltIn, CallError};
use crate::environment::{frame_lookup, stack_lookup};
use crate::numbers::{pow10, Decimal};
use crate::values::{model_eq, ValueModel};

verus! {

/// Equality of values never coerces: values of different kinds are
/// unequal, and nothing equals `nil` but `nil` itself.
pub proof fn law_equality_across_kinds(a: ValueModel, b: ValueModel)
    ensures
        !(a is Nil <==> b is Nil) ==> !model_eq(a, b),
        a is Number && !(b is Number) ==> !model_eq(a, b),
        a is Str && !(b is Str) ==> !model_eq(a, b),
        a is Bool && !(b is Bool) ==> !model_eq(a, b),
        a is Nil && b is Nil ==> model_eq(a, b),
        model_eq(a, b) <==> model_eq(b, a),
{
}

/// Canonical numbers decide equality by their fields: two well-formed
/// decimals stand for the same rational exactly when they are equal.
pub proof fn law_canonical_number_equality(a: Decimal, b: Decimal)
    requires
        a.wf(),
        b.wf(),
    ensures
        (a.mantissa * pow10(b.scale as nat) == b.mantissa * pow10(a.scale as nat)) <==> (a == b),
{
    if a.mantissa * pow10(b.scale as nat) == b.mantissa * pow10(a.scale as nat) {
        lemma_cross_eq_canonical(a, b);
    }
}

proof fn lemma_cross_eq_canonical(a: Decimal, b: Decimal)
    requires
        a.wf(),
        b.wf(),
        a.mantissa * pow10(b.scale as nat) == b.mantissa * pow10(a.scale as nat),
    ensures
        a == b,
{
    if a.scale == b.scale {
        crate::numbers::lemma_pow10_pos(a.scale as nat);
        assert(a.mantissa == b.mantissa) by (nonlinear_arith)
            requires
                a.mantissa * pow10(b.scale as nat) == b.mantissa * pow10(a.scale as nat),
                a.scale == b.scale,
                pow10(a.scale as nat) >= 1,
        ;
    } else {
        let (lo, hi) = if a.scale < b.scale {
            (a, b)
        } else {
            (b, a)
        };
        // With fewer fractional digits on one side, the other side's
        // mantissa would carry a trailing zero, against canonicity.
        let d = (hi.scale - lo.scale) as nat;
        crate::numbers::lemma_pow10_pos(lo.scale as nat);
        crate::numbers::lemma_pow10_pos(d);
        crate::numbers::lemma_pow10_add(lo.scale as nat, d);
        assert(lo.mantissa * pow10(hi.scale as nat) == hi.mantissa * pow10(lo.scale as nat));
        assert(lo.mantissa * (pow10(lo.scale as nat) * pow10(d)) == (lo.mantissa * pow10(d))
            * pow10(lo.scale as nat)) by (nonlinear_arith);
        assert(lo.mantissa * pow10(d) == hi.mantissa) by (nonlinear_arith)
            requires
                (lo.mantissa * pow10(d)) * pow10(lo.scale as nat) == hi.mantissa * pow10(
                    lo.scale as nat,
                ),
                pow10(lo.scale as nat) >= 1,
        ;
        assert(pow10(d) == 10 * pow10((d - 1) as nat));
        assert(hi.mantissa == (lo.mantissa * pow10((d - 1) as nat)) * 10) by (nonlinear_arith)
            requires
                lo.mantissa * (10 * pow10((d - 1) as nat)) == hi.mantissa,
        ;
        assert(hi.mantissa % 10 == 0) by {
            vstd::arithmetic::div_mod::lemma_mod_multiples_basic(
                lo.mantissa * pow10((d - 1) as nat),
                10,
            );
        }
        assert(false);
    }
}

/// `+` joins two strings and adds two numbers, and accepts no mixed
/// pair: a number and a string together are refused with an argument
/// error that names no sum.
pub proof fn law_plus_shapes(a: ValueModel, b: ValueModel)
    ensures
        a is Str && b is Str ==> call_model(BuiltIn::Plus, seq![a, b]) == Ok::<
            (ValueModel, Option<Seq<char>>),
            CallError,
        >((ValueModel::Str(a->Str_0 + b->Str_0), None)),
        a is Number && b is Number ==> call_model(BuiltIn::Plus, seq![a, b]) == (match sum_model(
            a->Number_0,
            b->Number_0,
        ) {
            Ok(d) => Ok::<(ValueModel, Option<Seq<char>>), CallError>(
                (ValueModel::Number(d), None),
            ),
            Err(e) => Err(e),
        }),
        a is Number && b is Str ==> call_model(BuiltIn::Plus, seq![a, b]) == Err::<
            (ValueModel, Option<Seq<char>>),
            CallError,
        >(CallError::BadArguments),
        a is Str && b is Number ==> call_model(BuiltIn::Plus, seq![a, b]) == Err::<
            (ValueModel, Option<Seq<char>>),
            CallError,
        >(CallError::BadArguments),
{
    assert(seq![a, b].len() == 2);
    assert(seq![a, b][0] == a);
    assert(seq![a, b][1] == b);
}

/// The `==` builtin decides structural equality for any pair of values,
/// with no coercion across kinds.
pub proof fn law_builtin_equality(a: ValueModel, b: ValueModel)
    ensures
        call_model(BuiltIn::Equal, seq![a, b]) == Ok::<(ValueModel, Option<Seq<char>>), CallError>(
            (ValueModel::Bool(model_eq(a, b)), None),
        ),
        call_model(BuiltIn::NotEqual, seq![a, b]) == Ok::<
            (ValueModel, Option<Seq<char>>),
            CallError,
        >((ValueModel::Bool(!model_eq(a, b)), None)),
{
    assert(seq![a, b].len() == 2);
}

/// `print` writes the bare rendering of its one argument and hands back
/// `nil`.
pub proof fn law_print_writes_bare_text(v: ValueModel)
    ensures
        call_model(BuiltIn::Print, seq![v]) == Ok::<(ValueModel, Option<Seq<char>>), CallError>(
            (ValueModel::Nil, Some(crate::values::value_print_text(v))),
        ),
{
    assert(seq![v].len() == 1);
    assert(seq![v][0] == v);
}

/// Shadowing and block scope: a binding set in an entered frame wins the
/// lookup, and dropping that frame restores what the name meant before.
pub proof fn law_scoped_shadowing(
    stack: Seq<Seq<(Seq<char>, ValueModel)>>,
    key: Seq<char>,
    v: ValueModel,
)
    ensures
        stack_lookup(stack.push(Seq::empty().push((key, v))), key) == Some(v),
        stack.push(Seq::empty().push((key, v))).drop_last() == stack,
{
    let frame = Seq::empty().push((key, v));
    assert(stack.push(frame).last() == frame);
    assert(frame_lookup(frame, key) == Some(v));
    assert(stack.push(frame).drop_last() =~= stack);
}

/// A fresh binding for one name leaves every other name's meaning alone.
pub proof fn law_set_preserves_others(
    frame: Seq<(Seq<char>, ValueModel)>,
    key: Seq<char>,
    other: Seq<char>,
    v: ValueModel,
)
    requires
        key != other,
    ensures
        frame_lookup(frame.push((key, v)), other) == frame_lookup(frame, other),
        frame_lookup(frame.push((key, v)), key) == Some(v),
{
    assert(frame.push((key, v)).drop_last() =~= frame);
}

} // verus!
