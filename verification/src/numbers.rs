use vstd::prelude::*;
use vstd::arithmetic::div_mod::lemma_div_nonincreasing;

use crate::strutil::{dec_digits, digit_val, is_digit_ch};

verus! {

// ---------------------------------------------------------------------------
// Representation
// ---------------------------------------------------------------------------
/// The numeric payload of a number value: an exact decimal
/// `mantissa / 10^scale`, kept in canonical form so that equal numbers
/// have equal fields.
///
/// Results of `/` that do not terminate within [`MAX_SCALE`] fractional
/// digits are truncated toward zero at that scale, and results whose
/// canonical mantissa exceeds `i64::MAX` in magnitude are reported as a
/// range error rather than silently rounded.
#[derive(Debug, Clone, Copy, PartialEq, Eq, Structural)]
pub struct Decimal {
    pub mantissa: i64,
    pub scale: u32,
}

/// The largest number of fractional digits a `Decimal` carries.
pub const MAX_SCALE: u32 = 19;

/// An arithmetic operation failed to produce a representable number.
#[derive(Debug, Clone, Copy, PartialEq, Eq, Structural)]
pub enum NumericError {
    /// The canonical mantissa of the exact result does not fit in `i64`.
    Range,
    /// Division by the number zero.
    DivisionByZero,
}

impl Decimal {
    /// Canonical form: a bounded scale, a mantissa whose magnitude fits in
    /// `i64` positively, and no trailing zero digit in the fraction.
    pub open spec fn wf(self) -> bool {
        &&& self.scale <= MAX_SCALE
        &&& self.mantissa != i64::MIN
        &&& (self.scale > 0 ==> self.mantissa % 10 != 0)
    }

    /// The number zero.
    pub fn zero() -> (d: Decimal)
        ensures
            d == (Decimal { mantissa: 0, scale: 0 }),
            d.wf(),
    {
        Decimal { mantissa: 0, scale: 0 }
    }

    /// The whole number `n`.
    pub fn from_integer(n: i64) -> (d: Decimal)
        requires
            n != i64::MIN,
        ensures
            d == (Decimal { mantissa: n, scale: 0 }),
            d.wf(),
    {
        Decimal { mantissa: n, scale: 0 }
    }
}

// ---------------------------------------------------------------------------
// Powers of ten
// ---------------------------------------------------------------------------
pub open spec fn pow10(e: nat) -> int
    decreases e,
{
    if e == 0 {
        1
    } else {
        10 * pow10((e - 1) as nat)
    }
}

pub proof fn lemma_pow10_pos(e: nat)
    ensures
        pow10(e) >= 1,
    decreases e,
{
    if e > 0 {
        lemma_pow10_pos((e - 1) as nat);
    }
}

pub proof fn lemma_pow10_le(a: nat, b: nat)
    requires
        a <= b,
    ensures
        pow10(a) <= pow10(b),
    decreases b,
{
    if a < b {
        lemma_pow10_le(a, (b - 1) as nat);
        lemma_pow10_pos((b - 1) as nat);
    }
}

pub proof fn lemma_pow10_add(a: nat, b: nat)
    ensures
        pow10(a + b) == pow10(a) * pow10(b),
    decreases a,
{
    if a == 0 {
    } else {
        lemma_pow10_add((a - 1) as nat, b);
        assert(pow10(a + b) == 10 * pow10((a + b - 1) as nat));
        assert(10 * (pow10((a - 1) as nat) * pow10(b)) == (10 * pow10((a - 1) as nat)) * pow10(
            b,
        )) by (nonlinear_arith);
    }
}

/// `10^38` written out, the largest power the arithmetic below needs.
pub proof fn lemma_pow10_38()
    ensures
        pow10(19) == 10000000000000000000,
        pow10(38) == 100000000000000000000000000000000000000,
{
    reveal_with_fuel(pow10, 40);
}

fn pow10_u128(e: u32) -> (r: u128)
    requires
        e <= 38,
    ensures
        r == pow10(e as nat),
{
    proof {
        lemma_pow10_38();
    }
    let mut r: u128 = 1;
    let mut i: u32 = 0;
    while i < e
        invariant
            i <= e <= 38,
            r == pow10(i as nat),
        decreases e - i,
    {
        proof {
            lemma_pow10_le((i + 1) as nat, 38);
            lemma_pow10_38();
            assert(pow10((i + 1) as nat) == 10 * pow10(i as nat));
        }
        r = r * 10;
        i = i + 1;
    }
    r
}

// ---------------------------------------------------------------------------
// Canonicalization
// ---------------------------------------------------------------------------
/// The magnitude of an integer.
pub open spec fn abs_int(m: int) -> nat {
    if m >= 0 {
        m as nat
    } else {
        (-m) as nat
    }
}

/// Strips trailing fractional zero digits from a magnitude/scale pair.
pub open spec fn canon_mag(mag: nat, s: nat) -> (nat, nat)
    decreases s,
{
    if s == 0 || mag % 10 != 0 {
        (mag, s)
    } else {
        canon_mag(mag / 10, (s - 1) as nat)
    }
}

/// Stripping trailing zeros shrinks the pair and preserves the value:
/// `cm / 10^cs == mag / 10^s`, stated by cross multiplication.
pub proof fn lemma_canon_mag_props(mag: nat, s: nat)
    ensures
        canon_mag(mag, s).1 <= s,
        canon_mag(mag, s).1 > 0 ==> canon_mag(mag, s).0 % 10 != 0,
        canon_mag(mag, s).0 <= mag,
        canon_mag(mag, s).0 * pow10(s) == mag * pow10(canon_mag(mag, s).1),
    decreases s,
{
    if s == 0 || mag % 10 != 0 {
    } else {
        let (cm, cs) = canon_mag(mag / 10, (s - 1) as nat);
        lemma_canon_mag_props(mag / 10, (s - 1) as nat);
        lemma_div_nonincreasing(mag as int, 10);
        assert(mag / 10 * 10 == mag) by {
            vstd::arithmetic::div_mod::lemma_fundamental_div_mod(mag as int, 10);
        }
        assert(cm * pow10((s - 1) as nat) == (mag / 10) * pow10(cs));
        assert(pow10(s) == 10 * pow10((s - 1) as nat));
        assert(cm * (10 * pow10((s - 1) as nat)) == 10 * (cm * pow10((s - 1) as nat)))
            by (nonlinear_arith);
        assert(10 * ((mag / 10) * pow10(cs)) == (10 * (mag / 10)) * pow10(cs)) by (nonlinear_arith);
    }
}

/// The canonical decimal obtained from a sign, a magnitude and a scale:
/// the fraction is first truncated toward zero at [`MAX_SCALE`] digits,
/// then trailing fractional zeros are stripped.
pub open spec fn canon_decimal(mag: nat, s: nat) -> (nat, nat) {
    let t = if s > MAX_SCALE {
        ((mag as int) / pow10((s - MAX_SCALE) as nat)) as nat
    } else {
        mag
    };
    let ts = if s > MAX_SCALE {
        MAX_SCALE as nat
    } else {
        s
    };
    canon_mag(t, ts)
}

/// The signed mantissa a canonical magnitude stands for.
pub open spec fn apply_sign(neg: bool, mag: nat) -> int {
    if neg {
        -(mag as int)
    } else {
        mag as int
    }
}

/// What `normalize` returns: the canonical decimal when its mantissa fits
/// in `i64`, and a range error otherwise.
pub open spec fn normalized(neg: bool, mag: nat, s: nat, r: Result<Decimal, NumericError>) -> bool {
    let (cm, cs) = canon_decimal(mag, s);
    match r {
        Ok(d) => cm <= i64::MAX && d.mantissa == apply_sign(neg, cm) && d.scale == cs && d.wf(),
        Err(e) => e == NumericError::Range && cm > i64::MAX,
    }
}

/// Puts an exact result into canonical `Decimal` form.
fn normalize(neg: bool, mag0: u128, s0: u32) -> (r: Result<Decimal, NumericError>)
    requires
        s0 <= 38,
    ensures
        normalized(neg, mag0 as nat, s0 as nat, r),
{
    let ghost c = canon_decimal(mag0 as nat, s0 as nat);
    let mut mag: u128 = mag0;
    let mut s: u32 = s0;
    if s > MAX_SCALE {
        let p = pow10_u128(s - MAX_SCALE);
        proof {
            lemma_pow10_pos((s - MAX_SCALE) as nat);
        }
        mag = mag / p;
        s = MAX_SCALE;
    }
    while s > 0 && mag % 10 == 0
        invariant
            s <= MAX_SCALE,
            canon_mag(mag as nat, s as nat) == c,
        decreases s,
    {
        mag = mag / 10;
        s = s - 1;
    }
    proof {
        assert(canon_mag(mag as nat, s as nat) == (mag as nat, s as nat));
    }
    if mag > i64::MAX as u128 {
        Err(NumericError::Range)
    } else {
        let m: i64 = if neg && mag > 0 {
            -(mag as i64)
        } else {
            mag as i64
        };
        proof {
            if !(neg && mag > 0) {
                assert(apply_sign(neg, mag as nat) == mag as int);
            }
            if s > 0 {
                assert(mag as nat % 10 != 0);
                if neg && mag > 0 {
                    assert(m as int == -(mag as int));
                    assert(m % 10 != 0) by {
                        lemma_neg_mod(mag as int, 10);
                    }
                }
            }
        }
        Ok(Decimal { mantissa: m, scale: s })
    }
}

// ---------------------------------------------------------------------------
// Arithmetic
// ---------------------------------------------------------------------------
/// The larger of the two scales, the common denominator for `+` and `-`.
pub open spec fn smax(a: Decimal, b: Decimal) -> nat {
    if a.scale >= b.scale {
        a.scale as nat
    } else {
        b.scale as nat
    }
}

/// The exact value of `a + b`, as a mantissa at scale `smax(a, b)`.
pub open spec fn exact_sum(a: Decimal, b: Decimal) -> int {
    a.mantissa * pow10((smax(a, b) - a.scale) as nat) + b.mantissa * pow10(
        (smax(a, b) - b.scale) as nat,
    )
}

/// The scale at which a quotient is computed: `MAX_SCALE` fractional
/// digits, fewer when the divisor's scale exceeds the dividend's.
pub open spec fn quot_scale(a: Decimal, b: Decimal) -> nat {
    if b.scale <= a.scale {
        MAX_SCALE as nat
    } else {
        (MAX_SCALE - (b.scale - a.scale)) as nat
    }
}

/// The magnitude of the quotient truncated toward zero at `quot_scale`.
pub open spec fn quot_mag(a: Decimal, b: Decimal) -> nat {
    let e = (b.scale + quot_scale(a, b) - a.scale) as nat;
    ((abs_int(a.mantissa as int) * pow10(e)) / (abs_int(b.mantissa as int) as int)) as nat
}

proof fn lemma_canon_mag_zero(s: nat)
    ensures
        canon_mag(0, s) == (0nat, 0nat),
    decreases s,
{
    if s > 0 {
        lemma_canon_mag_zero((s - 1) as nat);
    }
}

/// The magnitude of an `i64` other than the smallest one.
fn mag_of(m: i64) -> (r: u64)
    requires
        m != i64::MIN,
    ensures
        r as nat == abs_int(m as int),
{
    if m < 0 {
        (-m) as u64
    } else {
        m as u64
    }
}

/// Both mantissas brought to the common scale `smax`, as magnitudes.
fn scaled_mags(a: Decimal, b: Decimal) -> (t: (u128, u128, u32))
    requires
        a.wf(),
        b.wf(),
    ensures
        t.2 as nat == smax(a, b),
        t.0 as nat == abs_int(a.mantissa as int) * pow10((smax(a, b) - a.scale) as nat),
        t.1 as nat == abs_int(b.mantissa as int) * pow10((smax(a, b) - b.scale) as nat),
        t.0 < 100000000000000000000000000000000000000,
        t.1 < 100000000000000000000000000000000000000,
        apply_sign(a.mantissa < 0, t.0 as nat) == a.mantissa * pow10((smax(a, b) - a.scale) as nat),
        apply_sign(b.mantissa < 0, t.1 as nat) == b.mantissa * pow10((smax(a, b) - b.scale) as nat),
{
    let s: u32 = if a.scale >= b.scale {
        a.scale
    } else {
        b.scale
    };
    let pa = pow10_u128(s - a.scale);
    let pb = pow10_u128(s - b.scale);
    proof {
        lemma_pow10_pos((s - a.scale) as nat);
        lemma_pow10_pos((s - b.scale) as nat);
        lemma_pow10_le((s - a.scale) as nat, 19);
        lemma_pow10_le((s - b.scale) as nat, 19);
        lemma_pow10_38();
    }
    let ma = (mag_of(a.mantissa) as u128);
    let mb = (mag_of(b.mantissa) as u128);
    proof {
        assert(ma * pa < 100000000000000000000000000000000000000) by (nonlinear_arith)
            requires
                0 <= ma < 10000000000000000000,
                0 <= pa <= 10000000000000000000,
        ;
        assert(mb * pb < 100000000000000000000000000000000000000) by (nonlinear_arith)
            requires
                0 <= mb < 10000000000000000000,
                0 <= pb <= 10000000000000000000,
        ;
        if a.mantissa < 0 {
            assert((-(ma as int)) * (pa as int) == -((ma as int) * (pa as int)))
                by (nonlinear_arith);
        }
        if b.mantissa < 0 {
            assert((-(mb as int)) * (pb as int) == -((mb as int) * (pb as int)))
                by (nonlinear_arith);
        }
    }
    (ma * pa, mb * pb, s)
}

impl Decimal {
    /// Negation; exact.
    pub fn negated(self) -> (r: Decimal)
        requires
            self.wf(),
        ensures
            r.mantissa as int == -(self.mantissa as int),
            r.scale == self.scale,
            r.wf(),
    {
        proof {
            if self.scale > 0 {
                lemma_neg_mod(self.mantissa as int, 10);
            }
        }
        Decimal { mantissa: -self.mantissa, scale: self.scale }
    }

    /// Addition; exact up to the canonical mantissa fitting in `i64`.
    pub fn plus(self, other: Decimal) -> (r: Result<Decimal, NumericError>)
        requires
            self.wf(),
            other.wf(),
        ensures
            normalized(
                exact_sum(self, other) < 0,
                abs_int(exact_sum(self, other)),
                smax(self, other),
                r,
            ),
    {
        let (ma, mb, s) = scaled_mags(self, other);
        let na = self.mantissa < 0;
        let nb = other.mantissa < 0;
        let ghost em = exact_sum(self, other);
        let (neg, mag): (bool, u128) = if na == nb {
            (na, ma + mb)
        } else if ma >= mb {
            (na, ma - mb)
        } else {
            (nb, mb - ma)
        };
        proof {
            assert(em == apply_sign(na, ma as nat) + apply_sign(nb, mb as nat));
            assert(abs_int(em) == mag as nat);
            assert(mag > 0 ==> neg == (em < 0));
        }
        let r = normalize(neg, mag, s);
        proof {
            if mag == 0 {
                lemma_canon_mag_zero(s as nat);
                assert(canon_decimal(0, s as nat) == (0nat, 0nat));
            }
        }
        r
    }

    /// Subtraction; exact up to the canonical mantissa fitting in `i64`.
    pub fn minus(self, other: Decimal) -> (r: Result<Decimal, NumericError>)
        requires
            self.wf(),
            other.wf(),
        ensures
            normalized(
                exact_sum(self, other.negated_spec()) < 0,
                abs_int(exact_sum(self, other.negated_spec())),
                smax(self, other),
                r,
            ),
    {
        let n = other.negated();
        proof {
            assert(n == other.negated_spec());
        }
        self.plus(n)
    }

    /// The negated value, at spec level.
    pub open spec fn negated_spec(self) -> Decimal {
        Decimal { mantissa: (-(self.mantissa as int)) as i64, scale: self.scale }
    }

    /// Multiplication; the exact product truncated at `MAX_SCALE`
    /// fractional digits.
    pub fn times(self, other: Decimal) -> (r: Result<Decimal, NumericError>)
        requires
            self.wf(),
            other.wf(),
        ensures
            normalized(
                (self.mantissa < 0) != (other.mantissa < 0),
                abs_int(self.mantissa as int) * abs_int(other.mantissa as int),
                (self.scale + other.scale) as nat,
                r,
            ),
    {
        let ma = mag_of(self.mantissa) as u128;
        let mb = mag_of(other.mantissa) as u128;
        proof {
            assert(ma * mb <= 0xffffffffffffffff * 0xffffffffffffffff) by (nonlinear_arith)
                requires
                    0 <= ma <= 0xffffffffffffffff,
                    0 <= mb <= 0xffffffffffffffff,
            ;
        }
        normalize((self.mantissa < 0) != (other.mantissa < 0), ma * mb, self.scale + other.scale)
    }

    /// Division; the exact quotient truncated toward zero at
    /// `quot_scale` fractional digits. Fails on a zero divisor.
    pub fn divide(self, other: Decimal) -> (r: Result<Decimal, NumericError>)
        requires
            self.wf(),
            other.wf(),
        ensures
            other.mantissa == 0 ==> r == Result::<Decimal, NumericError>::Err(
                NumericError::DivisionByZero,
            ),
            other.mantissa != 0 ==> normalized(
                (self.mantissa < 0) != (other.mantissa < 0),
                quot_mag(self, other),
                quot_scale(self, other),
                r,
            ),
    {
        if other.mantissa == 0 {
            return Err(NumericError::DivisionByZero);
        }
        let rs: u32 = if other.scale <= self.scale {
            MAX_SCALE
        } else {
            MAX_SCALE - (other.scale - self.scale)
        };
        let e: u32 = other.scale + rs - self.scale;
        let pe = pow10_u128(e);
        proof {
            lemma_pow10_pos(e as nat);
            lemma_pow10_le(e as nat, 19);
            lemma_pow10_38();
        }
        let ma = mag_of(self.mantissa) as u128;
        let mb = mag_of(other.mantissa) as u128;
        proof {
            assert(ma * pe < 100000000000000000000000000000000000000) by (nonlinear_arith)
                requires
                    0 <= ma < 10000000000000000000,
                    0 <= pe <= 10000000000000000000,
            ;
        }
        let q = (ma * pe) / mb;
        normalize((self.mantissa < 0) != (other.mantissa < 0), q, rs)
    }

    /// Whether `self` is strictly below `other`, by cross multiplication.
    pub fn below(self, other: Decimal) -> (r: bool)
        requires
            self.wf(),
            other.wf(),
        ensures
            r == (self.mantissa * pow10((smax(self, other) - self.scale) as nat) < other.mantissa
                * pow10((smax(self, other) - other.scale) as nat)),
    {
        let (ma, mb, s) = scaled_mags(self, other);
        let na = self.mantissa < 0;
        let nb = other.mantissa < 0;
        proof {
            assert(self.mantissa * pow10((smax(self, other) - self.scale) as nat) == apply_sign(
                na,
                ma as nat,
            ));
            assert(other.mantissa * pow10((smax(self, other) - other.scale) as nat) == apply_sign(
                nb,
                mb as nat,
            ));
            if na {
                assert(abs_int(self.mantissa as int) > 0);
                lemma_pow10_pos((smax(self, other) - self.scale) as nat);
                assert(ma as nat >= 1 * pow10((smax(self, other) - self.scale) as nat))
                    by (nonlinear_arith)
                    requires
                        ma as nat == abs_int(self.mantissa as int) * pow10(
                            (smax(self, other) - self.scale) as nat,
                        ),
                        abs_int(self.mantissa as int) >= 1,
                        pow10((smax(self, other) - self.scale) as nat) >= 1,
                ;
            }
            if nb {
                assert(abs_int(other.mantissa as int) > 0);
                lemma_pow10_pos((smax(self, other) - other.scale) as nat);
                assert(mb as nat >= 1 * pow10((smax(self, other) - other.scale) as nat))
                    by (nonlinear_arith)
                    requires
                        mb as nat == abs_int(other.mantissa as int) * pow10(
                            (smax(self, other) - other.scale) as nat,
                        ),
                        abs_int(other.mantissa as int) >= 1,
                        pow10((smax(self, other) - other.scale) as nat) >= 1,
                ;
            }
        }
        if na != nb {
            na
        } else if !na {
            ma < mb
        } else {
            mb < ma
        }
    }

    /// Whether `self` is at or below `other`, by cross multiplication.
    pub fn at_or_below(self, other: Decimal) -> (r: bool)
        requires
            self.wf(),
            other.wf(),
        ensures
            r == (self.mantissa * pow10((smax(self, other) - self.scale) as nat) <= other.mantissa
                * pow10((smax(self, other) - other.scale) as nat)),
    {
        !other.below(self)
    }
}

// ---------------------------------------------------------------------------
// Reading a number literal
// ---------------------------------------------------------------------------
/// The value of a run of decimal digit characters.
pub open spec fn digits_val(ds: Seq<char>) -> nat
    decreases ds.len(),
{
    if ds.len() == 0 {
        0
    } else {
        digits_val(ds.drop_last()) * 10 + digit_val(ds.last()) as nat
    }
}

/// The fractional digits a literal keeps: at most `MAX_SCALE` of them.
pub open spec fn lit_frac_used(fp: Seq<char>) -> Seq<char> {
    if fp.len() <= MAX_SCALE {
        fp
    } else {
        fp.subrange(0, MAX_SCALE as int)
    }
}

/// The mantissa a literal denotes, saturated at `i64::MAX`.
pub open spec fn lit_mag(ip: Seq<char>, fp: Seq<char>) -> nat {
    let v = digits_val(ip + lit_frac_used(fp));
    if v > i64::MAX {
        i64::MAX as nat
    } else {
        v
    }
}

/// Feeds the digits of `ds` into a saturating accumulator.
fn accumulate_digits(acc0: u64, ds: &Vec<char>, upto: usize) -> (acc: u64)
    requires
        upto <= ds@.len(),
        forall|j: int| 0 <= j < upto ==> is_digit_ch(ds@[j]),
        acc0 <= i64::MAX,
    ensures
        ({
            let total = digits_val_from(acc0 as nat, ds@.subrange(0, upto as int));
            acc == (if total > i64::MAX {
                i64::MAX as nat
            } else {
                total
            })
        }),
{
    let mut acc: u64 = acc0;
    let mut i: usize = 0;
    let bound: u64 = 0x7fffffffffffffff;
    while i < upto
        invariant
            upto <= ds@.len(),
            forall|j: int| 0 <= j < upto ==> is_digit_ch(ds@[j]),
            i <= upto,
            acc <= bound,
            bound == i64::MAX,
            ({
                let total = digits_val_from(acc0 as nat, ds@.subrange(0, i as int));
                acc == (if total > i64::MAX {
                    i64::MAX as nat
                } else {
                    total
                })
            }),
        decreases upto - i,
    {
        let ghost pre = ds@.subrange(0, i as int);
        let d = crate::strutil::digit_char_value(ds[i]) as u64;
        proof {
            assert(ds@.subrange(0, i + 1).drop_last() =~= pre);
            assert(ds@.subrange(0, i + 1).last() == ds@[i as int]);
            vstd::arithmetic::div_mod::lemma_fundamental_div_mod((bound - d) as int, 10);
        }
        if acc <= (bound - d) / 10 {
            acc = acc * 10 + d;
        } else {
            proof {
                let total_pre = digits_val_from(acc0 as nat, pre);
                if total_pre <= i64::MAX {
                    assert(acc == total_pre);
                    assert(digits_val_from(acc0 as nat, ds@.subrange(0, i + 1)) == total_pre * 10
                        + d);
                }
            }
            acc = bound;
        }
        i = i + 1;
    }
    proof {
        assert(ds@.subrange(0, upto as int) =~= ds@.subrange(0, upto as int));
    }
    acc
}

/// The value of `ds` appended to an accumulator already holding `acc`.
pub open spec fn digits_val_from(acc: nat, ds: Seq<char>) -> nat
    decreases ds.len(),
{
    if ds.len() == 0 {
        acc
    } else {
        digits_val_from(acc, ds.drop_last()) * 10 + digit_val(ds.last()) as nat
    }
}

pub proof fn lemma_digits_val_from(acc: nat, ds: Seq<char>)
    ensures
        acc > 0 ==> digits_val_from(acc, ds) >= acc,
        digits_val_from(0, ds) == digits_val(ds),
    decreases ds.len(),
{
    if ds.len() > 0 {
        lemma_digits_val_from(acc, ds.drop_last());
    }
}

/// Joining digit runs chains the accumulator.
pub proof fn lemma_digits_val_append(a: Seq<char>, b: Seq<char>)
    ensures
        digits_val_from(digits_val(a), b) == digits_val(a + b),
    decreases b.len(),
{
    if b.len() == 0 {
        assert(a + b =~= a);
        lemma_digits_val_from(digits_val(a), b);
    } else {
        lemma_digits_val_append(a, b.drop_last());
        assert((a + b).drop_last() =~= a + b.drop_last());
        assert((a + b).last() == b.last());
    }
}

impl Decimal {
    /// The canonical number a literal's digit runs denote: the integer
    /// digits, then up to `MAX_SCALE` fractional digits, the mantissa
    /// saturating at `i64::MAX`.
    pub fn from_digits(ip: &Vec<char>, fp: &Vec<char>) -> (d: Decimal)
        requires
            forall|j: int| 0 <= j < ip@.len() ==> is_digit_ch(ip@[j]),
            forall|j: int| 0 <= j < fp@.len() ==> is_digit_ch(fp@[j]),
        ensures
            normalized(
                false,
                lit_mag(ip@, fp@),
                lit_frac_used(fp@).len(),
                Ok::<Decimal, NumericError>(d),
            ),
    {
        let used: usize = if fp.len() <= MAX_SCALE as usize {
            fp.len()
        } else {
            MAX_SCALE as usize
        };
        let ghost all = ip@ + lit_frac_used(fp@);
        let acc1 = accumulate_digits(0, ip, ip.len());
        proof {
            assert(ip@.subrange(0, ip@.len() as int) =~= ip@);
            lemma_digits_val_from(0, ip@);
        }
        let acc = accumulate_digits(acc1, fp, used);
        proof {
            assert(fp@.subrange(0, used as int) =~= lit_frac_used(fp@));
            lemma_digits_val_append(ip@, lit_frac_used(fp@));
            if digits_val(ip@) > i64::MAX {
                lemma_digits_val_sat(digits_val(ip@), i64::MAX as nat, lit_frac_used(fp@));
            }
        }
        let r = normalize(false, acc as u128, used as u32);
        match r {
            Ok(d) => d,
            Err(_) => {
                proof {
                    let (cm, cs) = canon_decimal(acc as nat, used as nat);
                    lemma_canon_mag_props(acc as nat, used as nat);
                    assert(false);
                }
                Decimal { mantissa: 0, scale: 0 }
            },
        }
    }
}

/// The canonical number a literal with the given integer and fractional
/// digit runs denotes.
pub open spec fn lit_decimal(ip: Seq<char>, fp: Seq<char>) -> Decimal {
    let c = canon_decimal(lit_mag(ip, fp), lit_frac_used(fp).len());
    Decimal { mantissa: c.0 as i64, scale: c.1 as u32 }
}

/// `from_digits` returns exactly [`lit_decimal`].
pub proof fn lemma_lit_decimal(ip: Seq<char>, fp: Seq<char>, d: Decimal)
    requires
        normalized(false, lit_mag(ip, fp), lit_frac_used(fp).len(), Ok::<Decimal, NumericError>(d)),
    ensures
        d == lit_decimal(ip, fp),
        d.wf(),
{
    let c = canon_decimal(lit_mag(ip, fp), lit_frac_used(fp).len());
    assert(d.mantissa == apply_sign(false, c.0));
}

/// Once the accumulator passes the cap it can only grow.
proof fn lemma_digits_val_sat(a: nat, cap: nat, ds: Seq<char>)
    requires
        a > cap,
    ensures
        digits_val_from(a, ds) > cap,
        digits_val_from(cap, ds) >= cap,
    decreases ds.len(),
{
    if ds.len() > 0 {
        lemma_digits_val_sat(a, cap, ds.drop_last());
    }
}

// ---------------------------------------------------------------------------
// Rendering
// ---------------------------------------------------------------------------
/// A run of `n` zero characters.
pub open spec fn zero_chars(n: nat) -> Seq<char> {
    Seq::new(n, |i| '0')
}

/// The bare text of a number: its decimal digits with a point when the
/// scale is positive, and no forced fraction for whole numbers.
pub open spec fn decimal_text(d: Decimal) -> Seq<char> {
    let digs = dec_digits(abs_int(d.mantissa as int));
    let body = if d.scale == 0 {
        digs
    } else if digs.len() > d.scale {
        digs.subrange(0, digs.len() - d.scale) + seq!['.'] + digs.subrange(
            digs.len() - d.scale,
            digs.len() as int,
        )
    } else {
        seq!['0', '.'] + zero_chars((d.scale - digs.len()) as nat) + digs
    };
    if d.mantissa < 0 {
        seq!['-'] + body
    } else {
        body
    }
}

/// The general renderer's text: whole numbers carry a forced `.0`.
pub open spec fn decimal_display_text(d: Decimal) -> Seq<char> {
    if d.scale == 0 {
        decimal_text(d) + seq!['.', '0']
    } else {
        decimal_text(d)
    }
}

impl Decimal {
    /// The bare text of the number, as `print` shows it.
    pub fn to_text(self) -> (s: String)
        requires
            self.wf(),
        ensures
            s@ == decimal_text(self),
    {
        let mut out: Vec<char> = Vec::new();
        if self.mantissa < 0 {
            out.push('-');
        }
        let mut digs: Vec<char> = Vec::new();
        crate::strutil::push_dec_digits(mag_of(self.mantissa), &mut digs);
        let scale = self.scale as usize;
        if scale == 0 {
            append_range(&mut out, &digs, 0, digs.len());
        } else if digs.len() > scale {
            let cut = digs.len() - scale;
            append_range(&mut out, &digs, 0, cut);
            out.push('.');
            append_range(&mut out, &digs, cut, digs.len());
        } else {
            out.push('0');
            out.push('.');
            let mut k: usize = digs.len();
            while k < scale
                invariant
                    digs@.len() <= k <= scale,
                    out@ == (if self.mantissa < 0 {
                        seq!['-']
                    } else {
                        Seq::<char>::empty()
                    }) + seq!['0', '.'] + zero_chars((k - digs@.len()) as nat),
                decreases scale - k,
            {
                out.push('0');
                proof {
                    assert(zero_chars((k + 1 - digs@.len()) as nat) =~= zero_chars(
                        (k - digs@.len()) as nat,
                    ).push('0'));
                }
                k = k + 1;
            }
            append_range(&mut out, &digs, 0, digs.len());
        }
        proof {
            assert(out@ =~= decimal_text(self));
        }
        crate::strutil::chars_string(&out)
    }

    /// The general renderer's text of the number: `.0` forced onto
    /// whole numbers.
    pub fn to_display_text(self) -> (s: String)
        requires
            self.wf(),
        ensures
            s@ == decimal_display_text(self),
    {
        let mut out: Vec<char> = Vec::new();
        if self.mantissa < 0 {
            out.push('-');
        }
        let mut digs: Vec<char> = Vec::new();
        crate::strutil::push_dec_digits(mag_of(self.mantissa), &mut digs);
        let scale = self.scale as usize;
        if scale == 0 {
            append_range(&mut out, &digs, 0, digs.len());
            out.push('.');
            out.push('0');
        } else if digs.len() > scale {
            let cut = digs.len() - scale;
            append_range(&mut out, &digs, 0, cut);
            out.push('.');
            append_range(&mut out, &digs, cut, digs.len());
        } else {
            out.push('0');
            out.push('.');
            let mut k: usize = digs.len();
            while k < scale
                invariant
                    digs@.len() <= k <= scale,
                    out@ == (if self.mantissa < 0 {
                        seq!['-']
                    } else {
                        Seq::<char>::empty()
                    }) + seq!['0', '.'] + zero_chars((k - digs@.len()) as nat),
                decreases scale - k,
            {
                out.push('0');
                proof {
                    assert(zero_chars((k + 1 - digs@.len()) as nat) =~= zero_chars(
                        (k - digs@.len()) as nat,
                    ).push('0'));
                }
                k = k + 1;
            }
            append_range(&mut out, &digs, 0, digs.len());
        }
        proof {
            assert(out@ =~= decimal_display_text(self));
        }
        crate::strutil::chars_string(&out)
    }
}

/// Appends `src[from..to]` to `out`.
fn append_range(out: &mut Vec<char>, src: &Vec<char>, from: usize, to: usize)
    requires
        from <= to <= src@.len(),
    ensures
        final(out)@ == old(out)@ + src@.subrange(from as int, to as int),
{
    let mut i: usize = from;
    while i < to
        invariant
            from <= i <= to <= src@.len(),
            out@ == old(out)@ + src@.subrange(from as int, i as int),
        decreases to - i,
    {
        out.push(src[i]);
        proof {
            assert(src@.subrange(from as int, i + 1) =~= src@.subrange(from as int, i as int).push(
                src@[i as int],
            ));
        }
        i = i + 1;
    }
}

/// Negating an integer preserves divisibility by a positive modulus.
proof fn lemma_neg_mod(a: int, m: int)
    requires
        m > 0,
    ensures
        (a % m == 0) <==> ((-a) % m == 0),
{
    vstd::arithmetic::div_mod::lemma_fundamental_div_mod(a, m);
    vstd::arithmetic::div_mod::lemma_fundamental_div_mod(-a, m);
    if a % m == 0 {
        assert(a == m * (a / m));
        assert(-a == m * (-(a / m))) by (nonlinear_arith)
            requires
                a == m * (a / m),
        ;
        vstd::arithmetic::div_mod::lemma_mod_multiples_basic(-(a / m), m);
    } else if (-a) % m == 0 {
        assert(-a == m * ((-a) / m));
        assert(a == m * (-((-a) / m))) by (nonlinear_arith)
            requires
                -a == m * ((-a) / m),
        ;
        vstd::arithmetic::div_mod::lemma_mod_multiples_basic(-((-a) / m), m);
    }
}

} // verus!
