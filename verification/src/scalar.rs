//! One real coordinate of a complex value, kept as an exact decimal.
//!
//! A `Scalar` counts thousandths in sign-magnitude form, so every value the
//! calculator can display (at most three decimal digits) is represented
//! exactly.  Addition and subtraction are exact; multiplication rounds the
//! exact product back to thousandths, half away from zero.  An operation
//! whose exact result does not fit the mantissa reports failure instead of
//! wrapping.

use vstd::prelude::*;

use crate::text::digit_char;
use crate::text::digit_to_char;
use crate::text::digits_chars;
use crate::text::spec_digits;
use crate::text::string_of;

verus! {

/// A signed count of thousandths: the value is `mant / 1000`, negated when
/// `neg` is set.
#[derive(Debug, Clone, Copy, PartialEq, Eq)]
pub struct Scalar {
    pub neg: bool,
    pub mant: u128,
}

/// Whether a value in thousandths fits the mantissa.
pub open spec fn in_range(v: int) -> bool {
    -(u128::MAX as int) <= v && v <= u128::MAX as int
}

/// The canonical representation of a value in thousandths.
pub open spec fn scalar_of(v: int) -> Scalar
    recommends
        in_range(v),
{
    Scalar { neg: v < 0, mant: (if v < 0 { -v } else { v }) as u128 }
}

/// The exact product of two values in thousandths is measured in millionths;
/// this rounds it back to thousandths, half away from zero.
pub open spec fn round_thousandth(p: int) -> int {
    if p >= 0 {
        (p + 500) / 1000
    } else {
        -((-p + 500) / 1000)
    }
}

/// Exact sum, or `None` when the result does not fit.
pub open spec fn spec_scalar_add(a: Scalar, b: Scalar) -> Option<Scalar> {
    if in_range(a.value() + b.value()) {
        Some(scalar_of(a.value() + b.value()))
    } else {
        None
    }
}

/// Exact difference, or `None` when the result does not fit.
pub open spec fn spec_scalar_sub(a: Scalar, b: Scalar) -> Option<Scalar> {
    if in_range(a.value() - b.value()) {
        Some(scalar_of(a.value() - b.value()))
    } else {
        None
    }
}

/// Product rounded to thousandths, or `None` when the exact product (in
/// millionths) does not fit the mantissa.
pub open spec fn spec_scalar_mul(a: Scalar, b: Scalar) -> Option<Scalar> {
    if in_range(a.value() * b.value()) {
        Some(scalar_of(round_thousandth(a.value() * b.value())))
    } else {
        None
    }
}

impl Scalar {
    /// The represented value, measured in thousandths.
    pub open spec fn value(self) -> int {
        if self.neg {
            -(self.mant as int)
        } else {
            self.mant as int
        }
    }

    /// Canonical form: zero carries no sign.
    pub open spec fn wf(self) -> bool {
        self.mant == 0 ==> !self.neg
    }

    /// The canonical scalar with the given sign and magnitude in thousandths.
    pub(crate) fn make(neg: bool, mant: u128) -> (r: Scalar)
        ensures
            r == scalar_of(if neg { -(mant as int) } else { mant as int }),
    {
        Scalar { neg: if mant == 0 { false } else { neg }, mant }
    }

    /// The scalar `sign * (units + thousandths/1000)`.
    pub fn from_parts(neg: bool, units: u64, thousandths: u16) -> (r: Scalar)
        requires
            thousandths < 1000,
        ensures
            r == scalar_of(
                if neg {
                    -(units * 1000 + thousandths)
                } else {
                    units * 1000 + thousandths
                },
            ),
            r.wf(),
    {
        let r = Scalar::make(neg, (units as u128) * 1000 + (thousandths as u128));
        proof {
            lemma_scalar_of_wf(if neg {
                -(units * 1000 + thousandths)
            } else {
                units * 1000 + thousandths
            });
        }
        r
    }

    /// The scalar for a whole number.
    pub fn from_int(i: i64) -> (r: Scalar)
        ensures
            r == scalar_of(i * 1000),
            r.wf(),
    {
        let r = if i < 0 {
            let m = (-(i as i128)) as u128;
            Scalar::make(true, m * 1000)
        } else {
            Scalar::make(false, (i as u128) * 1000)
        };
        proof {
            lemma_scalar_of_wf(i * 1000);
        }
        r
    }

    /// The same magnitude with the opposite sign.
    pub fn negate(self) -> (r: Scalar)
        ensures
            r == scalar_of(-self.value()),
    {
        Scalar::make(!self.neg, self.mant)
    }

    /// Exact sum, or `None` when the result does not fit.
    pub fn add(self, other: Scalar) -> (r: Option<Scalar>)
        ensures
            r == spec_scalar_add(self, other),
    {
        if self.neg == other.neg {
            match self.mant.checked_add(other.mant) {
                Some(m) => Some(Scalar::make(self.neg, m)),
                None => None,
            }
        } else if self.mant >= other.mant {
            Some(Scalar::make(self.neg, self.mant - other.mant))
        } else {
            Some(Scalar::make(other.neg, other.mant - self.mant))
        }
    }

    /// Exact difference, or `None` when the result does not fit.
    pub fn sub(self, other: Scalar) -> (r: Option<Scalar>)
        ensures
            r == spec_scalar_sub(self, other),
    {
        self.add(other.negate())
    }

    /// Product rounded to thousandths, or `None` when the exact product does
    /// not fit.
    pub fn mul(self, other: Scalar) -> (r: Option<Scalar>)
        ensures
            r == spec_scalar_mul(self, other),
    {
        proof {
            lemma_sign_magnitude_mul(self, other);
        }
        match self.mant.checked_mul(other.mant) {
            Some(p) => {
                let q = p / 1000;
                let rem = p % 1000;
                let m = if rem >= 500 {
                    q + 1
                } else {
                    q
                };
                proof {
                    lemma_round_div(p as int);
                }
                Some(Scalar::make(self.neg != other.neg, m))
            },
            None => None,
        }
    }
}

/// The product of two scalars in sign-magnitude form: the magnitudes multiply
/// and the signs combine.
proof fn lemma_sign_magnitude_mul(a: Scalar, b: Scalar)
    ensures
        a.value() * b.value() == if a.neg != b.neg {
            -((a.mant * b.mant) as int)
        } else {
            (a.mant * b.mant) as int
        },
{
    assert(a.value() * b.value() == if a.neg != b.neg {
        -((a.mant * b.mant) as int)
    } else {
        (a.mant * b.mant) as int
    }) by (nonlinear_arith);
}

/// Rounding a nonnegative count of millionths to thousandths, half up, agrees
/// with truncating division plus a carry on the remainder.
proof fn lemma_round_div(p: int)
    requires
        p >= 0,
    ensures
        round_thousandth(p) == p / 1000 + (if p % 1000 >= 500 { 1int } else { 0int }),
        round_thousandth(-p) == -(p / 1000 + (if p % 1000 >= 500 { 1int } else { 0int })),
        0 <= round_thousandth(p) <= p,
{
    let q = p / 1000;
    let r = p % 1000;
    vstd::arithmetic::div_mod::lemma_fundamental_div_mod(p, 1000);
    vstd::arithmetic::div_mod::lemma_mod_division_less_than_divisor(p, 1000);
    vstd::arithmetic::div_mod::lemma_div_pos_is_pos(p, 1000);
    let c: int = if r >= 500 {
        1
    } else {
        0
    };
    vstd::arithmetic::div_mod::lemma_fundamental_div_mod_converse_div(
        p + 500,
        1000,
        q + c,
        r + 500 - 1000 * c,
    );
    assert(1000 * q >= q) by (nonlinear_arith)
        requires
            q >= 0,
    ;
}

pub proof fn lemma_scalar_of_wf(v: int)
    requires
        in_range(v),
    ensures
        scalar_of(v).wf(),
        scalar_of(v).value() == v,
{
}

/// The text of a nonnegative count of thousandths: the whole part in decimal
/// digits, then, unless the fraction is zero, a point and exactly three
/// fractional digits.
pub open spec fn spec_unsigned_text(t: nat) -> Seq<char> {
    if t % 1000 == 0 {
        spec_digits(t / 1000)
    } else {
        spec_digits(t / 1000) + seq!['.'] + spec_frac3(t % 1000)
    }
}

/// Exactly three digits, with leading zeros, for a fraction in thousandths.
pub open spec fn spec_frac3(f: nat) -> Seq<char>
    recommends
        f < 1000,
{
    seq![digit_char(f / 100), digit_char((f / 10) % 10), digit_char(f % 10)]
}

/// The text of a value in thousandths: a leading minus sign for negative
/// values, then the unsigned text of the magnitude.
pub open spec fn spec_scalar_text(v: int) -> Seq<char> {
    if v < 0 {
        seq!['-'] + spec_unsigned_text((-v) as nat)
    } else {
        spec_unsigned_text(v as nat)
    }
}

impl Scalar {
    /// The characters of the canonical rendering of this value.
    pub fn to_chars(&self) -> (r: Vec<char>)
        ensures
            r@ == spec_scalar_text(self.value()),
    {
        let mut v: Vec<char> = Vec::new();
        if self.neg && self.mant != 0 {
            v.push('-');
        }
        let q = self.mant / 1000;
        let f = self.mant % 1000;
        let mut whole = digits_chars(q);
        v.append(&mut whole);
        if f != 0 {
            v.push('.');
            v.push(digit_to_char((f / 100) as u8));
            v.push(digit_to_char(((f / 10) % 10) as u8));
            v.push(digit_to_char((f % 10) as u8));
        }
        proof {
            assert(v@ =~= spec_scalar_text(self.value()));
        }
        v
    }

    /// The canonical rendering of this value.
    pub fn to_text(&self) -> (r: String)
        ensures
            r@ == spec_scalar_text(self.value()),
    {
        let v = self.to_chars();
        string_of(&v)
    }
}

} // verus!
