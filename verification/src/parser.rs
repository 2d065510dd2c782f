//! The complex-literal grammar and its parser.
//!
//! A literal is, after optional surrounding whitespace, one of two ordered
//! alternatives, the first tried before the second:
//!
//! ```text
//!   [-] number [ (+|-) number j ]      real part first
//! | [-] number j [ (+|-) number ]      imaginary part first
//! ```
//!
//! where `number` is `digits [ . digits ]` and whitespace may stand before a
//! second-part sign and between that sign and its digits.  A lone `number`
//! has imaginary part zero; a lone `number j` has real part zero.  Fractional
//! digits past the third round the value half up.  The two alternatives are
//! distinguished by whether a `j` follows the first number immediately, so
//! the grammar is deterministic.

use vstd::prelude::*;

use crate::complex::Complex;
use crate::scalar::Scalar;
use crate::scalar::in_range;
use crate::scalar::lemma_scalar_of_wf;
use crate::scalar::scalar_of;
use crate::text::char_to_digit;
use crate::text::chars_of;
use crate::text::digit_val;
use crate::text::is_digit;
use crate::text::is_digit_char;
use crate::text::is_space;
use crate::text::is_space_char;
use crate::text::str_eq;

verus! {

/// The first index at or after `i` that does not hold whitespace.
pub open spec fn skip_ws(s: Seq<char>, i: int) -> int
    recommends
        0 <= i <= s.len(),
    decreases s.len() - i,
{
    if i < s.len() && is_space(s[i]) {
        skip_ws(s, i + 1)
    } else {
        i
    }
}

/// The first index at or after `i` that does not hold a decimal digit.
pub open spec fn skip_digits(s: Seq<char>, i: int) -> int
    recommends
        0 <= i <= s.len(),
    decreases s.len() - i,
{
    if i < s.len() && is_digit(s[i]) {
        skip_digits(s, i + 1)
    } else {
        i
    }
}

/// The value of a run of decimal digits, most significant first.
pub open spec fn val_of_digits(d: Seq<char>) -> nat
    decreases d.len(),
{
    if d.len() == 0 {
        0
    } else {
        val_of_digits(d.drop_last()) * 10 + digit_val(d.last())
    }
}

/// The value in thousandths of the fractional digits `s[a..b)`: the first
/// three digits, missing ones read as zero, rounded half up on the fourth.
pub open spec fn frac_value(s: Seq<char>, a: int, b: int) -> nat
    recommends
        0 <= a < b <= s.len(),
{
    let d0 = digit_val(s[a]);
    let d1: nat = if b - a >= 2 {
        digit_val(s[a + 1])
    } else {
        0
    };
    let d2: nat = if b - a >= 3 {
        digit_val(s[a + 2])
    } else {
        0
    };
    let up: nat = if b - a >= 4 && digit_val(s[a + 3]) >= 5 {
        1
    } else {
        0
    };
    d0 * 100 + d1 * 10 + d2 + up
}

/// Scans a `number` (digits, optionally a point and more digits) at `i`.
/// Yields its value in thousandths and the index just past it, or `None`
/// when no digit stands at `i`.  The point is consumed only when a digit
/// follows it.
pub open spec fn spec_scan_number(s: Seq<char>, i: int) -> Option<(nat, int)>
    recommends
        0 <= i <= s.len(),
{
    let j = skip_digits(s, i);
    if j == i {
        None
    } else if j < s.len() && s[j] == '.' && j + 1 < s.len() && is_digit(s[j + 1]) {
        let k = skip_digits(s, j + 1);
        Some((val_of_digits(s.subrange(i, j)) * 1000 + frac_value(s, j + 1, k), k))
    } else {
        Some((val_of_digits(s.subrange(i, j)) * 1000, j))
    }
}

/// A scanned number whose value fits the mantissa; larger values are
/// rejected like a failed match.
pub open spec fn spec_scan_bounded(s: Seq<char>, i: int) -> Option<(nat, int)> {
    match spec_scan_number(s, i) {
        Some((v, j)) => if v <= u128::MAX as nat {
            Some((v, j))
        } else {
            None
        },
        None => None,
    }
}

/// The signed value of a magnitude.
pub open spec fn apply_sign(neg: bool, n: nat) -> int {
    if neg {
        -(n as int)
    } else {
        n as int
    }
}

/// The whole-literal grammar: the real and imaginary values in thousandths,
/// or `None` when the text matches neither alternative.
pub open spec fn spec_parse_complex(s: Seq<char>) -> Option<(int, int)> {
    let i0 = skip_ws(s, 0);
    let neg1 = i0 < s.len() && s[i0] == '-';
    let i1: int = if neg1 {
        i0 + 1
    } else {
        i0
    };
    match spec_scan_bounded(s, i1) {
        None => None,
        Some((n1, j1)) => {
            if j1 < s.len() && s[j1] == 'j' {
                // Imaginary part first.
                let k = skip_ws(s, j1 + 1);
                if k == s.len() {
                    Some((0, apply_sign(neg1, n1)))
                } else if s[k] == '+' || s[k] == '-' {
                    let neg2 = s[k] == '-';
                    let k2 = skip_ws(s, k + 1);
                    match spec_scan_bounded(s, k2) {
                        None => None,
                        Some((n2, j2)) => if skip_ws(s, j2) == s.len() {
                            Some((apply_sign(neg2, n2), apply_sign(neg1, n1)))
                        } else {
                            None
                        },
                    }
                } else {
                    None
                }
            } else {
                // Real part first.
                let k = skip_ws(s, j1);
                if k == s.len() {
                    Some((apply_sign(neg1, n1), 0))
                } else if s[k] == '+' || s[k] == '-' {
                    let neg2 = s[k] == '-';
                    let k2 = skip_ws(s, k + 1);
                    match spec_scan_bounded(s, k2) {
                        None => None,
                        Some((n2, j2)) => if j2 < s.len() && s[j2] == 'j' && skip_ws(s, j2 + 1)
                            == s.len() {
                            Some((apply_sign(neg1, n1), apply_sign(neg2, n2)))
                        } else {
                            None
                        },
                    }
                } else {
                    None
                }
            }
        },
    }
}

pub proof fn lemma_skip_ws_bounds(s: Seq<char>, i: int)
    requires
        0 <= i <= s.len(),
    ensures
        i <= skip_ws(s, i) <= s.len(),
        forall|t: int| i <= t < skip_ws(s, i) ==> is_space(s[t]),
        skip_ws(s, i) < s.len() ==> !is_space(s[skip_ws(s, i)]),
    decreases s.len() - i,
{
    if i < s.len() && is_space(s[i]) {
        lemma_skip_ws_bounds(s, i + 1);
    }
}

pub proof fn lemma_skip_ws_exact(s: Seq<char>, i: int, j: int)
    requires
        0 <= i <= j <= s.len(),
        forall|t: int| i <= t < j ==> is_space(s[t]),
        j == s.len() || !is_space(s[j]),
    ensures
        skip_ws(s, i) == j,
    decreases j - i,
{
    if i < j {
        lemma_skip_ws_exact(s, i + 1, j);
    }
}

pub proof fn lemma_skip_digits_bounds(s: Seq<char>, i: int)
    requires
        0 <= i <= s.len(),
    ensures
        i <= skip_digits(s, i) <= s.len(),
        forall|t: int| i <= t < skip_digits(s, i) ==> is_digit(s[t]),
        skip_digits(s, i) < s.len() ==> !is_digit(s[skip_digits(s, i)]),
    decreases s.len() - i,
{
    if i < s.len() && is_digit(s[i]) {
        lemma_skip_digits_bounds(s, i + 1);
    }
}

pub proof fn lemma_skip_digits_exact(s: Seq<char>, i: int, j: int)
    requires
        0 <= i <= j <= s.len(),
        forall|t: int| i <= t < j ==> is_digit(s[t]),
        j == s.len() || !is_digit(s[j]),
    ensures
        skip_digits(s, i) == j,
    decreases j - i,
{
    if i < j {
        lemma_skip_digits_exact(s, i + 1, j);
    }
}

/// The value of a digit run only grows as the run extends.
proof fn lemma_val_prefix_le(s: Seq<char>, i: int, k: int, j: int)
    requires
        0 <= i <= k <= j <= s.len(),
    ensures
        val_of_digits(s.subrange(i, k)) <= val_of_digits(s.subrange(i, j)),
    decreases j - k,
{
    if k < j {
        lemma_val_prefix_le(s, i, k, j - 1);
        assert(s.subrange(i, j).drop_last() =~= s.subrange(i, j - 1));
        let v = val_of_digits(s.subrange(i, j - 1));
        assert(v <= v * 10) by (nonlinear_arith)
            requires
                v >= 0,
        ;
    }
}

/// The exec mirror of `skip_ws`.
fn skip_spaces(s: &Vec<char>, i: usize) -> (r: usize)
    requires
        i <= s@.len(),
    ensures
        r as int == skip_ws(s@, i as int),
        i <= r <= s@.len(),
{
    proof {
        lemma_skip_ws_bounds(s@, i as int);
    }
    let mut j: usize = i;
    while j < s.len() && is_space_char(s[j])
        invariant
            i <= j <= s@.len(),
            skip_ws(s@, i as int) == skip_ws(s@, j as int),
        decreases s@.len() - j,
    {
        j = j + 1;
    }
    j
}

/// The exec mirror of `skip_digits`.
fn skip_digit_run(s: &Vec<char>, i: usize) -> (r: usize)
    requires
        i <= s@.len(),
    ensures
        r as int == skip_digits(s@, i as int),
        i <= r <= s@.len(),
{
    proof {
        lemma_skip_digits_bounds(s@, i as int);
    }
    let mut j: usize = i;
    while j < s.len() && is_digit_char(s[j])
        invariant
            i <= j <= s@.len(),
            skip_digits(s@, i as int) == skip_digits(s@, j as int),
        decreases s@.len() - j,
    {
        j = j + 1;
    }
    j
}

/// The value of the digit run `s[i..j)`, or `None` when it exceeds the
/// mantissa.
fn digits_value(s: &Vec<char>, i: usize, j: usize) -> (r: Option<u128>)
    requires
        i <= j <= s@.len(),
        forall|t: int| i <= t < j ==> is_digit(s@[t]),
    ensures
        match r {
            Some(v) => v as nat == val_of_digits(s@.subrange(i as int, j as int)),
            None => val_of_digits(s@.subrange(i as int, j as int)) > u128::MAX,
        },
{
    let mut acc: u128 = 0;
    let mut k: usize = i;
    proof {
        assert(s@.subrange(i as int, i as int) =~= Seq::<char>::empty());
    }
    while k < j
        invariant
            i <= k <= j <= s@.len(),
            forall|t: int| i <= t < j ==> is_digit(s@[t]),
            acc as nat == val_of_digits(s@.subrange(i as int, k as int)),
        decreases j - k,
    {
        let d = char_to_digit(s[k]);
        proof {
            assert(s@.subrange(i as int, k + 1 as int).drop_last() =~= s@.subrange(
                i as int,
                k as int,
            ));
            assert(s@.subrange(i as int, k + 1 as int).last() == s@[k as int]);
        }
        let next = match acc.checked_mul(10) {
            Some(m) => m.checked_add(d as u128),
            None => None,
        };
        match next {
            Some(v) => {
                acc = v;
            },
            None => {
                proof {
                    lemma_val_prefix_le(s@, i as int, k + 1, j as int);
                }
                return None;
            },
        }
        k = k + 1;
    }
    Some(acc)
}

/// The exec mirror of `spec_scan_bounded`: a number at `i`, its value in
/// thousandths and the index just past it.
pub(crate) fn scan_number_at(s: &Vec<char>, i: usize) -> (r: Option<(u128, usize)>)
    requires
        i <= s@.len(),
    ensures
        match spec_scan_bounded(s@, i as int) {
            Some((v, j)) => r matches Some(p) && p.0 as nat == v && p.1 as int == j && p.1
                <= s@.len(),
            None => r is None,
        },
{
    proof {
        lemma_skip_digits_bounds(s@, i as int);
    }
    let j = skip_digit_run(s, i);
    if j == i {
        return None;
    }
    let ipart = match digits_value(s, i, j) {
        Some(v) => v,
        None => {
            return None;
        },
    };
    if j < s.len() && s[j] == '.' && j + 1 < s.len() && is_digit_char(s[j + 1]) {
        proof {
            lemma_skip_digits_bounds(s@, j + 1 as int);
        }
        let a = j + 1;
        let k = skip_digit_run(s, a);
        let flen = k - a;
        let d0 = char_to_digit(s[a]);
        let d1: u8 = if flen >= 2 {
            char_to_digit(s[a + 1])
        } else {
            0
        };
        let d2: u8 = if flen >= 3 {
            char_to_digit(s[a + 2])
        } else {
            0
        };
        let up: u128 = if flen >= 4 && char_to_digit(s[a + 3]) >= 5 {
            1
        } else {
            0
        };
        let frac: u128 = (d0 as u128) * 100 + (d1 as u128) * 10 + (d2 as u128) + up;
        proof {
            assert(frac as nat == frac_value(s@, a as int, k as int));
        }
        match ipart.checked_mul(1000) {
            Some(m) => match m.checked_add(frac) {
                Some(v) => Some((v, k)),
                None => None,
            },
            None => None,
        }
    } else {
        match ipart.checked_mul(1000) {
            Some(v) => Some((v, j)),
            None => None,
        }
    }
}

/// The exec mirror of `spec_parse_complex`, over a character vector.
pub fn parse_complex_chars(s: &Vec<char>) -> (r: Option<Complex>)
    ensures
        match spec_parse_complex(s@) {
            Some((re, im)) => r == Some(
                Complex { real: scalar_of(re), imaginary: scalar_of(im) },
            ),
            None => r is None,
        },
        r matches Some(c) ==> c.wf(),
{
    proof {
        lemma_skip_ws_bounds(s@, 0);
    }
    let i0 = skip_spaces(s, 0);
    let neg1 = i0 < s.len() && s[i0] == '-';
    let i1: usize = if neg1 {
        i0 + 1
    } else {
        i0
    };
    let (n1, j1) = match scan_number_at(s, i1) {
        Some(p) => p,
        None => {
            return None;
        },
    };
    proof {
        if in_range(apply_sign(neg1, n1 as nat)) {
            lemma_scalar_of_wf(apply_sign(neg1, n1 as nat));
        }
        lemma_scalar_of_wf(0);
    }
    if j1 < s.len() && s[j1] == 'j' {
        // Imaginary part first.
        let im = Scalar::make(neg1, n1);
        let k = skip_spaces(s, j1 + 1);
        if k == s.len() {
            return Some(Complex { real: Scalar::make(false, 0), imaginary: im });
        }
        if s[k] == '+' || s[k] == '-' {
            let neg2 = s[k] == '-';
            let k2 = skip_spaces(s, k + 1);
            let (n2, j2) = match scan_number_at(s, k2) {
                Some(p) => p,
                None => {
                    return None;
                },
            };
            proof {
                lemma_scalar_of_wf(apply_sign(neg2, n2 as nat));
            }
            if skip_spaces(s, j2) == s.len() {
                return Some(Complex { real: Scalar::make(neg2, n2), imaginary: im });
            }
            return None;
        }
        return None;
    } else {
        // Real part first.
        let re = Scalar::make(neg1, n1);
        let k = skip_spaces(s, j1);
        if k == s.len() {
            return Some(Complex { real: re, imaginary: Scalar::make(false, 0) });
        }
        if s[k] == '+' || s[k] == '-' {
            let neg2 = s[k] == '-';
            let k2 = skip_spaces(s, k + 1);
            let (n2, j2) = match scan_number_at(s, k2) {
                Some(p) => p,
                None => {
                    return None;
                },
            };
            proof {
                lemma_scalar_of_wf(apply_sign(neg2, n2 as nat));
            }
            if j2 < s.len() && s[j2] == 'j' {
                if skip_spaces(s, j2 + 1) == s.len() {
                    return Some(Complex { real: re, imaginary: Scalar::make(neg2, n2) });
                }
            }
            return None;
        }
        return None;
    }
}

/// The sign marker before a numeral: only `-` negates; an absent or `+`
/// marker keeps the value positive.
#[derive(Debug, PartialEq, Eq, Clone, Copy)]
pub enum Sign {
    Pos,
    Neg,
}

pub fn str_to_sign(s: &str) -> (r: Sign)
    ensures
        r == (if s@ == "-"@ {
            Sign::Neg
        } else {
            Sign::Pos
        }),
{
    if str_eq(s, "-") {
        Sign::Neg
    } else {
        Sign::Pos
    }
}

/// The value in thousandths of a whole token of the `number` shape, or
/// `None` when the token is not exactly one number.
pub open spec fn spec_unsigned_value(t: Seq<char>) -> Option<int> {
    match spec_scan_bounded(t, 0) {
        Some((v, j)) => if j == t.len() {
            Some(v as int)
        } else {
            None
        },
        None => None,
    }
}

/// A numeral token with a separate sign, as the literal grammar captures
/// them, turned into a scalar.
pub fn create_num(num_str: &str, sign: Sign) -> (r: Option<Scalar>)
    ensures
        match spec_unsigned_value(num_str@) {
            Some(v) => r == Some(scalar_of(if sign is Neg { -v } else { v })) && (r matches Some(n)
                && n.wf()),
            None => r is None,
        },
{
    let chars = chars_of(num_str);
    match scan_number_at(&chars, 0) {
        Some((v, j)) => {
            if j == chars.len() {
                proof {
                    lemma_scalar_of_wf(if sign is Neg { -(v as int) } else { v as int });
                }
                let neg = match sign {
                    Sign::Neg => true,
                    Sign::Pos => false,
                };
                Some(Scalar::make(neg, v))
            } else {
                None
            }
        },
        None => None,
    }
}

/// The real and imaginary numerals with their sign markers, combined into a
/// complex value.
pub fn build_from_strings(re_sign: &str, re_str: &str, im_sign: &str, im_str: &str) -> (r: Option<
    Complex,
>)
    ensures
        match (spec_unsigned_value(re_str@), spec_unsigned_value(im_str@)) {
            (Some(rv), Some(iv)) => r == Some(
                Complex {
                    real: scalar_of(if re_sign@ == "-"@ { -rv } else { rv }),
                    imaginary: scalar_of(if im_sign@ == "-"@ { -iv } else { iv }),
                },
            ),
            _ => r is None,
        },
{
    let rs = str_to_sign(re_sign);
    let ims = str_to_sign(im_sign);
    match (create_num(re_str, rs), create_num(im_str, ims)) {
        (Some(a), Some(b)) => Some(Complex::new(a, b)),
        _ => None,
    }
}

/// Parses a complex literal; a failed match hands the original text back as
/// the error payload.
pub fn parse_from_string(s: String) -> (r: Result<Complex, String>)
    ensures
        match spec_parse_complex(s@) {
            Some((re, im)) => r == Ok::<Complex, String>(
                Complex { real: scalar_of(re), imaginary: scalar_of(im) },
            ),
            None => r matches Err(e) && e@ == s@,
        },
        r matches Ok(c) ==> c.wf(),
{
    let chars = chars_of(s.as_str());
    match parse_complex_chars(&chars) {
        Some(c) => Ok(c),
        None => Err(s),
    }
}

} // verus!
