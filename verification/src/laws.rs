//! The library-wide laws: the literal grammar inverts the canonical
//! formatter, and a pending operator is always overwritten, never stacked.

use vstd::prelude::*;

use crate::complex::Complex;
use crate::complex::spec_complex_text;
use crate::command::Command;
use crate::eval::EvalErr;
use crate::eval::EvalStep;
use crate::eval::cmd_of;
use crate::eval::spec_eval;
use crate::parser::frac_value;
use crate::parser::lemma_skip_digits_exact;
use crate::parser::lemma_skip_ws_exact;
use crate::parser::skip_ws;
use crate::parser::spec_parse_complex;
use crate::parser::spec_scan_bounded;
use crate::parser::val_of_digits;
use crate::scalar::spec_frac3;
use crate::scalar::spec_scalar_text;
use crate::scalar::spec_unsigned_text;
use crate::state::AppState;
use crate::state::BinOp;
use crate::text::digit_char;
use crate::text::digit_val;
use crate::text::is_digit;
use crate::text::is_space;
use crate::text::lemma_digit_char_val;
use crate::text::spec_digits;
use vstd::arithmetic::div_mod::lemma_breakdown;
use vstd::arithmetic::div_mod::lemma_fundamental_div_mod;
use vstd::arithmetic::div_mod::lemma_mod_division_less_than_divisor;

verus! {

/// Two binary-operator commands in a row, with no intervening number: the
/// second overwrites the pending operator, so the state holds at most one
/// operator at a time, whatever was pending before.
pub proof fn lemma_pending_op_overwritten(s: AppState, op1: BinOp, op2: BinOp)
    requires
        s.number is Some,
    ensures
        spec_eval(s, cmd_of(op1)) matches Ok(EvalStep::Next(s1)) && (spec_eval(s1, cmd_of(op2))
            matches Ok(EvalStep::Next(s2)) && s2.pending_op == Some(op2) && s2.number == s.number
            && s2.log == s.log),
{
}

/// Part extraction demands a number: on any state with no current number,
/// `Real` and `Imaginary` fail with the missing-number error and hand the
/// state back unchanged.
pub proof fn lemma_part_extraction_needs_number(s: AppState)
    requires
        s.number is None,
    ensures
        spec_eval(s, Command::Real) == Err::<EvalStep, (AppState, EvalErr)>(
            (s, EvalErr::MissingNumber),
        ),
        spec_eval(s, Command::Imaginary) == Err::<EvalStep, (AppState, EvalErr)>(
            (s, EvalErr::MissingNumber),
        ),
{
}

/// The decimal rendering of a natural number is nonempty, holds only digits,
/// and reads back to the same number.
proof fn lemma_digits_facts(n: nat)
    ensures
        spec_digits(n).len() >= 1,
        forall|k: int| 0 <= k < spec_digits(n).len() ==> is_digit(#[trigger] spec_digits(n)[k]),
        forall|k: int| 0 <= k < spec_digits(n).len() ==> !is_space(#[trigger] spec_digits(n)[k]),
        val_of_digits(spec_digits(n)) == n,
    decreases n,
{
    if n < 10 {
        lemma_digit_char_val(n);
        let d = spec_digits(n);
        assert(d.drop_last() =~= Seq::<char>::empty());
        assert(val_of_digits(d.drop_last()) == 0);
        assert(d.last() == digit_char(n));
        assert(val_of_digits(d) == 0 * 10 + digit_val(digit_char(n)));
    } else {
        lemma_digits_facts(n / 10);
        lemma_digit_char_val(n % 10);
        let d = spec_digits(n);
        assert(d == spec_digits(n / 10).push(digit_char(n % 10)));
        assert(d.drop_last() =~= spec_digits(n / 10));
        assert(d.last() == digit_char(n % 10));
        assert(val_of_digits(d) == (n / 10) * 10 + n % 10);
        lemma_fundamental_div_mod(n as int, 10);
        assert forall|k: int| 0 <= k < d.len() implies is_digit(#[trigger] d[k]) && !is_space(
            d[k],
        ) by {
            if k < d.len() - 1 {
                assert(d[k] == spec_digits(n / 10)[k]);
            } else {
                assert(d[k] == digit_char(n % 10));
            }
        }
    }
}

/// Recomposing a three-digit fraction from its digits gives the fraction.
proof fn lemma_frac3_digits(f: nat)
    requires
        f < 1000,
    ensures
        (f / 100) * 100 + ((f / 10) % 10) * 10 + f % 10 == f,
        f / 100 < 10,
        (f / 10) % 10 < 10,
        f % 10 < 10,
{
    lemma_fundamental_div_mod(f as int, 100);
    lemma_mod_division_less_than_divisor(f as int, 100);
    lemma_breakdown(f as int, 10, 10);
    lemma_mod_division_less_than_divisor(f as int, 10);
    lemma_mod_division_less_than_divisor((f as int) / 10, 10);
}

/// Scanning a number at the start of the canonical unsigned rendering of
/// `t`, followed by text that starts with a sign, a `j`, or nothing, yields
/// exactly `t` and stops exactly at that following text.
proof fn lemma_scan_unsigned(s: Seq<char>, i: int, t: nat, rest: Seq<char>)
    requires
        0 <= i <= s.len(),
        t <= u128::MAX,
        s.subrange(i, s.len() as int) == spec_unsigned_text(t) + rest,
        rest.len() > 0 ==> (rest[0] == '+' || rest[0] == '-' || rest[0] == 'j'),
    ensures
        spec_scan_bounded(s, i) == Some((t, i + spec_unsigned_text(t).len())),
{
    let u = spec_unsigned_text(t);
    let q = t / 1000;
    let f = t % 1000;
    let d = spec_digits(q);
    lemma_digits_facts(q);
    lemma_fundamental_div_mod(t as int, 1000);
    lemma_mod_division_less_than_divisor(t as int, 1000);
    let tail = s.subrange(i, s.len() as int);
    assert(tail == u + rest);
    assert(tail.len() == s.len() - i);
    assert(tail.len() == u.len() + rest.len());
    assert(s.len() == i + u.len() + rest.len());
    assert forall|x: int| i <= x < s.len() implies s[x] == (u + rest)[x - i] by {
        assert(s[x] == tail[x - i]);
    }
    if f == 0 {
        assert(u == d);
        let j = i + d.len();
        assert forall|x: int| i <= x < j implies is_digit(s[x]) by {
            assert(s[x] == (u + rest)[x - i]);
            assert((u + rest)[x - i] == d[x - i]);
        }
        assert(j < s.len() ==> !is_digit(s[j]) && s[j] != '.') by {
            if j < s.len() {
                assert(s[j] == (u + rest)[j - i]);
                assert((u + rest)[j - i] == rest[0]);
            }
        }
        lemma_skip_digits_exact(s, i, j);
        assert(s.subrange(i, j) =~= d);
        assert(val_of_digits(s.subrange(i, j)) * 1000 == t);
    } else {
        let f3 = spec_frac3(f);
        lemma_frac3_digits(f);
        lemma_digit_char_val(f / 100);
        lemma_digit_char_val((f / 10) % 10);
        lemma_digit_char_val(f % 10);
        assert(u == d + seq!['.'] + f3);
        assert(u.len() == d.len() + 4);
        let j = i + d.len();
        assert forall|x: int| i <= x < j implies is_digit(s[x]) by {
            assert(s[x] == (u + rest)[x - i]);
            assert((u + rest)[x - i] == u[x - i]);
            assert(u[x - i] == d[x - i]);
        }
        assert(s[j] == '.') by {
            assert(s[j] == (u + rest)[j - i]);
            assert((u + rest)[j - i] == u[d.len() as int]);
        }
        lemma_skip_digits_exact(s, i, j);
        assert(s.subrange(i, j) =~= d);
        assert(is_digit(s[j + 1]) && digit_val(s[j + 1]) == f / 100) by {
            assert(s[j + 1] == (u + rest)[j + 1 - i]);
            assert((u + rest)[j + 1 - i] == u[d.len() + 1 as int]);
            assert(u[d.len() + 1 as int] == f3[0]);
        }
        assert(is_digit(s[j + 2]) && digit_val(s[j + 2]) == (f / 10) % 10) by {
            assert(s[j + 2] == (u + rest)[j + 2 - i]);
            assert((u + rest)[j + 2 - i] == u[d.len() + 2 as int]);
            assert(u[d.len() + 2 as int] == f3[1]);
        }
        assert(is_digit(s[j + 3]) && digit_val(s[j + 3]) == f % 10) by {
            assert(s[j + 3] == (u + rest)[j + 3 - i]);
            assert((u + rest)[j + 3 - i] == u[d.len() + 3 as int]);
            assert(u[d.len() + 3 as int] == f3[2]);
        }
        assert(j + 4 < s.len() ==> !is_digit(s[j + 4])) by {
            if j + 4 < s.len() {
                assert(s[j + 4] == (u + rest)[j + 4 - i]);
                assert((u + rest)[j + 4 - i] == rest[0]);
            }
        }
        lemma_skip_digits_exact(s, j + 1, j + 4);
        assert(frac_value(s, j + 1, j + 4) == f);
        assert(val_of_digits(s.subrange(i, j)) * 1000 + f == t);
    }
}

/// Rendering a well-formed complex value and parsing the text back recovers
/// both coordinates exactly: the literal grammar inverts the canonical
/// formatter.
pub proof fn lemma_text_parse_round_trip(c: Complex)
    requires
        c.wf(),
    ensures
        spec_parse_complex(spec_complex_text(c.real.value(), c.imaginary.value())) == Some(
            (c.real.value(), c.imaginary.value()),
        ),
{
    let re = c.real.value();
    let im = c.imaginary.value();
    let ar = (if re < 0 { -re } else { re }) as nat;
    let ai = (if im < 0 { -im } else { im }) as nat;
    let s = spec_complex_text(re, im);
    lemma_digits_facts(ar / 1000);
    lemma_digits_facts(ai / 1000);
    if im == 0 {
        lemma_round_trip_single(s, re, ar);
    } else if re == 0 {
        lemma_round_trip_imaginary(s, im, ai);
    } else {
        lemma_round_trip_pair(s, re, ar, im, ai);
    }
}

/// The first character of an unsigned rendering is a digit, hence neither
/// whitespace nor a sign, a point, or a `j`.
proof fn lemma_unsigned_head(t: nat)
    ensures
        spec_unsigned_text(t).len() >= 1,
        is_digit(spec_unsigned_text(t)[0]),
        !is_space(spec_unsigned_text(t)[0]),
        spec_unsigned_text(t)[0] != '-',
        spec_unsigned_text(t)[0] != '+',
        spec_unsigned_text(t)[0] != 'j',
{
    let q = t / 1000;
    lemma_digits_facts(q);
    assert(spec_unsigned_text(t)[0] == spec_digits(q)[0]);
}

/// Round trip of a lone real part (`im == 0`).
proof fn lemma_round_trip_single(s: Seq<char>, re: int, ar: nat)
    requires
        ar == (if re < 0 { -re } else { re }) as nat,
        ar <= u128::MAX,
        s == spec_scalar_text(re),
    ensures
        spec_parse_complex(s) == Some((re, 0int)),
{
    let u = spec_unsigned_text(ar);
    lemma_unsigned_head(ar);
    if re < 0 {
        assert(s == seq!['-'] + u);
        assert(s[0] == '-');
        lemma_skip_ws_exact(s, 0, 0);
        assert(s.subrange(1, s.len() as int) =~= u + Seq::<char>::empty());
        lemma_scan_unsigned(s, 1, ar, Seq::empty());
        assert(skip_ws(s, s.len() as int) == s.len());
    } else {
        assert(s == u);
        assert(s[0] == u[0]);
        lemma_skip_ws_exact(s, 0, 0);
        assert(s.subrange(0, s.len() as int) =~= u + Seq::<char>::empty());
        lemma_scan_unsigned(s, 0, ar, Seq::empty());
        assert(skip_ws(s, s.len() as int) == s.len());
    }
}

/// Round trip of a lone imaginary part (`re == 0`, `im != 0`).
proof fn lemma_round_trip_imaginary(s: Seq<char>, im: int, ai: nat)
    requires
        im != 0,
        ai == (if im < 0 { -im } else { im }) as nat,
        ai <= u128::MAX,
        s == spec_scalar_text(im) + seq!['j'],
    ensures
        spec_parse_complex(s) == Some((0int, im)),
{
    let u = spec_unsigned_text(ai);
    lemma_unsigned_head(ai);
    if im < 0 {
        assert(s == (seq!['-'] + u) + seq!['j']);
        assert(s[0] == '-');
        lemma_skip_ws_exact(s, 0, 0);
        assert(s.subrange(1, s.len() as int) =~= u + seq!['j']);
        lemma_scan_unsigned(s, 1, ai, seq!['j']);
        assert(s[1 + u.len() as int] == 'j');
        assert(skip_ws(s, s.len() as int) == s.len());
    } else {
        assert(s == u + seq!['j']);
        assert(s[0] == u[0]);
        lemma_skip_ws_exact(s, 0, 0);
        assert(s.subrange(0, s.len() as int) =~= u + seq!['j']);
        lemma_scan_unsigned(s, 0, ai, seq!['j']);
        assert(s[u.len() as int] == 'j');
        assert(skip_ws(s, s.len() as int) == s.len());
    }
}

/// Round trip of a two-part literal (`re != 0`, `im != 0`).
#[verifier::rlimit(100)]
proof fn lemma_round_trip_pair(s: Seq<char>, re: int, ar: nat, im: int, ai: nat)
    requires
        re != 0,
        im != 0,
        ar == (if re < 0 { -re } else { re }) as nat,
        ai == (if im < 0 { -im } else { im }) as nat,
        ar <= u128::MAX,
        ai <= u128::MAX,
        s == spec_scalar_text(re) + (if im > 0 { seq!['+'] } else { seq!['-'] })
            + spec_unsigned_text(ai) + seq!['j'],
    ensures
        spec_parse_complex(s) == Some((re, im)),
{
    let ur = spec_unsigned_text(ar);
    let ui = spec_unsigned_text(ai);
    let sg: Seq<char> = if im > 0 {
        seq!['+']
    } else {
        seq!['-']
    };
    lemma_unsigned_head(ar);
    lemma_unsigned_head(ai);
    let i1: int = if re < 0 {
        1
    } else {
        0
    };
    if re < 0 {
        assert(s == ((seq!['-'] + ur) + sg + ui) + seq!['j']);
        assert(s[0] == '-');
    } else {
        assert(s == (ur + sg + ui) + seq!['j']);
        assert(s[0] == ur[0]);
    }
    lemma_skip_ws_exact(s, 0, 0);
    let rest1 = sg + ui + seq!['j'];
    assert(s.subrange(i1, s.len() as int) =~= ur + rest1);
    lemma_scan_unsigned(s, i1, ar, rest1);
    let j1 = i1 + ur.len();
    assert(s[j1] == sg[0]);
    lemma_skip_ws_exact(s, j1, j1);
    let k2 = j1 + 1;
    assert(s[k2] == ui[0]);
    lemma_skip_ws_exact(s, k2, k2);
    assert(s.subrange(k2, s.len() as int) =~= ui + seq!['j']);
    lemma_scan_unsigned(s, k2, ai, seq!['j']);
    let j2 = k2 + ui.len();
    assert(s[j2] == 'j');
    assert(j2 + 1 == s.len());
    assert(skip_ws(s, s.len() as int) == s.len());
}

} // verus!
