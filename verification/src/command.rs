//! The command grammar: a line is split on whitespace and classified by its
//! first token.

use vstd::prelude::*;

use crate::complex::Complex;
use crate::parser::lemma_skip_ws_bounds;
use crate::parser::parse_complex_chars;
use crate::parser::skip_ws;
use crate::parser::spec_parse_complex;
use crate::parser::spec_scan_bounded;
use crate::scalar::Scalar;
use crate::scalar::lemma_scalar_of_wf;
use crate::scalar::scalar_of;
use crate::text::chars_eq_str;
use crate::text::chars_of;
use crate::text::is_space;
use crate::text::is_space_char;
use crate::text::string_of;

verus! {

/// One parsed line of user input.
#[derive(Debug, PartialEq, Eq, Clone, Copy)]
pub enum Command {
    Help,
    Exit,
    Clear,
    Addition,
    Subtraction,
    Multiplication,
    Real,
    Imaginary,
    Power(Scalar),
    Root(Scalar),
    Number(Complex),
}

/// The first index at or after `i` that holds whitespace or ends the text.
pub open spec fn skip_word(s: Seq<char>, i: int) -> int
    recommends
        0 <= i <= s.len(),
    decreases s.len() - i,
{
    if i < s.len() && !is_space(s[i]) {
        skip_word(s, i + 1)
    } else {
        i
    }
}

pub proof fn lemma_skip_word_bounds(s: Seq<char>, i: int)
    requires
        0 <= i <= s.len(),
    ensures
        i <= skip_word(s, i) <= s.len(),
        forall|t: int| i <= t < skip_word(s, i) ==> !is_space(s[t]),
        skip_word(s, i) < s.len() ==> is_space(s[skip_word(s, i)]),
        i < s.len() && !is_space(s[i]) ==> skip_word(s, i) >= i + 1,
    decreases s.len() - i,
{
    if i < s.len() && !is_space(s[i]) {
        lemma_skip_word_bounds(s, i + 1);
    }
}

/// The whitespace-separated tokens of `s`, from position `i` on.
pub open spec fn spec_tokens_from(s: Seq<char>, i: int) -> Seq<Seq<char>>
    decreases s.len() - i,
    when 0 <= i <= s.len()
    via spec_tokens_from_decreases
{
    let a = skip_ws(s, i);
    if a >= s.len() {
        Seq::empty()
    } else {
        let b = skip_word(s, a);
        seq![s.subrange(a, b)] + spec_tokens_from(s, b)
    }
}

#[via_fn]
proof fn spec_tokens_from_decreases(s: Seq<char>, i: int) {
    lemma_skip_ws_bounds(s, i);
    let a = skip_ws(s, i);
    if a < s.len() {
        lemma_skip_word_bounds(s, a);
    }
}

/// The tokens re-joined with single spaces.
pub open spec fn spec_join(ts: Seq<Seq<char>>) -> Seq<char>
    decreases ts.len(),
{
    if ts.len() == 0 {
        Seq::empty()
    } else if ts.len() == 1 {
        ts[0]
    } else {
        ts[0] + seq![' '] + spec_join(ts.drop_first())
    }
}

/// The value in thousandths of a numeric argument token: an optional `+` or
/// `-`, then one `number` filling the whole token.
pub open spec fn spec_float_token(t: Seq<char>) -> Option<int> {
    let signed = t.len() > 0 && (t[0] == '+' || t[0] == '-');
    let neg = t.len() > 0 && t[0] == '-';
    let i: int = if signed {
        1
    } else {
        0
    };
    match spec_scan_bounded(t, i) {
        Some((v, j)) => if j == t.len() {
            Some(
                if neg {
                    -(v as int)
                } else {
                    v as int
                },
            )
        } else {
            None
        },
        None => None,
    }
}

/// The argument of `power` or `root`: the second token, when there is one
/// and it is numeric.  Further tokens are ignored.
pub open spec fn spec_arg_value(ts: Seq<Seq<char>>) -> Option<int> {
    if ts.len() < 2 {
        None
    } else {
        spec_float_token(ts[1])
    }
}

/// How a line is read: an empty line is refused; a keyword first token names
/// its command, `power` and `root` demanding a numeric second token; any
/// other line is re-joined and read as a complex literal, whose failure
/// names the unknown command.
pub open spec fn spec_parse_command(line: Seq<char>) -> Result<Command, Seq<char>> {
    let ts = spec_tokens_from(line, 0);
    if ts.len() == 0 {
        Err("Please enter a command"@)
    } else if ts[0] == "help"@ {
        Ok(Command::Help)
    } else if ts[0] == "clear"@ {
        Ok(Command::Clear)
    } else if ts[0] == "exit"@ {
        Ok(Command::Exit)
    } else if ts[0] == "addition"@ {
        Ok(Command::Addition)
    } else if ts[0] == "subtraction"@ {
        Ok(Command::Subtraction)
    } else if ts[0] == "multiplication"@ {
        Ok(Command::Multiplication)
    } else if ts[0] == "real"@ {
        Ok(Command::Real)
    } else if ts[0] == "imaginary"@ {
        Ok(Command::Imaginary)
    } else if ts[0] == "power"@ {
        match spec_arg_value(ts) {
            Some(v) => Ok(Command::Power(scalar_of(v))),
            None => Err("Expecting a number"@),
        }
    } else if ts[0] == "root"@ {
        match spec_arg_value(ts) {
            Some(v) => Ok(Command::Root(scalar_of(v))),
            None => Err("Expecting a number"@),
        }
    } else {
        match spec_parse_complex(spec_join(ts)) {
            Some((re, im)) => Ok(
                Command::Number(Complex { real: scalar_of(re), imaginary: scalar_of(im) }),
            ),
            None => Err("Unknown command: "@ + spec_join(ts)),
        }
    }
}

/// The exec mirror of `skip_word`.
fn skip_word_run(s: &Vec<char>, i: usize) -> (r: usize)
    requires
        i <= s@.len(),
    ensures
        r as int == skip_word(s@, i as int),
        i <= r <= s@.len(),
{
    proof {
        lemma_skip_word_bounds(s@, i as int);
    }
    let mut j: usize = i;
    while j < s.len() && !is_space_char(s[j])
        invariant
            i <= j <= s@.len(),
            skip_word(s@, i as int) == skip_word(s@, j as int),
        decreases s@.len() - j,
    {
        j = j + 1;
    }
    j
}

/// The exec mirror of `skip_ws`.
fn skip_space_run(s: &Vec<char>, i: usize) -> (r: usize)
    requires
        i <= s@.len(),
    ensures
        r as int == skip_ws(s@, i as int),
        i <= r <= s@.len(),
{
    proof {
        lemma_skip_ws_bounds(s@, i as int);
    }
    let mut j: usize = i;
    while j < s.len() && is_space_char(s[j])
        invariant
            i <= j <= s@.len(),
            skip_ws(s@, i as int) == skip_ws(s@, j as int),
        decreases s@.len() - j,
    {
        j = j + 1;
    }
    j
}

/// Splits a character vector into its whitespace-separated tokens.
pub fn tokenize(s: &Vec<char>) -> (r: Vec<Vec<char>>)
    ensures
        r@.len() == spec_tokens_from(s@, 0).len(),
        forall|k: int| 0 <= k < r@.len() ==> r@[k]@ == spec_tokens_from(s@, 0)[k],
{
    let ghost all = spec_tokens_from(s@, 0);
    let mut r: Vec<Vec<char>> = Vec::new();
    let mut pos: usize = 0;
    loop
        invariant_except_break
            pos <= s@.len(),
            all == spec_tokens_from(s@, 0),
            r@.len() <= all.len(),
            all =~= Seq::new(r@.len() as nat, |k: int| r@[k]@) + spec_tokens_from(s@, pos as int),
        ensures
            r@.len() == all.len(),
            forall|k: int| 0 <= k < r@.len() ==> r@[k]@ == all[k],
        decreases s@.len() - pos,
    {
        let a = skip_space_run(s, pos);
        if a == s.len() {
            proof {
                assert(spec_tokens_from(s@, pos as int) =~= Seq::<Seq<char>>::empty());
                assert(all =~= Seq::new(r@.len() as nat, |k: int| r@[k]@));
                assert(forall|k: int|
                    0 <= k < r@.len() ==> all[k] == Seq::new(r@.len() as nat, |t: int| r@[t]@)[k]);
            }
            break;
        }
        let b = skip_word_run(s, a);
        proof {
            lemma_skip_word_bounds(s@, a as int);
        }
        let mut tok: Vec<char> = Vec::new();
        let mut t: usize = a;
        proof {
            assert(tok@ =~= s@.subrange(a as int, a as int));
        }
        while t < b
            invariant
                a <= t <= b <= s@.len(),
                tok@ == s@.subrange(a as int, t as int),
            decreases b - t,
        {
            tok.push(s[t]);
            proof {
                assert(tok@ =~= s@.subrange(a as int, t + 1 as int));
            }
            t = t + 1;
        }
        let ghost old_r = r@;
        r.push(tok);
        pos = b;
        proof {
            assert(Seq::new(r@.len() as nat, |k: int| r@[k]@) =~= Seq::new(
                old_r.len() as nat,
                |k: int| old_r[k]@,
            ).push(tok@));
        }
    }
    r
}

/// Re-joins tokens with single spaces.
pub fn join_tokens(ts: &Vec<Vec<char>>) -> (r: Vec<char>)
    ensures
        r@ == spec_join(Seq::new(ts@.len() as nat, |k: int| ts@[k]@)),
{
    let ghost all = Seq::new(ts@.len() as nat, |k: int| ts@[k]@);
    let mut r: Vec<char> = Vec::new();
    let mut k: usize = 0;
    while k < ts.len()
        invariant
            k <= ts@.len(),
            all == Seq::new(ts@.len() as nat, |t: int| ts@[t]@),
            k == 0 ==> r@ == Seq::<char>::empty(),
            0 < k < all.len() ==> spec_join(all) == r@ + seq![' '] + spec_join(all.skip(k as int)),
            k > 0 && k == all.len() ==> spec_join(all) == r@,
        decreases ts@.len() - k,
    {
        proof {
            lemma_join_unfold(all, k as int);
            assert(all[k as int] == ts@[k as int]@);
        }
        if k > 0 {
            r.push(' ');
        }
        let mut piece = ts[k].clone();
        r.append(&mut piece);
        proof {
            if k == 0 {
                if 1 < all.len() {
                    assert(spec_join(all) =~= r@ + seq![' '] + spec_join(all.skip(1)));
                } else {
                    assert(spec_join(all) =~= r@);
                }
            } else {
                if k + 1 < all.len() {
                    assert(spec_join(all) =~= r@ + seq![' '] + spec_join(all.skip(k + 1)));
                } else {
                    assert(spec_join(all) =~= r@);
                }
            }
        }
        k = k + 1;
    }
    proof {
        if all.len() == 0 {
            assert(spec_join(all) =~= r@);
        }
    }
    r
}

/// One step of `spec_join`: the next token, then a space when more follow.
proof fn lemma_join_unfold(all: Seq<Seq<char>>, k: int)
    requires
        0 <= k < all.len(),
    ensures
        k + 1 < all.len() ==> spec_join(all.skip(k)) == all[k] + seq![' '] + spec_join(
            all.skip(k + 1),
        ),
        k + 1 == all.len() ==> spec_join(all.skip(k)) == all[k],
        spec_join(all.skip(0)) == spec_join(all),
{
    let rest = all.skip(k);
    assert(rest.len() == all.len() - k);
    if k + 1 < all.len() {
        assert(rest.drop_first() =~= all.skip(k + 1));
        assert(rest[0] == all[k]);
    } else {
        assert(rest[0] == all[k]);
    }
    assert(all.skip(0) =~= all);
}

/// The exec mirror of `spec_parse_command`.
pub fn parse_command(line: &str) -> (r: Result<Command, String>)
    ensures
        match spec_parse_command(line@) {
            Ok(c) => r == Ok::<Command, String>(c),
            Err(m) => r matches Err(e) && e@ == m,
        },
{
    let chars = chars_of(line);
    let ts = tokenize(&chars);
    if ts.len() == 0 {
        return Err(String::from_str("Please enter a command"));
    }
    let head = &ts[0];
    if chars_eq_str(head, "help") {
        Ok(Command::Help)
    } else if chars_eq_str(head, "clear") {
        Ok(Command::Clear)
    } else if chars_eq_str(head, "exit") {
        Ok(Command::Exit)
    } else if chars_eq_str(head, "addition") {
        Ok(Command::Addition)
    } else if chars_eq_str(head, "subtraction") {
        Ok(Command::Subtraction)
    } else if chars_eq_str(head, "multiplication") {
        Ok(Command::Multiplication)
    } else if chars_eq_str(head, "real") {
        Ok(Command::Real)
    } else if chars_eq_str(head, "imaginary") {
        Ok(Command::Imaginary)
    } else if chars_eq_str(head, "power") {
        match parse_arg(&ts) {
            Some(n) => Ok(Command::Power(n)),
            None => Err(String::from_str("Expecting a number")),
        }
    } else if chars_eq_str(head, "root") {
        match parse_arg(&ts) {
            Some(n) => Ok(Command::Root(n)),
            None => Err(String::from_str("Expecting a number")),
        }
    } else {
        let joined = join_tokens(&ts);
        let ghost all = Seq::new(ts@.len() as nat, |k: int| ts@[k]@);
        proof {
            assert(all =~= spec_tokens_from(line@, 0));
        }
        match parse_complex_chars(&joined) {
            Some(c) => Ok(Command::Number(c)),
            None => {
                let mut msg = String::from_str("Unknown command: ");
                let text = string_of(&joined);
                msg.append(text.as_str());
                Err(msg)
            },
        }
    }
}

/// The numeric argument of `power` or `root`, read from the second token.
fn parse_arg(ts: &Vec<Vec<char>>) -> (r: Option<Scalar>)
    ensures
        match spec_arg_value(Seq::new(ts@.len() as nat, |k: int| ts@[k]@)) {
            Some(v) => r == Some(scalar_of(v)),
            None => r is None,
        },
{
    let ghost all = Seq::new(ts@.len() as nat, |k: int| ts@[k]@);
    if ts.len() < 2 {
        return None;
    }
    let t = &ts[1];
    proof {
        assert(all[1] == ts@[1]@);
    }
    let signed = t.len() > 0 && (t[0] == '+' || t[0] == '-');
    let neg = t.len() > 0 && t[0] == '-';
    let i: usize = if signed {
        1
    } else {
        0
    };
    match crate::parser::scan_number_at(t, i) {
        Some((v, j)) => {
            if j == t.len() {
                proof {
                    lemma_scalar_of_wf(if neg { -(v as int) } else { v as int });
                }
                Some(Scalar::make(neg, v))
            } else {
                None
            }
        },
        None => None,
    }
}

} // verus!
