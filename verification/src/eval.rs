//! The state-machine evaluator: a parsed command against the current state
//! yields the next state, or a recoverable error beside the unchanged state.
//!
//! The `power` and `root` commands need transcendental arithmetic that the
//! exact decimals of this library cannot carry, so a successful transition
//! on them yields an explicit request (`NeedsPower` / `NeedsRoot`); the
//! driver computes the number and hands it back through
//! `apply_unary_result`, which sets it exactly as any computed result.

use vstd::prelude::*;

use crate::command::Command;
use crate::complex::Complex;
use crate::complex::spec_complex_add;
use crate::complex::spec_complex_mul;
use crate::complex::spec_complex_sub;
use crate::scalar::Scalar;
use crate::state::AppState;
use crate::state::BinOp;
use crate::state::spec_default_state;

verus! {

/// A successful transition: either the next state, or the unchanged state
/// beside a unary computation the driver must perform on the current number.
#[derive(Debug, PartialEq, Eq, Clone, Copy)]
pub enum EvalStep {
    Next(AppState),
    NeedsPower(AppState, Scalar),
    NeedsRoot(AppState, Scalar),
}

/// The ways a transition can fail.
#[derive(Debug, PartialEq, Eq, Clone, Copy)]
pub enum EvalErr {
    MissingNumber,
    OutOfRange,
}

/// The message reported for each failure.
pub open spec fn err_text(e: EvalErr) -> Seq<char> {
    match e {
        EvalErr::MissingNumber => "You must insert a number first"@,
        EvalErr::OutOfRange => "Number out of range"@,
    }
}

pub fn err_message(e: EvalErr) -> (r: String)
    ensures
        r@ == err_text(e),
{
    match e {
        EvalErr::MissingNumber => String::from_str("You must insert a number first"),
        EvalErr::OutOfRange => String::from_str("Number out of range"),
    }
}

/// The command that registers a binary operator.
pub open spec fn cmd_of(op: BinOp) -> Command {
    match op {
        BinOp::Addition => Command::Addition,
        BinOp::Subtraction => Command::Subtraction,
        BinOp::Multiplication => Command::Multiplication,
    }
}

/// The arithmetic a pending operator applies, current number first.
pub open spec fn spec_apply_bin(op: BinOp, a: Complex, b: Complex) -> Option<Complex> {
    match op {
        BinOp::Addition => spec_complex_add(a, b),
        BinOp::Subtraction => spec_complex_sub(a, b),
        BinOp::Multiplication => spec_complex_mul(a, b),
    }
}

/// Registering an operator requires a current number; it overwrites any
/// pending operator and leaves everything else unchanged.
pub open spec fn spec_register(state: AppState, op: BinOp) -> Result<AppState, (AppState, EvalErr)> {
    if state.number is Some {
        Ok(AppState { pending_op: Some(op), ..state })
    } else {
        Err((state, EvalErr::MissingNumber))
    }
}

/// How a literal lands in the state: with a pending operator it combines
/// with the current number (current first) and clears the operator; without
/// one it becomes the current number.  Either way the log flag is set.
pub open spec fn spec_add_number(num: Complex, state: AppState) -> Result<
    AppState,
    (AppState, EvalErr),
> {
    match state.pending_op {
        Some(op) => match state.number {
            None => Err((state, EvalErr::MissingNumber)),
            Some(cur) => match spec_apply_bin(op, cur, num) {
                Some(res) => Ok(AppState { number: Some(res), pending_op: None, log: true }),
                None => Err((state, EvalErr::OutOfRange)),
            },
        },
        None => Ok(AppState { number: Some(num), pending_op: None, log: true }),
    }
}

/// The transition relation of the calculator, one case per command:
/// `Help` and `Exit` leave the state unchanged; `Clear` yields the default
/// state; `Real` and `Imaginary` require a number and clear only the log
/// flag; the three operators register themselves; a number lands as
/// `spec_add_number` says; `Power` and `Root` require a number and ask the
/// driver for the computation, the state carried through unchanged.
pub open spec fn spec_eval(state: AppState, cmd: Command) -> Result<EvalStep, (AppState, EvalErr)> {
    match cmd {
        Command::Help => Ok(EvalStep::Next(state)),
        Command::Exit => Ok(EvalStep::Next(state)),
        Command::Clear => Ok(EvalStep::Next(spec_default_state())),
        Command::Real | Command::Imaginary => if state.number is Some {
            Ok(EvalStep::Next(AppState { log: false, ..state }))
        } else {
            Err((state, EvalErr::MissingNumber))
        },
        Command::Addition => match spec_register(state, BinOp::Addition) {
            Ok(s) => Ok(EvalStep::Next(s)),
            Err(e) => Err(e),
        },
        Command::Subtraction => match spec_register(state, BinOp::Subtraction) {
            Ok(s) => Ok(EvalStep::Next(s)),
            Err(e) => Err(e),
        },
        Command::Multiplication => match spec_register(state, BinOp::Multiplication) {
            Ok(s) => Ok(EvalStep::Next(s)),
            Err(e) => Err(e),
        },
        Command::Number(n) => match spec_add_number(n, state) {
            Ok(s) => Ok(EvalStep::Next(s)),
            Err(e) => Err(e),
        },
        Command::Power(x) => if state.number is Some {
            Ok(EvalStep::NeedsPower(state, x))
        } else {
            Err((state, EvalErr::MissingNumber))
        },
        Command::Root(x) => if state.number is Some {
            Ok(EvalStep::NeedsRoot(state, x))
        } else {
            Err((state, EvalErr::MissingNumber))
        },
    }
}

/// Restarts the calculator: whatever the state was, the default comes back.
pub fn clear() -> (r: Result<AppState, (AppState, String)>)
    ensures
        r == Ok::<AppState, (AppState, String)>(spec_default_state()),
{
    Ok(AppState::default())
}

/// Registers a pending binary operator.
pub fn add_action(state: AppState, action: BinOp) -> (r: Result<AppState, (AppState, String)>)
    ensures
        match spec_register(state, action) {
            Ok(s) => r == Ok::<AppState, (AppState, String)>(s),
            Err((s, e)) => r matches Err(p) && p.0 == s && p.1@ == err_text(e),
        },
{
    match state.number {
        Some(_) => Ok(AppState { pending_op: Some(action), ..state }),
        None => Err((state, err_message(EvalErr::MissingNumber))),
    }
}

/// Feeds a parsed literal into the state.
pub fn add_number(num: Complex, state: AppState) -> (r: Result<AppState, (AppState, String)>)
    ensures
        match spec_add_number(num, state) {
            Ok(s) => r == Ok::<AppState, (AppState, String)>(s),
            Err((s, e)) => r matches Err(p) && p.0 == s && p.1@ == err_text(e),
        },
{
    match state.pending_op {
        Some(op) => match state.number {
            None => Err((state, err_message(EvalErr::MissingNumber))),
            Some(cur) => {
                let res = match op {
                    BinOp::Addition => cur.add(num),
                    BinOp::Subtraction => cur.sub(num),
                    BinOp::Multiplication => cur.mul(num),
                };
                match res {
                    Some(n) => Ok(AppState { number: Some(n), pending_op: None, log: true }),
                    None => Err((state, err_message(EvalErr::OutOfRange))),
                }
            },
        },
        None => Ok(AppState { number: Some(num), pending_op: None, log: true }),
    }
}

/// The state after the driver computed a power or root: the result becomes
/// the current number, the pending operator survives, and the log flag is
/// set.
pub fn apply_unary_result(state: AppState, result: Complex) -> (r: AppState)
    ensures
        r == (AppState { number: Some(result), pending_op: state.pending_op, log: true }),
{
    AppState { number: Some(result), pending_op: state.pending_op, log: true }
}

/// Takes the number to be recorded, if the last transition produced one,
/// clearing the log flag; otherwise the state comes back unchanged.
pub fn consume_log(state: AppState) -> (r: (Option<Complex>, AppState))
    ensures
        state.log && state.number is Some ==> r == (state.number, AppState { log: false, ..state }),
        !(state.log && state.number is Some) ==> r == (None::<Complex>, state),
{
    if state.log {
        match state.number {
            Some(n) => (Some(n), AppState { log: false, ..state }),
            None => (None, state),
        }
    } else {
        (None, state)
    }
}

/// One step of the calculator.
pub fn eval_cmd(state: AppState, cmd: Command) -> (r: Result<EvalStep, (AppState, String)>)
    ensures
        match spec_eval(state, cmd) {
            Ok(step) => r == Ok::<EvalStep, (AppState, String)>(step),
            Err((s, e)) => r matches Err(p) && p.0 == s && p.1@ == err_text(e),
        },
{
    match cmd {
        Command::Help => Ok(EvalStep::Next(state)),
        Command::Exit => Ok(EvalStep::Next(state)),
        Command::Clear => match clear() {
            Ok(s) => Ok(EvalStep::Next(s)),
            Err(e) => Err(e),
        },
        Command::Real | Command::Imaginary => match state.number {
            Some(_) => Ok(EvalStep::Next(AppState { log: false, ..state })),
            None => Err((state, err_message(EvalErr::MissingNumber))),
        },
        Command::Addition => match add_action(state, BinOp::Addition) {
            Ok(s) => Ok(EvalStep::Next(s)),
            Err(e) => Err(e),
        },
        Command::Subtraction => match add_action(state, BinOp::Subtraction) {
            Ok(s) => Ok(EvalStep::Next(s)),
            Err(e) => Err(e),
        },
        Command::Multiplication => match add_action(state, BinOp::Multiplication) {
            Ok(s) => Ok(EvalStep::Next(s)),
            Err(e) => Err(e),
        },
        Command::Number(n) => match add_number(n, state) {
            Ok(s) => Ok(EvalStep::Next(s)),
            Err(e) => Err(e),
        },
        Command::Power(x) => match state.number {
            Some(_) => Ok(EvalStep::NeedsPower(state, x)),
            None => Err((state, err_message(EvalErr::MissingNumber))),
        },
        Command::Root(x) => match state.number {
            Some(_) => Ok(EvalStep::NeedsRoot(state, x)),
            None => Err((state, err_message(EvalErr::MissingNumber))),
        },
    }
}

} // verus!
