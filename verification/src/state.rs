//! The calculator state.

use vstd::prelude::*;

use crate::complex::Complex;

verus! {

/// A pending binary operator.  Only these three commands may wait for the
/// next number, so the state cannot hold any other command as pending.
#[derive(Debug, PartialEq, Eq, Clone, Copy)]
pub enum BinOp {
    Addition,
    Subtraction,
    Multiplication,
}

/// The calculator state: the current number, if any; the operator waiting
/// for the next literal, if any; and a transient flag marking that the last
/// transition produced a new number worth recording.
#[derive(Debug, PartialEq, Eq, Clone, Copy)]
pub struct AppState {
    pub number: Option<Complex>,
    pub pending_op: Option<BinOp>,
    pub log: bool,
}

/// The initial state: no number, no pending operator, nothing to record.
pub open spec fn spec_default_state() -> AppState {
    AppState { number: None, pending_op: None, log: false }
}

impl AppState {
    pub fn new(number: Option<Complex>, pending_op: Option<BinOp>, log: bool) -> (r: AppState)
        ensures
            r == (AppState { number, pending_op, log }),
    {
        AppState { number, pending_op, log }
    }

    pub fn default() -> (r: AppState)
        ensures
            r == spec_default_state(),
    {
        AppState { number: None, pending_op: None, log: false }
    }
}

} // verus!
