//! Verified core of an interactive complex-number calculator.
//!
//! The library covers the command grammar, the complex-literal parser, the
//! canonical text rendering of numbers, and the state-machine evaluator that
//! interprets parsed commands against a calculator state.  Number components
//! are exact decimals counted in thousandths, matching the three-decimal
//! rendering the calculator uses.  The transcendental work behind the
//! `power` and `root` commands cannot be expressed over exact decimals; the
//! evaluator isolates it as an explicit step for the surrounding driver,
//! which hands the computed number back to the verified transition.

pub mod command;
pub mod complex;
pub mod eval;
pub mod laws;
pub mod parser;
pub mod scalar;
pub mod state;
pub mod text;
