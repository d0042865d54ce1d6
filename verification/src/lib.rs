//! A small engine for arithmetic expressions: a tree of operations, an
//! evaluator over a caller-supplied arithmetic kernel, and a printer that
//! parenthesises every infix operation.
//!
//! Numbers are carried as IEEE-754 binary64 bit patterns in a `u64`. The
//! library never computes on them: every arithmetic step is handed to the
//! kernel, and every decimal rendering to a formatter, both chosen by the
//! caller. What is proved here is everything around those steps: which
//! operations are requested, on which operands, in which order, and which
//! inputs are rejected.

pub mod env;
pub mod eval;
pub mod eval_laws;
pub mod expr;
pub mod format;
pub mod format_laws;
pub mod text;
