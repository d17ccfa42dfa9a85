//! A tree-walking interpreter for a small Lisp: S-expression values, scopes
//! that read through to their parents, a handful of special forms,
//! functions and macros with required, optional, keyword and rest
//! parameters, and quasiquotation.
//!
//! The meaning of the language is written down as a mathematical model:
//! `model` holds its data, and each module of `eval` says beside its
//! functions what a form evaluates to. Every function of the crate is
//! verified against that model, and `laws` and `laws_scopes` prove what
//! holds of every evaluation.
//!
//! Numbers are IEEE 754 doubles, computed on with integer arithmetic in
//! `number`; `laws_numbers` proves that the arithmetic is exact wherever
//! the exact result is a number. Reading a number literal and writing a
//! number in decimal are left to the caller: `tokenize` hands number
//! literals out as symbols, and `util` prints a value with a place for each
//! number.

pub mod env;
pub mod error;
pub mod eval;
pub mod laws;
pub mod laws_numbers;
pub mod laws_scopes;
pub mod misc;
pub mod model;
pub mod number;
pub mod parse;
pub mod tokenize;
pub mod util;
