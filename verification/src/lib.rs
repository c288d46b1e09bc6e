//! The core of a small Lisp: a reader, values, environments, and an evaluator with
//! closures, macros and quasiquotation.
//!
//! * `reader` turns text into a value.
//! * `types` holds the values and their mathematical model.
//! * `menv` holds the environments: frames of bindings chained by parent links.
//! * `semantics` defines evaluation as mathematical functions on models.
//! * `eval` is the evaluator, proved to compute those functions.
//! * `builtins` holds the native functions and the environment that binds them.
//! * `theory` proves what holds of evaluation in general.

pub mod builtins;
pub mod eval;
pub mod menv;
pub mod reader;
pub mod semantics;
pub mod text;
pub mod theory;
pub mod types;
