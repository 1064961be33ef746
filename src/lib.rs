//! Evaluation core of a small Scheme-family interpreter: a value model with
//! structural equality and printing, an arena of environment frames, and a
//! recursive evaluator for special forms and function application.
pub mod value;
pub mod printer;
pub mod env;
pub mod eval;
pub mod meta_ops;
pub mod laws;
