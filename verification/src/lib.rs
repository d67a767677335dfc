//! A small concatenative language: a value stack, nestable quotations and
//! higher-order combinators.
//!
//! The library is the language's core, verified: the value model
//! ([`types`], [`ident`]), the environment ([`vm`]), the built-ins by name
//! ([`ops`]), the grammar and the parser ([`grammar`], [`parse`], [`text`]),
//! the arity analyzer ([`arity`]), the meaning of evaluation
//! ([`semantics`]) and the evaluator that computes it ([`builtins`],
//! [`eval`]). What holds of every evaluation is proved in [`balance`],
//! [`binding`], [`depth`], [`nesting`] and [`soundness`].

pub mod arity;
pub mod balance;
pub mod binding;
pub mod builtins;
pub mod depth;
pub mod error;
pub mod eval;
pub mod grammar;
pub mod ident;
pub mod nesting;
pub mod ops;
pub mod parse;
pub mod semantics;
pub mod soundness;
pub mod text;
pub mod types;
pub mod vm;
