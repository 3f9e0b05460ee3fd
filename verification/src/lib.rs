//! Ternary halting classification of function bodies.
//!
//! The classical halting question has two answers, and no procedure gives the
//! right one for every program. This crate answers a structural version of
//! the question with three outcomes: a function halts, it loops, or it asks
//! about its own classification, which makes every answer wrong.
//!
//! The analysis reads a syntax model ([`syntax`]) and resolves calls through
//! a registry of definitions ([`registry`]). The paradox detector
//! ([`paradox`]) runs first; then the recursion finder ([`recursion`], over
//! the call sites of [`calls`]), the base-case analyzer ([`base_case`]) and
//! the iteration analyzer ([`iteration`]) give the signals that the
//! classifier ([`classifier`]) combines. [`locator`] finds a function in the
//! items of a source file, [`cases`] holds sample functions, and
//! [`theorems`] states what holds of every classification.

pub mod base_case;
pub mod calls;
pub mod cases;
pub mod classifier;
pub mod iteration;
pub mod locator;
pub mod paradox;
pub mod recursion;
pub mod registry;
pub mod syntax;
pub mod theorems;

pub use cases::{g, loop_forever, unit};
pub use classifier::{classify, halts, loops, ParadoxError, Verdict};
