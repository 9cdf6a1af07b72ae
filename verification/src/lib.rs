//! Resolution of a grammar into one example text per variable.
//!
//! A grammar gives each of its variables a rule tree over literals,
//! patterns, sequences, alternatives, repetition and references to other
//! variables. Each variable has a task that resolves its rule to a text or
//! finds that it has none, and commits that to the cell of the variable. A
//! rule that refers to a variable waits for the cell of that variable, so
//! the tasks may start in any order and no order of the variables is worked
//! out beforehand.
//!
//! - [`rules`]: the rule tree.
//! - [`patterns`]: the table that gives a text for a pattern.
//! - [`eventually`]: the cell, with at most one committed value.
//! - [`symbols`]: the cells of a run, by name.
//! - [`resolve`]: one round of evaluation of a rule, and of the task of a
//!   variable.
//! - [`laws`]: what holds of every evaluation.
//! - [`text`]: quoting of names for messages.
//!
//! Nothing here waits. Where a rule cannot go on, the round says which cells
//! it waits for; the program around the library waits on their signals and
//! runs the next round.

pub mod eventually;
pub mod laws;
pub mod patterns;
pub mod resolve;
pub mod rules;
pub mod symbols;
pub mod text;
