//! Parse arithmetic expressions into a tree and evaluate them.
//!
//! An expression is made of signed integer literals, the binary operators
//! `+ - * /` and parentheses. [`parse_equation`] reads one expression from the
//! front of a string and hands back what it did not read;
//! [`calculation::Calculation::from_str`] accepts a string only as a whole.
//! The tree that comes out is evaluated with
//! [`calculation::Calculation::evaluate`].
pub mod calculation;
pub mod error;
pub mod parse;

pub use parse::parse_equation;
