//! Arithmetic expression trees: parsing, algebraic simplification and rendering.
//!
//! An [`expression::Expression`] is a constant, a variable, a sum or a
//! product. Its view is a [`formula::Formula`], the same tree over unbounded
//! integers, and every contract is stated over formulas:
//!
//! - `formula` says what flattening, simplifying and rendering a formula give;
//! - `meaning` says what a formula denotes and proves that simplification
//!   keeps it;
//! - `laws` proves what else holds of simplification on every formula;
//! - `grammar` says which texts are expressions and what they denote, and
//!   `descent` proves that reading from left to right finds exactly that;
//! - `parser` reads a text, and `add`, `multiply`, `constant` and `variable`
//!   simplify and render the four kinds of expression;
//! - `crop` finds the content of a picture of a rendered expression.

pub mod error;
pub mod text;
pub mod formula;
pub mod meaning;
pub mod laws;
pub mod constant;
pub mod variable;
pub mod add;
pub mod multiply;
pub mod expression;
pub mod grammar;
pub mod descent;
pub mod parser;
pub mod crop;
