//! A symbolic-expression rewriting engine: expression trees, one-directional
//! pattern matching, equation and implication rewriting, and a worksheet that
//! records each rewrite as a line of a derivation.

pub mod algebra;
pub mod arithmetic;
pub mod block;
pub mod expression;
pub mod parser;
pub mod rule;
pub mod text;
pub mod text_map;
pub mod utils;
pub mod worksheet;
