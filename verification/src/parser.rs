//! Reading expressions from text.

pub mod parser;
pub mod parser_prefix;
