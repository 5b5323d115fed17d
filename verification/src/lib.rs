//! A verified parser combinator library: small parsers assembled into bigger ones,
//! each with a contract that states what it consumes and what it returns.
pub mod error;
pub mod input;
mod find;
pub mod parser;
pub mod token;
pub mod combinator;
pub mod basic;
pub mod sequence;
pub mod branch;
pub mod multi;
pub mod number;
pub mod expression;
pub mod precedence;
pub mod shunting_yard;
pub mod hex;
pub mod laws;
pub mod ascii;
