//! The catalog objects that SQL text reads or writes, from its syntax tree.

pub mod ast;
pub mod brackets;
pub mod channel;
pub mod collector;
pub mod normalize;
pub mod record;
pub mod targets;
pub mod tokens;
