//! Lowering of query requests to federated SQL.

pub mod bind;
pub mod explain;
pub mod json;
pub mod literal;
pub mod multimodel;
pub mod port;
pub mod uql;
pub mod values;
