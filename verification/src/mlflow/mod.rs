//! The logic behind the MLflow-compatible tracking and registry API.

pub mod artifacts;
pub mod conditions;
pub mod documents;
pub mod double;
pub mod error;
pub mod filter;
pub mod index;
pub mod logged;
pub mod page;
pub mod pattern;
pub mod reading;
pub mod records;
pub mod registry;
pub mod search;
pub mod states;
pub mod store;
pub mod traces;
pub mod wire;
