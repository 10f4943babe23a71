//! Query and metadata logic of a multi-model database.

pub mod laws;
pub mod mlflow;
pub mod query;
pub mod queue;
pub mod records;
pub mod scram;
pub mod sql;
pub mod storage;
pub mod text;
