//! What the library promises of its operations as a whole.

pub mod clauses;
pub mod code;
pub mod exchange;
pub mod filters;
pub mod grammar;
pub mod lookup;
pub mod lowering;
pub mod multimodel;
pub mod orders;
pub mod parts;
pub mod paths;
pub mod plans;
pub mod projection;
pub mod queries;
pub mod registry;
pub mod responses;
pub mod search;
pub mod stored;
pub mod stores;
pub mod targets;
pub mod texts;
pub mod tokens;
pub mod tracking;
pub mod vectors;
