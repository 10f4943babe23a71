//! SQL text: lexical scanning, clause extraction and catalog targets.

pub mod authority;
pub mod clauses;
pub mod cypher;
pub mod lexical;
pub mod scan;
pub mod select;
pub mod tail;
pub mod top_level;
pub mod vector;
