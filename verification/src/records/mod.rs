//! Record storage: a bounded memtable, and a store that spills to segments.

pub mod dash;
pub mod memtable;
pub mod row;
pub mod scan;
pub mod spill;
