//! Segment files, native tables, and the object store of artifacts.

pub mod native;
pub mod objects;
pub mod pax;

