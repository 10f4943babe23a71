//! The file system of the message queue: its paths and URLs.

pub mod adapter;
pub mod path;
