//! The server side of SCRAM-SHA-256 (RFC 5802 and RFC 7677), without I/O.
//!
//! Channel binding is never offered, so a client that demands it is refused. An
//! unknown user runs the whole exchange against a mock verifier and fails at
//! the end, as a wrong password does.

pub mod crypto;
pub mod exchange;
pub mod messages;
pub mod password;
