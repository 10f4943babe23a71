//! Character-level text functions and the mathematical model they share.
//!
//! Every text is modelled as its sequence of characters. Offsets that leave
//! the library are byte offsets into the UTF-8 form of the text.

pub mod ascii;
pub mod chars;
pub mod collect;
pub mod finite;
pub mod float;
pub mod hex;
pub mod map;
pub mod number;
pub mod offset;
pub mod order;
pub mod search;
pub mod sort;
pub mod split;
pub mod tokens;
pub mod trim;
