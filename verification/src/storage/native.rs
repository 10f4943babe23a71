//! The settings of native tables.

use vstd::prelude::*;
use crate::mlflow::page::opt_view;
use crate::records::row::{cap_of, configured_cap};
use crate::text::chars::same_text;
use crate::text::trim::{trim, trimmed};

verus! {

/// How many rows of a native table are materialized, unless a setting says
/// otherwise.
pub const DEFAULT_NATIVE_TABLE_ROW_CAP: usize = 1_000_000;

/// The setting that switches native tables on.
pub open spec fn is_native_on(value: Option<Seq<char>>) -> bool {
    match value {
        Some(v) => trim(v) == "1"@ || trim(v) == "true"@ || trim(v) == "TRUE"@ || trim(v) == "on"@
            || trim(v) == "ON"@,
        None => false,
    }
}

/// Whether native tables are registered: they are not unless the setting says so.
pub fn native_table_provider_enabled(value: Option<&str>) -> (r: bool)
    ensures
        r == is_native_on(opt_view(value)),
{
    match value {
        Some(v) => {
            let v: &str = trimmed(v);
            same_text(v, "1") || same_text(v, "true") || same_text(v, "TRUE") || same_text(v, "on")
                || same_text(v, "ON")
        },
        None => false,
    }
}

/// How many rows of a native table are materialized: the number that the setting
/// gives, where it is positive.
pub fn native_table_row_cap(value: Option<&str>) -> (r: usize)
    ensures
        r == match cap_of(opt_view(value)) {
            Some(n) => n,
            None => DEFAULT_NATIVE_TABLE_ROW_CAP,
        },
{
    match configured_cap(value) {
        Some(n) => n,
        None => DEFAULT_NATIVE_TABLE_ROW_CAP,
    }
}

} // verus!
