//! The wall clock, read through the calendar library. Each reading is
//! trusted only for its shape; nothing relates two readings.

use vstd::prelude::*;
use vstd::string::*;

verus! {

/// Relies on `chrono::Utc::now` with the format `%Y-%m-%d %H:%M:%S`: the
/// current UTC wall-clock text; whatever the clock reads, the output is
/// ASCII. Two calls need not agree.
#[verifier::external_body]
pub fn now_timestamp_string() -> (r: String)
    ensures
        r.is_ascii(),
{
    chrono::Utc::now().format("%Y-%m-%d %H:%M:%S").to_string()
}

/// Relies on `chrono::Utc::now` with the format `%Y-%m-%d`: the current
/// UTC date text; whatever the clock reads, the output is ASCII.
#[verifier::external_body]
pub fn now_date_string() -> (r: String)
    ensures
        r.is_ascii(),
{
    chrono::Utc::now().format("%Y-%m-%d").to_string()
}

} // verus!
