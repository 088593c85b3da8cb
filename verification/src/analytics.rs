//! The date arithmetic behind usage analytics. The aggregation itself works
//! on floating-point costs read from disk, so it lives in the application
//! shell; the timestamp handling is here.

use vstd::prelude::*;
use vstd::string::StrSliceExecFns;

verus! {

/// The calendar-date prefix of an ISO-8601 timestamp: its first ten
/// characters, where the timestamp has that many.
pub fn extract_date(timestamp: &str) -> (r: Option<String>)
    ensures
        timestamp@.len() >= 10 ==> (r matches Some(d) && d@ == timestamp@.subrange(0, 10)),
        timestamp@.len() < 10 ==> r is None,
{
    let n = timestamp.unicode_len();
    if n >= 10 {
        Some(timestamp.substring_char(0, 10).to_owned())
    } else {
        None
    }
}

} // verus!
