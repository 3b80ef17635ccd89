//! The one place the library consults the system clock.

use vstd::prelude::*;

verus! {

/// Relies on chrono::offset::Local::now and chrono::DateTime::format with a
/// year-month-day specifier: the current local date, rendered as a
/// four-digit (or longer, possibly signed) year, a two-digit month and a
/// two-digit day, separated by `-` — never shorter than ten characters.
#[verifier::external_body]
pub(crate) fn today_string() -> (r: String)
    ensures
        r@.len() >= 10,
{
    chrono::Local::now().format("%Y-%m-%d").to_string()
}

} // verus!
