//! The clock and the source of document identifiers.

use vstd::prelude::*;

verus! {

/// The current time, in whole seconds since the Unix epoch (0 if the system
/// clock reads earlier than the epoch).
///
/// Relies on `std::time::SystemTime::now`: the value depends on the clock, so
/// nothing is promised of it.
#[verifier::external_body]
pub fn now() -> (r: u64) {
    std::time::SystemTime::now()
        .duration_since(std::time::UNIX_EPOCH)
        .map(|d| d.as_secs())
        .unwrap_or(0)
}

/// A fresh random identifier.
///
/// Relies on `uuid::Uuid::new_v4` and its `Display`, which writes the
/// hyphenated form: 36 characters.
#[verifier::external_body]
pub(crate) fn new_id() -> (r: String)
    ensures
        r@.len() == 36,
{
    uuid::Uuid::new_v4().to_string()
}

} // verus!
