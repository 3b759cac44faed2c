//! The two sources of fresh values: the wall clock and random identifiers.
use vstd::prelude::*;

verus! {

/// The current time in whole seconds since the Unix epoch (`SystemTime::now()` measured from
/// `UNIX_EPOCH`, or 0 when the clock is before the epoch). Nothing is promised of its value.
#[verifier::external_body]
pub(crate) fn current_unix_timestamp() -> (t: u64) {
    std::time::SystemTime::now().duration_since(std::time::UNIX_EPOCH).unwrap_or_default().as_secs()
}

/// A fresh random identifier: `uuid::Uuid::new_v4()` as its 128-bit value. Nothing is promised
/// of its value.
#[verifier::external_body]
pub(crate) fn new_uuid() -> (id: u128) {
    uuid::Uuid::new_v4().as_u128()
}

} // verus!
