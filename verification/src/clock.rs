//! The time of day, for the `Date` header.
use vstd::prelude::*;

verus! {

/// `time::now_utc` and `Tm::rfc822`: the present time in UTC, written as
/// RFC 822 has it.  Nothing is claimed of the text: it depends on the
/// clock.
#[verifier::external_body]
pub(crate) fn utc_now_rfc822() -> (date: String) {
    time::now_utc().rfc822().to_string()
}

} // verus!
