use vstd::prelude::*;

verus! {

/// The moment of the call as text: `chrono::Utc::now()` rendered by
/// `to_string`. Nothing is claimed of the text, which differs from call to
/// call; `Utc::now` panics only if the system clock is set before 1970.
#[verifier::external_body]
pub(crate) fn now_string() -> String {
    chrono::Utc::now().to_string()
}

/// The moment of the call in whole seconds since 1970:
/// `chrono::Utc::now().timestamp()`. Nothing is claimed of the number.
#[verifier::external_body]
pub(crate) fn unix_now() -> i64 {
    chrono::Utc::now().timestamp()
}

} // verus!
