use vstd::prelude::*;

verus! {

/// The current time as whole seconds since the Unix epoch, read with
/// `chrono::Utc::now().timestamp()`. Nothing is claimed of the value: it is the
/// machine's clock.
#[verifier::external_body]
pub fn CurrentTimestamp() -> (r: i64) {
    chrono::Utc::now().timestamp()
}

} // verus!
