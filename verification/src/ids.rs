use vstd::prelude::*;

verus! {

/// A fresh random identifier: the 128 bits of `uuid::Uuid::new_v4()`, read with
/// `as_u128`. Nothing is claimed of the value: it is drawn at random.
#[verifier::external_body]
pub(crate) fn NewUuid() -> (r: u128) {
    uuid::Uuid::new_v4().as_u128()
}

} // verus!
