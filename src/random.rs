use vstd::prelude::*;

verus! {

/// Relies on `rand::random::<u8>`: a byte from the thread-local generator;
/// nothing is known of its value.
#[verifier::external_body]
pub(crate) fn random_u8() -> (r: u8) {
    rand::random::<u8>()
}

/// Relies on `rand::random::<u32>`: a word from the thread-local generator;
/// nothing is known of its value.
#[verifier::external_body]
pub(crate) fn random_u32() -> (r: u32) {
    rand::random::<u32>()
}

} // verus!
