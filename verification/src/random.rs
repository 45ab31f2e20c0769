//! Random numbers.

use rand::RngExt;
use vstd::prelude::*;

verus! {

/// `RngExt::random` of rand on the generator of the thread. Any number may
/// come.
#[verifier::external_body]
pub(crate) fn random_u32() -> (r: u32) {
    rand::rng().random()
}

/// `RngExt::fill` of rand on the generator of the thread. Any bytes may come.
#[verifier::external_body]
pub(crate) fn random_block() -> (r: [u8; 16]) {
    let mut block = [0u8; 16];
    rand::rng().fill(&mut block);
    block
}

} // verus!
