//! Random draws. Nothing is known about a drawn value beyond its type.

use vstd::prelude::*;

verus! {

/// Draws a `u32` from `rand::random`. Any value may come back.
#[verifier::external_body]
pub(crate) fn random_u32() -> (r: u32) {
    rand::random::<u32>()
}

/// Draws a `u16` from `rand::random`. Any value may come back.
#[verifier::external_body]
pub(crate) fn random_u16() -> (r: u16) {
    rand::random::<u16>()
}

/// Draws a `u8` from `rand::random`. Any value may come back.
#[verifier::external_body]
pub(crate) fn random_u8() -> (r: u8) {
    rand::random::<u8>()
}

} // verus!
