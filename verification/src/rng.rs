//! The machines' one source of randomness, behind a trusted wrapper.

use rand::Rng;
use vstd::prelude::*;

verus! {

/// Relies on `rand::thread_rng` and `rand::Rng::gen_range`: a draw from
/// the half-open range `0..0xFF` is strictly below `0xFF`. Nothing more
/// is assumed of the value.
#[verifier::external_body]
pub(crate) fn random_below_255() -> (r: u8)
    ensures
        r < 0xFF,
{
    rand::thread_rng().gen_range(0..0xFFu16) as u8
}

} // verus!
