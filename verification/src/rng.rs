//! The random source. Nothing in this file is proved: it states what the
//! `rand` crate is trusted to do.

use vstd::prelude::*;
use rand::Rng;
use rand::rngs::StdRng;

verus! {

/// `rand::rngs::StdRng`, the generator that callers hand to the library.
/// Its state is opaque.
#[verifier::external_type_specification]
#[verifier::external_body]
pub struct ExStdRng(rand::rngs::StdRng);

/// Calls `rand::Rng::gen_range` on the half-open range `low..high`. That
/// function panics on an empty range, which `requires` leaves out; for any
/// other range it returns a value of the range. Nothing more is claimed: which
/// value comes back is left open.
#[verifier::external_body]
pub(crate) fn gen_range(rng: &mut StdRng, low: i32, high: i32) -> (roll: i32)
    requires
        low < high,
    ensures
        low <= roll < high,
{
    rng.gen_range(low..high)
}

} // verus!
