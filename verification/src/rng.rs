use rand::rngs::ThreadRng;
use rand::Rng;
use vstd::prelude::*;

verus! {

#[verifier::external_type_specification]
#[verifier::external_body]
pub struct ExThreadRng(ThreadRng);

/// Draws an index below `len` with `Rng::gen_range` on the range `0..len`.
///
/// Trusted: the generator returns a value inside the range it is given, and refuses an empty
/// range. Nothing is claimed about which value comes back.
#[verifier::external_body]
pub(crate) fn gen_below(rng: &mut ThreadRng, len: usize) -> (r: usize)
    requires
        len > 0,
    ensures
        r < len,
{
    rng.gen_range(0..len)
}

} // verus!
