//! What the library takes from outside and believes without proof: the
//! generator of the `rand` crate and one method of `String`.

use rand::rngs::ThreadRng;
use rand::Rng;
use vstd::prelude::*;

verus! {

/// `rand::rngs::ThreadRng`, the handle to the random number generator of
/// the running thread. Nothing is known of what it holds.
#[verifier::external_type_specification]
#[verifier::external_body]
pub struct ExThreadRng(rand::rngs::ThreadRng);

/// `rand::thread_rng` hands out the handle to the thread's generator, which
/// the operating system seeds on first use. Nothing is claimed of the
/// handle. Where the operating system cannot give a seed, the call panics.
pub assume_specification[ rand::thread_rng ]() -> (rng: ThreadRng);

/// `rand::Rng::gen_range` on the inclusive range `low..=high` of `u8`: the
/// result lies in the range. Which value of the range comes back is left to
/// chance and nothing is claimed of it. `gen_range` panics on an empty
/// range, which the `requires` leaves out.
#[verifier::external_body]
pub(crate) fn gen_range_inclusive(rng: &mut ThreadRng, low: u8, high: u8) -> (value: u8)
    requires
        low <= high,
    ensures
        low <= value <= high,
{
    rng.gen_range(low..=high)
}

/// `String::push` appends the character to the end of the string and leaves
/// the characters before it as they are.
pub assume_specification[ String::push ](s: &mut String, ch: char)
    ensures
        final(s)@ == old(s)@.push(ch),
;

} // verus!
