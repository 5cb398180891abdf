//! The producer of sample values: uniform draws from the thread's random
//! generator.
use rand::rngs::ThreadRng;
use rand::Rng;
use vstd::prelude::*;
use crate::window::VALUE_SCALE;

verus! {

#[verifier::external_type_specification]
#[verifier::external_body]
pub struct ExThreadRng(ThreadRng);

/// Relies on rand::thread_rng: a handle on the thread's lazily seeded
/// generator; nothing is promised of its state.
pub assume_specification[ rand::thread_rng ]() -> ThreadRng;

/// Relies on rand's Rng::gen_range over `0..bound`: the value lies in the
/// range (it panics only on an empty range, which `bound > 0` excludes).
#[verifier::external_body]
fn draw_below(rng: &mut ThreadRng, bound: u32) -> (r: u32)
    requires
        bound > 0,
    ensures
        r < bound,
{
    rng.gen_range(0..bound)
}

/// An endless source of values in `[0, 1)`, given in millionths.
pub struct SampleSource {
    rng: ThreadRng,
}

impl SampleSource {
    /// A source drawing from the current thread's generator.
    pub fn new() -> (r: Self) {
        SampleSource { rng: rand::thread_rng() }
    }

    /// A source drawing from the given generator.
    pub fn with_rng(rng: ThreadRng) -> (r: Self) {
        SampleSource { rng }
    }

    /// The next value, drawn uniformly from `0..VALUE_SCALE`.
    pub fn next(&mut self) -> (r: u32)
        ensures
            r < VALUE_SCALE,
    {
        draw_below(&mut self.rng, VALUE_SCALE)
    }
}

} // verus!
