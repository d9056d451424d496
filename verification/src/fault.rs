//! The fault injector: a Bernoulli sampler deciding whether a simulated
//! message delivery is dropped.
//!
//! The drop probability is configured as a ratio of two integers, so the
//! deterministic edges are expressible: a ratio of zero never drops and a
//! ratio of one always drops, which scripted runs rely on.

use vstd::prelude::*;

verus! {

/// Relies on rand's Bernoulli distribution: `Bernoulli::from_ratio(num, den)`
/// succeeds whenever `num <= den` and `den > 0`; sampling it always yields
/// `false` when `num == 0` and always yields `true` when `num == den`.
#[verifier::external_body]
fn bernoulli_sample(num: u32, den: u32) -> (r: bool)
    requires
        0 < den,
        num <= den,
    ensures
        num == 0 ==> !r,
        num == den ==> r,
{
    match rand::distributions::Bernoulli::from_ratio(num, den) {
        Ok(d) => rand::distributions::Distribution::sample(&d, &mut rand::thread_rng()),
        Err(_) => false,
    }
}

/// Decides, independently for each reply a participant is about to send,
/// whether the simulated network drops it. The probability of a drop is
/// `num / den`.
#[derive(Clone, Copy, Debug, PartialEq, Eq, Structural)]
pub struct FaultInjector {
    pub num: u32,
    pub den: u32,
}

impl FaultInjector {
    /// A valid injector has a probability between 0 and 1.
    pub open spec fn wf(self) -> bool {
        0 < self.den && self.num <= self.den
    }

    /// An injector that drops each reply with probability `num / den`.
    pub fn new(num: u32, den: u32) -> (f: FaultInjector)
        requires
            0 < den,
            num <= den,
        ensures
            f.wf(),
            f.num == num,
            f.den == den,
    {
        FaultInjector { num, den }
    }

    /// An injector that never drops anything.
    pub fn reliable() -> (f: FaultInjector)
        ensures
            f.wf(),
            f.num == 0,
    {
        FaultInjector { num: 0, den: 1 }
    }

    /// Samples one drop decision. Nothing is promised of the outcome in
    /// general; a probability of zero never drops and a probability of one
    /// always does.
    pub fn should_drop(&self) -> (r: bool)
        requires
            self.wf(),
        ensures
            self.num == 0 ==> !r,
            self.num == self.den ==> r,
    {
        bernoulli_sample(self.num, self.den)
    }
}

} // verus!
