//! Stopping criteria for text generation.

use vstd::prelude::*;

use crate::types::FinishReason;

pub mod eos;
pub mod max_tokens;
pub mod repetition;

pub use eos::EosStopper;
pub use max_tokens::MaxTokensStopper;
pub use repetition::{RepetitionConfig, RepetitionStopper};

verus! {

/// Core trait for determining when to stop generation.
pub trait Stopper {
    /// The stopper's internal consistency condition.
    spec fn stopper_inv(&self) -> bool;

    /// Decide whether generation should stop now, and why, given the number
    /// of tokens in the batch just decoded.
    fn should_stop(&mut self, batch_tokens: usize) -> (r: Option<FinishReason>)
        requires
            old(self).stopper_inv(),
        ensures
            final(self).stopper_inv();
}

} // verus!
