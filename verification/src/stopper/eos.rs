//! Stopper tied to the model's end-of-sequence token.

use vstd::prelude::*;

use super::Stopper;
use crate::types::FinishReason;

verus! {

/// Stopper that detects End-of-Sequence (EOS) tokens.
///
/// The end-of-sequence check itself happens where sampled tokens are
/// available; this stopper carries the token id and never stops on its own.
#[derive(Debug, Clone, Copy)]
pub struct EosStopper {
    eos_token_id: u32,
}

impl EosStopper {
    /// Create a new EOS stopper.
    pub fn new(eos_token_id: u32) -> (s: Self)
        ensures
            s.spec_eos_token_id() == eos_token_id,
    {
        Self { eos_token_id }
    }

    /// The end-of-sequence token id.
    pub closed spec fn spec_eos_token_id(&self) -> u32 {
        self.eos_token_id
    }

    /// The end-of-sequence token id.
    pub fn eos_token_id(&self) -> (id: u32)
        ensures
            id == self.spec_eos_token_id(),
    {
        self.eos_token_id
    }
}

impl Stopper for EosStopper {
    open spec fn stopper_inv(&self) -> bool {
        true
    }

    fn should_stop(&mut self, batch_tokens: usize) -> (r: Option<FinishReason>)
        ensures
            r is None,
            *final(self) == *old(self),
    {
        None
    }
}

} // verus!
