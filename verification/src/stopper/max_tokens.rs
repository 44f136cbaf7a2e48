//! Stopper that bounds the number of generated tokens.

use vstd::prelude::*;

use super::Stopper;
use crate::text::{decimal, usize_to_decimal};
use crate::types::FinishReason;

verus! {

/// The token count after a batch of `batch` tokens: the sum, or `usize::MAX`
/// where the sum would not fit.
pub open spec fn counted_after(generated: usize, batch: usize) -> usize {
    if generated + batch <= usize::MAX { (generated + batch) as usize } else { usize::MAX }
}

/// The reason given on stopping: `Maximum tokens reached (COUNT/LIMIT)`.
pub open spec fn max_tokens_message(count: usize, limit: usize) -> Seq<char> {
    "Maximum tokens reached ("@ + decimal(count as nat) + "/"@ + decimal(limit as nat) + ")"@
}

/// Stopper that limits generation to a maximum number of tokens.
///
/// It counts the tokens of each decoded batch and stops once the count
/// reaches the limit.
#[derive(Debug)]
pub struct MaxTokensStopper {
    max_tokens: usize,
    tokens_generated: usize,
}

impl MaxTokensStopper {
    /// Create a new max tokens stopper with nothing generated yet.
    pub fn new(max_tokens: usize) -> (s: Self)
        ensures
            s.spec_max_tokens() == max_tokens,
            s.spec_tokens_generated() == 0,
    {
        Self { max_tokens, tokens_generated: 0 }
    }

    /// The configured token limit.
    pub closed spec fn spec_max_tokens(&self) -> usize {
        self.max_tokens
    }

    /// The number of tokens counted so far.
    pub closed spec fn spec_tokens_generated(&self) -> usize {
        self.tokens_generated
    }

    /// The configured token limit.
    pub fn max_tokens(&self) -> (n: usize)
        ensures
            n == self.spec_max_tokens(),
    {
        self.max_tokens
    }

    /// The number of tokens counted so far.
    pub fn tokens_generated(&self) -> (n: usize)
        ensures
            n == self.spec_tokens_generated(),
    {
        self.tokens_generated
    }
}

impl Stopper for MaxTokensStopper {
    open spec fn stopper_inv(&self) -> bool {
        true
    }

    /// Count the batch's tokens; stop once the count reaches the limit. The
    /// count saturates at `usize::MAX`.
    fn should_stop(&mut self, batch_tokens: usize) -> (r: Option<FinishReason>)
        ensures
            final(self).spec_max_tokens() == old(self).spec_max_tokens(),
            final(self).spec_tokens_generated() == counted_after(old(self).spec_tokens_generated(), batch_tokens),
            (r is Some) <==> final(self).spec_tokens_generated() >= final(self).spec_max_tokens(),
            r matches Some(FinishReason::Stopped(m)) ==> m@ == max_tokens_message(
                final(self).spec_tokens_generated(),
                final(self).spec_max_tokens(),
            ),
    {
        self.tokens_generated = self.tokens_generated.saturating_add(batch_tokens);
        if self.tokens_generated >= self.max_tokens {
            let mut m = "Maximum tokens reached (".to_string();
            let a = usize_to_decimal(self.tokens_generated);
            m.append(a.as_str());
            m.append("/");
            let b = usize_to_decimal(self.max_tokens);
            m.append(b.as_str());
            m.append(")");
            Some(FinishReason::Stopped(m))
        } else {
            None
        }
    }
}

} // verus!
