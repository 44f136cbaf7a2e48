//! Core validation traits.

use vstd::prelude::*;

use crate::types::Session;
use super::errors::ValidationError;

verus! {

/// Core validation trait that all validators implement.
pub trait Validator<Target> {
    type Error;

    /// Check `target` in the context of `session`.
    fn validate(&self, session: &Session, target: &Target) -> Result<(), Self::Error>;
}

/// Validators of generation requests report `ValidationError`s.
pub trait ValidatesGenerationRequest<Target>: Validator<Target, Error = ValidationError> {
}

impl<Target, V: Validator<Target, Error = ValidationError>> ValidatesGenerationRequest<Target> for V {
}

/// Validators of tool calls report `ValidationError`s.
pub trait ValidatesToolCall<Target>: Validator<Target, Error = ValidationError> {
}

impl<Target, V: Validator<Target, Error = ValidationError>> ValidatesToolCall<Target> for V {
}

} // verus!
