//! Validation of requests and tool calls.

pub mod errors;
pub mod generation_request;
pub mod tool_call;
pub mod traits;

pub use errors::{ValidationError, ValidationResult};
pub use traits::{ValidatesGenerationRequest, ValidatesToolCall, Validator};
