//! Validators of tool calls.

pub mod argument_validator;

pub use argument_validator::{ArgumentValidatorConfig, ToolArgumentValidator};
