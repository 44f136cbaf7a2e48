//! Validators of generation requests.

pub mod message_validator;

pub use message_validator::{MessageContentConfig, MessageContentValidator};
