//! Verified core of an agent framework for local language models:
//! stopping criteria, request validation, chat-template rendering,
//! tool-call extraction and session bookkeeping.

pub mod agent;
pub mod chat_template;
pub mod cli;
pub mod json;
pub mod mcp;
pub mod model;
pub mod pattern;
pub mod session;
pub mod stopper;
pub mod text;
pub mod types;
pub mod validation;
