//! Core data types shared by the agent components, and the checks on configuration.

use vstd::prelude::*;
use std::time::{Duration, SystemTime};

use crate::json::JsonValue;
use crate::stopper::repetition::{repetition_config_error, RepetitionConfig};
use crate::text::char_is_alphanumeric;

verus! {

/// The outside crate's sortable unique identifier, carried opaquely.
#[verifier::external_type_specification]
#[verifier::external_body]
pub struct ExUlid(ulid::Ulid);

/// A point in wall-clock time, carried opaquely.
#[verifier::external_type_specification]
#[verifier::external_body]
pub struct ExSystemTime(SystemTime);

/// A copy of an instant.
///
/// Trusted: `SystemTime` is `Copy`, and its `clone` returns the same instant.
pub assume_specification[ <SystemTime as Clone>::clone ](t: &SystemTime) -> (r: SystemTime)
    ensures
        r == *t,
;

/// The length of a duration, in nanoseconds.
pub uninterp spec fn duration_nanos(d: Duration) -> nat;

/// Whole seconds of a duration.
///
/// Trusted: `Duration::as_secs` returns the number of whole seconds, that is
/// the duration's nanoseconds divided by one billion.
pub assume_specification[ Duration::as_secs ](d: &Duration) -> (s: u64)
    ensures
        s as nat == duration_nanos(*d) / 1_000_000_000,
;

/// A duration of whole seconds.
///
/// Trusted: `Duration::from_secs` makes a duration of exactly `secs` seconds.
pub assume_specification[ Duration::from_secs ](secs: u64) -> (d: Duration)
    ensures
        duration_nanos(d) == secs * 1_000_000_000,
;

/// Identifier of a session: the 128-bit value of a ULID.
#[derive(Debug, Clone, Copy, PartialEq, Eq, Structural, Hash)]
pub struct SessionId(u128);

/// Identifier of a tool call: the 128-bit value of a ULID.
#[derive(Debug, Clone, Copy, PartialEq, Eq, Structural, Hash)]
pub struct ToolCallId(u128);

/// Identifier of a prompt: the 128-bit value of a ULID.
#[derive(Debug, Clone, Copy, PartialEq, Eq, Structural, Hash)]
pub struct PromptId(u128);

/// The canonical text of the ULID with value `n`.
pub uninterp spec fn ulid_text(n: u128) -> Seq<char>;

/// The value of the ULID written as `text`, when it is a valid ULID.
pub uninterp spec fn ulid_parse(text: Seq<char>) -> Option<u128>;

/// A fresh ULID value.
///
/// Trusted: calls `ulid::Ulid::new`, which draws on the clock and a random
/// source, so nothing is stated of the result.
#[verifier::external_body]
fn fresh_ulid_value() -> u128 {
    ulid::Ulid::new().0
}

/// The ULID whose single `u128` field is `n`, that is `ulid::Ulid(n)`.
pub uninterp spec fn ulid_with_value(n: u128) -> ulid::Ulid;

/// The 128-bit value of a ULID.
///
/// Trusted: reads the ULID's single public `u128` field, so the ULID is the
/// one built from the value returned, and from no other value.
#[verifier::external_body]
fn ulid_value(u: ulid::Ulid) -> (r: u128)
    ensures
        ulid_with_value(r) == u,
        forall|m: u128| #[trigger] ulid_with_value(m) == u ==> m == r,
{
    u.0
}

/// The ULID with value `n`.
///
/// Trusted: builds `ulid::Ulid(n)`, which is named by `ulid_with_value`.
#[verifier::external_body]
fn ulid_of_value(n: u128) -> (r: ulid::Ulid)
    ensures
        r == ulid_with_value(n),
{
    ulid::Ulid(n)
}

/// The canonical text of the ULID with value `n`.
///
/// Trusted: calls `to_string` on `ulid::Ulid(n)`, whose `Display` writes the
/// 26-character Crockford base-32 form; the result is named by `ulid_text`.
/// The crate's decoder reads those 26 characters back, five bits each, into
/// the same value, so the text parses back to `n`.
#[verifier::external_body]
pub(crate) fn ulid_string(n: u128) -> (s: String)
    ensures
        s@ == ulid_text(n),
        ulid_parse(s@) == Some(n),
{
    ulid::Ulid(n).to_string()
}

/// The value of the ULID written as `text`.
///
/// Trusted: calls `ulid::Ulid::from_string` and keeps the value of a
/// successful decode; the result is named by `ulid_parse`.
#[verifier::external_body]
pub(crate) fn parse_ulid(text: &str) -> (r: Option<u128>)
    ensures
        r == ulid_parse(text@),
{
    ulid::Ulid::from_string(text).ok().map(|u| u.0)
}

impl SessionId {
    /// The ULID value of this identifier.
    pub closed spec fn value(&self) -> u128 {
        self.0
    }

    /// A fresh session identifier.
    pub fn new() -> Self {
        Self(fresh_ulid_value())
    }

    /// Wrap an existing ULID: the identifier has the ULID's value.
    pub fn from_ulid(ulid: ulid::Ulid) -> (id: Self)
        ensures
            ulid_with_value(id.value()) == ulid,
            forall|m: u128| #[trigger] ulid_with_value(m) == ulid ==> m == id.value(),
    {
        Self(ulid_value(ulid))
    }

    /// The wrapped ULID: the ULID with this identifier's value.
    pub fn as_ulid(&self) -> (u: ulid::Ulid)
        ensures
            u == ulid_with_value(self.value()),
    {
        ulid_of_value(self.0)
    }

    /// The identifier with the given ULID value.
    pub fn from_value(n: u128) -> (id: Self)
        ensures
            id.value() == n,
    {
        Self(n)
    }

    /// The ULID value of this identifier.
    pub fn to_value(&self) -> (n: u128)
        ensures
            n == self.value(),
    {
        self.0
    }

    /// The identifier's text: the canonical text of its ULID.
    pub fn to_text(&self) -> (s: String)
        ensures
            s@ == ulid_text(self.value()),
            ulid_parse(s@) == Some(self.value()),
    {
        ulid_string(self.0)
    }

    /// The identifier written as `text`, when it is a valid ULID.
    pub fn from_text(text: &str) -> (r: Option<Self>)
        ensures
            match ulid_parse(text@) {
                Some(n) => r matches Some(id) && id.value() == n,
                None => r is None,
            },
    {
        match parse_ulid(text) {
            Some(n) => Some(Self(n)),
            None => None,
        }
    }

    /// Two identifiers are equal exactly when their values are.
    pub proof fn lemma_value_eq(a: Self, b: Self)
        ensures
            (a == b) <==> (a.value() == b.value()),
    {
    }
}

impl ToolCallId {
    /// The ULID value of this identifier.
    pub closed spec fn value(&self) -> u128 {
        self.0
    }

    /// A fresh tool call identifier.
    pub fn new() -> Self {
        Self(fresh_ulid_value())
    }

    /// Wrap an existing ULID: the identifier has the ULID's value.
    pub fn from_ulid(ulid: ulid::Ulid) -> (id: Self)
        ensures
            ulid_with_value(id.value()) == ulid,
            forall|m: u128| #[trigger] ulid_with_value(m) == ulid ==> m == id.value(),
    {
        Self(ulid_value(ulid))
    }

    /// The wrapped ULID: the ULID with this identifier's value.
    pub fn as_ulid(&self) -> (u: ulid::Ulid)
        ensures
            u == ulid_with_value(self.value()),
    {
        ulid_of_value(self.0)
    }

    /// The identifier with the given ULID value.
    pub fn from_value(n: u128) -> (id: Self)
        ensures
            id.value() == n,
    {
        Self(n)
    }

    /// The ULID value of this identifier.
    pub fn to_value(&self) -> (n: u128)
        ensures
            n == self.value(),
    {
        self.0
    }

    /// The identifier's text: the canonical text of its ULID.
    pub fn to_text(&self) -> (s: String)
        ensures
            s@ == ulid_text(self.value()),
            ulid_parse(s@) == Some(self.value()),
    {
        ulid_string(self.0)
    }

    /// The identifier written as `text`, when it is a valid ULID.
    pub fn from_text(text: &str) -> (r: Option<Self>)
        ensures
            match ulid_parse(text@) {
                Some(n) => r matches Some(id) && id.value() == n,
                None => r is None,
            },
    {
        match parse_ulid(text) {
            Some(n) => Some(Self(n)),
            None => None,
        }
    }

    /// Two identifiers are equal exactly when their values are.
    pub proof fn lemma_value_eq(a: Self, b: Self)
        ensures
            (a == b) <==> (a.value() == b.value()),
    {
    }
}

impl PromptId {
    /// The ULID value of this identifier.
    pub closed spec fn value(&self) -> u128 {
        self.0
    }

    /// A fresh prompt identifier.
    pub fn new() -> Self {
        Self(fresh_ulid_value())
    }

    /// Wrap an existing ULID: the identifier has the ULID's value.
    pub fn from_ulid(ulid: ulid::Ulid) -> (id: Self)
        ensures
            ulid_with_value(id.value()) == ulid,
            forall|m: u128| #[trigger] ulid_with_value(m) == ulid ==> m == id.value(),
    {
        Self(ulid_value(ulid))
    }

    /// The wrapped ULID: the ULID with this identifier's value.
    pub fn as_ulid(&self) -> (u: ulid::Ulid)
        ensures
            u == ulid_with_value(self.value()),
    {
        ulid_of_value(self.0)
    }

    /// The identifier with the given ULID value.
    pub fn from_value(n: u128) -> (id: Self)
        ensures
            id.value() == n,
    {
        Self(n)
    }

    /// The ULID value of this identifier.
    pub fn to_value(&self) -> (n: u128)
        ensures
            n == self.value(),
    {
        self.0
    }

    /// The identifier's text: the canonical text of its ULID.
    pub fn to_text(&self) -> (s: String)
        ensures
            s@ == ulid_text(self.value()),
            ulid_parse(s@) == Some(self.value()),
    {
        ulid_string(self.0)
    }

    /// The identifier written as `text`, when it is a valid ULID.
    pub fn from_text(text: &str) -> (r: Option<Self>)
        ensures
            match ulid_parse(text@) {
                Some(n) => r matches Some(id) && id.value() == n,
                None => r is None,
            },
    {
        match parse_ulid(text) {
            Some(n) => Some(Self(n)),
            None => None,
        }
    }

    /// Two identifiers are equal exactly when their values are.
    pub proof fn lemma_value_eq(a: Self, b: Self)
        ensures
            (a == b) <==> (a.value() == b.value()),
    {
    }
}

/// Who wrote a message.
#[derive(Debug, Clone, Copy, PartialEq, Eq, Structural)]
pub enum MessageRole {
    System,
    User,
    Assistant,
    Tool,
}

/// The lower-case name of a role.
pub open spec fn role_name(r: MessageRole) -> Seq<char> {
    match r {
        MessageRole::System => "system"@,
        MessageRole::User => "user"@,
        MessageRole::Assistant => "assistant"@,
        MessageRole::Tool => "tool"@,
    }
}

impl MessageRole {
    /// The lower-case name of this role.
    pub fn as_str(&self) -> (s: &'static str)
        ensures
            s@ == role_name(*self),
    {
        match self {
            MessageRole::System => "system",
            MessageRole::User => "user",
            MessageRole::Assistant => "assistant",
            MessageRole::Tool => "tool",
        }
    }
}

/// One message of a conversation.
#[derive(Debug, Clone)]
pub struct Message {
    pub role: MessageRole,
    pub content: String,
    pub tool_call_id: Option<ToolCallId>,
    pub tool_name: Option<String>,
    pub timestamp: SystemTime,
}

/// A tool offered by an MCP server.
#[derive(Debug, Clone)]
pub struct ToolDefinition {
    pub name: String,
    pub description: String,
    pub parameters: JsonValue,
    pub server_name: String,
}

/// A tool invocation found in generated text.
#[derive(Debug, Clone)]
pub struct ToolCall {
    pub id: ToolCallId,
    pub name: String,
    pub arguments: JsonValue,
}

/// The outcome of a tool invocation.
#[derive(Debug, Clone)]
pub struct ToolResult {
    pub call_id: ToolCallId,
    pub result: JsonValue,
    pub error: Option<String>,
}

/// How to reach an MCP server.
#[derive(Debug, Clone)]
pub struct MCPServerConfig {
    pub name: String,
    pub command: String,
    pub args: Vec<String>,
    pub timeout_secs: Option<u64>,
}

/// A conversation with its tools and prompts.
#[derive(Debug, Clone)]
pub struct Session {
    pub id: SessionId,
    pub messages: Vec<Message>,
    pub mcp_servers: Vec<MCPServerConfig>,
    pub available_tools: Vec<ToolDefinition>,
    pub available_prompts: Vec<PromptDefinition>,
    pub created_at: SystemTime,
    pub updated_at: SystemTime,
}

/// Why generation stopped.
#[derive(Debug, Clone, PartialEq, Eq)]
pub enum FinishReason {
    Stopped(String),
}

/// The result of one generation.
#[derive(Debug)]
pub struct GenerationResponse {
    pub generated_text: String,
    pub tokens_generated: u32,
    pub generation_time: Duration,
    pub finish_reason: FinishReason,
}

/// A piece of streamed output.
#[derive(Debug, Clone)]
pub struct StreamChunk {
    pub text: String,
    pub is_complete: bool,
    pub token_count: u32,
}

// MCP prompt types

/// A prompt offered by an MCP server.
#[derive(Debug, Clone)]
pub struct PromptDefinition {
    pub name: String,
    pub title: Option<String>,
    pub description: Option<String>,
    pub arguments: Option<Vec<PromptArgument>>,
    pub server_name: String,
}

/// One argument of a prompt.
#[derive(Debug, Clone)]
pub struct PromptArgument {
    pub name: String,
    pub description: Option<String>,
    pub required: Option<bool>,
}

/// One message of a rendered prompt.
#[derive(Debug, Clone)]
pub struct PromptMessage {
    pub role: PromptRole,
    pub content: PromptContent,
}

/// Who speaks in a prompt message.
#[derive(Debug, Clone, Copy, PartialEq, Eq, Structural)]
pub enum PromptRole {
    User,
    Assistant,
}

/// The content of a prompt message.
#[derive(Debug, Clone)]
pub enum PromptContent {
    Text { text: String },
    Image { data: String, mime_type: String },
    Resource { resource: PromptResource },
}

/// A resource embedded in a prompt message.
#[derive(Debug, Clone)]
pub struct PromptResource {
    pub uri: String,
    pub name: String,
    pub title: Option<String>,
    pub mime_type: String,
    pub text: Option<String>,
}

/// A rendered prompt.
#[derive(Debug, Clone)]
pub struct GetPromptResult {
    pub description: Option<String>,
    pub messages: Vec<PromptMessage>,
}

// Dependency analysis types

/// How a tool touches a resource.
#[derive(Debug, Clone, Copy, PartialEq, Eq, Structural)]
pub enum AccessType {
    Read,
    Write,
    ReadWrite,
    Delete,
}

/// A resource a tool touches, and how.
#[derive(Debug, Clone)]
pub struct ResourceAccess {
    pub resource: ResourceType,
    pub access_type: AccessType,
    pub exclusive: bool,
}

/// A kind of resource.
#[derive(Debug, Clone)]
pub enum ResourceType {
    File(String),
    FileSystem(String),
    Network(String),
    Database(String),
    Memory,
    System,
    Other(String),
}

/// Why two tools must not run together.
#[derive(Debug, Clone, Copy, PartialEq, Eq, Structural)]
pub enum ConflictType {
    ResourceConflict,
    DependencyConflict,
    OrderDependency,
    MutualExclusion,
}

/// A declared conflict between two tools.
#[derive(Debug, Clone)]
pub struct ToolConflict {
    pub tool1: String,
    pub tool2: String,
    pub conflict_type: ConflictType,
    pub description: String,
}

/// How a parameter refers to another tool's data.
#[derive(Debug, Clone, Copy, PartialEq, Eq, Structural)]
pub enum ReferenceType {
    Input,
    Output,
    Context,
    DirectOutput,
}

/// A parameter that refers to another tool's data.
#[derive(Debug, Clone)]
pub struct ParameterReference {
    pub parameter_name: String,
    pub parameter_path: String,
    pub reference_type: ReferenceType,
    pub target_tool: Option<String>,
    pub referenced_tool: String,
}

/// Settings for running tools side by side.
#[derive(Debug, Clone)]
pub struct ParallelExecutionConfig {
    pub max_parallel_tools: usize,
    pub conflict_detection: bool,
    pub resource_analysis: bool,
    pub timeout_ms: u64,
    pub never_parallel: Vec<(String, String)>,
    pub tool_conflicts: Vec<ToolConflict>,
    pub resource_access_patterns: Vec<(String, Vec<ResourceAccess>)>,
}

impl ParallelExecutionConfig {
    /// At most 4 tools at once, conflict and resource analysis on, 30 s timeout.
    pub fn default_config() -> (c: Self)
        ensures
            c.max_parallel_tools == 4,
            c.conflict_detection,
            c.resource_analysis,
            c.timeout_ms == 30000,
            c.never_parallel@.len() == 0,
            c.tool_conflicts@.len() == 0,
            c.resource_access_patterns@.len() == 0,
    {
        Self {
            max_parallel_tools: 4,
            conflict_detection: true,
            resource_analysis: true,
            timeout_ms: 30000,
            never_parallel: Vec::new(),
            tool_conflicts: Vec::new(),
            resource_access_patterns: Vec::new(),
        }
    }
}

/// When generation stops.
#[derive(Debug, Clone, Copy)]
pub struct StoppingConfig {
    pub max_tokens: Option<usize>,
    pub repetition_detection: Option<RepetitionConfig>,
    pub eos_detection: bool,
}

/// Why a stopping configuration is rejected, in the order the checks run.
pub open spec fn stopping_config_error(c: StoppingConfig) -> Option<Seq<char>> {
    if c.max_tokens matches Some(m) && m == 0 {
        Some("max_tokens must be greater than 0"@)
    } else if c.max_tokens matches Some(m) && m > 100_000 {
        Some("max_tokens cannot exceed 100,000 for safety"@)
    } else if c.repetition_detection matches Some(r) && r.min_pattern_length == 0 {
        Some("min_pattern_length must be greater than 0"@)
    } else if c.repetition_detection matches Some(r) && r.max_pattern_length < r.min_pattern_length {
        Some("max_pattern_length must be >= min_pattern_length"@)
    } else if c.repetition_detection matches Some(r) && r.min_repetitions < 2 {
        Some("min_repetitions must be at least 2"@)
    } else if c.repetition_detection matches Some(r) && r.window_size == 0 {
        Some("window_size must be greater than 0"@)
    } else if c.repetition_detection matches Some(r) && r.window_size > 100_000 {
        Some("window_size cannot exceed 100,000 for memory safety"@)
    } else {
        None
    }
}

impl StoppingConfig {
    /// No token limit, no repetition detection, end-of-sequence detection on.
    pub fn default_config() -> (c: Self)
        ensures
            c.max_tokens is None,
            c.repetition_detection is None,
            c.eos_detection,
    {
        Self { max_tokens: None, repetition_detection: None, eos_detection: true }
    }

    /// Validate the stopping configuration for reasonable limits.
    pub fn validate(&self) -> (r: Result<(), String>)
        ensures
            match stopping_config_error(*self) {
                None => r is Ok,
                Some(msg) => r matches Err(e) && e@ == msg,
            },
    {
        if let Some(max_tokens) = self.max_tokens {
            if max_tokens == 0 {
                return Err("max_tokens must be greater than 0".to_string());
            }
            if max_tokens > 100_000 {
                return Err("max_tokens cannot exceed 100,000 for safety".to_string());
            }
        }
        if let Some(repetition_config) = self.repetition_detection {
            if repetition_config.min_pattern_length == 0 {
                return Err("min_pattern_length must be greater than 0".to_string());
            }
            if repetition_config.max_pattern_length < repetition_config.min_pattern_length {
                return Err("max_pattern_length must be >= min_pattern_length".to_string());
            }
            if repetition_config.min_repetitions < 2 {
                return Err("min_repetitions must be at least 2".to_string());
            }
            if repetition_config.window_size == 0 {
                return Err("window_size must be greater than 0".to_string());
            }
            if repetition_config.window_size > 100_000 {
                return Err("window_size cannot exceed 100,000 for memory safety".to_string());
            }
        }
        Ok(())
    }

    /// Create a stopping configuration, refusing one that does not validate.
    pub fn new_validated(
        max_tokens: Option<usize>,
        repetition_detection: Option<RepetitionConfig>,
        eos_detection: bool,
    ) -> (r: Result<Self, String>)
        ensures
            ({
                let c = StoppingConfig { max_tokens, repetition_detection, eos_detection };
                match stopping_config_error(c) {
                    None => r == Ok::<StoppingConfig, String>(c),
                    Some(msg) => r matches Err(e) && e@ == msg,
                }
            }),
    {
        let config = Self { max_tokens, repetition_detection, eos_detection };
        match config.validate() {
            Ok(()) => Ok(config),
            Err(e) => Err(e),
        }
    }
}

/// Settings of the request queue.
#[derive(Debug, Clone, Copy)]
pub struct QueueConfig {
    pub max_queue_size: usize,
    pub request_timeout: Duration,
    pub worker_threads: usize,
}

/// Settings of the session store.
#[derive(Debug, Clone, Copy)]
pub struct SessionConfig {
    pub max_sessions: usize,
    pub session_timeout: Duration,
}

impl SessionConfig {
    /// At most 1000 sessions, each expiring after an hour without updates.
    pub fn default_config() -> (c: Self)
        ensures
            c.max_sessions == 1000,
            duration_nanos(c.session_timeout) == 3600 * 1_000_000_000,
    {
        Self { max_sessions: 1000, session_timeout: Duration::from_secs(3600) }
    }
}

impl QueueConfig {
    /// Up to 100 queued requests, a 30 s timeout, and one worker.
    pub fn default_config() -> (c: Self)
        ensures
            c.max_queue_size == 100,
            duration_nanos(c.request_timeout) == 30 * 1_000_000_000,
            c.worker_threads == 1,
    {
        Self { max_queue_size: 100, request_timeout: Duration::from_secs(30), worker_threads: 1 }
    }
}

/// Errors of the request queue.
#[derive(Debug, Clone)]
pub enum QueueError {
    Full,
    Timeout,
    WorkerError(String),
}

/// Errors of the session store.
#[derive(Debug, Clone)]
pub enum SessionError {
    NotFound(String),
    LimitExceeded,
    Timeout,
    InvalidState(String),
}

/// Errors of MCP servers.
#[derive(Debug, Clone)]
pub enum MCPError {
    ServerNotFound(String),
    ToolCallFailed(String),
    Connection(String),
    Protocol(String),
}

/// Errors of chat-template handling.
#[derive(Debug, Clone)]
pub enum TemplateError {
    RenderingFailed(String),
    ToolCallParsing(String),
    Invalid(String),
}

/// Why a queue configuration is rejected, in the order the checks run.
pub open spec fn queue_config_error(c: QueueConfig) -> Option<Seq<char>> {
    if c.max_queue_size == 0 {
        Some("Queue size must be greater than 0"@)
    } else if c.worker_threads == 0 {
        Some("Worker threads must be greater than 0"@)
    } else if c.worker_threads > 16 {
        Some("Worker threads should not exceed 16 for most systems"@)
    } else if duration_nanos(c.request_timeout) < 1_000_000_000 {
        Some("Request timeout must be greater than 0 seconds"@)
    } else {
        None
    }
}

impl QueueConfig {
    /// Check the queue settings.
    pub fn validate(&self) -> (r: Result<(), QueueError>)
        ensures
            match queue_config_error(*self) {
                None => r is Ok,
                Some(msg) => r matches Err(QueueError::WorkerError(e)) && e@ == msg,
            },
    {
        if self.max_queue_size == 0 {
            return Err(QueueError::WorkerError("Queue size must be greater than 0".to_string()));
        }
        if self.worker_threads == 0 {
            return Err(QueueError::WorkerError("Worker threads must be greater than 0".to_string()));
        }
        if self.worker_threads > 16 {
            return Err(
                QueueError::WorkerError(
                    "Worker threads should not exceed 16 for most systems".to_string(),
                ),
            );
        }
        if self.request_timeout.as_secs() == 0 {
            return Err(
                QueueError::WorkerError("Request timeout must be greater than 0 seconds".to_string()),
            );
        }
        Ok(())
    }
}

/// Why a session configuration is rejected, in the order the checks run.
pub open spec fn session_config_error(c: SessionConfig) -> Option<Seq<char>> {
    if c.max_sessions == 0 {
        Some("Max sessions must be greater than 0"@)
    } else if duration_nanos(c.session_timeout) < 1_000_000_000 {
        Some("Session timeout must be greater than 0 seconds"@)
    } else {
        None
    }
}

impl SessionConfig {
    /// Check the session settings.
    pub fn validate(&self) -> (r: Result<(), SessionError>)
        ensures
            match session_config_error(*self) {
                None => r is Ok,
                Some(msg) => r matches Err(SessionError::InvalidState(e)) && e@ == msg,
            },
    {
        if self.max_sessions == 0 {
            return Err(SessionError::InvalidState("Max sessions must be greater than 0".to_string()));
        }
        if self.session_timeout.as_secs() == 0 {
            return Err(
                SessionError::InvalidState("Session timeout must be greater than 0 seconds".to_string()),
            );
        }
        Ok(())
    }
}

/// Whether `c` may appear in a server name: an alphanumeric character, `-` or `_`.
pub open spec fn server_name_char_ok(c: char) -> bool {
    crate::text::is_alphanumeric(c) || c == '-' || c == '_'
}

/// Why a server configuration is rejected, in the order the checks run.
pub open spec fn server_config_error(name: Seq<char>, command: Seq<char>) -> Option<Seq<char>> {
    if name.len() == 0 {
        Some("MCP server name cannot be empty"@)
    } else if command.len() == 0 {
        Some("MCP server command cannot be empty"@)
    } else if exists|i: int| 0 <= i < name.len() && !server_name_char_ok(#[trigger] name[i]) {
        Some("MCP server name contains invalid characters"@)
    } else {
        None
    }
}

impl MCPServerConfig {
    /// Check the server's name and command.
    pub fn validate(&self) -> (r: Result<(), MCPError>)
        ensures
            match server_config_error(self.name@, self.command@) {
                None => r is Ok,
                Some(msg) => r matches Err(MCPError::Protocol(e)) && e@ == msg,
            },
    {
        let name = crate::text::chars_of(self.name.as_str());
        if name.len() == 0 {
            return Err(MCPError::Protocol("MCP server name cannot be empty".to_string()));
        }
        if self.command.as_str().unicode_len() == 0 {
            return Err(MCPError::Protocol("MCP server command cannot be empty".to_string()));
        }
        let n = name.len();
        let mut i: usize = 0;
        while i < n
            invariant
                n == name@.len(),
                name@ == self.name@,
                self.name@.len() > 0,
                self.command@.len() > 0,
                i <= n,
                forall|j: int| 0 <= j < i ==> server_name_char_ok(#[trigger] name@[j]),
            decreases n - i,
        {
            let c = name[i];
            if !(char_is_alphanumeric(c) || c == '-' || c == '_') {
                assert(!server_name_char_ok(name@[i as int]));
                assert(exists|j: int| 0 <= j < self.name@.len() && !server_name_char_ok(#[trigger] self.name@[j]));
                return Err(MCPError::Protocol("MCP server name contains invalid characters".to_string()));
            }
            i = i + 1;
        }
        Ok(())
    }
}

/// The text of a queue error, as its `Display` writes it.
pub open spec fn queue_error_text(e: QueueError) -> Seq<char> {
    match e {
        QueueError::Full => "Queue is full"@,
        QueueError::Timeout => "Request timeout"@,
        QueueError::WorkerError(m) => "Worker thread error: "@ + m@,
    }
}

/// The text of a session error, as its `Display` writes it.
pub open spec fn session_error_text(e: SessionError) -> Seq<char> {
    match e {
        SessionError::NotFound(m) => "Session not found: "@ + m@,
        SessionError::LimitExceeded => "Session limit exceeded"@,
        SessionError::Timeout => "Session timeout"@,
        SessionError::InvalidState(m) => "Invalid session state: "@ + m@,
    }
}

/// The text of an MCP error, as its `Display` writes it.
pub open spec fn mcp_error_text(e: MCPError) -> Seq<char> {
    match e {
        MCPError::ServerNotFound(m) => "MCP server not found: "@ + m@,
        MCPError::ToolCallFailed(m) => "Tool call failed: "@ + m@,
        MCPError::Connection(m) => "Connection error: "@ + m@,
        MCPError::Protocol(m) => "Protocol error: "@ + m@,
    }
}

/// The text of a template error, as its `Display` writes it.
pub open spec fn template_error_text(e: TemplateError) -> Seq<char> {
    match e {
        TemplateError::RenderingFailed(m) => "Template rendering failed: "@ + m@,
        TemplateError::ToolCallParsing(m) => "Tool call parsing failed: "@ + m@,
        TemplateError::Invalid(m) => "Invalid template: "@ + m@,
    }
}

fn prefixed(prefix: &str, m: &String) -> (s: String)
    ensures
        s@ == prefix@ + m@,
{
    let mut s = prefix.to_string();
    s.append(m.as_str());
    s
}

impl QueueError {
    /// The error's text.
    pub fn message(&self) -> (s: String)
        ensures
            s@ == queue_error_text(*self),
    {
        match self {
            QueueError::Full => "Queue is full".to_string(),
            QueueError::Timeout => "Request timeout".to_string(),
            QueueError::WorkerError(m) => prefixed("Worker thread error: ", m),
        }
    }
}

impl SessionError {
    /// The error's text.
    pub fn message(&self) -> (s: String)
        ensures
            s@ == session_error_text(*self),
    {
        match self {
            SessionError::NotFound(m) => prefixed("Session not found: ", m),
            SessionError::LimitExceeded => "Session limit exceeded".to_string(),
            SessionError::Timeout => "Session timeout".to_string(),
            SessionError::InvalidState(m) => prefixed("Invalid session state: ", m),
        }
    }
}

impl MCPError {
    /// The error's text.
    pub fn message(&self) -> (s: String)
        ensures
            s@ == mcp_error_text(*self),
    {
        match self {
            MCPError::ServerNotFound(m) => prefixed("MCP server not found: ", m),
            MCPError::ToolCallFailed(m) => prefixed("Tool call failed: ", m),
            MCPError::Connection(m) => prefixed("Connection error: ", m),
            MCPError::Protocol(m) => prefixed("Protocol error: ", m),
        }
    }
}

impl TemplateError {
    /// The error's text.
    pub fn message(&self) -> (s: String)
        ensures
            s@ == template_error_text(*self),
    {
        match self {
            TemplateError::RenderingFailed(m) => prefixed("Template rendering failed: ", m),
            TemplateError::ToolCallParsing(m) => prefixed("Tool call parsing failed: ", m),
            TemplateError::Invalid(m) => prefixed("Invalid template: ", m),
        }
    }
}

/// The agent's health, as a health check reports it.
#[derive(Debug)]
pub struct HealthStatus {
    pub status: String,
    pub model_loaded: bool,
    pub queue_size: usize,
    pub active_sessions: usize,
    pub uptime: Duration,
}


impl Default for SessionConfig {
    fn default() -> (c: Self)
        ensures
            c.max_sessions == 1000,
            duration_nanos(c.session_timeout) == 3600 * 1_000_000_000,
    {
        Self::default_config()
    }
}

impl Default for QueueConfig {
    fn default() -> (c: Self)
        ensures
            c.max_queue_size == 100,
            duration_nanos(c.request_timeout) == 30 * 1_000_000_000,
            c.worker_threads == 1,
    {
        Self::default_config()
    }
}

impl Default for StoppingConfig {
    fn default() -> (c: Self)
        ensures
            c.max_tokens is None,
            c.repetition_detection is None,
            c.eos_detection,
    {
        Self::default_config()
    }
}

impl Default for ParallelExecutionConfig {
    fn default() -> (c: Self)
        ensures
            c.max_parallel_tools == 4,
            c.conflict_detection,
            c.resource_analysis,
            c.timeout_ms == 30000,
            c.never_parallel@.len() == 0,
            c.tool_conflicts@.len() == 0,
            c.resource_access_patterns@.len() == 0,
    {
        Self::default_config()
    }
}

} // verus!
