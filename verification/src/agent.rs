//! What the agent decides around a generation: the request and its checks,
//! and how tool calls are checked, planned and run.

use vstd::prelude::*;

use crate::json::{json_text, json_to_string, str_eq, JsonValue};
use crate::stopper::repetition::utf8_len;
use crate::text::{blank, chars_of, is_blank, join, ranges_equal, utf8_byte_len};
use std::time::SystemTime;

use crate::types::{
    queue_config_error, FinishReason, GenerationResponse, MessageRole, server_config_error, session_config_error, MCPError, MCPServerConfig,
    Message, QueueConfig, QueueError, Session, SessionConfig, SessionError, SessionId,
    StoppingConfig, TemplateError, ToolCall, ToolCallId, ToolDefinition, ToolResult,
};

verus! {

/// The bit pattern of the `f32` value 2.0.
pub const TEMPERATURE_MAX_BITS: u32 = 0x4000_0000;

/// The bit pattern of the `f32` value 1.0.
pub const TOP_P_MAX_BITS: u32 = 0x3F80_0000;

/// Whether the `f32` with bit pattern `bits` lies in `[0, upper]`, where
/// `upper_bits` is the pattern of a positive finite `upper`. Under IEEE 754
/// the non-negative numbers are ordered as their patterns, NaN patterns lie
/// above infinity, negative numbers have the sign bit set, and negative
/// zero (`0x8000_0000`) compares equal to zero.
pub open spec fn f32_bits_within(bits: u32, upper_bits: u32) -> bool {
    bits <= upper_bits || bits == 0x8000_0000
}

/// Whether the `f32` with bit pattern `bits` lies in `[0, upper]`.
pub fn f32_within(bits: u32, upper_bits: u32) -> (b: bool)
    ensures
        b == f32_bits_within(bits, upper_bits),
{
    bits <= upper_bits || bits == 0x8000_0000
}

/// A request to generate text in a session. The sampling temperature and
/// nucleus probability are held as the bit patterns of their `f32` values.
#[derive(Debug, Clone)]
pub struct GenerationRequest {
    pub session_id: SessionId,
    pub max_tokens: Option<u32>,
    pub temperature_bits: Option<u32>,
    pub top_p_bits: Option<u32>,
    pub stop_tokens: Vec<String>,
    pub stopping_config: Option<StoppingConfig>,
}

/// The token limit a request runs with: its own, else its stopping
/// configuration's, cut to 32 bits.
pub open spec fn effective_limit(r: GenerationRequest) -> Option<u32> {
    match r.max_tokens {
        Some(m) => Some(m),
        None => match r.stopping_config {
            Some(c) => match c.max_tokens {
                Some(v) => Some(v as u32),
                None => None,
            },
            None => None,
        },
    }
}

impl GenerationRequest {
    /// A request with nothing set but the session.
    pub fn new(session_id: SessionId) -> (r: Self)
        ensures
            r.session_id == session_id,
            r.max_tokens is None,
            r.temperature_bits is None,
            r.top_p_bits is None,
            r.stop_tokens@.len() == 0,
            r.stopping_config is None,
    {
        Self {
            session_id,
            max_tokens: None,
            temperature_bits: None,
            top_p_bits: None,
            stop_tokens: Vec::new(),
            stopping_config: None,
        }
    }

    /// The request, with the default stopping configuration when it has none.
    pub fn with_default_stopping(self) -> (r: Self)
        ensures
            self.stopping_config is Some ==> r == self,
            self.stopping_config is None ==> r == (Self { stopping_config: Some(StoppingConfig { max_tokens: None, repetition_detection: None, eos_detection: true }), ..self }),
    {
        let mut r = self;
        if r.stopping_config.is_none() {
            r.stopping_config = Some(StoppingConfig::default_config());
        }
        r
    }

    /// The request with the given stopping configuration.
    pub fn with_stopping_config(self, config: StoppingConfig) -> (r: Self)
        ensures
            r == (Self { stopping_config: Some(config), ..self }),
    {
        let mut r = self;
        r.stopping_config = Some(config);
        r
    }

    /// The request with the given stopping configuration, when that validates.
    pub fn with_validated_stopping_config(self, config: StoppingConfig) -> (r: Result<Self, String>)
        ensures
            match crate::types::stopping_config_error(config) {
                None => r == Ok::<Self, String>(Self { stopping_config: Some(config), ..self }),
                Some(msg) => r matches Err(e) && e@ == msg,
            },
    {
        match config.validate() {
            Ok(()) => {
                let mut r = self;
                r.stopping_config = Some(config);
                Ok(r)
            },
            Err(e) => Err(e),
        }
    }

    /// The request with the given token limit.
    pub fn with_max_tokens(self, max_tokens: u32) -> (r: Self)
        ensures
            r == (Self { max_tokens: Some(max_tokens), ..self }),
    {
        let mut r = self;
        r.max_tokens = Some(max_tokens);
        r
    }

    /// The request with the given temperature, as an `f32` bit pattern.
    pub fn with_temperature_bits(self, bits: u32) -> (r: Self)
        ensures
            r == (Self { temperature_bits: Some(bits), ..self }),
    {
        let mut r = self;
        r.temperature_bits = Some(bits);
        r
    }

    /// The request with the given nucleus probability, as an `f32` bit pattern.
    pub fn with_top_p_bits(self, bits: u32) -> (r: Self)
        ensures
            r == (Self { top_p_bits: Some(bits), ..self }),
    {
        let mut r = self;
        r.top_p_bits = Some(bits);
        r
    }

    /// The request with the given stop tokens.
    pub fn with_stop_tokens(self, stop_tokens: Vec<String>) -> (r: Self)
        ensures
            r == (Self { stop_tokens, ..self }),
    {
        let mut r = self;
        r.stop_tokens = stop_tokens;
        r
    }

    /// The token limit the request runs with: its own, else its stopping
    /// configuration's.
    pub fn effective_max_tokens(&self) -> (m: Option<u32>)
        ensures
            m == effective_limit(*self),
    {
        match self.max_tokens {
            Some(m) => Some(m),
            None => match self.stopping_config {
                Some(c) => match c.max_tokens {
                    Some(v) => Some(#[verifier::truncate] (v as u32)),
                    None => None,
                },
                None => None,
            },
        }
    }

    /// Move the request's own token limit into its stopping configuration:
    /// a limit already there is kept, and a missing configuration is
    /// created with the defaults.
    pub fn migrate_max_tokens_to_stopping_config(self) -> (r: Self)
        ensures
            r.session_id == self.session_id,
            r.temperature_bits == self.temperature_bits,
            r.top_p_bits == self.top_p_bits,
            r.stop_tokens == self.stop_tokens,
            match self.max_tokens {
                None => r == self,
                Some(m) => r.max_tokens is None && match self.stopping_config {
                    Some(c) => r.stopping_config == Some(StoppingConfig {
                        max_tokens: if c.max_tokens is Some { c.max_tokens } else { Some(m as usize) },
                        ..c
                    }),
                    None => r.stopping_config == Some(StoppingConfig {
                        max_tokens: Some(m as usize),
                        repetition_detection: None,
                        eos_detection: true,
                    }),
                },
            },
    {
        let mut r = self;
        match r.max_tokens {
            Some(m) => {
                let limit = m as usize;
                match r.stopping_config {
                    Some(c) => {
                        let mut c2 = c;
                        if c2.max_tokens.is_none() {
                            c2.max_tokens = Some(limit);
                        }
                        r.stopping_config = Some(c2);
                        r.max_tokens = None;
                    },
                    None => {
                        let mut c2 = StoppingConfig::default_config();
                        c2.max_tokens = Some(limit);
                        r.stopping_config = Some(c2);
                        r.max_tokens = None;
                    },
                }
            },
            None => {},
        }
        r
    }
}

/// Migrating a request's own token limit into its stopping configuration
/// leaves the limit it runs with unchanged, unless the configuration
/// already held a different limit, which then wins.
pub proof fn lemma_migration_keeps_limit(r: GenerationRequest, migrated: GenerationRequest)
    requires
        r.max_tokens is Some ==> (migrated.max_tokens is None && match r.stopping_config {
            Some(c) => migrated.stopping_config == Some(StoppingConfig {
                max_tokens: if c.max_tokens is Some { c.max_tokens } else { Some(r.max_tokens->0 as usize) },
                ..c
            }),
            None => migrated.stopping_config == Some(StoppingConfig {
                max_tokens: Some(r.max_tokens->0 as usize),
                repetition_detection: None,
                eos_detection: true,
            }),
        }),
        r.max_tokens is None ==> migrated == r,
        r.max_tokens is Some && r.stopping_config is Some ==> r.stopping_config->0.max_tokens is None,
    ensures
        effective_limit(migrated) == effective_limit(r),
{
}

/// Whether the 50 characters from `i` equal the 50 that follow them.
pub open spec fn halves_equal(c: Seq<char>, i: int) -> bool {
    c.subrange(i, i + 50) == c.subrange(i + 50, i + 100)
}

/// How many windows in a row, ending at `i`, equal the window after them.
pub open spec fn equal_run(c: Seq<char>, i: int) -> nat
    decreases i + 1,
{
    if i < 0 {
        0
    } else if halves_equal(c, i) {
        equal_run(c, i - 1) + 1
    } else {
        0
    }
}

/// Whether a text repeats itself too much: at least 100 bytes long, and
/// somewhere more than five windows in a row of 50 characters each equal the
/// 50 characters after them.
pub open spec fn repeats_windows(text: Seq<char>) -> bool {
    utf8_len(text) >= 100 && exists|i: int| 0 <= i < text.len() - 100 && equal_run(text, i) > 5
}

/// Whether `text` repeats itself too much.
pub fn has_excessive_repetition(text: &str) -> (r: bool)
    ensures
        r == repeats_windows(text@),
{
    if utf8_byte_len(text) < 100 {
        return false;
    }
    let chars = chars_of(text);
    let n = chars.len();
    let end: usize = if n >= 100 { n - 100 } else { 0 };
    let mut count: usize = 0;
    let mut i: usize = 0;
    while i < end
        invariant
            n == chars@.len(),
            chars@ == text@,
            utf8_len(text@) >= 100,
            end == (if n >= 100 { n - 100 } else { 0 }),
            i <= end,
            count == equal_run(chars@, i - 1),
            forall|k: int| 0 <= k < i ==> #[trigger] equal_run(chars@, k) <= 5,
        decreases end - i,
    {
        if ranges_equal(&chars, i, i + 50, 50) {
            count = count + 1;
            if count > 5 {
                assert(equal_run(chars@, i as int) > 5);
                return true;
            }
        } else {
            count = 0;
        }
        i = i + 1;
    }
    false
}

/// Total number of bytes of the messages' contents.
pub open spec fn content_bytes(msgs: Seq<Message>) -> nat
    decreases msgs.len(),
{
    if msgs.len() == 0 {
        0
    } else {
        content_bytes(msgs.drop_last()) + utf8_len(msgs.last().content@)
    }
}

/// What is wrong with the first stop token that is empty or longer than 100 bytes.
pub open spec fn stop_token_problem(tokens: Seq<Seq<char>>) -> Option<Seq<char>>
    decreases tokens.len(),
{
    if tokens.len() == 0 {
        None
    } else if tokens[0].len() == 0 {
        Some("stop tokens cannot be empty"@)
    } else if utf8_len(tokens[0]) > 100 {
        Some("stop tokens cannot exceed 100 characters"@)
    } else {
        stop_token_problem(tokens.drop_first())
    }
}

/// What is wrong with the first message that is over 100,000 bytes, holds a
/// NUL character, or repeats itself too much.
pub open spec fn message_problem(msgs: Seq<Message>) -> Option<Seq<char>>
    decreases msgs.len(),
{
    if msgs.len() == 0 {
        None
    } else if utf8_len(msgs[0].content@) > 100_000 {
        Some("individual message exceeds size limit"@)
    } else if msgs[0].content@.contains('\0') {
        Some("message content contains null bytes"@)
    } else if repeats_windows(msgs[0].content@) {
        Some("message contains excessive repetition"@)
    } else {
        message_problem(msgs.drop_first())
    }
}

/// Why a generation request is refused, in the order the checks run: a zero
/// token limit, a temperature outside `[0, 2]`, a nucleus probability
/// outside `[0, 1]`, more than a million bytes of conversation, a bad stop
/// token, a bad message.
pub open spec fn request_problem(r: GenerationRequest, msgs: Seq<Message>) -> Option<Seq<char>> {
    if r.max_tokens == Some(0u32) {
        Some("max_tokens must be greater than 0"@)
    } else if r.temperature_bits matches Some(t) && !f32_bits_within(t, TEMPERATURE_MAX_BITS) {
        Some("temperature must be between 0.0 and 2.0"@)
    } else if r.top_p_bits matches Some(p) && !f32_bits_within(p, TOP_P_MAX_BITS) {
        Some("top_p must be between 0.0 and 1.0"@)
    } else if content_bytes(msgs) > 1_000_000 {
        Some("session content exceeds maximum size limit"@)
    } else if stop_token_problem(r.stop_tokens@.map_values(|t: String| t@)) is Some {
        stop_token_problem(r.stop_tokens@.map_values(|t: String| t@))
    } else {
        message_problem(msgs)
    }
}

/// A request's temperature matters only when it is not a number in
/// `[0.0, 2.0]` (bit patterns up to `0x4000_0000`, the pattern of 2.0, and
/// negative zero): such a request is judged exactly as if it gave no
/// temperature. Any other temperature (above 2.0, negative, or NaN) is
/// refused as out of range, unless the token limit is zero, which is
/// reported first.
pub proof fn lemma_temperature_range(r: GenerationRequest, msgs: Seq<Message>, t: u32)
    ensures
        t <= 0x4000_0000 || t == 0x8000_0000 ==> request_problem(
            GenerationRequest { temperature_bits: Some(t), ..r },
            msgs,
        ) == request_problem(GenerationRequest { temperature_bits: None, ..r }, msgs),
        !(t <= 0x4000_0000 || t == 0x8000_0000) && r.max_tokens != Some(0u32) ==> request_problem(
            GenerationRequest { temperature_bits: Some(t), ..r },
            msgs,
        ) == Some("temperature must be between 0.0 and 2.0"@),
{
}

/// A request's nucleus probability matters only when it is not a number in
/// `[0.0, 1.0]` (bit patterns up to `0x3F80_0000`, the pattern of 1.0, and
/// negative zero): such a request is judged exactly as if it gave none. Any
/// other value is refused as out of range, unless the token limit or the
/// temperature is refused first.
pub proof fn lemma_top_p_range(r: GenerationRequest, msgs: Seq<Message>, p: u32)
    ensures
        p <= 0x3F80_0000 || p == 0x8000_0000 ==> request_problem(
            GenerationRequest { top_p_bits: Some(p), ..r },
            msgs,
        ) == request_problem(GenerationRequest { top_p_bits: None, ..r }, msgs),
        !(p <= 0x3F80_0000 || p == 0x8000_0000) && r.max_tokens != Some(0u32) && (r.temperature_bits is None
            || (r.temperature_bits matches Some(t) && (t <= 0x4000_0000 || t == 0x8000_0000))) ==> request_problem(
            GenerationRequest { top_p_bits: Some(p), ..r },
            msgs,
        ) == Some("top_p must be between 0.0 and 1.0"@),
{
}

fn invalid(msg: &str) -> (e: TemplateError)
    ensures
        e matches TemplateError::Invalid(m) && m@ == msg@,
{
    TemplateError::Invalid(msg.to_string())
}

fn has_nul(s: &str) -> (r: bool)
    ensures
        r == s@.contains('\0'),
{
    let cs = chars_of(s);
    let n = cs.len();
    let mut i: usize = 0;
    while i < n
        invariant
            n == cs@.len(),
            cs@ == s@,
            i <= n,
            forall|k: int| 0 <= k < i ==> #[trigger] cs@[k] != '\0',
        decreases n - i,
    {
        if cs[i] == '\0' {
            assert(s@[i as int] == '\0');
            return true;
        }
        i = i + 1;
    }
    false
}

proof fn lemma_content_bytes_prefix(msgs: Seq<Message>, i: int)
    requires
        0 <= i < msgs.len(),
    ensures
        content_bytes(msgs.take(i + 1)) == content_bytes(msgs.take(i)) + utf8_len(msgs[i].content@),
        content_bytes(msgs.take(i)) <= content_bytes(msgs),
        content_bytes(msgs.take(i + 1)) <= content_bytes(msgs),
    decreases msgs.len() - i,
{
    assert(msgs.take(i + 1).drop_last() =~= msgs.take(i));
    if i + 1 < msgs.len() {
        lemma_content_bytes_prefix(msgs, i + 1);
    } else {
        assert(msgs.take(i + 1) =~= msgs);
    }
}

/// Check a generation request, with the messages of its session, for
/// safety and sense.
#[verifier::loop_isolation(false)]
pub fn validate_generation_request(request: &GenerationRequest, messages: &Vec<Message>) -> (r: Result<(), TemplateError>)
    ensures
        match request_problem(*request, messages@) {
            None => r is Ok,
            Some(msg) => r matches Err(TemplateError::Invalid(m)) && m@ == msg,
        },
{
    match request.max_tokens {
        Some(m) => {
            if m == 0 {
                return Err(invalid("max_tokens must be greater than 0"));
            }
        },
        None => {},
    }
    match request.temperature_bits {
        Some(t) => {
            if !f32_within(t, TEMPERATURE_MAX_BITS) {
                return Err(invalid("temperature must be between 0.0 and 2.0"));
            }
        },
        None => {},
    }
    match request.top_p_bits {
        Some(p) => {
            if !f32_within(p, TOP_P_MAX_BITS) {
                return Err(invalid("top_p must be between 0.0 and 1.0"));
            }
        },
        None => {},
    }
    let n = messages.len();
    let mut total: usize = 0;
    let mut i: usize = 0;
    while i < n
        invariant
            n == messages@.len(),
            i <= n,
            total == content_bytes(messages@.take(i as int)),
            total <= 1_000_000,
        decreases n - i,
    {
        proof { lemma_content_bytes_prefix(messages@, i as int); }
        let b = utf8_byte_len(messages[i].content.as_str());
        if b > 1_000_000 - total {
            return Err(invalid("session content exceeds maximum size limit"));
        }
        total = total + b;
        i = i + 1;
    }
    assert(messages@.take(n as int) =~= messages@);
    let ghost tokens = request.stop_tokens@.map_values(|t: String| t@);
    let k = request.stop_tokens.len();
    let mut j: usize = 0;
    assert(tokens.skip(0) =~= tokens);
    while j < k
        invariant
            k == request.stop_tokens@.len(),
            tokens == request.stop_tokens@.map_values(|t: String| t@),
            j <= k,
            stop_token_problem(tokens) == stop_token_problem(tokens.skip(j as int)),
        decreases k - j,
    {
        assert(tokens.skip(j as int).drop_first() =~= tokens.skip(j + 1));
        let t = request.stop_tokens[j].as_str();
        if t.unicode_len() == 0 {
            return Err(invalid("stop tokens cannot be empty"));
        }
        if utf8_byte_len(t) > 100 {
            return Err(invalid("stop tokens cannot exceed 100 characters"));
        }
        j = j + 1;
    }
    assert(tokens.skip(k as int) =~= Seq::<Seq<char>>::empty());
    let mut i: usize = 0;
    assert(messages@.skip(0) =~= messages@);
    while i < n
        invariant
            n == messages@.len(),
            i <= n,
            message_problem(messages@) == message_problem(messages@.skip(i as int)),
        decreases n - i,
    {
        assert(messages@.skip(i as int).drop_first() =~= messages@.skip(i + 1));
        let content = messages[i].content.as_str();
        if utf8_byte_len(content) > 100_000 {
            return Err(invalid("individual message exceeds size limit"));
        }
        if has_nul(content) {
            return Err(invalid("message content contains null bytes"));
        }
        if has_excessive_repetition(content) {
            return Err(invalid("message contains excessive repetition"));
        }
        i = i + 1;
    }
    assert(messages@.skip(n as int) =~= Seq::<Message>::empty());
    Ok(())
}

/// Why a tool call's arguments are refused, in the order the checks run.
pub open spec fn arguments_problem(call: ToolCall, def: ToolDefinition) -> Option<Seq<char>> {
    if call.name@.len() == 0 || utf8_len(call.name@) > 100 {
        Some("Tool name must be 1-100 characters"@)
    } else if def.parameters@ is Null {
        None
    } else if call.arguments@ is Null {
        Some("Tool requires arguments but none provided"@)
    } else if utf8_len(json_text(call.arguments@)) > 10_000 {
        Some("Tool arguments exceed maximum size limit"@)
    } else {
        None
    }
}

/// Check a tool call's arguments against its definition.
pub fn validate_tool_arguments(tool_call: &ToolCall, tool_def: &ToolDefinition) -> (r: Result<(), String>)
    ensures
        match arguments_problem(*tool_call, *tool_def) {
            None => r is Ok,
            Some(msg) => r matches Err(m) && m@ == msg,
        },
{
    if tool_call.name.as_str().unicode_len() == 0 || utf8_byte_len(tool_call.name.as_str()) > 100 {
        return Err("Tool name must be 1-100 characters".to_string());
    }
    if tool_def.parameters.is_null() {
        return Ok(());
    }
    if tool_call.arguments.is_null() {
        return Err("Tool requires arguments but none provided".to_string());
    }
    let text = json_to_string(&tool_call.arguments);
    if utf8_byte_len(text.as_str()) > 10_000 {
        return Err("Tool arguments exceed maximum size limit".to_string());
    }
    Ok(())
}

/// Whether no two calls name the same tool.
pub open spec fn names_distinct(calls: Seq<ToolCall>) -> bool {
    forall|a: int, b: int| 0 <= a < calls.len() && 0 <= b < calls.len() && a != b ==> #[trigger] calls[a].name@ != #[trigger] calls[b].name@
}

/// Calls run side by side exactly when there are at least two of them and
/// no two, wherever they stand, name the same tool: any pair of calls with
/// equal names keeps them sequential.
pub proof fn lemma_parallel_iff_no_shared_tool(calls: Seq<ToolCall>)
    ensures
        forall|a: int, b: int|
            0 <= a < b < calls.len() && #[trigger] calls[a].name@ == #[trigger] calls[b].name@
            ==> !(calls.len() > 1 && names_distinct(calls)),
        calls.len() > 1 && (forall|a: int, b: int|
            0 <= a < b < calls.len() ==> #[trigger] calls[a].name@ != #[trigger] calls[b].name@)
            ==> (calls.len() > 1 && names_distinct(calls)),
        calls.len() <= 1 ==> !(calls.len() > 1 && names_distinct(calls)),
{
    if calls.len() > 1 && (forall|a: int, b: int|
        0 <= a < b < calls.len() ==> #[trigger] calls[a].name@ != #[trigger] calls[b].name@) {
        assert forall|a: int, b: int|
            0 <= a < calls.len() && 0 <= b < calls.len() && a != b
            implies #[trigger] calls[a].name@ != #[trigger] calls[b].name@ by {
            if a < b {
                assert(calls[a].name@ != calls[b].name@);
            } else {
                assert(calls[b].name@ != calls[a].name@);
            }
        }
    }
}

/// Whether to run the calls side by side: only when there are several and
/// no two name the same tool, since those might depend on each other.
pub fn should_execute_in_parallel(tool_calls: &Vec<ToolCall>) -> (r: bool)
    ensures
        r == (tool_calls@.len() > 1 && names_distinct(tool_calls@)),
{
    let n = tool_calls.len();
    if n <= 1 {
        return false;
    }
    let mut i: usize = 0;
    while i < n
        invariant
            n == tool_calls@.len(),
            i <= n,
            forall|a: int, b: int| 0 <= a < i && 0 <= b < n && a != b ==> #[trigger] tool_calls@[a].name@ != #[trigger] tool_calls@[b].name@,
        decreases n - i,
    {
        let mut j: usize = 0;
        while j < n
            invariant
                n == tool_calls@.len(),
                i < n,
                j <= n,
                forall|a: int, b: int| 0 <= a < i && 0 <= b < n && a != b ==> #[trigger] tool_calls@[a].name@ != #[trigger] tool_calls@[b].name@,
                forall|b: int| 0 <= b < j && b != i ==> #[trigger] tool_calls@[b].name@ != tool_calls@[i as int].name@,
            decreases n - j,
        {
            if j != i && str_eq(tool_calls[i].name.as_str(), tool_calls[j].name.as_str()) {
                return false;
            }
            j = j + 1;
        }
        i = i + 1;
    }
    true
}

/// Index of the first tool named `name`, at or after `i`.
pub open spec fn tool_index_from(tools: Seq<ToolDefinition>, name: Seq<char>, i: int) -> Option<int>
    decreases tools.len() - i,
{
    if i < 0 || i >= tools.len() {
        None
    } else if tools[i].name@ == name {
        Some(i)
    } else {
        tool_index_from(tools, name, i + 1)
    }
}

/// How a tool call is to be run: the index of its tool in the session, or
/// why it cannot run.
pub open spec fn tool_plan(call: ToolCall, tools: Seq<ToolDefinition>) -> Result<int, Seq<char>> {
    if blank(call.name@) {
        Err("Tool name cannot be empty"@)
    } else {
        match tool_index_from(tools, call.name@, 0) {
            Some(k) => Ok(k),
            None => Err("Tool '"@ + call.name@ + "' not found in available tools. Available tools: "@
                + join(tools.map_values(|t: ToolDefinition| t.name@), ", "@)),
        }
    }
}

proof fn lemma_tool_index_from(tools: Seq<ToolDefinition>, name: Seq<char>, i: int)
    requires
        0 <= i <= tools.len(),
    ensures
        tool_index_from(tools, name, i) matches Some(k) ==> i <= k < tools.len() && tools[k].name@ == name
            && forall|j: int| i <= j < k ==> #[trigger] tools[j].name@ != name,
        tool_index_from(tools, name, i) is None ==> forall|j: int| i <= j < tools.len() ==> #[trigger] tools[j].name@ != name,
    decreases tools.len() - i,
{
    if i < tools.len() {
        lemma_tool_index_from(tools, name, i + 1);
    }
}

/// A tool call with a blank name is refused; otherwise it runs the first tool
/// of the session whose name is the call's, and it is refused as not found
/// exactly when no tool of the session has that name.
pub proof fn lemma_tool_plan_picks_first_match(call: ToolCall, tools: Seq<ToolDefinition>)
    ensures
        blank(call.name@) ==> tool_plan(call, tools) is Err,
        tool_plan(call, tools) matches Ok(k) ==> 0 <= k < tools.len() && tools[k].name@ == call.name@
            && forall|j: int| 0 <= j < k ==> #[trigger] tools[j].name@ != call.name@,
        !blank(call.name@) && (exists|j: int| 0 <= j < tools.len() && #[trigger] tools[j].name@ == call.name@)
            ==> tool_plan(call, tools) is Ok,
{
    lemma_tool_index_from(tools, call.name@, 0);
}

/// Decide how a tool call is to be run in a session: the index of the tool
/// it names, or why it cannot run.
#[verifier::loop_isolation(false)]
pub fn plan_tool_execution(tool_call: &ToolCall, session: &Session) -> (r: Result<usize, String>)
    ensures
        match tool_plan(*tool_call, session.available_tools@) {
            Ok(k) => r == Ok::<usize, String>(k as usize) && 0 <= k < session.available_tools@.len(),
            Err(msg) => r matches Err(m) && m@ == msg,
        },
{
    if is_blank(tool_call.name.as_str()) {
        return Err("Tool name cannot be empty".to_string());
    }
    let tools = &session.available_tools;
    let n = tools.len();
    let mut i: usize = 0;
    while i < n
        invariant
            n == tools@.len(),
            i <= n,
            tool_index_from(tools@, tool_call.name@, 0) == tool_index_from(tools@, tool_call.name@, i as int),
        decreases n - i,
    {
        if str_eq(tools[i].name.as_str(), tool_call.name.as_str()) {
            return Ok(i);
        }
        i = i + 1;
    }
    let mut m = "Tool '".to_string();
    m.append(tool_call.name.as_str());
    m.append("' not found in available tools. Available tools: ");
    let mut names: Vec<String> = Vec::new();
    let mut k: usize = 0;
    while k < n
        invariant
            n == tools@.len(),
            k <= n,
            names@.map_values(|s: String| s@) == tools@.take(k as int).map_values(|t: ToolDefinition| t.name@),
        decreases n - k,
    {
        let ghost before = names@.map_values(|s: String| s@);
        names.push(crate::text::string_clone(&tools[k].name));
        assert(names@.map_values(|s: String| s@) =~= before.push(tools@[k as int].name@));
        assert(tools@.take(k + 1).map_values(|t: ToolDefinition| t.name@) =~= tools@.take(k as int).map_values(|t: ToolDefinition| t.name@).push(tools@[k as int].name@));
        k = k + 1;
    }
    assert(tools@.take(n as int) =~= tools@);
    let j = crate::mcp::join_texts(&names, ", ");
    m.append(j.as_str());
    Err(m)
}

/// The result of a tool call that could not run.
pub fn failed_tool_result(call_id: ToolCallId, message: String) -> (r: ToolResult)
    ensures
        r.call_id == call_id,
        r.result@ is Null,
        r.error == Some(message),
{
    ToolResult { call_id, result: JsonValue::Null, error: Some(message) }
}

/// A problem with the agent's settings for its services.
#[derive(Debug)]
pub enum ServiceConfigError {
    Queue(QueueError),
    Session(SessionError),
    MCP(MCPError),
}

/// Index of the first server whose name also appears before it.
pub open spec fn first_duplicate_from(servers: Seq<MCPServerConfig>, i: int) -> Option<int>
    decreases servers.len() - i,
{
    if i < 0 || i >= servers.len() {
        None
    } else if exists|k: int| 0 <= k < i && #[trigger] servers[k].name@ == servers[i].name@ {
        Some(i)
    } else {
        first_duplicate_from(servers, i + 1)
    }
}

/// Index of the first server whose configuration is refused.
pub open spec fn first_bad_server_from(servers: Seq<MCPServerConfig>, i: int) -> Option<int>
    decreases servers.len() - i,
{
    if i < 0 || i >= servers.len() {
        None
    } else if server_config_error(servers[i].name@, servers[i].command@) is Some {
        Some(i)
    } else {
        first_bad_server_from(servers, i + 1)
    }
}

/// Why the services' settings are refused, in the order the checks run:
/// the queue, the session store, each server, then the first server whose
/// name repeats an earlier one.
pub open spec fn services_problem(q: QueueConfig, s: SessionConfig, servers: Seq<MCPServerConfig>) -> Option<(u8, Seq<char>)> {
    if queue_config_error(q) is Some {
        Some((0u8, queue_config_error(q)->0))
    } else if session_config_error(s) is Some {
        Some((1u8, session_config_error(s)->0))
    } else if first_bad_server_from(servers, 0) is Some {
        let k = first_bad_server_from(servers, 0)->0;
        Some((2u8, server_config_error(servers[k].name@, servers[k].command@)->0))
    } else if first_duplicate_from(servers, 0) is Some {
        Some((2u8, "Duplicate MCP server name: "@ + servers[first_duplicate_from(servers, 0)->0].name@))
    } else {
        None
    }
}

/// Check the settings of the queue, the session store and the MCP servers.
#[verifier::loop_isolation(false)]
pub fn validate_services(
    queue: &QueueConfig,
    sessions: &SessionConfig,
    servers: &Vec<MCPServerConfig>,
) -> (r: Result<(), ServiceConfigError>)
    ensures
        match services_problem(*queue, *sessions, servers@) {
            None => r is Ok,
            Some((0u8, msg)) => r matches Err(ServiceConfigError::Queue(QueueError::WorkerError(m))) && m@ == msg,
            Some((1u8, msg)) => r matches Err(ServiceConfigError::Session(SessionError::InvalidState(m))) && m@ == msg,
            Some((_, msg)) => r matches Err(ServiceConfigError::MCP(MCPError::Protocol(m))) && m@ == msg,
        },
{
    match queue.validate() {
        Ok(()) => {},
        Err(e) => return Err(ServiceConfigError::Queue(e)),
    }
    match sessions.validate() {
        Ok(()) => {},
        Err(e) => return Err(ServiceConfigError::Session(e)),
    }
    let n = servers.len();
    let mut i: usize = 0;
    while i < n
        invariant
            n == servers@.len(),
            i <= n,
            first_bad_server_from(servers@, 0) == first_bad_server_from(servers@, i as int),
        decreases n - i,
    {
        match servers[i].validate() {
            Ok(()) => {},
            Err(e) => return Err(ServiceConfigError::MCP(e)),
        }
        i = i + 1;
    }
    let mut i: usize = 0;
    while i < n
        invariant
            n == servers@.len(),
            i <= n,
            first_bad_server_from(servers@, 0) is None,
            first_duplicate_from(servers@, 0) == first_duplicate_from(servers@, i as int),
        decreases n - i,
    {
        let mut k: usize = 0;
        while k < i
            invariant
                n == servers@.len(),
                i < n,
                k <= i,
                first_duplicate_from(servers@, 0) == first_duplicate_from(servers@, i as int),
                forall|m: int| 0 <= m < k ==> #[trigger] servers@[m].name@ != servers@[i as int].name@,
            decreases i - k,
        {
            if str_eq(servers[k].name.as_str(), servers[i].name.as_str()) {
                assert(exists|m: int| 0 <= m < i && #[trigger] servers@[m].name@ == servers@[i as int].name@);
                let mut m = "Duplicate MCP server name: ".to_string();
                m.append(servers[i].name.as_str());
                return Err(ServiceConfigError::MCP(MCPError::Protocol(m)));
            }
            k = k + 1;
        }
        i = i + 1;
    }
    Ok(())
}

/// The most generations one request may take while tools are being called.
pub const MAX_TOOL_ITERATIONS: usize = 5;

/// Where a generation with tool calls stands: how many generations have
/// started, the text and tokens produced so far.
#[derive(Debug)]
pub struct GenerationLoop {
    pub iterations: usize,
    pub accumulated: String,
    pub total_tokens: u32,
}

impl GenerationLoop {
    /// Before the first generation.
    pub fn new() -> (g: Self)
        ensures
            g.iterations == 0,
            g.accumulated@.len() == 0,
            g.total_tokens == 0,
    {
        GenerationLoop { iterations: 0, accumulated: String::new(), total_tokens: 0 }
    }

    /// Count the start of another generation; whether it may run.
    pub fn begin_iteration(&mut self) -> (go: bool)
        requires
            old(self).iterations <= MAX_TOOL_ITERATIONS,
        ensures
            final(self).iterations == old(self).iterations + 1,
            final(self).accumulated == old(self).accumulated,
            final(self).total_tokens == old(self).total_tokens,
            go == (final(self).iterations <= MAX_TOOL_ITERATIONS),
    {
        self.iterations = self.iterations + 1;
        self.iterations <= MAX_TOOL_ITERATIONS
    }

    /// Take in one generation's response; whether it asks for its tool
    /// calls to be run, which it does when generation stopped on a tool call.
    pub fn record_response(&mut self, response: &GenerationResponse) -> (run_tools: bool)
        requires
            old(self).total_tokens + response.tokens_generated <= u32::MAX,
        ensures
            final(self).iterations == old(self).iterations,
            final(self).accumulated@ == old(self).accumulated@ + response.generated_text@,
            final(self).total_tokens == old(self).total_tokens + response.tokens_generated,
            run_tools == (response.finish_reason matches FinishReason::Stopped(r) && r@ == TOOL_CALL_REASON@),
    {
        self.accumulated.append(response.generated_text.as_str());
        self.total_tokens = self.total_tokens + response.tokens_generated;
        match &response.finish_reason {
            FinishReason::Stopped(r) => str_eq(r.as_str(), TOOL_CALL_REASON),
        }
    }
}

/// The reason a generation gives when it stopped to call tools.
pub const TOOL_CALL_REASON: &'static str = "Tool call detected";

/// The content of the message that reports a tool's result: its error, or
/// the compact JSON of its result.
pub open spec fn tool_message_text(r: ToolResult) -> Seq<char> {
    match r.error {
        Some(e) => "Error: "@ + e@,
        None => json_text(r.result@),
    }
}

/// The content of the message that reports a tool's result.
pub fn tool_message_content(r: &ToolResult) -> (s: String)
    ensures
        s@ == tool_message_text(*r),
{
    match &r.error {
        Some(e) => {
            let mut s = "Error: ".to_string();
            s.append(e.as_str());
            s
        },
        None => json_to_string(&r.result),
    }
}

/// The messages a round of tool calls adds to the conversation: the
/// assistant's reply that made the calls, then one tool message per result,
/// in order, each answering its call.
pub fn tool_followup_messages(reply: &str, results: &Vec<ToolResult>, now: SystemTime) -> (msgs: Vec<Message>)
    ensures
        msgs@.len() == results@.len() + 1,
        msgs@[0].role == MessageRole::Assistant,
        msgs@[0].content@ == reply@,
        msgs@[0].tool_call_id is None,
        msgs@[0].tool_name is None,
        msgs@[0].timestamp == now,
        forall|k: int| 0 <= k < results@.len() ==> {
            let m = #[trigger] msgs@[k + 1];
            &&& m.role == MessageRole::Tool
            &&& m.content@ == tool_message_text(results@[k])
            &&& m.tool_call_id == Some(results@[k].call_id)
            &&& m.tool_name is None
            &&& m.timestamp == now
        },
{
    let mut msgs: Vec<Message> = Vec::new();
    msgs.push(Message {
        role: MessageRole::Assistant,
        content: reply.to_string(),
        tool_call_id: None,
        tool_name: None,
        timestamp: now,
    });
    let n = results.len();
    let mut i: usize = 0;
    while i < n
        invariant
            n == results@.len(),
            i <= n,
            msgs@.len() == i + 1,
            msgs@[0].role == MessageRole::Assistant,
            msgs@[0].content@ == reply@,
            msgs@[0].tool_call_id is None,
            msgs@[0].tool_name is None,
            msgs@[0].timestamp == now,
            forall|k: int| 0 <= k < i ==> {
                let m = #[trigger] msgs@[k + 1];
                &&& m.role == MessageRole::Tool
                &&& m.content@ == tool_message_text(results@[k])
                &&& m.tool_call_id == Some(results@[k].call_id)
                &&& m.tool_name is None
                &&& m.timestamp == now
            },
        decreases n - i,
    {
        let content = tool_message_content(&results[i]);
        msgs.push(Message {
            role: MessageRole::Tool,
            content,
            tool_call_id: Some(results[i].call_id),
            tool_name: None,
            timestamp: now,
        });
        i = i + 1;
    }
    msgs
}

} // verus!
