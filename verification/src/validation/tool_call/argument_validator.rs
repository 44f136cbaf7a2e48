//! Tool call argument validation.

use vstd::prelude::*;

use crate::json::{capped_depth, json_depth, json_text, json_to_string, str_eq, JsonValue};
use crate::stopper::repetition::utf8_len;
use crate::text::{blank, chars_of, decimal, is_alphanumeric, is_blank, join, usize_to_decimal, utf8_byte_len, char_is_alphanumeric};
use crate::types::{Session, ToolCall, ToolDefinition};
use crate::validation::errors::ValidationError;
use crate::validation::traits::Validator;

verus! {

/// Configuration for tool argument validation.
#[derive(Debug, Clone, Copy)]
pub struct ArgumentValidatorConfig {
    /// Maximum depth for nested JSON arguments.
    pub max_argument_depth: usize,
    /// Maximum size for argument JSON in bytes.
    pub max_argument_size: usize,
    /// Whether to perform strict type checking.
    pub strict_type_checking: bool,
}

impl ArgumentValidatorConfig {
    /// Depth 10, one megabyte, strict type checking.
    pub fn default_config() -> (c: Self)
        ensures
            c.max_argument_depth == 10,
            c.max_argument_size == 1_000_000,
            c.strict_type_checking,
    {
        Self { max_argument_depth: 10, max_argument_size: 1_000_000, strict_type_checking: true }
    }
}

/// Whether `c` may appear in a tool name: alphanumeric, `_` or `-`.
pub open spec fn tool_name_char_ok(c: char) -> bool {
    is_alphanumeric(c) || c == '_' || c == '-'
}

/// The names of the tools of a session.
pub open spec fn tool_names(tools: Seq<ToolDefinition>) -> Seq<Seq<char>> {
    tools.map_values(|t: ToolDefinition| t.name@)
}

/// Index of the first tool named `name` at or after `i`, if any.
pub open spec fn tool_named_from(tools: Seq<ToolDefinition>, name: Seq<char>, i: int) -> Option<int>
    decreases tools.len() - i,
{
    if i < 0 || i >= tools.len() {
        None
    } else if tools[i].name@ == name {
        Some(i)
    } else {
        tool_named_from(tools, name, i + 1)
    }
}

/// Index of the first tool named `name`, if any.
pub open spec fn first_tool_named(tools: Seq<ToolDefinition>, name: Seq<char>) -> Option<int> {
    tool_named_from(tools, name, 0)
}

proof fn lemma_tool_named_from(tools: Seq<ToolDefinition>, name: Seq<char>, i: int)
    requires
        0 <= i,
    ensures
        tool_named_from(tools, name, i) matches Some(k) ==> i <= k < tools.len() && tools[k].name@ == name,
        tool_named_from(tools, name, i) is None ==> forall|k: int| i <= k < tools.len() ==> tools[k].name@ != name,
    decreases tools.len() - i,
{
    if i < tools.len() && tools[i].name@ != name {
        lemma_tool_named_from(tools, name, i + 1);
    }
}

/// What a tool call is rejected for, in the order the checks run: the variant
/// (0 security violation, 1 invalid state) and the detail text.
pub open spec fn tool_call_problem(
    cfg: ArgumentValidatorConfig,
    tools: Seq<ToolDefinition>,
    call: ToolCall,
) -> Option<(bool, Seq<char>)> {
    let name = call.name@;
    if blank(name) {
        Some((false, "Tool name cannot be empty"@))
    } else if utf8_len(name) > 256 {
        Some((true, "Tool name exceeds maximum length of 256 characters"@))
    } else if exists|i: int| 0 <= i < name.len() && !tool_name_char_ok(#[trigger] name[i]) {
        Some((false, "Tool name contains invalid characters (only letters, numbers, underscores, and hyphens allowed)"@))
    } else if !(exists|i: int| 0 <= i < tools.len() && #[trigger] tools[i].name@ == name) {
        Some((false, "Tool '"@ + name + "' is not available in this session. Available tools: ["@
            + join(tool_names(tools), ", "@) + "]"@))
    } else if utf8_len(json_text(call.arguments@)) > cfg.max_argument_size {
        Some((true, "Tool arguments exceed maximum size of "@ + decimal(cfg.max_argument_size as nat)
            + " bytes (current: "@ + decimal(utf8_len(json_text(call.arguments@))) + " bytes)"@))
    } else if capped_depth(call.arguments) > cfg.max_argument_depth {
        Some((true, "Tool arguments exceed maximum depth of "@ + decimal(cfg.max_argument_depth as nat) + " levels"@))
    } else if !(tools[first_tool_named(tools, name)->0].parameters is Null)
        && call.arguments is Null {
        Some((false, "Tool requires arguments but none provided"@))
    } else {
        None
    }
}

/// Validates tool call arguments for basic structure and safety.
#[derive(Debug, Clone, Copy)]
pub struct ToolArgumentValidator {
    config: ArgumentValidatorConfig,
}

impl ToolArgumentValidator {
    /// The configuration in use.
    pub closed spec fn spec_config(&self) -> ArgumentValidatorConfig {
        self.config
    }

    /// Create a new tool argument validator with default configuration.
    pub fn new() -> (v: Self)
        ensures
            v.spec_config().max_argument_depth == 10,
            v.spec_config().max_argument_size == 1_000_000,
            v.spec_config().strict_type_checking,
    {
        Self::with_config(ArgumentValidatorConfig::default_config())
    }

    /// Create a validator with custom configuration.
    pub fn with_config(config: ArgumentValidatorConfig) -> (v: Self)
        ensures
            v.spec_config() == config,
    {
        Self { config }
    }

    /// Get the current configuration.
    pub fn config(&self) -> (c: &ArgumentValidatorConfig)
        ensures
            *c == self.spec_config(),
    {
        &self.config
    }

    /// The depth of a JSON value, capped at `usize::MAX`.
    pub fn get_json_depth(value: &JsonValue) -> (d: usize)
        ensures
            d as nat == capped_depth(*value),
    {
        value.depth()
    }
}

/// Index of the first tool named `name`.
fn find_tool(tools: &Vec<ToolDefinition>, name: &str) -> (r: Option<usize>)
    ensures
        match first_tool_named(tools@, name@) {
            Some(i) => r == Some(i as usize),
            None => r is None,
        },
        first_tool_named(tools@, name@) is None <==> !(exists|i: int| 0 <= i < tools@.len() && #[trigger] tools@[i].name@ == name@),
        first_tool_named(tools@, name@) matches Some(i) ==> 0 <= i < tools@.len(),
{
    proof { lemma_tool_named_from(tools@, name@, 0); }
    let n = tools.len();
    let mut i: usize = 0;
    while i < n
        invariant
            n == tools@.len(),
            i <= n,
            first_tool_named(tools@, name@) == tool_named_from(tools@, name@, i as int),
        decreases n - i,
    {
        if str_eq(tools[i].name.as_str(), name) {
            return Some(i);
        }
        i = i + 1;
    }
    None
}

/// The names of the tools, separated by ", ".
fn joined_tool_names(tools: &Vec<ToolDefinition>) -> (s: String)
    ensures
        s@ == join(tool_names(tools@), ", "@),
{
    let mut out = String::new();
    let n = tools.len();
    let mut i: usize = 0;
    while i < n
        invariant
            n == tools@.len(),
            i <= n,
            out@ == join(tool_names(tools@).take(i as int), ", "@),
        decreases n - i,
    {
        let ghost names = tool_names(tools@);
        assert(names.take(i + 1).drop_last() =~= names.take(i as int));
        if i > 0 {
            out.append(", ");
        } else {
            assert(names.take(0) =~= Seq::<Seq<char>>::empty());
        }
        out.append(tools[i].name.as_str());
        i = i + 1;
    }
    assert(tool_names(tools@).take(n as int) =~= tool_names(tools@));
    out
}

impl Validator<ToolCall> for ToolArgumentValidator {
    type Error = ValidationError;

    fn validate(&self, session: &Session, tool_call: &ToolCall) -> (r: Result<(), ValidationError>)
        ensures
            match tool_call_problem(self.spec_config(), session.available_tools@, *tool_call) {
                None => r is Ok,
                Some((true, d)) => r matches Err(ValidationError::SecurityViolation(m)) && m@ == d,
                Some((false, d)) => r matches Err(ValidationError::InvalidState(m)) && m@ == d,
            },
    {
        let name = tool_call.name.as_str();
        // Tool name
        if is_blank(name) {
            return Err(ValidationError::invalid_state("Tool name cannot be empty"));
        }
        if utf8_byte_len(name) > 256 {
            return Err(ValidationError::security_violation("Tool name exceeds maximum length of 256 characters"));
        }
        let cs = chars_of(name);
        let n = cs.len();
        let mut i: usize = 0;
        while i < n
            invariant
                n == cs@.len(),
                cs@ == tool_call.name@,
                !blank(tool_call.name@),
                utf8_len(tool_call.name@) <= 256,
                i <= n,
                forall|k: int| 0 <= k < i ==> tool_name_char_ok(#[trigger] cs@[k]),
            decreases n - i,
        {
            let c = cs[i];
            if !(char_is_alphanumeric(c) || c == '_' || c == '-') {
                assert(!tool_name_char_ok(cs@[i as int]));
                assert(exists|k: int| 0 <= k < tool_call.name@.len() && !tool_name_char_ok(#[trigger] tool_call.name@[k]));
                return Err(ValidationError::invalid_state(
                    "Tool name contains invalid characters (only letters, numbers, underscores, and hyphens allowed)",
                ));
            }
            i = i + 1;
        }
        // Tool availability
        let found = find_tool(&session.available_tools, name);
        let idx: usize = match found {
            Some(j) => j,
            None => {
                let mut d = String::new();
                d.append("Tool '");
                d.append(name);
                d.append("' is not available in this session. Available tools: [");
                let names = joined_tool_names(&session.available_tools);
                d.append(names.as_str());
                d.append("]");
                return Err(ValidationError::InvalidState(d));
            },
        };
        assert(found == Some(idx));
        // JSON structure and limits
        let text = json_to_string(&tool_call.arguments);
        let size = utf8_byte_len(text.as_str());
        if size > self.config.max_argument_size {
            let mut d = String::new();
            d.append("Tool arguments exceed maximum size of ");
            let a = usize_to_decimal(self.config.max_argument_size);
            d.append(a.as_str());
            d.append(" bytes (current: ");
            let b = usize_to_decimal(size);
            d.append(b.as_str());
            d.append(" bytes)");
            return Err(ValidationError::SecurityViolation(d));
        }
        if tool_call.arguments.depth() > self.config.max_argument_depth {
            let mut d = String::new();
            d.append("Tool arguments exceed maximum depth of ");
            let a = usize_to_decimal(self.config.max_argument_depth);
            d.append(a.as_str());
            d.append(" levels");
            return Err(ValidationError::SecurityViolation(d));
        }
        // Argument requirements
        assert(name@ == tool_call.name@);
        assert(first_tool_named(session.available_tools@, name@) is Some);
        let ghost k = first_tool_named(session.available_tools@, name@)->0;
        assert(0 <= k < session.available_tools.len());
        assert(found == Some(k as usize));
        assert(idx == k);
        assert(first_tool_named(session.available_tools@, tool_call.name@) == Some(idx as int));
        if session.available_tools[idx].parameters.is_null() {
            return Ok(());
        }
        if tool_call.arguments.is_null() {
            return Err(ValidationError::invalid_state("Tool requires arguments but none provided"));
        }
        Ok(())
    }
}


impl Default for ArgumentValidatorConfig {
    fn default() -> (c: Self)
        ensures
            c.max_argument_depth == 10,
            c.max_argument_size == 1_000_000,
            c.strict_type_checking,
    {
        Self::default_config()
    }
}

impl Default for ToolArgumentValidator {
    fn default() -> (v: Self)
        ensures
            v.spec_config().max_argument_depth == 10,
            v.spec_config().max_argument_size == 1_000_000,
            v.spec_config().strict_type_checking,
    {
        Self::new()
    }
}

} // verus!
