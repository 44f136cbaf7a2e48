//! Rendering a conversation into a prompt, and finding tool calls in
//! generated text.

use vstd::prelude::*;

use crate::json::{json_pretty_text, json_to_pretty_string, model_get, model_get_str, parse_json, parsed_json, str_eq, JsonField, JsonModel, JsonValue};
use crate::pattern::{find_captures, find_matches, regex_captures, regex_matches};
use crate::stopper::repetition::utf8_len;
use crate::text::{chars_of, lowercase, push_char, seq_contains_run, split_lines, str_contains, text_lines, to_lowercase, trim_text, trimmed, utf8_byte_len};
use crate::types::{role_name, ulid_text, Message, MessageRole, Session, TemplateError, ToolCall, ToolCallId, ToolDefinition};

verus! {

/// The prompt layouts the engine knows.
#[derive(Debug, Clone, Copy, PartialEq, Eq, Structural)]
pub enum TemplateStyle {
    /// `<|role|>` blocks closed by `<|end|>`.
    Phi3,
    /// ChatML: `<|im_start|>role` blocks closed by `<|im_end|>`.
    Qwen,
    /// Markdown-like `### Role:` headings.
    Plain,
}

/// The characters of each role and content of `msgs`.
pub open spec fn pair_views(msgs: Seq<(String, String)>) -> Seq<(Seq<char>, Seq<char>)> {
    msgs.map_values(|p: (String, String)| (p.0@, p.1@))
}

/// The role tag a ChatML or Phi-3 block carries: known roles keep their
/// name, any other role is rendered as the user's.
pub open spec fn tag_of(role: Seq<char>) -> Seq<char> {
    if role == "system"@ {
        "system"@
    } else if role == "assistant"@ {
        "assistant"@
    } else if role == "tool"@ {
        "tool"@
    } else {
        "user"@
    }
}

/// The heading a plain block carries.
pub open spec fn heading_of(role: Seq<char>) -> Seq<char> {
    if role == "system"@ {
        "System"@
    } else if role == "user"@ {
        "Human"@
    } else if role == "assistant"@ {
        "Assistant"@
    } else if role == "tool"@ {
        "Tool Result"@
    } else {
        role
    }
}

/// The text one message becomes.
pub open spec fn block(style: TemplateStyle, role: Seq<char>, content: Seq<char>) -> Seq<char> {
    match style {
        TemplateStyle::Phi3 => "<|"@ + tag_of(role) + "|>\n"@ + content + "<|end|>\n"@,
        TemplateStyle::Qwen => "<|im_start|>"@ + tag_of(role) + "\n"@ + content + "<|im_end|>\n"@,
        TemplateStyle::Plain => "### "@ + heading_of(role) + ":\n"@ + content + "\n\n"@,
    }
}

/// What the prompt ends with: the opening of the assistant's turn.
pub open spec fn trailer(style: TemplateStyle) -> Seq<char> {
    match style {
        TemplateStyle::Phi3 => "<|assistant|>\n"@,
        TemplateStyle::Qwen => "<|im_start|>assistant\n"@,
        TemplateStyle::Plain => "### Assistant:\n"@,
    }
}

/// The blocks of all messages, in order.
pub open spec fn blocks(style: TemplateStyle, msgs: Seq<(Seq<char>, Seq<char>)>) -> Seq<char>
    decreases msgs.len(),
{
    if msgs.len() == 0 {
        Seq::empty()
    } else {
        blocks(style, msgs.drop_last()) + block(style, msgs.last().0, msgs.last().1)
    }
}

/// The messages, preceded by a system message holding the tools context when there is one.
pub open spec fn with_tools(msgs: Seq<(Seq<char>, Seq<char>)>, tools: Option<Seq<char>>) -> Seq<(Seq<char>, Seq<char>)> {
    match tools {
        Some(t) => seq![("system"@, t)] + msgs,
        None => msgs,
    }
}

/// The whole prompt.
pub open spec fn rendered(
    style: TemplateStyle,
    msgs: Seq<(Seq<char>, Seq<char>)>,
    tools: Option<Seq<char>>,
) -> Seq<char> {
    blocks(style, with_tools(msgs, tools)) + trailer(style)
}

/// The characters of an optional text.
pub open spec fn opt_text(t: Option<&str>) -> Option<Seq<char>> {
    match t {
        Some(x) => Some(x@),
        None => None,
    }
}

/// The style a model type name selects: `phi3`, `qwen`, or else the plain one.
pub open spec fn style_for(model_type: Seq<char>) -> TemplateStyle {
    if model_type == "phi3"@ {
        TemplateStyle::Phi3
    } else if model_type == "qwen"@ {
        TemplateStyle::Qwen
    } else {
        TemplateStyle::Plain
    }
}

proof fn lemma_blocks_push(style: TemplateStyle, msgs: Seq<(Seq<char>, Seq<char>)>, m: (Seq<char>, Seq<char>))
    ensures
        blocks(style, msgs.push(m)) == blocks(style, msgs) + block(style, m.0, m.1),
{
    assert(msgs.push(m).drop_last() =~= msgs);
}

fn push_block(out: &mut String, style: TemplateStyle, role: &str, content: &str)
    ensures
        final(out)@ == old(out)@ + block(style, role@, content@),
{
    let is_system = str_eq(role, "system");
    let is_user = str_eq(role, "user");
    let is_assistant = str_eq(role, "assistant");
    let is_tool = str_eq(role, "tool");
    match style {
        TemplateStyle::Plain => {
            out.append("### ");
            if is_system {
                out.append("System");
            } else if is_user {
                out.append("Human");
            } else if is_assistant {
                out.append("Assistant");
            } else if is_tool {
                out.append("Tool Result");
            } else {
                out.append(role);
            }
            out.append(":\n");
            out.append(content);
            out.append("\n\n");
        },
        _ => {
            let is_phi3 = match style {
                TemplateStyle::Phi3 => true,
                _ => false,
            };
            if is_phi3 {
                out.append("<|");
            } else {
                out.append("<|im_start|>");
            }
            if is_system {
                out.append("system");
            } else if is_assistant {
                out.append("assistant");
            } else if is_tool {
                out.append("tool");
            } else {
                out.append("user");
            }
            if is_phi3 {
                out.append("|>\n");
                out.append(content);
                out.append("<|end|>\n");
            } else {
                out.append("\n");
                out.append(content);
                out.append("<|im_end|>\n");
            }
        },
    }
}

/// Render `messages` (role and content pairs) in `style`, with the tools
/// context, when given, as a leading system message.
pub fn render_prompt(
    style: TemplateStyle,
    messages: &Vec<(String, String)>,
    tools_context: Option<&str>,
) -> (prompt: String)
    ensures
        prompt@ == rendered(style, pair_views(messages@), opt_text(tools_context)),
{
    let mut prompt = String::new();
    let ghost msgs = pair_views(messages@);
    let ghost tools = opt_text(tools_context);
    match tools_context {
        Some(t) => {
            push_block(&mut prompt, style, "system", t);
            proof {
                let first: Seq<(Seq<char>, Seq<char>)> = seq![("system"@, t@)];
                assert(first =~= Seq::<(Seq<char>, Seq<char>)>::empty().push(("system"@, t@)));
                lemma_blocks_push(style, Seq::empty(), ("system"@, t@));
                assert(blocks(style, Seq::empty()) =~= Seq::<char>::empty());
            }
        },
        None => {},
    }
    let ghost lead: Seq<(Seq<char>, Seq<char>)> = match tools_context {
        Some(t) => seq![("system"@, t@)],
        None => Seq::empty(),
    };
    assert(prompt@ == blocks(style, lead));
    let n = messages.len();
    let mut i: usize = 0;
    while i < n
        invariant
            n == messages@.len(),
            msgs == pair_views(messages@),
            i <= n,
            prompt@ == blocks(style, lead + msgs.take(i as int)),
        decreases n - i,
    {
        let role = messages[i].0.as_str();
        let content = messages[i].1.as_str();
        push_block(&mut prompt, style, role, content);
        proof {
            assert(msgs[i as int] == (role@, content@));
            lemma_blocks_push(style, lead + msgs.take(i as int), (role@, content@));
            assert((lead + msgs.take(i as int)).push((role@, content@)) =~= lead + msgs.take(i + 1));
        }
        i = i + 1;
    }
    assert(msgs.take(n as int) =~= msgs);
    assert(lead + msgs =~= with_tools(msgs, tools));
    match style {
        TemplateStyle::Phi3 => prompt.append("<|assistant|>\n"),
        TemplateStyle::Qwen => prompt.append("<|im_start|>assistant\n"),
        TemplateStyle::Plain => prompt.append("### Assistant:\n"),
    }
    prompt
}

/// The template style for a model type name.
pub fn style_for_model(model_type: &str) -> (s: TemplateStyle)
    ensures
        s == style_for(model_type@),
{
    if str_eq(model_type, "phi3") {
        TemplateStyle::Phi3
    } else if str_eq(model_type, "qwen") {
        TemplateStyle::Qwen
    } else {
        TemplateStyle::Plain
    }
}

/// The model type a text names, when it names one: a mention of `qwen`
/// wins over a mention of `phi`.
pub open spec fn named_model(text: Seq<char>) -> Option<Seq<char>> {
    if seq_contains_run(text, "qwen"@) {
        Some("qwen"@)
    } else if seq_contains_run(text, "phi"@) {
        Some("phi3"@)
    } else {
        None
    }
}

/// Which model type to format for: the configured model's identifier (in
/// lower case) first, then the `MODEL_REPO` setting, then the process
/// arguments, then the working directory (in lower case); `qwen` when
/// none of them names one. The setting and the arguments are matched on
/// `Qwen`/`qwen` and `Phi`/`phi` as written.
pub open spec fn detected_model(
    identifier: Option<Seq<char>>,
    model_repo: Seq<char>,
    process_args: Seq<char>,
    cwd: Option<Seq<char>>,
) -> Seq<char> {
    let by_identifier = match identifier {
        Some(id) => named_model(lowercase(id)),
        None => None,
    };
    let by_cwd = match cwd {
        Some(d) => named_model(lowercase(d)),
        None => None,
    };
    if by_identifier is Some {
        by_identifier->0
    } else if seq_contains_run(model_repo, "Qwen"@) || seq_contains_run(model_repo, "qwen"@) {
        "qwen"@
    } else if seq_contains_run(model_repo, "Phi"@) || seq_contains_run(model_repo, "phi"@) {
        "phi3"@
    } else if seq_contains_run(process_args, "Qwen"@) || seq_contains_run(process_args, "qwen"@) {
        "qwen"@
    } else if seq_contains_run(process_args, "Phi"@) || seq_contains_run(process_args, "phi"@) {
        "phi3"@
    } else if by_cwd is Some {
        by_cwd->0
    } else {
        "qwen"@
    }
}

fn model_named_in(lowered: &str) -> (r: Option<&'static str>)
    ensures
        match named_model(lowered@) {
            Some(m) => r matches Some(x) && x@ == m,
            None => r is None,
        },
{
    if str_contains(lowered, "qwen") {
        Some("qwen")
    } else if str_contains(lowered, "phi") {
        Some("phi3")
    } else {
        None
    }
}

/// Which model type to format for, from the configured model's identifier
/// (its repository, or its folder and file name), the `MODEL_REPO`
/// setting, the process arguments joined by spaces, and the working
/// directory.
pub fn detect_model_type(
    identifier: Option<&str>,
    model_repo: &str,
    process_args: &str,
    cwd: Option<&str>,
) -> (m: String)
    ensures
        m@ == detected_model(opt_text(identifier), model_repo@, process_args@, opt_text(cwd)),
{
    match identifier {
        Some(id) => {
            let lowered = to_lowercase(id);
            match model_named_in(lowered.as_str()) {
                Some(m) => return m.to_string(),
                None => {},
            }
        },
        None => {},
    }
    if str_contains(model_repo, "Qwen") || str_contains(model_repo, "qwen") {
        return "qwen".to_string();
    }
    if str_contains(model_repo, "Phi") || str_contains(model_repo, "phi") {
        return "phi3".to_string();
    }
    if str_contains(process_args, "Qwen") || str_contains(process_args, "qwen") {
        return "qwen".to_string();
    }
    if str_contains(process_args, "Phi") || str_contains(process_args, "phi") {
        return "phi3".to_string();
    }
    match cwd {
        Some(d) => {
            let lowered = to_lowercase(d);
            match model_named_in(lowered.as_str()) {
                Some(m) => return m.to_string(),
                None => {},
            }
        },
        None => {},
    }
    "qwen".to_string()
}

/// The JSON meaning of a tool definition, as its serialization writes it.
pub open spec fn tool_model(t: ToolDefinition) -> JsonModel {
    JsonModel::Object(seq![
        ("name"@, JsonModel::Str(t.name@)),
        ("description"@, JsonModel::Str(t.description@)),
        ("parameters"@, t.parameters@),
        ("server_name"@, JsonModel::Str(t.server_name@)),
    ])
}

/// The JSON meaning of a list of tool definitions.
pub open spec fn tools_model(tools: Seq<ToolDefinition>) -> JsonModel {
    JsonModel::Array(tools.map_values(|t: ToolDefinition| tool_model(t)))
}

/// The instructions that present the tools to the model, around their
/// indented JSON description.
pub open spec fn tools_prompt(formatted: Seq<char>) -> Seq<char> {
    "You are an AI assistant with access to the following tools. You have full permission and capability to use these tools to help users with their requests. Do not make security excuses - you are designed to use these tools.\n\nAvailable tools:\n"@
        + formatted
        + "\n\nIMPORTANT: When a user asks you to perform an action like listing files, reading files, or any file operations, you MUST use the appropriate tool. Do not give security warnings or suggest alternative methods - use the tools directly.\n\nTo call a tool, respond with a JSON object in this exact format. CRITICAL: Provide ONLY the JSON object, no additional text before or after:\n{\n  \"function_name\": \"tool_name\",\n  \"arguments\": {\n    \"parameter\": \"value\"\n  }\n}\n\nFor example, when asked to list files in the current directory, respond with ONLY:\n{\n  \"function_name\": \"list_directory\",\n  \"arguments\": {\n    \"path\": \".\"\n  }\n}\n\nDo not add explanatory text before or after the JSON. Generate well-formed JSON only. Always use the tools when they are needed to fulfill user requests."@
}

fn text_value(s: &String) -> (v: JsonValue)
    ensures
        v@ == JsonModel::Str(s@),
{
    JsonValue::String(crate::text::string_clone(s))
}

fn field(key: &str, value: JsonValue) -> (f: JsonField)
    ensures
        f.key@ == key@,
        f.value == value,
{
    JsonField { key: key.to_string(), value }
}

/// The JSON value of a tool definition: its name, description, parameters
/// and server name.
pub fn tool_json(t: &ToolDefinition) -> (v: JsonValue)
    ensures
        v@ == tool_model(*t),
{
    let mut fields: Vec<JsonField> = Vec::new();
    fields.push(field("name", text_value(&t.name)));
    fields.push(field("description", text_value(&t.description)));
    fields.push(field("parameters", t.parameters.duplicate()));
    fields.push(field("server_name", text_value(&t.server_name)));
    let v = JsonValue::Object(fields);
    proof {
        let fs = fields@;
        assert(fs.len() == 4);
        let m0 = crate::json::models_of_fields(fs, 0);
        let m1 = crate::json::models_of_fields(fs, 1);
        let m2 = crate::json::models_of_fields(fs, 2);
        let m3 = crate::json::models_of_fields(fs, 3);
        let m4 = crate::json::models_of_fields(fs, 4);
        assert(m0 == Seq::<(Seq<char>, JsonModel)>::empty());
        assert(m1 == m0.push((fs[0].key@, crate::json::model_of(fs[0].value))));
        assert(m2 == m1.push((fs[1].key@, crate::json::model_of(fs[1].value))));
        assert(m3 == m2.push((fs[2].key@, crate::json::model_of(fs[2].value))));
        assert(m4 == m3.push((fs[3].key@, crate::json::model_of(fs[3].value))));
        assert(m4 =~= seq![
            ("name"@, JsonModel::Str(t.name@)),
            ("description"@, JsonModel::Str(t.description@)),
            ("parameters"@, t.parameters@),
            ("server_name"@, JsonModel::Str(t.server_name@)),
        ]);
    }
    v
}

/// The JSON value of a list of tool definitions.
pub fn tools_json(tools: &Vec<ToolDefinition>) -> (v: JsonValue)
    ensures
        v@ == tools_model(tools@),
{
    let mut items: Vec<JsonValue> = Vec::new();
    let n = tools.len();
    let mut i: usize = 0;
    while i < n
        invariant
            n == tools@.len(),
            i <= n,
            items@.len() == i,
            crate::json::models_of_items(items@, i as int) == tools@.take(i as int).map_values(|t: ToolDefinition| tool_model(t)),
        decreases n - i,
    {
        let item = tool_json(&tools[i]);
        let ghost before = items@;
        items.push(item);
        proof {
            crate::json::lemma_items_prefix(items@, before, i as int);
            assert(tools@.take(i + 1).map_values(|t: ToolDefinition| tool_model(t)) =~= tools@.take(i as int).map_values(|t: ToolDefinition| tool_model(t)).push(tool_model(tools@[i as int])));
        }
        i = i + 1;
    }
    assert(tools@.take(n as int) =~= tools@);
    JsonValue::Array(items)
}

/// The tools context for a prompt: the instructions around the indented
/// JSON of the tools.
pub fn format_tools_for_template(tools: &Vec<ToolDefinition>) -> (r: Result<String, TemplateError>)
    ensures
        r matches Ok(s) && s@ == tools_prompt(json_pretty_text(tools_model(tools@))),
{
    let json = tools_json(tools);
    let formatted = json_to_pretty_string(&json);
    let mut out = String::new();
    out.append("You are an AI assistant with access to the following tools. You have full permission and capability to use these tools to help users with their requests. Do not make security excuses - you are designed to use these tools.\n\nAvailable tools:\n");
    out.append(formatted.as_str());
    out.append("\n\nIMPORTANT: When a user asks you to perform an action like listing files, reading files, or any file operations, you MUST use the appropriate tool. Do not give security warnings or suggest alternative methods - use the tools directly.\n\nTo call a tool, respond with a JSON object in this exact format. CRITICAL: Provide ONLY the JSON object, no additional text before or after:\n{\n  \"function_name\": \"tool_name\",\n  \"arguments\": {\n    \"parameter\": \"value\"\n  }\n}\n\nFor example, when asked to list files in the current directory, respond with ONLY:\n{\n  \"function_name\": \"list_directory\",\n  \"arguments\": {\n    \"path\": \".\"\n  }\n}\n\nDo not add explanatory text before or after the JSON. Generate well-formed JSON only. Always use the tools when they are needed to fulfill user requests.");
    Ok(out)
}

/// Finds tool calls written in one particular format.
pub trait ToolCallParser: Send + Sync {
    /// What this parser finds in `text`: each call by its name and arguments,
    /// in order, or the failure it reports.
    spec fn finds(&self, text: Seq<char>) -> Result<Seq<(Seq<char>, JsonModel)>, TemplateError>;

    /// The tool calls found in `text`, each with a fresh identifier.
    fn parse_tool_calls(&self, text: &str) -> (r: Result<Vec<ToolCall>, TemplateError>)
        ensures
            reports(self.finds(text@), r),
    ;
}

/// Whether `r` is what a parser that finds `found` hands back: the same
/// failure, or calls with the names and arguments found, in order.
pub open spec fn reports(
    found: Result<Seq<(Seq<char>, JsonModel)>, TemplateError>,
    r: Result<Vec<ToolCall>, TemplateError>,
) -> bool {
    match r {
        Ok(calls) => found == Ok::<Seq<(Seq<char>, JsonModel)>, TemplateError>(call_views(calls@)),
        Err(e) => found == Err::<Seq<(Seq<char>, JsonModel)>, TemplateError>(e),
    }
}

/// A JSON object, allowing one level of nested objects inside it.
pub const JSON_OBJECT_PATTERN: &'static str = "\\{(?:[^{}]|\\{[^{}]*\\})*\\}";

/// The start of an object whose first member is `function_name`.
pub const FUNCTION_NAME_START: &'static str = "\\{\\s*\"function_name\"\\s*:";

/// The start of an object whose first member is `tool`.
pub const TOOL_START: &'static str = "\\{\\s*\"tool\"\\s*:";

/// The start of an object whose first member is `name`.
pub const NAME_START: &'static str = "\\{\\s*\"name\"\\s*:";

/// An XML-style call: `<function_call ...>...</function_call>`.
pub const XML_CALL_PATTERN: &'static str = "<function_call[^>]*>(.*?)</function_call>";

/// The `name="..."` attribute.
pub const XML_NAME_PATTERN: &'static str = "name=\"([^\"]*)";

/// The content between the first tag's end and the last closing tag.
pub const XML_CONTENT_PATTERN: &'static str = "<[^>]*>(.*)</[^>]*>";

/// `call NAME with [arguments] ARGS`, in any letter case.
pub const FUNCTION_CALL_PATTERN: &'static str = "(?i)call\\s+(\\w+)\\s+with\\s+(?:arguments?\\s+)?(.+)";

/// The tool name and arguments a JSON object gives, trying in turn
/// `function_name`/`arguments`, `tool`/`parameters` and `name`/`args`; the
/// name must be a string.
pub open spec fn call_parts(m: JsonModel) -> Option<(Seq<char>, JsonModel)> {
    if model_get_str(m, "function_name"@) is Some && model_get(m, "arguments"@) is Some {
        Some((model_get_str(m, "function_name"@)->0, model_get(m, "arguments"@)->0))
    } else if model_get_str(m, "tool"@) is Some && model_get(m, "parameters"@) is Some {
        Some((model_get_str(m, "tool"@)->0, model_get(m, "parameters"@)->0))
    } else if model_get_str(m, "name"@) is Some && model_get(m, "args"@) is Some {
        Some((model_get_str(m, "name"@)->0, model_get(m, "args"@)->0))
    } else {
        None
    }
}

/// The calls given by those of `texts` that parse as JSON objects of one of
/// the three shapes, in order.
pub open spec fn calls_in_texts(texts: Seq<Seq<char>>) -> Seq<(Seq<char>, JsonModel)>
    decreases texts.len(),
{
    if texts.len() == 0 {
        Seq::empty()
    } else {
        let rest = calls_in_texts(texts.drop_last());
        match parsed_json(texts.last()) {
            Some(m) => match call_parts(m) {
                Some(p) => rest.push(p),
                None => rest,
            },
            None => rest,
        }
    }
}

/// The name and argument meaning of each call.
pub open spec fn call_views(calls: Seq<ToolCall>) -> Seq<(Seq<char>, JsonModel)> {
    calls.map_values(|c: ToolCall| (c.name@, c.arguments@))
}

/// The texts of the successive matches of `pattern`, none when it is invalid.
pub open spec fn matched_texts(pattern: Seq<char>, text: Seq<char>) -> Seq<Seq<char>> {
    match regex_matches(pattern, text) {
        Some(ms) => ms.map_values(|m: (Seq<char>, Seq<char>)| m.0),
        None => Seq::empty(),
    }
}

/// The trimmed lines that begin with `{` and end with `}`.
pub open spec fn brace_lines(lines: Seq<Seq<char>>) -> Seq<Seq<char>>
    decreases lines.len(),
{
    if lines.len() == 0 {
        Seq::empty()
    } else {
        let rest = brace_lines(lines.drop_last());
        let t = trimmed(lines.last());
        if t.len() > 0 && t[0] == '{' && t.last() == '}' { rest.push(t) } else { rest }
    }
}

/// The state of the brace scan: nesting depth, whether an opening brace was
/// seen, whether inside a string, whether the next character is escaped.
pub open spec fn balanced_scan(s: Seq<char>, i: int, depth: int, started: bool, in_str: bool, esc: bool) -> Option<int>
    decreases s.len() - i,
{
    if i < 0 || i >= s.len() {
        None
    } else if esc {
        balanced_scan(s, i + 1, depth, started, in_str, false)
    } else {
        let c = s[i];
        if c == '}' && !in_str && started && depth - 1 == 0 {
            Some(i + 1)
        } else if utf8_len(s.take(i + 1)) > 10000 {
            None
        } else if c == '\\' && in_str {
            balanced_scan(s, i + 1, depth, started, in_str, true)
        } else if c == '"' {
            balanced_scan(s, i + 1, depth, started, !in_str, false)
        } else if c == '{' && !in_str {
            balanced_scan(s, i + 1, depth + 1, true, in_str, false)
        } else if c == '}' && !in_str {
            balanced_scan(s, i + 1, depth - 1, started, in_str, false)
        } else {
            balanced_scan(s, i + 1, depth, started, in_str, false)
        }
    }
}

/// The shortest start of `s` in which braces outside strings balance after
/// at least one opened, when it is found within 10000 bytes.
pub open spec fn balanced_prefix(s: Seq<char>) -> Option<Seq<char>> {
    match balanced_scan(s, 0, 0, false, false, false) {
        Some(n) => Some(s.take(n)),
        None => None,
    }
}

/// The balanced objects that start at the matches.
pub open spec fn balanced_texts(ms: Seq<(Seq<char>, Seq<char>)>) -> Seq<Seq<char>>
    decreases ms.len(),
{
    if ms.len() == 0 {
        Seq::empty()
    } else {
        let rest = balanced_texts(ms.drop_last());
        match balanced_prefix(ms.last().1) {
            Some(t) => rest.push(t),
            None => rest,
        }
    }
}

/// The balanced objects that start where `pattern` matches.
pub open spec fn balanced_after(pattern: Seq<char>, text: Seq<char>) -> Seq<Seq<char>> {
    match regex_matches(pattern, text) {
        Some(ms) => balanced_texts(ms),
        None => Seq::empty(),
    }
}

/// The candidates of the last resort: balanced objects starting at each
/// of the three start patterns in turn.
pub open spec fn fallback_texts(text: Seq<char>) -> Seq<Seq<char>> {
    balanced_after(FUNCTION_NAME_START@, text) + balanced_after(TOOL_START@, text) + balanced_after(NAME_START@, text)
}

/// What the JSON parser finds: the calls among the object-shaped matches;
/// if none, those among the lines that are objects; if none, those among
/// the balanced objects after a start pattern.
pub open spec fn json_parser_calls(text: Seq<char>) -> Seq<(Seq<char>, JsonModel)> {
    let first = calls_in_texts(matched_texts(JSON_OBJECT_PATTERN@, text));
    let second = calls_in_texts(brace_lines(split_lines(text)));
    if first.len() > 0 {
        first
    } else if second.len() > 0 {
        second
    } else {
        calls_in_texts(fallback_texts(text))
    }
}

proof fn lemma_utf8_len_at_least(s: Seq<char>)
    ensures
        utf8_len(s) >= s.len(),
    decreases s.len(),
{
    if s.len() > 0 {
        let head = s.take(1);
        let tail = s.skip(1);
        assert(head + tail =~= s);
        crate::stopper::repetition::lemma_encode_utf8_concat(head, tail);
        crate::stopper::repetition::lemma_utf8_len_positive(head);
        lemma_utf8_len_at_least(tail);
    }
}

/// Parser for JSON function-call objects.
#[derive(Debug, Clone, Copy)]
pub struct JsonToolCallParser {}

impl JsonToolCallParser {
    /// A JSON call parser.
    pub fn new() -> Self {
        JsonToolCallParser {}
    }

    /// The call a JSON object gives, with a fresh identifier.
    pub fn parse_json_tool_call(&self, json: &JsonValue) -> (r: Result<Option<ToolCall>, TemplateError>)
        ensures
            match call_parts(json@) {
                Some(p) => r matches Ok(Some(c)) && c.name@ == p.0 && c.arguments@ == p.1,
                None => r matches Ok(None),
            },
    {
        match (json.get_str("function_name"), json.get("arguments")) {
            (Some(name), Some(args)) => {
                return Ok(Some(ToolCall { id: ToolCallId::new(), name: name.to_string(), arguments: args.duplicate() }));
            },
            _ => {},
        }
        match (json.get_str("tool"), json.get("parameters")) {
            (Some(name), Some(args)) => {
                return Ok(Some(ToolCall { id: ToolCallId::new(), name: name.to_string(), arguments: args.duplicate() }));
            },
            _ => {},
        }
        match (json.get_str("name"), json.get("args")) {
            (Some(name), Some(args)) => {
                return Ok(Some(ToolCall { id: ToolCallId::new(), name: name.to_string(), arguments: args.duplicate() }));
            },
            _ => {},
        }
        Ok(None)
    }

    /// Add the calls given by the texts, in order.
    fn collect_calls(&self, texts: &Vec<String>, calls: &mut Vec<ToolCall>)
        ensures
            call_views(final(calls)@) == call_views(old(calls)@) + calls_in_texts(texts@.map_values(|t: String| t@)),
    {
        let ghost views = texts@.map_values(|t: String| t@);
        let ghost start = call_views(calls@);
        let n = texts.len();
        let mut i: usize = 0;
        while i < n
            invariant
                n == texts@.len(),
                views == texts@.map_values(|t: String| t@),
                i <= n,
                call_views(calls@) == start + calls_in_texts(views.take(i as int)),
            decreases n - i,
        {
            assert(views.take(i + 1).drop_last() =~= views.take(i as int));
            let ghost before = calls@;
            match parse_json(texts[i].as_str()) {
                Ok(json) => {
                    match self.parse_json_tool_call(&json) {
                        Ok(Some(c)) => {
                            calls.push(c);
                            assert(call_views(calls@) =~= call_views(before).push((c.name@, c.arguments@)));
                        },
                        _ => {},
                    }
                },
                Err(_) => {},
            }
            i = i + 1;
        }
        assert(views.take(n as int) =~= views);
    }

    /// The shortest start of `text` whose braces balance, as `balanced_prefix` says.
    pub fn extract_balanced_json(&self, text: &str) -> (r: Option<String>)
        ensures
            match balanced_prefix(text@) {
                Some(t) => r matches Some(x) && x@ == t,
                None => r is None,
            },
    {
        let cs = chars_of(text);
        let n = cs.len();
        let mut depth: i64 = 0;
        let mut started = false;
        let mut in_str = false;
        let mut esc = false;
        let mut result = String::new();
        let mut i: usize = 0;
        while i < n
            invariant
                n == cs@.len(),
                cs@ == text@,
                i <= n,
                result@ == cs@.take(i as int),
                i > 0 ==> utf8_len(cs@.take(i - 1)) <= 10000,
                esc ==> utf8_len(cs@.take(i as int)) <= 10000,
                -(i as int) <= depth <= i as int,
                balanced_scan(cs@, 0, 0, false, false, false) == balanced_scan(cs@, i as int, depth as int, started, in_str, esc),
            decreases n - i,
        {
            proof {
                if i > 0 {
                    lemma_utf8_len_at_least(cs@.take(i - 1));
                }
            }
            let c = cs[i];
            push_char(&mut result, c);
            assert(cs@.take(i + 1) =~= cs@.take(i as int).push(c));
            proof {
                assert(cs@.take(i as int) + seq![c] =~= cs@.take(i + 1));
                crate::stopper::repetition::lemma_encode_utf8_concat(cs@.take(i as int), seq![c]);
            }
            if esc {
                esc = false;
                i = i + 1;
                continue;
            }
            if c == '}' && !in_str && started && depth - 1 == 0 {
                return Some(result);
            }
            if utf8_byte_len(result.as_str()) > 10000 {
                return None;
            }
            if c == '\\' && in_str {
                esc = true;
            } else if c == '"' {
                in_str = !in_str;
            } else if c == '{' && !in_str {
                depth = depth + 1;
                started = true;
            } else if c == '}' && !in_str {
                depth = depth - 1;
            }
            i = i + 1;
        }
        None
    }

    fn lines_as_calls(&self, text: &str, calls: &mut Vec<ToolCall>)
        ensures
            call_views(final(calls)@) == call_views(old(calls)@) + calls_in_texts(brace_lines(split_lines(text@))),
    {
        let lines = text_lines(text);
        let ghost views = lines@.map_values(|l: String| l@);
        let mut picked: Vec<String> = Vec::new();
        let n = lines.len();
        let mut i: usize = 0;
        while i < n
            invariant
                n == lines@.len(),
                views == lines@.map_values(|l: String| l@),
                i <= n,
                picked@.map_values(|t: String| t@) == brace_lines(views.take(i as int)),
            decreases n - i,
        {
            assert(views.take(i + 1).drop_last() =~= views.take(i as int));
            let t = trim_text(lines[i].as_str());
            let tc = chars_of(t.as_str());
            let m = tc.len();
            let ghost before = picked@.map_values(|x: String| x@);
            if m > 0 && tc[0] == '{' && tc[m - 1] == '}' {
                picked.push(t);
                assert(picked@.map_values(|x: String| x@) =~= before.push(tc@));
            }
            i = i + 1;
        }
        assert(views.take(n as int) =~= views);
        self.collect_calls(&picked, calls);
    }

    fn balanced_after_pattern(&self, pattern: &str, text: &str, out: &mut Vec<String>)
        ensures
            final(out)@.map_values(|t: String| t@) == old(out)@.map_values(|t: String| t@) + match regex_matches(pattern@, text@) {
                Some(ms) => balanced_texts(ms),
                None => Seq::empty(),
            },
    {
        let ghost start = out@.map_values(|t: String| t@);
        match find_matches(pattern, text) {
            Some(ms) => {
                let ghost views = crate::pattern::match_views(ms@);
                let n = ms.len();
                let mut i: usize = 0;
                while i < n
                    invariant
                        n == ms@.len(),
                        views == crate::pattern::match_views(ms@),
                        i <= n,
                        out@.map_values(|t: String| t@) == start + balanced_texts(views.take(i as int)),
                    decreases n - i,
                {
                    assert(views.take(i + 1).drop_last() =~= views.take(i as int));
                    let ghost before = out@.map_values(|t: String| t@);
                    match self.extract_balanced_json(ms[i].1.as_str()) {
                        Some(js) => {
                            out.push(js);
                            assert(out@.map_values(|t: String| t@) =~= before.push(js@));
                        },
                        None => {},
                    }
                    i = i + 1;
                }
                assert(views.take(n as int) =~= views);
            },
            None => {
                assert(out@.map_values(|t: String| t@) =~= start + Seq::<Seq<char>>::empty());
            },
        }
    }
}

impl ToolCallParser for JsonToolCallParser {
    open spec fn finds(&self, text: Seq<char>) -> Result<Seq<(Seq<char>, JsonModel)>, TemplateError> {
        Ok(json_parser_calls(text))
    }

    fn parse_tool_calls(&self, text: &str) -> (r: Result<Vec<ToolCall>, TemplateError>)
        ensures
            r matches Ok(calls) && call_views(calls@) == json_parser_calls(text@),
    {
        let mut calls: Vec<ToolCall> = Vec::new();
        let mut candidates: Vec<String> = Vec::new();
        match find_matches(JSON_OBJECT_PATTERN, text) {
            Some(ms) => {
                let n = ms.len();
                let mut i: usize = 0;
                while i < n
                    invariant
                        n == ms@.len(),
                        i <= n,
                        candidates@.len() == i,
                        forall|k: int| 0 <= k < i ==> #[trigger] candidates@[k]@ == ms@[k].0@,
                    decreases n - i,
                {
                    candidates.push(crate::text::string_clone(&ms[i].0));
                    i = i + 1;
                }
                assert(candidates@.map_values(|t: String| t@) =~= crate::pattern::match_views(ms@).map_values(|m: (Seq<char>, Seq<char>)| m.0));
            },
            None => {
                assert(candidates@.map_values(|t: String| t@) =~= Seq::<Seq<char>>::empty());
            },
        }
        assert(call_views(calls@) =~= Seq::<(Seq<char>, JsonModel)>::empty());
        self.collect_calls(&candidates, &mut calls);
        assert(call_views(calls@) =~= calls_in_texts(matched_texts(JSON_OBJECT_PATTERN@, text@)));
        if calls.len() == 0 {
            assert(call_views(calls@) =~= Seq::<(Seq<char>, JsonModel)>::empty());
            self.lines_as_calls(text, &mut calls);
            assert(call_views(calls@) =~= calls_in_texts(brace_lines(split_lines(text@))));
            if calls.len() == 0 {
                let mut found: Vec<String> = Vec::new();
                assert(found@.map_values(|t: String| t@) =~= Seq::<Seq<char>>::empty());
                self.balanced_after_pattern(FUNCTION_NAME_START, text, &mut found);
                self.balanced_after_pattern(TOOL_START, text, &mut found);
                self.balanced_after_pattern(NAME_START, text, &mut found);
                assert(found@.map_values(|t: String| t@) =~= fallback_texts(text@));
                assert(call_views(calls@) =~= Seq::<(Seq<char>, JsonModel)>::empty());
                self.collect_calls(&found, &mut calls);
                assert(call_views(calls@) =~= calls_in_texts(fallback_texts(text@)));
            }
        }
        Ok(calls)
    }
}

/// Group `g` of a match, when the match has that group and it took part.
pub open spec fn group_of(caps: Seq<Option<Seq<char>>>, g: int) -> Option<Seq<char>> {
    if 0 <= g < caps.len() { caps[g] } else { None }
}

/// Group `g` of the first match of `pattern` in `text`, when there is a
/// match and the group took part in it.
pub open spec fn first_group(pattern: Seq<char>, text: Seq<char>, g: int) -> Option<Seq<char>> {
    match regex_captures(pattern, text) {
        Some(ms) => if ms.len() > 0 { group_of(ms[0], g) } else { None },
        None => None,
    }
}

/// A text taken as JSON when it parses, else as a JSON string.
pub open spec fn json_or_text(t: Seq<char>) -> JsonModel {
    match parsed_json(t) {
        Some(m) => m,
        None => JsonModel::Str(t),
    }
}

/// The call an XML-style element gives: its `name` attribute, and the
/// content between its tags as JSON (or text), `null` without content.
pub open spec fn xml_call(xml: Seq<char>) -> Option<(Seq<char>, JsonModel)> {
    match first_group(XML_NAME_PATTERN@, xml, 1) {
        Some(name) => Some((name, match first_group(XML_CONTENT_PATTERN@, xml, 1) {
            Some(c) => json_or_text(c),
            None => JsonModel::Null,
        })),
        None => None,
    }
}

/// The calls given by the XML-style elements among the matches, in order.
pub open spec fn xml_calls_in(ms: Seq<Seq<Option<Seq<char>>>>) -> Seq<(Seq<char>, JsonModel)>
    decreases ms.len(),
{
    if ms.len() == 0 {
        Seq::empty()
    } else {
        let rest = xml_calls_in(ms.drop_last());
        match group_of(ms.last(), 0) {
            Some(xml) => match xml_call(xml) {
                Some(p) => rest.push(p),
                None => rest,
            },
            None => rest,
        }
    }
}

/// What the XML parser finds.
pub open spec fn xml_parser_calls(text: Seq<char>) -> Seq<(Seq<char>, JsonModel)> {
    match regex_captures(XML_CALL_PATTERN@, text) {
        Some(ms) => xml_calls_in(ms),
        None => Seq::empty(),
    }
}

/// The arguments of a natural-language call: an object-looking text as
/// JSON (or text), anything else as text.
pub open spec fn spoken_arguments(args: Seq<char>) -> JsonModel {
    let t = trimmed(args);
    if t.len() > 0 && t[0] == '{' && t.last() == '}' { json_or_text(t) } else { JsonModel::Str(t) }
}

/// The calls given by the natural-language matches, in order.
pub open spec fn spoken_calls_in(ms: Seq<Seq<Option<Seq<char>>>>) -> Seq<(Seq<char>, JsonModel)>
    decreases ms.len(),
{
    if ms.len() == 0 {
        Seq::empty()
    } else {
        let rest = spoken_calls_in(ms.drop_last());
        match (group_of(ms.last(), 1), group_of(ms.last(), 2)) {
            (Some(name), Some(args)) => rest.push((name, spoken_arguments(args))),
            _ => rest,
        }
    }
}

/// What the natural-language parser finds.
pub open spec fn spoken_parser_calls(text: Seq<char>) -> Seq<(Seq<char>, JsonModel)> {
    match regex_captures(FUNCTION_CALL_PATTERN@, text) {
        Some(ms) => spoken_calls_in(ms),
        None => Seq::empty(),
    }
}

fn group_at(caps: &Vec<Option<String>>, g: usize) -> (r: Option<&String>)
    ensures
        match group_of(crate::pattern::group_views(caps@), g as int) {
            Some(t) => r matches Some(x) && x@ == t,
            None => r is None,
        },
{
    if g < caps.len() {
        match &caps[g] {
            Some(t) => Some(t),
            None => None,
        }
    } else {
        None
    }
}

fn first_group_of(pattern: &str, text: &str, g: usize) -> (r: Option<String>)
    ensures
        match first_group(pattern@, text@, g as int) {
            Some(t) => r matches Some(x) && x@ == t,
            None => r is None,
        },
{
    match find_captures(pattern, text) {
        Some(ms) => {
            if ms.len() > 0 {
                match group_at(&ms[0], g) {
                    Some(t) => Some(crate::text::string_clone(t)),
                    None => None,
                }
            } else {
                None
            }
        },
        None => None,
    }
}

fn json_or_text_value(t: &str) -> (v: JsonValue)
    ensures
        v@ == json_or_text(t@),
{
    match parse_json(t) {
        Ok(json) => json,
        Err(_) => JsonValue::String(t.to_string()),
    }
}

/// Parser for XML-style function calls.
#[derive(Debug, Clone, Copy)]
pub struct XmlToolCallParser {}

impl XmlToolCallParser {
    /// An XML call parser.
    pub fn new() -> Self {
        XmlToolCallParser {}
    }

    /// The call one XML-style element gives, with a fresh identifier.
    pub fn parse_xml_tool_call(&self, xml: &str) -> (r: Result<Option<ToolCall>, TemplateError>)
        ensures
            match xml_call(xml@) {
                Some(p) => r matches Ok(Some(c)) && c.name@ == p.0 && c.arguments@ == p.1,
                None => r matches Ok(None),
            },
    {
        match first_group_of(XML_NAME_PATTERN, xml, 1) {
            Some(name) => {
                let arguments = match first_group_of(XML_CONTENT_PATTERN, xml, 1) {
                    Some(content) => json_or_text_value(content.as_str()),
                    None => JsonValue::Null,
                };
                Ok(Some(ToolCall { id: ToolCallId::new(), name, arguments }))
            },
            None => Ok(None),
        }
    }
}

impl ToolCallParser for XmlToolCallParser {
    open spec fn finds(&self, text: Seq<char>) -> Result<Seq<(Seq<char>, JsonModel)>, TemplateError> {
        Ok(xml_parser_calls(text))
    }

    fn parse_tool_calls(&self, text: &str) -> (r: Result<Vec<ToolCall>, TemplateError>)
        ensures
            r matches Ok(calls) && call_views(calls@) == xml_parser_calls(text@),
    {
        let mut calls: Vec<ToolCall> = Vec::new();
        match find_captures(XML_CALL_PATTERN, text) {
            Some(ms) => {
                let ghost views = crate::pattern::capture_views(ms@);
                let n = ms.len();
                let mut i: usize = 0;
                assert(call_views(calls@) =~= xml_calls_in(views.take(0)));
                while i < n
                    invariant
                        n == ms@.len(),
                        views == crate::pattern::capture_views(ms@),
                        i <= n,
                        call_views(calls@) == xml_calls_in(views.take(i as int)),
                    decreases n - i,
                {
                    assert(views.take(i + 1).drop_last() =~= views.take(i as int));
                    assert(views[i as int] == crate::pattern::group_views(ms@[i as int]@));
                    let ghost before = calls@;
                    match group_at(&ms[i], 0) {
                        Some(xml) => {
                            match self.parse_xml_tool_call(xml.as_str()) {
                                Ok(Some(c)) => {
                                    calls.push(c);
                                    assert(call_views(calls@) =~= call_views(before).push((c.name@, c.arguments@)));
                                },
                                _ => {},
                            }
                        },
                        None => {},
                    }
                    i = i + 1;
                }
                assert(views.take(n as int) =~= views);
            },
            None => {
                assert(call_views(calls@) =~= Seq::<(Seq<char>, JsonModel)>::empty());
            },
        }
        Ok(calls)
    }
}

/// Parser for calls written out in words: `call NAME with ARGS`.
#[derive(Debug, Clone, Copy)]
pub struct FunctionCallParser {}

impl FunctionCallParser {
    /// A natural-language call parser.
    pub fn new() -> Self {
        FunctionCallParser {}
    }

    /// The call one match gives, from its name and arguments groups.
    pub fn parse_function_call(&self, caps: &Vec<Option<String>>) -> (r: Result<Option<ToolCall>, TemplateError>)
        ensures
            match (group_of(crate::pattern::group_views(caps@), 1), group_of(crate::pattern::group_views(caps@), 2)) {
                (Some(name), Some(args)) => r matches Ok(Some(c)) && c.name@ == name && c.arguments@
                    == spoken_arguments(args),
                _ => r matches Ok(None),
            },
    {
        match (group_at(caps, 1), group_at(caps, 2)) {
            (Some(name), Some(args)) => {
                let t = trim_text(args.as_str());
                let tc = chars_of(t.as_str());
                let m = tc.len();
                let arguments = if m > 0 && tc[0] == '{' && tc[m - 1] == '}' {
                    json_or_text_value(t.as_str())
                } else {
                    JsonValue::String(t)
                };
                Ok(Some(ToolCall { id: ToolCallId::new(), name: crate::text::string_clone(name), arguments }))
            },
            _ => Ok(None),
        }
    }
}

impl ToolCallParser for FunctionCallParser {
    open spec fn finds(&self, text: Seq<char>) -> Result<Seq<(Seq<char>, JsonModel)>, TemplateError> {
        Ok(spoken_parser_calls(text))
    }

    fn parse_tool_calls(&self, text: &str) -> (r: Result<Vec<ToolCall>, TemplateError>)
        ensures
            r matches Ok(calls) && call_views(calls@) == spoken_parser_calls(text@),
    {
        let mut calls: Vec<ToolCall> = Vec::new();
        match find_captures(FUNCTION_CALL_PATTERN, text) {
            Some(ms) => {
                let ghost views = crate::pattern::capture_views(ms@);
                let n = ms.len();
                let mut i: usize = 0;
                assert(call_views(calls@) =~= spoken_calls_in(views.take(0)));
                while i < n
                    invariant
                        n == ms@.len(),
                        views == crate::pattern::capture_views(ms@),
                        i <= n,
                        call_views(calls@) == spoken_calls_in(views.take(i as int)),
                    decreases n - i,
                {
                    assert(views.take(i + 1).drop_last() =~= views.take(i as int));
                    assert(views[i as int] == crate::pattern::group_views(ms@[i as int]@));
                    let ghost before = calls@;
                    match self.parse_function_call(&ms[i]) {
                        Ok(Some(c)) => {
                            calls.push(c);
                            assert(call_views(calls@) =~= call_views(before).push((c.name@, c.arguments@)));
                        },
                        _ => {},
                    }
                    i = i + 1;
                }
                assert(views.take(n as int) =~= views);
            },
            None => {
                assert(call_views(calls@) =~= Seq::<(Seq<char>, JsonModel)>::empty());
            },
        }
        Ok(calls)
    }
}

/// Whether two calls have the same identifier, name and arguments.
pub open spec fn same_call(a: ToolCall, b: ToolCall) -> bool {
    a.id == b.id && a.name@ == b.name@ && a.arguments@ == b.arguments@
}

/// Whether the identifiers of `calls` strictly increase.
pub open spec fn ids_increasing(calls: Seq<ToolCall>) -> bool {
    forall|a: int, b: int| 0 <= a < b < calls.len() ==> #[trigger] calls[a].id.value() < #[trigger] calls[b].id.value()
}

/// The first position at or after `i` of a call with identifier value `v`
/// (the length when there is none).
pub open spec fn index_of_id(calls: Seq<ToolCall>, v: u128, i: int) -> int
    decreases calls.len() - i,
{
    if i < 0 || i >= calls.len() {
        calls.len() as int
    } else if calls[i].id.value() == v {
        i
    } else {
        index_of_id(calls, v, i + 1)
    }
}

/// Whether `j` is the first position of `calls` with its identifier.
pub open spec fn first_with_id(calls: Seq<ToolCall>, j: int) -> bool {
    0 <= j < calls.len() && index_of_id(calls, calls[j].id.value(), 0) == j
}

proof fn lemma_index_of_id(calls: Seq<ToolCall>, v: u128, start: int, i: int)
    requires
        0 <= start <= i < calls.len(),
        calls[i].id.value() == v,
        forall|k: int| start <= k < i ==> #[trigger] calls[k].id.value() != v,
    ensures
        index_of_id(calls, v, start) == i,
    decreases i - start,
{
    if start < i {
        lemma_index_of_id(calls, v, start + 1, i);
    }
}

proof fn lemma_insert_sorted(before: Seq<ToolCall>, p: int, c: ToolCall)
    requires
        ids_increasing(before),
        0 <= p <= before.len(),
        forall|k: int| 0 <= k < p ==> #[trigger] before[k].id.value() < c.id.value(),
        p < before.len() ==> c.id.value() < before[p].id.value(),
    ensures
        ids_increasing(before.insert(p, c)),
{
    let after = before.insert(p, c);
    assert forall|a: int, b: int| 0 <= a < b < after.len() implies #[trigger] after[a].id.value() < #[trigger] after[b].id.value() by {
        if b < p {
            assert(after[a] == before[a] && after[b] == before[b]);
        } else if b == p {
            assert(after[a] == before[a]);
        } else if a < p {
            assert(after[a] == before[a] && after[b] == before[b - 1]);
            assert(before[a].id.value() < c.id.value());
        } else if a == p {
            assert(after[b] == before[b - 1]);
            if b - 1 > p {
                assert(before[p].id.value() < before[b - 1].id.value());
            }
        } else {
            assert(after[a] == before[a - 1] && after[b] == before[b - 1]);
        }
    }
}

fn find_slot(out: &Vec<ToolCall>, key: u128) -> (p: usize)
    requires
        ids_increasing(out@),
    ensures
        p <= out@.len(),
        forall|k: int| 0 <= k < p ==> #[trigger] out@[k].id.value() < key,
        p < out@.len() ==> key <= out@[p as int].id.value(),
{
    let m = out.len();
    let mut p: usize = 0;
    while p < m && out[p].id.to_value() < key
        invariant
            m == out@.len(),
            p <= m,
            forall|k: int| 0 <= k < p ==> #[trigger] out@[k].id.value() < key,
        decreases m - p,
    {
        p = p + 1;
    }
    p
}

/// `out` holds, by increasing identifier, for each identifier of `calls`
/// the first call of `calls` that has it.
pub open spec fn sorted_dedup_of(out: Seq<ToolCall>, calls: Seq<ToolCall>) -> bool {
    &&& ids_increasing(out)
    &&& forall|k: int| #![trigger out[k]] 0 <= k < out.len() ==> index_of_id(calls, out[k].id.value(), 0) < calls.len()
        && same_call(out[k], calls[index_of_id(calls, out[k].id.value(), 0)])
    &&& forall|j: int| #![trigger calls[j]] 0 <= j < calls.len() ==> exists|k: int| #![trigger out[k]] 0 <= k < out.len() && out[k].id.value() == calls[j].id.value()
}

/// The state of the sort after the first `i` calls of `input`: identifiers
/// increase; the call kept at `k` is `input[origin[k]]`, the first of
/// `input[..i]` with its identifier; the identifier of `input[j]` is kept
/// at `place[j]`.
pub open spec fn dedup_state(out: Seq<ToolCall>, input: Seq<ToolCall>, i: int, origin: Seq<int>, place: Seq<int>) -> bool {
    &&& ids_increasing(out)
    &&& origin.len() == out.len()
    &&& place.len() == i
    &&& forall|k: int| 0 <= k < out.len() ==> 0 <= #[trigger] origin[k] < i && first_with_id(input, origin[k]) && out[k] == input[origin[k]]
    &&& forall|j: int| 0 <= j < i ==> 0 <= #[trigger] place[j] < out.len() && out[place[j]].id.value() == input[j].id.value()
}

proof fn lemma_place_insert(before: Seq<ToolCall>, input: Seq<ToolCall>, i: int, p: int, origin: Seq<int>, place: Seq<int>)
    requires
        0 <= i < input.len(),
        0 <= p <= before.len(),
        forall|k: int| 0 <= k < p ==> #[trigger] before[k].id.value() < input[i].id.value(),
        p < before.len() ==> input[i].id.value() < before[p].id.value(),
        dedup_state(before, input, i, origin, place),
    ensures
        dedup_state(
            before.insert(p, input[i]),
            input,
            i + 1,
            origin.insert(p, i),
            place.map_values(|k: int| if k >= p { k + 1 } else { k }).push(p),
        ),
{
    let key = input[i].id.value();
    let after = before.insert(p, input[i]);
    let o2 = origin.insert(p, i);
    let p2 = place.map_values(|k: int| if k >= p { k + 1 } else { k }).push(p);
    assert forall|j: int| 0 <= j < i implies #[trigger] input[j].id.value() != key by {
        let k = place[j];
        assert(0 <= k < before.len() && before[k].id.value() == input[j].id.value());
        if k > p {
            assert(before[p].id.value() < before[k].id.value());
        }
    }
    lemma_index_of_id(input, key, 0, i);
    assert(first_with_id(input, i));
    lemma_insert_sorted(before, p, input[i]);
    assert forall|k: int| 0 <= k < after.len() implies 0 <= #[trigger] o2[k] < i + 1 && first_with_id(input, o2[k]) && after[k] == input[o2[k]] by {
        if k < p {
            assert(o2[k] == origin[k] && after[k] == before[k]);
        } else if k == p {
        } else {
            assert(o2[k] == origin[k - 1] && after[k] == before[k - 1]);
        }
    }
    assert forall|j: int| 0 <= j < i + 1 implies 0 <= #[trigger] p2[j] < after.len() && after[p2[j]].id.value() == input[j].id.value() by {
        if j < i {
            let k = place[j];
            if k >= p {
                assert(p2[j] == k + 1 && after[k + 1] == before[k]);
            } else {
                assert(p2[j] == k && after[k] == before[k]);
            }
        }
    }
}

fn place_call(
    out: &mut Vec<ToolCall>,
    c: ToolCall,
    Ghost(input): Ghost<Seq<ToolCall>>,
    Ghost(i): Ghost<int>,
    Ghost(origin): Ghost<Seq<int>>,
    Ghost(place): Ghost<Seq<int>>,
) -> (maps: Ghost<(Seq<int>, Seq<int>)>)
    requires
        0 <= i < input.len(),
        c == input[i],
        dedup_state(old(out)@, input, i, origin, place),
    ensures
        dedup_state(final(out)@, input, i + 1, maps@.0, maps@.1),
{
    let key = c.id.to_value();
    let m = out.len();
    let p = find_slot(out, key);
    if p < m && out[p].id.to_value() == key {
        let ghost p2 = place.push(p as int);
        assert forall|j: int| 0 <= j < i + 1 implies 0 <= #[trigger] p2[j] < out@.len() && out@[p2[j]].id.value() == input[j].id.value() by {
            if j < i {
                assert(p2[j] == place[j]);
            }
        }
        Ghost((origin, p2))
    } else {
        let ghost before = out@;
        out.insert(p, c);
        proof { lemma_place_insert(before, input, i, p as int, origin, place); }
        Ghost((origin.insert(p as int, i), place.map_values(|k: int| if k >= p { k + 1 } else { k }).push(p as int)))
    }
}

proof fn lemma_dedup_done(out: Seq<ToolCall>, input: Seq<ToolCall>, origin: Seq<int>, place: Seq<int>)
    requires
        dedup_state(out, input, input.len() as int, origin, place),
    ensures
        sorted_dedup_of(out, input),
{
    assert forall|k: int| #![trigger out[k]] 0 <= k < out.len() implies index_of_id(input, out[k].id.value(), 0) < input.len()
        && same_call(out[k], input[index_of_id(input, out[k].id.value(), 0)]) by {
        let j = origin[k];
        assert(first_with_id(input, j));
        assert(out[k] == input[j]);
    }
    assert forall|j: int| #![trigger input[j]] 0 <= j < input.len() implies exists|k: int| #![trigger out[k]] 0 <= k < out.len() && out[k].id.value() == input[j].id.value() by {
        let k = place[j];
        assert(0 <= k < out.len() && out[k].id.value() == input[j].id.value());
    }
}

/// The calls ordered by identifier, keeping of each identifier only the
/// first call that has it, as a stable sort by identifier followed by
/// removal of repeated identifiers leaves them. The text of an identifier
/// is fixed-width and ordered as its value is, so this is also the order
/// of the identifiers' texts.
pub fn sort_and_dedup(calls: Vec<ToolCall>) -> (out: Vec<ToolCall>)
    ensures
        sorted_dedup_of(out@, calls@),
{
    let ghost input = calls@;
    let mut rest = calls;
    let mut out: Vec<ToolCall> = Vec::new();
    let ghost mut origin: Seq<int> = Seq::empty();
    let ghost mut place: Seq<int> = Seq::empty();
    let n = rest.len();
    let mut i: usize = 0;
    while i < n
        invariant
            n == input.len(),
            i <= n,
            rest@ == input.skip(i as int),
            dedup_state(out@, input, i as int, origin, place),
        decreases n - i,
    {
        let c = rest.remove(0);
        assert(c == input[i as int]);
        assert(rest@ =~= input.skip(i + 1));
        let maps = place_call(&mut out, c, Ghost(input), Ghost(i as int), Ghost(origin), Ghost(place));
        proof {
            origin = maps@.0;
            place = maps@.1;
        }
        i = i + 1;
    }
    proof { lemma_dedup_done(out@, input, origin, place); }
    assert(sorted_dedup_of(out@, input));
    out
}

/// The role and content a message is rendered with: a tool's reply that
/// answers a call is introduced with the call's identifier.
pub open spec fn message_pair(m: Message) -> (Seq<char>, Seq<char>) {
    (role_name(m.role), match (m.role, m.tool_call_id) {
        (MessageRole::Tool, Some(id)) => "Tool result for call "@ + ulid_text(id.value()) + ": "@ + m.content@,
        _ => m.content@,
    })
}

/// The rendered pairs of a conversation.
pub open spec fn message_pairs(msgs: Seq<Message>) -> Seq<(Seq<char>, Seq<char>)> {
    msgs.map_values(|m: Message| message_pair(m))
}

/// The tools context of a session: none without tools.
pub open spec fn session_tools_context(s: Session) -> Option<Seq<char>> {
    if s.available_tools@.len() == 0 {
        None
    } else {
        Some(tools_prompt(json_pretty_text(tools_model(s.available_tools@))))
    }
}

/// The role and content pairs of a session's messages.
pub fn session_chat_messages(session: &Session) -> (pairs: Vec<(String, String)>)
    ensures
        pair_views(pairs@) == message_pairs(session.messages@),
{
    let mut pairs: Vec<(String, String)> = Vec::new();
    let n = session.messages.len();
    let mut i: usize = 0;
    while i < n
        invariant
            n == session.messages@.len(),
            i <= n,
            pairs@.len() == i,
            forall|k: int| 0 <= k < i ==> (#[trigger] pairs@[k]).0@ == message_pair(session.messages@[k]).0
                && pairs@[k].1@ == message_pair(session.messages@[k]).1,
        decreases n - i,
    {
        let m = &session.messages[i];
        let role = m.role.as_str().to_string();
        let content = match (m.role, m.tool_call_id) {
            (MessageRole::Tool, Some(id)) => {
                let mut t = String::new();
                t.append("Tool result for call ");
                let idt = id.to_text();
                t.append(idt.as_str());
                t.append(": ");
                t.append(m.content.as_str());
                t
            },
            _ => crate::text::string_clone(&m.content),
        };
        pairs.push((role, content));
        i = i + 1;
    }
    assert(pair_views(pairs@) =~= message_pairs(session.messages@));
    pairs
}

/// Whether a parser's result is a non-empty list of calls.
pub open spec fn found_some(r: Result<Vec<ToolCall>, TemplateError>) -> bool {
    r matches Ok(v) && v@.len() > 0
}

/// The calls of the first result that is a non-empty list, in order; none
/// when there is no such result.
pub open spec fn first_nonempty(results: Seq<Result<Vec<ToolCall>, TemplateError>>) -> Seq<ToolCall>
    decreases results.len(),
{
    if results.len() == 0 {
        Seq::empty()
    } else if found_some(results[0]) {
        results[0]->Ok_0@
    } else {
        first_nonempty(results.drop_first())
    }
}

/// Whether `results` are what the parsers gave when asked in order until one
/// found calls: at most `n` results, none but the last a non-empty list, and
/// fewer than `n` only when the last one is.
pub open spec fn asked_in_order(results: Seq<Result<Vec<ToolCall>, TemplateError>>, n: nat) -> bool {
    &&& results.len() <= n
    &&& forall|k: int| 0 <= k < results.len() - 1 ==> !found_some(#[trigger] results[k])
    &&& results.len() < n ==> results.len() > 0 && found_some(results.last())
}

/// The calls of the first result that is a non-empty list of calls, or none.
pub fn first_found(results: Vec<Result<Vec<ToolCall>, TemplateError>>) -> (calls: Vec<ToolCall>)
    ensures
        calls@ == first_nonempty(results@),
{
    let mut rest = results;
    while rest.len() > 0
        invariant
            first_nonempty(rest@) == first_nonempty(results@),
        decreases rest@.len(),
    {
        let ghost before = rest@;
        let r = rest.remove(0);
        assert(rest@ =~= before.drop_first());
        match r {
            Ok(v) => {
                if v.len() > 0 {
                    return v;
                }
            },
            Err(_) => {},
        }
    }
    Vec::new()
}

/// Renders conversations into prompts and finds tool calls in generated text.
pub struct ChatTemplateEngine {
    parser_names: Vec<String>,
    parsers: Vec<Box<dyn ToolCallParser>>,
}

impl ChatTemplateEngine {
    /// The names of the registered parsers, in the order they are tried.
    pub closed spec fn names(&self) -> Seq<Seq<char>> {
        self.parser_names@.map_values(|n: String| n@)
    }

    /// The names of the registered parsers.
    pub fn parser_names(&self) -> (r: &Vec<String>)
        ensures
            r@.map_values(|n: String| n@) == self.names(),
    {
        &self.parser_names
    }

    /// An engine with the JSON, XML and natural-language parsers.
    pub fn new() -> (e: Self)
        ensures
            e.names() == seq!["json"@, "xml"@, "function_call"@],
            e.parser_count() == 3,
    {
        let mut parser_names: Vec<String> = Vec::new();
        parser_names.push("json".to_string());
        parser_names.push("xml".to_string());
        parser_names.push("function_call".to_string());
        let json: Box<dyn ToolCallParser> = Box::new(JsonToolCallParser::new());
        let xml: Box<dyn ToolCallParser> = Box::new(XmlToolCallParser::new());
        let spoken: Box<dyn ToolCallParser> = Box::new(FunctionCallParser::new());
        let parsers: Vec<Box<dyn ToolCallParser>> = vec![json, xml, spoken];
        let e = Self { parser_names, parsers };
        assert(e.names() =~= seq!["json"@, "xml"@, "function_call"@]);
        e
    }

    /// Register a parser under `name`, replacing one registered under the same name.
    pub fn register_parser(&mut self, name: String, parser: Box<dyn ToolCallParser>)
        ensures
            old(self).names().contains(name@) ==> final(self).names() == old(self).names(),
            !old(self).names().contains(name@) ==> final(self).names() == old(self).names().push(name@),
    {
        let n = self.parser_names.len();
        let mut i: usize = 0;
        while i < n
            invariant
                n == self.parser_names@.len(),
                i <= n,
                self.names() == old(self).names(),
                forall|k: int| 0 <= k < i ==> #[trigger] self.names()[k] != name@,
            decreases n - i,
        {
            if str_eq(self.parser_names[i].as_str(), name.as_str()) {
                if i < self.parsers.len() {
                    self.parsers.set(i, parser);
                }
                assert(self.names()[i as int] == name@);
                return;
            }
            i = i + 1;
        }
        let ghost names = self.names();
        assert(!names.contains(name@));
        self.parser_names.push(name);
        self.parsers.push(parser);
        assert(self.names() =~= names.push(name@));
    }

    /// Number of registered parsers.
    pub closed spec fn parser_count(&self) -> nat {
        self.parsers@.len()
    }

    /// What the parser asked `k`-th finds in `text`.
    pub closed spec fn parser_finds(&self, k: int, text: Seq<char>) -> Result<Seq<(Seq<char>, JsonModel)>, TemplateError> {
        self.parsers@[k].finds(text)
    }

    /// The tool calls in `generated_text`: the parsers are handed the text in
    /// registration order until one finds calls, each answering as its
    /// `finds` says; the calls of the first that found any, ordered by
    /// identifier with repeated identifiers dropped, are the result (none
    /// when no parser finds any).
    pub fn extract_tool_calls(&self, generated_text: &str) -> (r: Result<Vec<ToolCall>, TemplateError>)
        ensures
            r matches Ok(calls) && exists|results: Seq<Result<Vec<ToolCall>, TemplateError>>|
                #[trigger] asked_in_order(results, self.parser_count())
                && (forall|k: int| 0 <= k < results.len()
                    ==> reports(self.parser_finds(k, generated_text@), #[trigger] results[k]))
                && sorted_dedup_of(calls@, first_nonempty(results)),
    {
        let mut collected: Vec<Result<Vec<ToolCall>, TemplateError>> = Vec::new();
        let n = self.parsers.len();
        let mut i: usize = 0;
        let mut done = false;
        while i < n && !done
            invariant
                n == self.parsers@.len(),
                i <= n,
                collected@.len() == i,
                forall|k: int| 0 <= k < i - 1 ==> !found_some(#[trigger] collected@[k]),
                !done ==> forall|k: int| 0 <= k < i ==> !found_some(#[trigger] collected@[k]),
                done ==> i > 0 && found_some(collected@[i - 1]),
                forall|k: int| 0 <= k < i
                    ==> reports(self.parser_finds(k, generated_text@), #[trigger] collected@[k]),
            decreases n - i,
        {
            let res = self.parsers[i].parse_tool_calls(generated_text);
            let hit = match &res {
                Ok(calls) => calls.len() > 0,
                Err(_) => false,
            };
            collected.push(res);
            i = i + 1;
            done = hit;
        }
        let ghost results = collected@;
        assert(asked_in_order(results, self.parser_count()));
        let chosen = first_found(collected);
        let calls = sort_and_dedup(chosen);
        assert(sorted_dedup_of(calls@, first_nonempty(results)));
        let result = Ok(calls);
        assert(result matches Ok(c) && asked_in_order(results, self.parser_count())
            && (forall|k: int| 0 <= k < results.len()
                ==> reports(self.parser_finds(k, generated_text@), #[trigger] results[k]))
            && sorted_dedup_of(c@, first_nonempty(results)));
        result
    }

    /// Render `messages` for a model of the given type: Phi-3 for `phi3`,
    /// ChatML for `qwen`, the plain layout otherwise.
    pub fn format_chat_template_for_model(
        &self,
        model_type: &str,
        messages: &Vec<(String, String)>,
        tools_context: Option<&str>,
    ) -> (r: Result<String, TemplateError>)
        ensures
            r matches Ok(p) && p@ == rendered(style_for(model_type@), pair_views(messages@), opt_text(tools_context)),
    {
        Ok(render_prompt(style_for_model(model_type), messages, tools_context))
    }

    /// Check that prompts can be rendered for a model of the given type, by
    /// rendering a one-message conversation; rendering never fails.
    pub fn validate_template(&self, model_type: &str) -> (r: Result<(), TemplateError>)
        ensures
            r is Ok,
    {
        let mut test_messages: Vec<(String, String)> = Vec::new();
        test_messages.push(("user".to_string(), "Hello".to_string()));
        match self.format_chat_template_for_model(model_type, &test_messages, None) {
            Ok(_) => Ok(()),
            Err(e) => Err(e),
        }
    }

    /// Render `messages` in the Phi-3 layout.
    pub fn format_phi3_template(&self, messages: &Vec<(String, String)>, tools_context: Option<&str>) -> (r: Result<String, TemplateError>)
        ensures
            r matches Ok(p) && p@ == rendered(TemplateStyle::Phi3, pair_views(messages@), opt_text(tools_context)),
    {
        Ok(render_prompt(TemplateStyle::Phi3, messages, tools_context))
    }

    /// Render `messages` in the ChatML layout used by Qwen models.
    pub fn format_qwen_template(&self, messages: &Vec<(String, String)>, tools_context: Option<&str>) -> (r: Result<String, TemplateError>)
        ensures
            r matches Ok(p) && p@ == rendered(TemplateStyle::Qwen, pair_views(messages@), opt_text(tools_context)),
    {
        Ok(render_prompt(TemplateStyle::Qwen, messages, tools_context))
    }

    /// Render `messages` in the plain layout.
    pub fn format_chat_template(&self, messages: &Vec<(String, String)>, tools_context: Option<&str>) -> (r: Result<String, TemplateError>)
        ensures
            r matches Ok(p) && p@ == rendered(TemplateStyle::Plain, pair_views(messages@), opt_text(tools_context)),
    {
        Ok(render_prompt(TemplateStyle::Plain, messages, tools_context))
    }

    /// Render a session into a prompt for a model of the given type: its
    /// messages, after the tools context when it has tools.
    pub fn render_session_with_config(&self, session: &Session, model_type: &str) -> (r: Result<String, TemplateError>)
        ensures
            r matches Ok(p) && p@ == rendered(
                style_for(model_type@),
                message_pairs(session.messages@),
                session_tools_context(*session),
            ),
    {
        let pairs = session_chat_messages(session);
        if session.available_tools.len() == 0 {
            self.format_chat_template_for_model(model_type, &pairs, None)
        } else {
            let tools = format_tools_for_template(&session.available_tools);
            match tools {
                Ok(t) => self.format_chat_template_for_model(model_type, &pairs, Some(t.as_str())),
                Err(e) => Err(e),
            }
        }
    }

    /// Render a session for a model of the given type.
    pub fn render_session(&self, session: &Session, model_type: &str) -> (r: Result<String, TemplateError>)
        ensures
            r matches Ok(p) && p@ == rendered(
                style_for(model_type@),
                message_pairs(session.messages@),
                session_tools_context(*session),
            ),
    {
        self.render_session_with_config(session, model_type)
    }
}

/// Every prompt ends by opening the assistant's turn, and, with a tools
/// context, begins with that context as a system block.
pub proof fn lemma_prompt_shape(style: TemplateStyle, msgs: Seq<(Seq<char>, Seq<char>)>, tools: Option<Seq<char>>)
    ensures
        rendered(style, msgs, tools).len() >= trailer(style).len(),
        rendered(style, msgs, tools).subrange(
            rendered(style, msgs, tools).len() - trailer(style).len(),
            rendered(style, msgs, tools).len() as int,
        ) == trailer(style),
        tools matches Some(t) ==> rendered(style, msgs, tools).subrange(0, block(style, "system"@, t).len() as int)
            == block(style, "system"@, t),
{
    let r = rendered(style, msgs, tools);
    let b = blocks(style, with_tools(msgs, tools));
    assert(r.subrange(r.len() - trailer(style).len(), r.len() as int) =~= trailer(style));
    if let Some(t) = tools {
        let all = with_tools(msgs, tools);
        lemma_blocks_prefix(style, all, 1);
        assert(all.take(1) =~= seq![("system"@, t)]);
        let one: Seq<(Seq<char>, Seq<char>)> = seq![("system"@, t)];
        assert(one.drop_last() =~= Seq::<(Seq<char>, Seq<char>)>::empty());
        assert(one.last() == ("system"@, t));
        assert(blocks(style, one.drop_last()) =~= Seq::<char>::empty());
        assert(blocks(style, one) == blocks(style, one.drop_last()) + block(style, one.last().0, one.last().1));
        assert(blocks(style, one) =~= block(style, "system"@, t));
        let k = block(style, "system"@, t).len() as int;
        assert(r.subrange(0, k) =~= b.subrange(0, k));
    }
}

/// A JSON object names a call in one of three shapes, tried in turn: a
/// string `function_name` with `arguments`, a string `tool` with
/// `parameters`, a string `name` with `args`; the first shape present gives
/// the call's name and arguments, and an object of none of them gives no call.
pub proof fn lemma_call_shapes(m: JsonModel)
    ensures
        forall|n: Seq<char>, a: JsonModel|
            #[trigger] model_get(m, "function_name"@) == Some(JsonModel::Str(n))
            && #[trigger] model_get(m, "arguments"@) == Some(a)
            ==> call_parts(m) == Some((n, a)),
        forall|n: Seq<char>, a: JsonModel|
            !(model_get(m, "function_name"@) matches Some(JsonModel::Str(_)) && model_get(m, "arguments"@) is Some)
            && #[trigger] model_get(m, "tool"@) == Some(JsonModel::Str(n))
            && #[trigger] model_get(m, "parameters"@) == Some(a)
            ==> call_parts(m) == Some((n, a)),
        forall|n: Seq<char>, a: JsonModel|
            !(model_get(m, "function_name"@) matches Some(JsonModel::Str(_)) && model_get(m, "arguments"@) is Some)
            && !(model_get(m, "tool"@) matches Some(JsonModel::Str(_)) && model_get(m, "parameters"@) is Some)
            && #[trigger] model_get(m, "name"@) == Some(JsonModel::Str(n))
            && #[trigger] model_get(m, "args"@) == Some(a)
            ==> call_parts(m) == Some((n, a)),
        !(model_get(m, "function_name"@) matches Some(JsonModel::Str(_)) && model_get(m, "arguments"@) is Some)
            && !(model_get(m, "tool"@) matches Some(JsonModel::Str(_)) && model_get(m, "parameters"@) is Some)
            && !(model_get(m, "name"@) matches Some(JsonModel::Str(_)) && model_get(m, "args"@) is Some)
            ==> call_parts(m) is None,
{
}

/// Rendering keeps the conversation's order: the prompt for messages `msgs`
/// followed by `m` is the blocks of `msgs` (after the tools context), then
/// the block of `m`, then the opening of the assistant's turn.
pub proof fn lemma_render_appends_in_order(
    style: TemplateStyle,
    msgs: Seq<(Seq<char>, Seq<char>)>,
    m: (Seq<char>, Seq<char>),
    tools: Option<Seq<char>>,
)
    ensures
        rendered(style, msgs.push(m), tools) == blocks(style, with_tools(msgs, tools)) + block(style, m.0, m.1)
            + trailer(style),
        rendered(style, Seq::empty(), None) == trailer(style),
{
    assert(with_tools(msgs.push(m), tools) =~= with_tools(msgs, tools).push(m));
    lemma_blocks_push(style, with_tools(msgs, tools), m);
    assert(with_tools(Seq::<(Seq<char>, Seq<char>)>::empty(), None) =~= Seq::<(Seq<char>, Seq<char>)>::empty());
    assert(rendered(style, Seq::empty(), None) =~= trailer(style));
}

/// The arguments of a natural-language call are its trimmed argument text:
/// read as JSON when that text starts with `{`, ends with `}` and is valid
/// JSON, kept as a string otherwise.
pub proof fn lemma_spoken_arguments(args: Seq<char>)
    ensures
        ({
            let t = trimmed(args);
            &&& (t.len() > 0 && t[0] == '{' && t.last() == '}' && parsed_json(t) is Some)
                ==> spoken_arguments(args) == parsed_json(t)->0
            &&& !(t.len() > 0 && t[0] == '{' && t.last() == '}' && parsed_json(t) is Some)
                ==> spoken_arguments(args) == JsonModel::Str(t)
        }),
{
}

/// Reading calls from candidate texts keeps their order: one more text adds
/// the call its JSON object names, when it is valid JSON of one of the call
/// shapes, and nothing otherwise.
pub proof fn lemma_calls_in_texts_push(texts: Seq<Seq<char>>, t: Seq<char>)
    ensures
        calls_in_texts(texts.push(t)) == calls_in_texts(texts) + match parsed_json(t) {
            Some(m) => match call_parts(m) {
                Some(p) => seq![p],
                None => Seq::<(Seq<char>, JsonModel)>::empty(),
            },
            None => Seq::<(Seq<char>, JsonModel)>::empty(),
        },
{
    assert(texts.push(t).drop_last() =~= texts);
    assert(texts.push(t).last() == t);
    match parsed_json(t) {
        Some(m) => match call_parts(m) {
            Some(p) => assert(calls_in_texts(texts).push(p) =~= calls_in_texts(texts) + seq![p]),
            None => assert(calls_in_texts(texts) =~= calls_in_texts(texts) + Seq::<(Seq<char>, JsonModel)>::empty()),
        },
        None => assert(calls_in_texts(texts) =~= calls_in_texts(texts) + Seq::<(Seq<char>, JsonModel)>::empty()),
    }
}

/// An XML-style call `<function_call name="N">C</function_call>` gives the
/// call named N whose arguments are C read as JSON when C is valid JSON, the
/// text C itself otherwise, and `null` only when the element has no content;
/// an element without a name gives no call.
pub proof fn lemma_xml_call_arguments(xml: Seq<char>)
    ensures
        first_group(XML_NAME_PATTERN@, xml, 1) is None ==> xml_call(xml) is None,
        forall|name: Seq<char>, c: Seq<char>|
            first_group(XML_NAME_PATTERN@, xml, 1) == Some(name)
            && #[trigger] first_group(XML_CONTENT_PATTERN@, xml, 1) == Some(c)
            && parsed_json(c) is Some
            ==> xml_call(xml) == Some((name, parsed_json(c)->0)),
        forall|name: Seq<char>, c: Seq<char>|
            first_group(XML_NAME_PATTERN@, xml, 1) == Some(name)
            && #[trigger] first_group(XML_CONTENT_PATTERN@, xml, 1) == Some(c)
            && parsed_json(c) is None
            ==> xml_call(xml) == Some((name, JsonModel::Str(c))),
        forall|name: Seq<char>|
            #[trigger] first_group(XML_NAME_PATTERN@, xml, 1) == Some(name)
            && first_group(XML_CONTENT_PATTERN@, xml, 1) is None
            ==> xml_call(xml) == Some((name, JsonModel::Null)),
{
}

/// In the Phi-3 and ChatML layouts every known role (system, user,
/// assistant, tool) is rendered in a block tagged with that same role, and
/// only an unknown role falls back to the user's tag; in the plain layout the
/// known roles get the headings System, Human, Assistant and Tool Result, and
/// an unknown role is shown as it is.
pub proof fn lemma_block_tags_follow_roles(role: Seq<char>, content: Seq<char>)
    ensures
        role == "system"@ || role == "user"@ || role == "assistant"@ || role == "tool"@ ==> {
            &&& block(TemplateStyle::Phi3, role, content) == "<|"@ + role + "|>\n"@ + content + "<|end|>\n"@
            &&& block(TemplateStyle::Qwen, role, content) == "<|im_start|>"@ + role + "\n"@ + content + "<|im_end|>\n"@
        },
        !(role == "system"@ || role == "user"@ || role == "assistant"@ || role == "tool"@) ==> {
            &&& block(TemplateStyle::Phi3, role, content) == "<|user|>\n"@ + content + "<|end|>\n"@
            &&& block(TemplateStyle::Qwen, role, content) == "<|im_start|>user\n"@ + content + "<|im_end|>\n"@
            &&& block(TemplateStyle::Plain, role, content) == "### "@ + role + ":\n"@ + content + "\n\n"@
        },
        role == "system"@ ==> block(TemplateStyle::Plain, role, content) == "### System:\n"@ + content + "\n\n"@,
        role == "user"@ ==> block(TemplateStyle::Plain, role, content) == "### Human:\n"@ + content + "\n\n"@,
        role == "assistant"@ ==> block(TemplateStyle::Plain, role, content) == "### Assistant:\n"@ + content + "\n\n"@,
        role == "tool"@ ==> block(TemplateStyle::Plain, role, content) == "### Tool Result:\n"@ + content + "\n\n"@,
{
    reveal_strlit("system");
    reveal_strlit("user");
    reveal_strlit("assistant");
    reveal_strlit("tool");
    reveal_strlit("<|user|>\n");
    reveal_strlit("<|im_start|>user\n");
    reveal_strlit("<|");
    reveal_strlit("|>\n");
    reveal_strlit("<|im_start|>");
    reveal_strlit("\n");
    reveal_strlit("### System:\n");
    reveal_strlit("### Human:\n");
    reveal_strlit("### Assistant:\n");
    reveal_strlit("### Tool Result:\n");
    reveal_strlit("### ");
    reveal_strlit(":\n");
    reveal_strlit("System");
    reveal_strlit("Human");
    reveal_strlit("Assistant");
    reveal_strlit("Tool Result");
    assert("<|"@ + "user"@ + "|>\n"@ =~= "<|user|>\n"@);
    assert("<|im_start|>"@ + "user"@ + "\n"@ =~= "<|im_start|>user\n"@);
    assert("### "@ + "System"@ + ":\n"@ =~= "### System:\n"@);
    assert("### "@ + "Human"@ + ":\n"@ =~= "### Human:\n"@);
    assert("### "@ + "Assistant"@ + ":\n"@ =~= "### Assistant:\n"@);
    assert("### "@ + "Tool Result"@ + ":\n"@ =~= "### Tool Result:\n"@);
    if role == "user"@ {
        assert(tag_of(role) == "user"@);
    }
    if role == "tool"@ {
        assert("tool"@[0] != "user"@[0]);
        assert("tool"@ != "system"@ && "tool"@ != "user"@ && "tool"@ != "assistant"@);
        assert(heading_of(role) == "Tool Result"@);
        assert(block(TemplateStyle::Plain, role, content)
            =~= "### Tool Result:\n"@ + content + "\n\n"@);
    }
}

proof fn lemma_blocks_prefix(style: TemplateStyle, msgs: Seq<(Seq<char>, Seq<char>)>, n: int)
    requires
        0 <= n <= msgs.len(),
    ensures
        blocks(style, msgs.take(n)).len() <= blocks(style, msgs).len(),
        blocks(style, msgs).subrange(0, blocks(style, msgs.take(n)).len() as int) == blocks(style, msgs.take(n)),
    decreases msgs.len() - n,
{
    if n < msgs.len() {
        lemma_blocks_prefix(style, msgs.drop_last(), n);
        assert(msgs.drop_last().take(n) =~= msgs.take(n));
        let p = blocks(style, msgs.take(n));
        let whole = blocks(style, msgs);
        let front = blocks(style, msgs.drop_last());
        assert(whole == front + block(style, msgs.last().0, msgs.last().1));
        assert(whole.subrange(0, p.len() as int) =~= front.subrange(0, p.len() as int));
    } else {
        assert(msgs.take(n) =~= msgs);
        assert(blocks(style, msgs).subrange(0, blocks(style, msgs).len() as int) =~= blocks(style, msgs));
    }
}


impl Default for ChatTemplateEngine {
    fn default() -> (e: Self)
        ensures
            e.names() == seq!["json"@, "xml"@, "function_call"@],
            e.parser_count() == 3,
    {
        Self::new()
    }
}

} // verus!
