//! What the MCP client decides: reading the servers' replies, and keeping
//! track of which server offers which tool or prompt.

use vstd::prelude::*;

use crate::json::{json_text, json_to_string, model_get, model_get_str, parse_json, parsed_json, str_eq, JsonField, JsonModel, JsonValue};
use crate::text::join;
use crate::types::{
    mcp_error_text, GetPromptResult, MCPError, ToolCallId, ToolResult, PromptArgument, PromptContent, PromptDefinition, PromptMessage,
    PromptResource, PromptRole,
};

verus! {

/// How an MCP server answered a health check.
#[derive(Debug, Clone)]
pub enum HealthStatus {
    Healthy,
    Unhealthy(String),
    Unknown,
}

/// What a piece of prompt content says.
pub enum ContentModel {
    Text(Seq<char>),
    Image(Seq<char>, Seq<char>),
    /// The resource's URI, name, title, text and MIME type (empty when not given).
    Resource(Seq<char>, Seq<char>, Option<Seq<char>>, Option<Seq<char>>, Seq<char>),
}

/// The characters of an optional text.
pub open spec fn opt_chars(o: Option<String>) -> Option<Seq<char>> {
    match o {
        Some(t) => Some(t@),
        None => None,
    }
}

/// What a piece of prompt content says.
pub open spec fn content_view(c: PromptContent) -> ContentModel {
    match c {
        PromptContent::Text { text } => ContentModel::Text(text@),
        PromptContent::Image { data, mime_type } => ContentModel::Image(data@, mime_type@),
        PromptContent::Resource { resource } => ContentModel::Resource(
            resource.uri@,
            resource.name@,
            opt_chars(resource.title),
            opt_chars(resource.text),
            resource.mime_type@,
        ),
    }
}

/// The role and content of each prompt message.
pub open spec fn messages_view(ms: Seq<PromptMessage>) -> Seq<(PromptRole, ContentModel)> {
    ms.map_values(|m: PromptMessage| (m.role, content_view(m.content)))
}

/// The role a prompt message names.
pub open spec fn parsed_role(r: Seq<char>) -> Result<PromptRole, Seq<char>> {
    if r == "user"@ {
        Ok(PromptRole::User)
    } else if r == "assistant"@ {
        Ok(PromptRole::Assistant)
    } else {
        Err("Unknown message role: "@ + r)
    }
}

/// The content a prompt message carries: an object tagged by `type`, or
/// (the older form) a bare string.
pub open spec fn parsed_content(c: JsonModel) -> Result<ContentModel, Seq<char>> {
    match model_get_str(c, "type"@) {
        Some(t) => if t == "text"@ {
            match model_get_str(c, "text"@) {
                Some(x) => Ok(ContentModel::Text(x)),
                None => Err("Text content missing text field"@),
            }
        } else if t == "image"@ {
            match (model_get_str(c, "data"@), model_get_str(c, "mimeType"@)) {
                (None, _) => Err("Image content missing data field"@),
                (Some(_), None) => Err("Image content missing mimeType field"@),
                (Some(d), Some(m)) => Ok(ContentModel::Image(d, m)),
            }
        } else if t == "resource"@ {
            match model_get(c, "resource"@) {
                Some(r) => match model_get_str(r, "uri"@) {
                    Some(uri) => Ok(ContentModel::Resource(
                        uri,
                        Seq::empty(),
                        None,
                        model_get_str(r, "text"@),
                        match model_get_str(r, "mimeType"@) {
                            Some(m) => m,
                            None => Seq::empty(),
                        },
                    )),
                    None => Err("Resource missing uri field"@),
                },
                None => Err("Resource content missing resource field"@),
            }
        } else {
            Err("Unknown content type: "@ + t)
        },
        None => match c {
            JsonModel::Str(s) => Ok(ContentModel::Text(s)),
            _ => Err("Content must be either object with type or string"@),
        },
    }
}

/// One prompt message: its role, then its content.
pub open spec fn parsed_message(m: JsonModel) -> Result<(PromptRole, ContentModel), Seq<char>> {
    match model_get_str(m, "role"@) {
        None => Err("Message missing role field"@),
        Some(r) => match parsed_role(r) {
            Err(e) => Err(e),
            Ok(role) => match model_get(m, "content"@) {
                None => Err("Message missing content field"@),
                Some(c) => match parsed_content(c) {
                    Err(e) => Err(e),
                    Ok(content) => Ok((role, content)),
                },
            },
        },
    }
}

/// All prompt messages, in order; the first one that cannot be read decides the error.
pub open spec fn parsed_messages(ms: Seq<JsonModel>) -> Result<Seq<(PromptRole, ContentModel)>, Seq<char>>
    decreases ms.len(),
{
    if ms.len() == 0 {
        Ok(Seq::empty())
    } else {
        match parsed_messages(ms.drop_last()) {
            Err(e) => Err(e),
            Ok(prev) => match parsed_message(ms.last()) {
                Err(e) => Err(e),
                Ok(m) => Ok(prev.push(m)),
            },
        }
    }
}

/// A `prompts/get` reply: its description, when it is a string, and its messages.
pub open spec fn parsed_prompt_result(resp: JsonModel) -> Result<(Option<Seq<char>>, Seq<(PromptRole, ContentModel)>), Seq<char>> {
    match model_get(resp, "messages"@) {
        Some(JsonModel::Array(ms)) => match parsed_messages(ms) {
            Err(e) => Err(e),
            Ok(v) => Ok((model_get_str(resp, "description"@), v)),
        },
        _ => Err("Invalid prompts/get response format: missing messages"@),
    }
}

fn protocol_error(msg: &str) -> (e: MCPError)
    ensures
        e matches MCPError::Protocol(m) && m@ == msg@,
{
    MCPError::Protocol(msg.to_string())
}

fn concat(a: &str, b: &str) -> (s: String)
    ensures
        s@ == a@ + b@,
{
    let mut s = a.to_string();
    s.append(b);
    s
}

fn get_text(v: &JsonValue, key: &str) -> (r: Option<String>)
    ensures
        match model_get_str(v@, key@) {
            Some(t) => r matches Some(x) && x@ == t,
            None => r is None,
        },
{
    match v.get_str(key) {
        Some(t) => Some(t.to_string()),
        None => None,
    }
}

/// Read one piece of prompt content.
pub fn parse_prompt_content(c: &JsonValue) -> (r: Result<PromptContent, MCPError>)
    ensures
        match parsed_content(c@) {
            Ok(m) => r matches Ok(x) && content_view(x) == m,
            Err(e) => r matches Err(MCPError::Protocol(x)) && x@ == e,
        },
{
    match c.get_str("type") {
        Some(t) => {
            if str_eq(t, "text") {
                match get_text(c, "text") {
                    Some(text) => Ok(PromptContent::Text { text }),
                    None => Err(protocol_error("Text content missing text field")),
                }
            } else if str_eq(t, "image") {
                match get_text(c, "data") {
                    None => Err(protocol_error("Image content missing data field")),
                    Some(data) => match get_text(c, "mimeType") {
                        None => Err(protocol_error("Image content missing mimeType field")),
                        Some(mime_type) => Ok(PromptContent::Image { data, mime_type }),
                    },
                }
            } else if str_eq(t, "resource") {
                match c.get("resource") {
                    Some(res) => match get_text(res, "uri") {
                        Some(uri) => {
                            let text = get_text(res, "text");
                            let mime_type = match get_text(res, "mimeType") {
                                Some(m) => m,
                                None => String::new(),
                            };
                            Ok(PromptContent::Resource {
                                resource: PromptResource { uri, name: String::new(), title: None, mime_type, text },
                            })
                        },
                        None => Err(protocol_error("Resource missing uri field")),
                    },
                    None => Err(protocol_error("Resource content missing resource field")),
                }
            } else {
                Err(MCPError::Protocol(concat("Unknown content type: ", t)))
            }
        },
        None => match c.as_text() {
            Some(s) => Ok(PromptContent::Text { text: s.to_string() }),
            None => Err(protocol_error("Content must be either object with type or string")),
        },
    }
}

/// Read one prompt message: its role, then its content.
pub fn parse_prompt_message(m: &JsonValue) -> (r: Result<PromptMessage, MCPError>)
    ensures
        match parsed_message(m@) {
            Ok(v) => r matches Ok(x) && x.role == v.0 && content_view(x.content) == v.1,
            Err(e) => r matches Err(MCPError::Protocol(x)) && x@ == e,
        },
{
    let role_text = match m.get_str("role") {
        Some(t) => t,
        None => return Err(protocol_error("Message missing role field")),
    };
    let role = if str_eq(role_text, "user") {
        PromptRole::User
    } else if str_eq(role_text, "assistant") {
        PromptRole::Assistant
    } else {
        return Err(MCPError::Protocol(concat("Unknown message role: ", role_text)));
    };
    let content_data = match m.get("content") {
        Some(c) => c,
        None => return Err(protocol_error("Message missing content field")),
    };
    match parse_prompt_content(content_data) {
        Ok(content) => Ok(PromptMessage { role, content }),
        Err(e) => Err(e),
    }
}

/// Read a `prompts/get` reply.
pub fn parse_prompt_result(response: &JsonValue) -> (r: Result<GetPromptResult, MCPError>)
    ensures
        match parsed_prompt_result(response@) {
            Ok(v) => r matches Ok(x) && opt_chars(x.description) == v.0 && messages_view(x.messages@) == v.1,
            Err(e) => r matches Err(MCPError::Protocol(x)) && x@ == e,
        },
{
    let description = get_text(response, "description");
    let items = match response.get("messages") {
        Some(v) => match v.as_array() {
            Some(items) => items,
            None => return Err(protocol_error("Invalid prompts/get response format: missing messages")),
        },
        None => return Err(protocol_error("Invalid prompts/get response format: missing messages")),
    };
    let ghost ms = match model_get(response@, "messages"@) {
        Some(JsonModel::Array(ms)) => ms,
        _ => Seq::empty(),
    };
    assert(items@.len() == ms.len());
    assert(model_get(response@, "messages"@) == Some(JsonModel::Array(ms)));
    let mut messages: Vec<PromptMessage> = Vec::new();
    let n = items.len();
    let mut i: usize = 0;
    assert(ms.take(0) =~= Seq::<JsonModel>::empty());
    assert(messages_view(messages@) =~= Seq::<(PromptRole, ContentModel)>::empty());
    while i < n
        invariant
            n == items@.len(),
            n == ms.len(),
            forall|k: int| 0 <= k < ms.len() ==> #[trigger] ms[k] == items@[k]@,
            model_get(response@, "messages"@) == Some(JsonModel::Array(ms)),
            i <= n,
            parsed_messages(ms.take(i as int)) == Ok::<Seq<(PromptRole, ContentModel)>, Seq<char>>(messages_view(messages@)),
        decreases n - i,
    {
        assert(ms.take(i + 1).drop_last() =~= ms.take(i as int));
        assert(ms.take(i + 1).last() == items@[i as int]@);
        match parse_prompt_message(&items[i]) {
            Ok(msg) => {
                let ghost before = messages@;
                messages.push(msg);
                assert(messages_view(messages@) =~= messages_view(before).push((msg.role, content_view(msg.content))));
            },
            Err(e) => {
                proof {
                    assert(parsed_message(ms[i as int]) is Err);
                    lemma_parsed_messages_error(ms, i as int);
                }
                return Err(e);
            },
        }
        i = i + 1;
    }
    assert(ms.take(n as int) =~= ms);
    Ok(GetPromptResult { description, messages })
}

proof fn lemma_parsed_messages_error(ms: Seq<JsonModel>, i: int)
    requires
        0 <= i < ms.len(),
        parsed_messages(ms.take(i)) is Ok,
        parsed_message(ms[i]) is Err,
    ensures
        parsed_messages(ms) == Err::<Seq<(PromptRole, ContentModel)>, Seq<char>>(parsed_message(ms[i])->Err_0),
    decreases ms.len() - i,
{
    if i == ms.len() - 1 {
        assert(ms.drop_last() =~= ms.take(i));
    } else {
        assert(ms.drop_last().take(i) =~= ms.take(i));
        assert(ms.drop_last()[i] == ms[i]);
        lemma_parsed_messages_error(ms.drop_last(), i);
    }
}

/// What a prompt argument says: its name, description and whether it is required.
pub open spec fn argument_view(a: PromptArgument) -> (Seq<char>, Option<Seq<char>>, Option<bool>) {
    (a.name@, opt_chars(a.description), a.required)
}

/// What each prompt argument says.
pub open spec fn arguments_view(v: Seq<PromptArgument>) -> Seq<(Seq<char>, Option<Seq<char>>, Option<bool>)> {
    v.map_values(|a: PromptArgument| argument_view(a))
}

/// One argument of a listed prompt: a name is required; `required` is
/// false unless the reply says true or false.
pub open spec fn parsed_argument(a: JsonModel) -> Result<(Seq<char>, Option<Seq<char>>, Option<bool>), Seq<char>> {
    match model_get_str(a, "name"@) {
        None => Err("Prompt argument missing name"@),
        Some(name) => Ok((name, model_get_str(a, "description"@), Some(match model_get(a, "required"@) {
            Some(JsonModel::Bool(b)) => b,
            _ => false,
        }))),
    }
}

/// All arguments, in order; the first that cannot be read decides the error.
pub open spec fn parsed_arguments(args: Seq<JsonModel>) -> Result<Seq<(Seq<char>, Option<Seq<char>>, Option<bool>)>, Seq<char>>
    decreases args.len(),
{
    if args.len() == 0 {
        Ok(Seq::empty())
    } else {
        match parsed_arguments(args.drop_last()) {
            Err(e) => Err(e),
            Ok(prev) => match parsed_argument(args.last()) {
                Err(e) => Err(e),
                Ok(a) => Ok(prev.push(a)),
            },
        }
    }
}

/// What a listed prompt says: its name, description and arguments.
pub open spec fn parsed_prompt(p: JsonModel) -> Result<(Seq<char>, Option<Seq<char>>, Seq<(Seq<char>, Option<Seq<char>>, Option<bool>)>), Seq<char>> {
    match model_get_str(p, "name"@) {
        None => Err("Prompt missing name field"@),
        Some(name) => match model_get(p, "arguments"@) {
            Some(JsonModel::Array(args)) => match parsed_arguments(args) {
                Err(e) => Err(e),
                Ok(v) => Ok((name, model_get_str(p, "description"@), v)),
            },
            _ => Ok((name, model_get_str(p, "description"@), Seq::empty())),
        },
    }
}

/// All listed prompts, in order.
pub open spec fn parsed_prompts(ps: Seq<JsonModel>) -> Result<Seq<(Seq<char>, Option<Seq<char>>, Seq<(Seq<char>, Option<Seq<char>>, Option<bool>)>)>, Seq<char>>
    decreases ps.len(),
{
    if ps.len() == 0 {
        Ok(Seq::empty())
    } else {
        match parsed_prompts(ps.drop_last()) {
            Err(e) => Err(e),
            Ok(prev) => match parsed_prompt(ps.last()) {
                Err(e) => Err(e),
                Ok(x) => Ok(prev.push(x)),
            },
        }
    }
}

/// A `prompts/list` reply.
pub open spec fn parsed_prompt_list(resp: JsonModel) -> Result<Seq<(Seq<char>, Option<Seq<char>>, Seq<(Seq<char>, Option<Seq<char>>, Option<bool>)>)>, Seq<char>> {
    match model_get(resp, "prompts"@) {
        Some(JsonModel::Array(ps)) => parsed_prompts(ps),
        _ => Err("Invalid prompts/list response format"@),
    }
}

/// What a prompt definition says, apart from its server: name, description, arguments.
pub open spec fn prompt_view(p: PromptDefinition) -> (Seq<char>, Option<Seq<char>>, Seq<(Seq<char>, Option<Seq<char>>, Option<bool>)>) {
    (p.name@, opt_chars(p.description), match p.arguments {
        Some(a) => arguments_view(a@),
        None => Seq::empty(),
    })
}

proof fn lemma_first_error<A, B>(items: Seq<A>, i: int, whole: spec_fn(Seq<A>) -> Result<Seq<B>, Seq<char>>, one: spec_fn(A) -> Result<B, Seq<char>>)
    requires
        0 <= i < items.len(),
        forall|s: Seq<A>| s.len() > 0 ==> #[trigger] whole(s) == match whole(s.drop_last()) {
            Err(e) => Err(e),
            Ok(prev) => match one(s.last()) {
                Err(e) => Err(e),
                Ok(x) => Ok(prev.push(x)),
            },
        },
        whole(items.take(i)) is Ok,
        one(items[i]) is Err,
    ensures
        whole(items) == Err::<Seq<B>, Seq<char>>(one(items[i])->Err_0),
    decreases items.len() - i,
{
    if i == items.len() - 1 {
        assert(items.drop_last() =~= items.take(i));
    } else {
        assert(items.drop_last().take(i) =~= items.take(i));
        assert(items.drop_last()[i] == items[i]);
        lemma_first_error(items.drop_last(), i, whole, one);
    }
}

/// Read one argument of a listed prompt.
pub fn parse_prompt_argument(a: &JsonValue) -> (r: Result<PromptArgument, MCPError>)
    ensures
        match parsed_argument(a@) {
            Ok(v) => r matches Ok(x) && argument_view(x) == v,
            Err(e) => r matches Err(MCPError::Protocol(x)) && x@ == e,
        },
{
    let name = match get_text(a, "name") {
        Some(n) => n,
        None => return Err(protocol_error("Prompt argument missing name")),
    };
    let description = get_text(a, "description");
    let required = match a.get("required") {
        Some(v) => match v.as_bool() {
            Some(b) => b,
            None => false,
        },
        None => false,
    };
    Ok(PromptArgument { name, description, required: Some(required) })
}

/// Read one listed prompt of the server `server_name`.
pub fn parse_prompt_definition(p: &JsonValue, server_name: &str) -> (r: Result<PromptDefinition, MCPError>)
    ensures
        match parsed_prompt(p@) {
            Ok(v) => r matches Ok(x) && prompt_view(x) == v && x.server_name@ == server_name@ && x.title is None
                && x.arguments is Some,
            Err(e) => r matches Err(MCPError::Protocol(x)) && x@ == e,
        },
{
    let name = match get_text(p, "name") {
        Some(n) => n,
        None => return Err(protocol_error("Prompt missing name field")),
    };
    let description = get_text(p, "description");
    let mut arguments: Vec<PromptArgument> = Vec::new();
    let ghost args_model = match model_get(p@, "arguments"@) {
        Some(JsonModel::Array(args)) => args,
        _ => Seq::empty(),
    };
    let items_opt = match p.get("arguments") {
        Some(v) => v.as_array(),
        None => None,
    };
    match items_opt {
        Some(items) => {
            assert(model_get(p@, "arguments"@) == Some(JsonModel::Array(args_model)));
            let n = items.len();
            let mut i: usize = 0;
            assert(args_model.take(0) =~= Seq::<JsonModel>::empty());
            assert(arguments_view(arguments@) =~= Seq::<(Seq<char>, Option<Seq<char>>, Option<bool>)>::empty());
            while i < n
                invariant
                    n == items@.len(),
                    n == args_model.len(),
                    forall|k: int| 0 <= k < args_model.len() ==> #[trigger] args_model[k] == items@[k]@,
                    model_get(p@, "arguments"@) == Some(JsonModel::Array(args_model)),
                    model_get_str(p@, "name"@) is Some,
                    i <= n,
                    parsed_arguments(args_model.take(i as int)) == Ok::<Seq<(Seq<char>, Option<Seq<char>>, Option<bool>)>, Seq<char>>(arguments_view(arguments@)),
                decreases n - i,
            {
                assert(args_model.take(i + 1).drop_last() =~= args_model.take(i as int));
                assert(args_model.take(i + 1).last() == items@[i as int]@);
                match parse_prompt_argument(&items[i]) {
                    Ok(a) => {
                        let ghost before = arguments@;
                        arguments.push(a);
                        assert(arguments_view(arguments@) =~= arguments_view(before).push(argument_view(a)));
                    },
                    Err(e) => {
                        proof {
                            assert(parsed_argument(args_model[i as int]) is Err);
                            lemma_first_error(args_model, i as int, |s: Seq<JsonModel>| parsed_arguments(s), |x: JsonModel| parsed_argument(x));
                        }
                        return Err(e);
                    },
                }
                i = i + 1;
            }
            assert(args_model.take(n as int) =~= args_model);
        },
        None => {
            assert(arguments_view(arguments@) =~= Seq::<(Seq<char>, Option<Seq<char>>, Option<bool>)>::empty());
        },
    }
    Ok(PromptDefinition { name, title: None, description, arguments: Some(arguments), server_name: server_name.to_string() })
}

/// Read a `prompts/list` reply of the server `server_name`.
pub fn parse_prompt_list(response: &JsonValue, server_name: &str) -> (r: Result<Vec<PromptDefinition>, MCPError>)
    ensures
        match parsed_prompt_list(response@) {
            Ok(v) => r matches Ok(x) && x@.map_values(|p: PromptDefinition| prompt_view(p)) == v
                && forall|k: int| 0 <= k < x@.len() ==> (#[trigger] x@[k]).server_name@ == server_name@,
            Err(e) => r matches Err(MCPError::Protocol(x)) && x@ == e,
        },
{
    let items = match response.get("prompts") {
        Some(v) => match v.as_array() {
            Some(items) => items,
            None => return Err(protocol_error("Invalid prompts/list response format")),
        },
        None => return Err(protocol_error("Invalid prompts/list response format")),
    };
    let ghost ps = match model_get(response@, "prompts"@) {
        Some(JsonModel::Array(ps)) => ps,
        _ => Seq::empty(),
    };
    assert(model_get(response@, "prompts"@) == Some(JsonModel::Array(ps)));
    let mut out: Vec<PromptDefinition> = Vec::new();
    let n = items.len();
    let mut i: usize = 0;
    assert(ps.take(0) =~= Seq::<JsonModel>::empty());
    assert(out@.map_values(|p: PromptDefinition| prompt_view(p)) =~= Seq::<(Seq<char>, Option<Seq<char>>, Seq<(Seq<char>, Option<Seq<char>>, Option<bool>)>)>::empty());
    while i < n
        invariant
            n == items@.len(),
            n == ps.len(),
            forall|k: int| 0 <= k < ps.len() ==> #[trigger] ps[k] == items@[k]@,
            model_get(response@, "prompts"@) == Some(JsonModel::Array(ps)),
            i <= n,
            parsed_prompts(ps.take(i as int)) == Ok::<Seq<(Seq<char>, Option<Seq<char>>, Seq<(Seq<char>, Option<Seq<char>>, Option<bool>)>)>, Seq<char>>(out@.map_values(|p: PromptDefinition| prompt_view(p))),
            forall|k: int| 0 <= k < out@.len() ==> (#[trigger] out@[k]).server_name@ == server_name@,
        decreases n - i,
    {
        assert(ps.take(i + 1).drop_last() =~= ps.take(i as int));
        assert(ps.take(i + 1).last() == items@[i as int]@);
        match parse_prompt_definition(&items[i], server_name) {
            Ok(d) => {
                let ghost before = out@;
                out.push(d);
                assert(out@.map_values(|p: PromptDefinition| prompt_view(p)) =~= before.map_values(|p: PromptDefinition| prompt_view(p)).push(prompt_view(d)));
            },
            Err(e) => {
                proof {
                    assert(parsed_prompt(ps[i as int]) is Err);
                    lemma_first_error(ps, i as int, |s: Seq<JsonModel>| parsed_prompts(s), |x: JsonModel| parsed_prompt(x));
                }
                return Err(e);
            },
        }
        i = i + 1;
    }
    assert(ps.take(n as int) =~= ps);
    Ok(out)
}

/// The texts of `parts` joined by `sep`.
pub fn join_texts(parts: &Vec<String>, sep: &str) -> (s: String)
    ensures
        s@ == join(parts@.map_values(|p: String| p@), sep@),
{
    let ghost views = parts@.map_values(|p: String| p@);
    let mut out = String::new();
    let n = parts.len();
    let mut i: usize = 0;
    while i < n
        invariant
            n == parts@.len(),
            views == parts@.map_values(|p: String| p@),
            i <= n,
            out@ == join(views.take(i as int), sep@),
        decreases n - i,
    {
        assert(views.take(i + 1).drop_last() =~= views.take(i as int));
        if i > 0 {
            out.append(sep);
        } else {
            assert(views.take(0) =~= Seq::<Seq<char>>::empty());
        }
        out.append(parts[i].as_str());
        i = i + 1;
    }
    assert(views.take(n as int) =~= views);
    out
}

/// `Server '<name>': <error>`, the line a failing server adds to a report.
pub open spec fn server_error_text(server: Seq<char>, e: MCPError) -> Seq<char> {
    "Server '"@ + server + "': "@ + mcp_error_text(e)
}

/// The line a failing server adds to a report.
pub fn server_error_line(server: &str, error: &MCPError) -> (s: String)
    ensures
        s@ == server_error_text(server@, *error),
{
    let mut s = "Server '".to_string();
    s.append(server);
    s.append("': ");
    let m = error.message();
    s.append(m.as_str());
    s
}

/// The failure of a discovery round: reported only when no server offered
/// anything and some server failed.
pub fn discovery_failure(kind: &str, found_any: bool, errors: &Vec<String>) -> (r: Option<MCPError>)
    ensures
        (r is Some) <==> (!found_any && errors@.len() > 0),
        r matches Some(e) ==> e matches MCPError::Connection(m) && m@ == "Failed to discover "@ + kind@
            + " from any server. Errors: "@ + join(errors@.map_values(|p: String| p@), "; "@),
{
    if !found_any && errors.len() > 0 {
        let mut m = "Failed to discover ".to_string();
        m.append(kind);
        m.append(" from any server. Errors: ");
        let j = join_texts(errors, "; ");
        m.append(j.as_str());
        Some(MCPError::Connection(m))
    } else {
        None
    }
}

/// The outcome of shutting every server down: an error listing the
/// failures, when there were any.
pub fn shutdown_outcome(errors: &Vec<String>) -> (r: Result<(), MCPError>)
    ensures
        (r is Ok) <==> errors@.len() == 0,
        r matches Err(e) ==> e matches MCPError::Connection(m) && m@ == "Errors during shutdown: "@
            + join(errors@.map_values(|p: String| p@), "; "@),
{
    if errors.len() == 0 {
        Ok(())
    } else {
        let mut m = "Errors during shutdown: ".to_string();
        let j = join_texts(errors, "; ");
        m.append(j.as_str());
        Err(MCPError::Connection(m))
    }
}

/// The health a server is recorded with: its answer, or, when the check
/// itself failed, unhealthy with the failure.
pub fn health_from_check(r: Result<HealthStatus, MCPError>) -> (h: HealthStatus)
    ensures
        match r {
            Ok(s) => h == s,
            Err(e) => h matches HealthStatus::Unhealthy(m) && m@ == "Health check error: "@ + mcp_error_text(e),
        },
{
    match r {
        Ok(s) => s,
        Err(e) => {
            let mut m = "Health check error: ".to_string();
            let t = e.message();
            m.append(t.as_str());
            HealthStatus::Unhealthy(m)
        },
    }
}

/// The agent is healthy when its model is loaded and every server is.
pub fn overall_status(model_loaded: bool, servers: &Vec<HealthStatus>) -> (s: String)
    ensures
        s@ == (if model_loaded && forall|k: int| 0 <= k < servers@.len() ==> #[trigger] servers@[k] is Healthy {
            "healthy"@
        } else {
            "unhealthy"@
        }),
{
    let n = servers.len();
    let mut all = true;
    let mut i: usize = 0;
    while i < n
        invariant
            n == servers@.len(),
            i <= n,
            all == forall|k: int| 0 <= k < i ==> #[trigger] servers@[k] is Healthy,
        decreases n - i,
    {
        let ok = match &servers[i] {
            HealthStatus::Healthy => true,
            _ => false,
        };
        all = all && ok;
        i = i + 1;
    }
    if model_loaded && all {
        "healthy".to_string()
    } else {
        "unhealthy".to_string()
    }
}

/// The result of a tool call made through the client: the server's answer,
/// or the failure as the result's error.
pub fn tool_result_for(call_id: ToolCallId, outcome: Result<JsonValue, MCPError>) -> (r: ToolResult)
    ensures
        r.call_id == call_id,
        match outcome {
            Ok(v) => r.error is None && r.result == v,
            Err(e) => r.result is Null && (r.error matches Some(m) && m@ == "Tool execution failed: "@ + mcp_error_text(e)),
        },
{
    match outcome {
        Ok(v) => ToolResult { call_id, result: v, error: None },
        Err(e) => {
            let mut m = "Tool execution failed: ".to_string();
            let t = e.message();
            m.append(t.as_str());
            ToolResult { call_id, result: JsonValue::Null, error: Some(m) }
        },
    }
}

/// The failure when no server offers the tool even after rediscovery.
pub fn tool_not_found_after_refresh(tool_name: &str) -> (e: MCPError)
    ensures
        e matches MCPError::ToolCallFailed(m) && m@ == "Tool '"@ + tool_name@ + "' not found in any connected server after refresh"@,
{
    let mut m = "Tool '".to_string();
    m.append(tool_name);
    m.append("' not found in any connected server after refresh");
    MCPError::ToolCallFailed(m)
}

/// The failure when no server offers the prompt even after rediscovery.
pub fn prompt_not_found_after_refresh(prompt_name: &str) -> (e: MCPError)
    ensures
        e matches MCPError::Protocol(m) && m@ == "Prompt '"@ + prompt_name@ + "' not found in any connected server after refresh"@,
{
    let mut m = "Prompt '".to_string();
    m.append(prompt_name);
    m.append("' not found in any connected server after refresh");
    MCPError::Protocol(m)
}

/// The failure of an operation on a server that was never initialized.
pub fn not_initialized(server_name: &str) -> (e: MCPError)
    ensures
        e matches MCPError::Connection(m) && m@ == "Server '"@ + server_name@ + "' not initialized"@,
{
    let mut m = "Server '".to_string();
    m.append(server_name);
    m.append("' not initialized");
    MCPError::Connection(m)
}

/// What a server's reply line carries: its `result` member, unless the line
/// is not JSON, has an `error` member, or lacks a `result`.
pub open spec fn rpc_outcome(line: Seq<char>, r: Result<JsonValue, MCPError>) -> bool {
    match parsed_json(line) {
        None => r matches Err(MCPError::Protocol(m)) && "Failed to parse response: "@.is_prefix_of(m@),
        Some(reply) => match model_get(reply, "error"@) {
            Some(e) => r matches Err(MCPError::Protocol(m)) && m@ == "MCP server error: "@ + json_text(e),
            None => match model_get(reply, "result"@) {
                Some(x) => r matches Ok(y) && y@ == x,
                None => r matches Err(MCPError::Protocol(m)) && m@ == "Missing result in response"@,
            },
        },
    }
}

/// Read one reply line of a server: the `result` it carries, or the protocol
/// failure it stands for.
pub fn rpc_result(line: &str) -> (r: Result<JsonValue, MCPError>)
    ensures
        rpc_outcome(line@, r),
{
    match parse_json(line) {
        Err(e) => {
            let m = concat("Failed to parse response: ", e.as_str());
            Err(MCPError::Protocol(m))
        },
        Ok(reply) => {
            match reply.get("error") {
                Some(err) => {
                    let text = json_to_string(err);
                    let m = concat("MCP server error: ", text.as_str());
                    Err(MCPError::Protocol(m))
                },
                None => match reply.get("result") {
                    Some(x) => Ok(x.duplicate()),
                    None => Err(MCPError::Protocol("Missing result in response".to_string())),
                },
            }
        },
    }
}

/// The parameters of a `prompts/get` request: an object holding the prompt's
/// name and, when given, its arguments, in that order.
pub open spec fn prompt_params_model(prompt_name: Seq<char>, arguments: Option<JsonModel>) -> JsonModel {
    JsonModel::Object(
        seq![("name"@, JsonModel::Str(prompt_name))] + match arguments {
            Some(a) => seq![("arguments"@, a)],
            None => Seq::empty(),
        },
    )
}

/// The parameters of a `prompts/get` request.
pub fn prompt_request_params(prompt_name: &str, arguments: Option<JsonValue>) -> (p: JsonValue)
    ensures
        p@ == prompt_params_model(prompt_name@, match arguments {
            Some(a) => Some(a@),
            None => None,
        }),
{
    let ghost given = arguments;
    let mut fields: Vec<JsonField> = Vec::new();
    fields.push(JsonField { key: "name".to_string(), value: JsonValue::String(prompt_name.to_string()) });
    match arguments {
        Some(a) => {
            fields.push(JsonField { key: "arguments".to_string(), value: a });
        },
        None => {},
    }
    let p = JsonValue::Object(fields);
    proof {
        reveal_with_fuel(crate::json::models_of_fields, 3);
        let fs = fields@;
        let members = crate::json::models_of_fields(fs, fs.len() as int);
        assert(fs[0].key@ == "name"@);
        match given {
            Some(a) => {
                assert(fs[1].key@ == "arguments"@);
                assert(members =~= seq![("name"@, JsonModel::Str(prompt_name@))] + seq![("arguments"@, a@)]);
            },
            None => {
                assert(members =~= seq![("name"@, JsonModel::Str(prompt_name@))] + Seq::empty());
            },
        }
    }
    p
}

/// The characters of each name.
pub open spec fn names_view(v: Seq<String>) -> Seq<Seq<char>> {
    v.map_values(|n: String| n@)
}

/// What each server offered: its name and the names of its items.
pub open spec fn listing_view(l: Seq<(String, Vec<String>)>) -> Seq<(Seq<char>, Seq<Seq<char>>)> {
    l.map_values(|e: (String, Vec<String>)| (e.0@, names_view(e.1@)))
}

/// The items `server` offered, by the first entry for it.
pub open spec fn listed_for(l: Seq<(Seq<char>, Seq<Seq<char>>)>, server: Seq<char>) -> Option<Seq<Seq<char>>>
    decreases l.len(),
{
    if l.len() == 0 {
        None
    } else if l[0].0 == server {
        Some(l[0].1)
    } else {
        listed_for(l.drop_first(), server)
    }
}

/// Whether a server's offer changed: a different list than before, or, for
/// a server not seen before, a non-empty one.
pub open spec fn listing_changed(previous: Option<Seq<Seq<char>>>, current: Seq<Seq<char>>) -> bool {
    match previous {
        Some(p) => p != current,
        None => current.len() > 0,
    }
}

/// The servers, in order, whose offer changed since `previous`.
pub open spec fn changed_servers(previous: Seq<(Seq<char>, Seq<Seq<char>>)>, current: Seq<(Seq<char>, Seq<Seq<char>>)>) -> Seq<Seq<char>>
    decreases current.len(),
{
    if current.len() == 0 {
        Seq::empty()
    } else {
        let rest = changed_servers(previous, current.drop_last());
        let last = current.last();
        if listing_changed(listed_for(previous, last.0), last.1) { rest.push(last.0) } else { rest }
    }
}

/// The server that offers `item`: the last one in the listing that does.
pub open spec fn offering_server(l: Seq<(Seq<char>, Seq<Seq<char>>)>, item: Seq<char>) -> Option<Seq<char>>
    decreases l.len(),
{
    if l.len() == 0 {
        None
    } else if l.last().1.contains(item) {
        Some(l.last().0)
    } else {
        offering_server(l.drop_last(), item)
    }
}

/// The server recorded for `item`, by the first entry for it.
pub open spec fn owner_entry(owners: Seq<(Seq<char>, Seq<char>)>, item: Seq<char>) -> Option<Seq<char>>
    decreases owners.len(),
{
    if owners.len() == 0 {
        None
    } else if owners[0].0 == item {
        Some(owners[0].1)
    } else {
        owner_entry(owners.drop_first(), item)
    }
}

/// The characters of each pair.
pub open spec fn owners_view(o: Seq<(String, String)>) -> Seq<(Seq<char>, Seq<char>)> {
    o.map_values(|e: (String, String)| (e.0@, e.1@))
}

proof fn lemma_owner_entry_index(o: Seq<(Seq<char>, Seq<char>)>, item: Seq<char>)
    ensures
        owner_entry(o, item) is None <==> forall|k: int| 0 <= k < o.len() ==> #[trigger] o[k].0 != item,
        owner_entry(o, item) matches Some(s) ==> exists|k: int| 0 <= k < o.len() && #[trigger] o[k].0 == item && o[k].1 == s
            && forall|m: int| 0 <= m < k ==> #[trigger] o[m].0 != item,
    decreases o.len(),
{
    if o.len() > 0 {
        lemma_owner_entry_index(o.drop_first(), item);
        if o[0].0 != item {
            assert forall|k: int| 1 <= k < o.len() implies o[k] == o.drop_first()[k - 1] by {}
            if let Some(s) = owner_entry(o, item) {
                let k = choose|k: int| 0 <= k < o.drop_first().len() && #[trigger] o.drop_first()[k].0 == item && o.drop_first()[k].1 == s
                    && forall|m: int| 0 <= m < k ==> #[trigger] o.drop_first()[m].0 != item;
                assert(o[k + 1].0 == item && o[k + 1].1 == s);
                assert forall|m: int| 0 <= m < k + 1 implies #[trigger] o[m].0 != item by {
                    if m > 0 {
                        assert(o[m] == o.drop_first()[m - 1]);
                    }
                }
            }
            if owner_entry(o, item) is None {
                assert forall|k: int| 0 <= k < o.len() implies #[trigger] o[k].0 != item by {
                    if k > 0 {
                        assert(o[k] == o.drop_first()[k - 1]);
                    }
                }
            }
        }
    }
}

/// The listing without the entries of `server`.
pub open spec fn without_server(l: Seq<(Seq<char>, Seq<Seq<char>>)>, server: Seq<char>) -> Seq<(Seq<char>, Seq<Seq<char>>)>
    decreases l.len(),
{
    if l.len() == 0 {
        l
    } else {
        let rest = without_server(l.drop_last(), server);
        if l.last().0 == server { rest } else { rest.push(l.last()) }
    }
}

/// The server recorded for `x` among `o`, unless it is `server`.
pub open spec fn kept_owner(o: Seq<(Seq<char>, Seq<char>)>, x: Seq<char>, server: Seq<char>) -> Option<Seq<char>> {
    match owner_entry(o, x) {
        Some(s) => if s == server { None } else { Some(s) },
        None => None,
    }
}

proof fn lemma_owner_push(o: Seq<(Seq<char>, Seq<char>)>, e: (Seq<char>, Seq<char>), y: Seq<char>)
    ensures
        owner_entry(o.push(e), y) == match owner_entry(o, y) {
            Some(s) => Some(s),
            None => if e.0 == y { Some(e.1) } else { None },
        },
    decreases o.len(),
{
    if o.len() > 0 {
        assert(o.push(e).drop_first() =~= o.drop_first().push(e));
        assert(o.push(e)[0] == o[0]);
        lemma_owner_push(o.drop_first(), e, y);
    } else {
        assert(o.push(e).drop_first() =~= Seq::<(Seq<char>, Seq<char>)>::empty());
        assert(o.push(e)[0] == e);
        assert(owner_entry(Seq::<(Seq<char>, Seq<char>)>::empty(), y) is None);
    }
}

/// No item is recorded twice.
pub open spec fn owner_keys_unique(o: Seq<(Seq<char>, Seq<char>)>) -> bool {
    forall|a: int, b: int| 0 <= a < o.len() && 0 <= b < o.len() && a != b ==> #[trigger] o[a].0 != #[trigger] o[b].0
}

proof fn lemma_owner_at(o: Seq<(Seq<char>, Seq<char>)>, k: int)
    requires
        owner_keys_unique(o),
        0 <= k < o.len(),
    ensures
        owner_entry(o, o[k].0) == Some(o[k].1),
{
    lemma_owner_entry_index(o, o[k].0);
    if let Some(s) = owner_entry(o, o[k].0) {
        let j = choose|j: int| 0 <= j < o.len() && #[trigger] o[j].0 == o[k].0 && o[j].1 == s
            && forall|m: int| 0 <= m < j ==> #[trigger] o[m].0 != o[k].0;
        if j != k {
            assert(o[j].0 != o[k].0);
        }
    } else {
        assert(o[k].0 != o[k].0);
    }
}

proof fn lemma_owner_absent(o: Seq<(Seq<char>, Seq<char>)>, x: Seq<char>)
    requires
        forall|k: int| 0 <= k < o.len() ==> #[trigger] o[k].0 != x,
    ensures
        owner_entry(o, x) is None,
{
    lemma_owner_entry_index(o, x);
}

proof fn lemma_owner_of_key(o: Seq<(Seq<char>, Seq<char>)>, x: Seq<char>)
    requires
        owner_keys_unique(o),
    ensures
        owner_entry(o, x) is None ==> forall|k: int| 0 <= k < o.len() ==> #[trigger] o[k].0 != x,
        owner_entry(o, x) matches Some(s) ==> exists|k: int| 0 <= k < o.len() && #[trigger] o[k].0 == x && o[k].1 == s,
{
    lemma_owner_entry_index(o, x);
}

fn upsert_owner(owners: &mut Vec<(String, String)>, item: &String, server: &String)
    requires
        owner_keys_unique(owners_view(old(owners)@)),
    ensures
        owner_keys_unique(owners_view(final(owners)@)),
        forall|x: Seq<char>| #[trigger] owner_entry(owners_view(final(owners)@), x) == if x == item@ {
            Some(server@)
        } else {
            owner_entry(owners_view(old(owners)@), x)
        },
{
    let ghost before = owners_view(owners@);
    let n = owners.len();
    let mut i: usize = 0;
    while i < n
        invariant
            n == owners@.len(),
            before == owners_view(owners@),
            before == owners_view(old(owners)@),
            owner_keys_unique(before),
            i <= n,
            forall|k: int| 0 <= k < i ==> #[trigger] before[k].0 != item@,
        decreases n - i,
    {
        if str_eq(owners[i].0.as_str(), item.as_str()) {
            owners.set(i, (crate::text::string_clone(item), crate::text::string_clone(server)));
            proof {
                let after = owners_view(owners@);
                assert(after =~= before.update(i as int, (item@, server@)));
                assert forall|a: int, b: int| 0 <= a < after.len() && 0 <= b < after.len() && a != b implies #[trigger] after[a].0 != #[trigger] after[b].0 by {
                    assert(before[a].0 != before[b].0);
                }
                assert forall|x: Seq<char>| #[trigger] owner_entry(after, x) == if x == item@ {
                    Some(server@)
                } else {
                    owner_entry(before, x)
                } by {
                    if x == item@ {
                        lemma_owner_at(after, i as int);
                    } else {
                        lemma_owner_of_key(before, x);
                        lemma_owner_of_key(after, x);
                        if let Some(s) = owner_entry(before, x) {
                            let k = choose|k: int| 0 <= k < before.len() && #[trigger] before[k].0 == x && before[k].1 == s;
                            assert(after[k] == before[k]);
                            lemma_owner_at(after, k);
                        } else {
                            assert forall|k: int| 0 <= k < after.len() implies #[trigger] after[k].0 != x by {
                                if k != i {
                                    assert(after[k] == before[k]);
                                }
                            }
                            lemma_owner_absent(after, x);
                        }
                    }
                }
            }
            return;
        }
        i = i + 1;
    }
    owners.push((crate::text::string_clone(item), crate::text::string_clone(server)));
    proof {
        let after = owners_view(owners@);
        assert(after =~= before.push((item@, server@)));
        assert forall|a: int, b: int| 0 <= a < after.len() && 0 <= b < after.len() && a != b implies #[trigger] after[a].0 != #[trigger] after[b].0 by {
            if a < n && b < n {
                assert(before[a].0 != before[b].0);
            }
        }
        assert forall|x: Seq<char>| #[trigger] owner_entry(after, x) == if x == item@ {
            Some(server@)
        } else {
            owner_entry(before, x)
        } by {
            if x == item@ {
                lemma_owner_at(after, n as int);
            } else {
                lemma_owner_of_key(before, x);
                if let Some(s) = owner_entry(before, x) {
                    let k = choose|k: int| 0 <= k < before.len() && #[trigger] before[k].0 == x && before[k].1 == s;
                    assert(after[k] == before[k]);
                    lemma_owner_at(after, k);
                } else {
                    assert forall|k: int| 0 <= k < after.len() implies #[trigger] after[k].0 != x by {
                        if k < n {
                            assert(after[k] == before[k]);
                        }
                    }
                    lemma_owner_absent(after, x);
                }
            }
        }
    }
}

fn names_equal(a: &Vec<String>, b: &Vec<String>) -> (r: bool)
    ensures
        r == (names_view(a@) == names_view(b@)),
{
    if a.len() != b.len() {
        assert(names_view(a@).len() != names_view(b@).len());
        return false;
    }
    let n = a.len();
    let mut i: usize = 0;
    while i < n
        invariant
            n == a@.len(),
            n == b@.len(),
            i <= n,
            forall|k: int| 0 <= k < i ==> #[trigger] a@[k]@ == b@[k]@,
        decreases n - i,
    {
        if !str_eq(a[i].as_str(), b[i].as_str()) {
            assert(names_view(a@)[i as int] != names_view(b@)[i as int]);
            return false;
        }
        i = i + 1;
    }
    assert(names_view(a@) =~= names_view(b@));
    true
}

fn find_listing<'a>(l: &'a Vec<(String, Vec<String>)>, server: &str) -> (r: Option<&'a Vec<String>>)
    ensures
        match listed_for(listing_view(l@), server@) {
            Some(names) => r matches Some(v) && names_view(v@) == names,
            None => r is None,
        },
{
    let ghost lv = listing_view(l@);
    let n = l.len();
    let mut i: usize = 0;
    assert(lv.skip(0) =~= lv);
    while i < n
        invariant
            n == l@.len(),
            lv == listing_view(l@),
            i <= n,
            listed_for(lv, server@) == listed_for(lv.skip(i as int), server@),
        decreases n - i,
    {
        assert(lv.skip(i as int).drop_first() =~= lv.skip(i + 1));
        if str_eq(l[i].0.as_str(), server) {
            return Some(&l[i].1);
        }
        i = i + 1;
    }
    assert(lv.skip(n as int) =~= Seq::<(Seq<char>, Seq<Seq<char>>)>::empty());
    None
}

/// What a discovery round leaves behind for the next: each server's
/// offer, and which server to ask for each item.
#[derive(Debug)]
pub struct DiscoveryCache {
    previous: Vec<(String, Vec<String>)>,
    owners: Vec<(String, String)>,
}

impl DiscoveryCache {
    /// Each server's offer in the last round.
    pub closed spec fn spec_previous(&self) -> Seq<(Seq<char>, Seq<Seq<char>>)> {
        listing_view(self.previous@)
    }

    /// The server recorded for `item`.
    pub closed spec fn spec_owner(&self, item: Seq<char>) -> Option<Seq<char>> {
        owner_entry(owners_view(self.owners@), item)
    }

    /// The cache's invariant: no item is recorded twice.
    pub closed spec fn wf(&self) -> bool {
        owner_keys_unique(owners_view(self.owners@))
    }

    /// Nothing recorded yet.
    pub fn new() -> (c: Self)
        ensures
            c.wf(),
            c.spec_previous().len() == 0,
            forall|item: Seq<char>| c.spec_owner(item) is None,
    {
        let c = Self { previous: Vec::new(), owners: Vec::new() };
        assert(owners_view(c.owners@) =~= Seq::<(Seq<char>, Seq<char>)>::empty());
        assert(c.spec_previous() =~= Seq::<(Seq<char>, Seq<Seq<char>>)>::empty());
        c
    }

    /// Record one round of discovery, `current` giving each server's offer
    /// in turn: report the servers whose offer changed since the last round,
    /// then keep `current` for the next round and, for each item, the last
    /// server that offers it.
    pub fn record_round(&mut self, current: Vec<(String, Vec<String>)>) -> (changed: Vec<String>)
        requires
            old(self).wf(),
        ensures
            final(self).wf(),
            names_view(changed@) == changed_servers(old(self).spec_previous(), listing_view(current@)),
            final(self).spec_previous() == listing_view(current@),
            forall|item: Seq<char>| #[trigger] final(self).spec_owner(item) == offering_server(listing_view(current@), item),
    {
        let ghost cur = listing_view(current@);
        let ghost prev = self.spec_previous();
        let mut changed: Vec<String> = Vec::new();
        let n = current.len();
        let mut i: usize = 0;
        assert(names_view(changed@) =~= changed_servers(prev, cur.take(0)));
        while i < n
            invariant
                n == current@.len(),
                cur == listing_view(current@),
                prev == listing_view(self.previous@),
                i <= n,
                names_view(changed@) == changed_servers(prev, cur.take(i as int)),
            decreases n - i,
        {
            assert(cur.take(i + 1).drop_last() =~= cur.take(i as int));
            assert(cur.take(i + 1).last() == cur[i as int]);
            let server = &current[i].0;
            let names = &current[i].1;
            let is_changed = match find_listing(&self.previous, server.as_str()) {
                Some(prev_names) => !names_equal(prev_names, names),
                None => names.len() > 0,
            };
            let ghost before = changed@;
            if is_changed {
                changed.push(crate::text::string_clone(server));
                assert(names_view(changed@) =~= names_view(before).push(server@));
            }
            i = i + 1;
        }
        assert(cur.take(n as int) =~= cur);
        let mut owners: Vec<(String, String)> = Vec::new();
        assert(owners_view(owners@) =~= Seq::<(Seq<char>, Seq<char>)>::empty());
        let mut i: usize = 0;
        while i < n
            invariant
                n == current@.len(),
                cur == listing_view(current@),
                i <= n,
                owner_keys_unique(owners_view(owners@)),
                forall|x: Seq<char>| #[trigger] owner_entry(owners_view(owners@), x) == offering_server(cur.take(i as int), x),
            decreases n - i,
        {
            let server = &current[i].0;
            let names = &current[i].1;
            let m = names.len();
            let mut j: usize = 0;
            while j < m
                invariant
                    m == names@.len(),
                    j <= m,
                    owner_keys_unique(owners_view(owners@)),
                    forall|x: Seq<char>| #[trigger] owner_entry(owners_view(owners@), x) == if names_view(names@).take(j as int).contains(x) {
                        Some(server@)
                    } else {
                        offering_server(cur.take(i as int), x)
                    },
                decreases m - j,
            {
                let ghost prev_owners = owners_view(owners@);
                upsert_owner(&mut owners, &names[j], server);
                proof {
                    let nv = names_view(names@);
                    assert(nv.take(j + 1) =~= nv.take(j as int).push(names@[j as int]@));
                    assert forall|x: Seq<char>| #[trigger] owner_entry(owners_view(owners@), x) == if nv.take(j + 1).contains(x) {
                        Some(server@)
                    } else {
                        offering_server(cur.take(i as int), x)
                    } by {
                        if x == names@[j as int]@ {
                            assert(nv.take(j + 1)[j as int] == x);
                        } else {
                            if nv.take(j as int).contains(x) {
                                let k = choose|k: int| 0 <= k < nv.take(j as int).len() && #[trigger] nv.take(j as int)[k] == x;
                                assert(nv.take(j + 1)[k] == x);
                            }
                            if nv.take(j + 1).contains(x) {
                                let k = choose|k: int| 0 <= k < nv.take(j + 1).len() && #[trigger] nv.take(j + 1)[k] == x;
                                assert(k < j);
                                assert(nv.take(j as int)[k] == x);
                            }
                        }
                    }
                }
                j = j + 1;
            }
            proof {
                let nv = names_view(names@);
                assert(nv.take(m as int) =~= nv);
                assert(cur.take(i + 1).drop_last() =~= cur.take(i as int));
                assert(cur.take(i + 1).last() == (server@, nv));
            }
            i = i + 1;
        }
        assert(cur.take(n as int) =~= cur);
        self.previous = current;
        self.owners = owners;
        changed
    }

    /// Forget a server that was removed: its offer, and every item recorded for it.
    pub fn forget_server(&mut self, server: &str)
        requires
            old(self).wf(),
        ensures
            final(self).wf(),
            final(self).spec_previous() == without_server(old(self).spec_previous(), server@),
            forall|x: Seq<char>| #[trigger] final(self).spec_owner(x) == if old(self).spec_owner(x) == Some(server@) {
                None
            } else {
                old(self).spec_owner(x)
            },
    {
        let ghost old_prev = self.spec_previous();
        let ghost old_owners = owners_view(self.owners@);
        let mut rest: Vec<(String, Vec<String>)> = Vec::new();
        std::mem::swap(&mut rest, &mut self.previous);
        let ghost all = rest@;
        let n = rest.len();
        let mut kept: Vec<(String, Vec<String>)> = Vec::new();
        let mut i: usize = 0;
        assert(listing_view(kept@) =~= without_server(listing_view(all.take(0)), server@));
        while i < n
            invariant
                n == all.len(),
                i <= n,
                rest@ == all.skip(i as int),
                old_prev == listing_view(all),
                listing_view(kept@) == without_server(listing_view(all.take(i as int)), server@),
            decreases n - i,
        {
            let entry = rest.remove(0);
            assert(entry == all[i as int]);
            assert(rest@ =~= all.skip(i + 1));
            assert(listing_view(all.take(i + 1)) =~= listing_view(all.take(i as int)).push((entry.0@, names_view(entry.1@))));
            assert(listing_view(all.take(i + 1)).drop_last() =~= listing_view(all.take(i as int)));
            let ghost before = kept@;
            if !str_eq(entry.0.as_str(), server) {
                kept.push(entry);
                assert(listing_view(kept@) =~= listing_view(before).push((entry.0@, names_view(entry.1@))));
            }
            i = i + 1;
        }
        assert(all.take(n as int) =~= all);
        self.previous = kept;

        let mut owners: Vec<(String, String)> = Vec::new();
        let m = self.owners.len();
        let mut j: usize = 0;
        assert(owners_view(owners@) =~= Seq::<(Seq<char>, Seq<char>)>::empty());
        assert forall|x: Seq<char>| #[trigger] owner_entry(owners_view(owners@), x) == kept_owner(old_owners.take(0), x, server@) by {
            assert(old_owners.take(0) =~= Seq::<(Seq<char>, Seq<char>)>::empty());
        }
        while j < m
            invariant
                m == self.owners@.len(),
                old_owners == owners_view(self.owners@),
                owner_keys_unique(old_owners),
                j <= m,
                owner_keys_unique(owners_view(owners@)),
                forall|x: Seq<char>| #[trigger] owner_entry(owners_view(owners@), x) == kept_owner(old_owners.take(j as int), x, server@),
            decreases m - j,
        {
            let ghost e = old_owners[j as int];
            let ghost before = owners_view(owners@);
            proof {
                assert(old_owners.take(j + 1) =~= old_owners.take(j as int).push(e));
                lemma_owner_entry_index(old_owners.take(j as int), e.0);
                if owner_entry(old_owners.take(j as int), e.0) is Some {
                    let k = choose|k: int| 0 <= k < old_owners.take(j as int).len() && #[trigger] old_owners.take(j as int)[k].0 == e.0
                        && old_owners.take(j as int)[k].1 == owner_entry(old_owners.take(j as int), e.0)->0
                        && forall|mm: int| 0 <= mm < k ==> #[trigger] old_owners.take(j as int)[mm].0 != e.0;
                    assert(old_owners[k].0 != old_owners[j as int].0);
                }
            }
            if !str_eq(self.owners[j].1.as_str(), server) {
                owners.push((crate::text::string_clone(&self.owners[j].0), crate::text::string_clone(&self.owners[j].1)));
                proof {
                    let after = owners_view(owners@);
                    assert(after =~= before.push(e));
                    lemma_owner_of_key(before, e.0);
                    assert forall|a: int, b: int| 0 <= a < after.len() && 0 <= b < after.len() && a != b implies #[trigger] after[a].0 != #[trigger] after[b].0 by {
                        if a < before.len() && b < before.len() {
                            assert(before[a].0 != before[b].0);
                        } else if a < before.len() {
                            assert(before[a].0 != e.0);
                        } else {
                            assert(before[b].0 != e.0);
                        }
                    }
                    assert forall|x: Seq<char>| #[trigger] owner_entry(after, x) == kept_owner(old_owners.take(j + 1), x, server@) by {
                        lemma_owner_push(before, e, x);
                        lemma_owner_push(old_owners.take(j as int), e, x);
                        lemma_owner_entry_index(old_owners.take(j as int), x);
                        if x != e.0 {
                        }
                    }
                }
            } else {
                proof {
                    assert forall|x: Seq<char>| #[trigger] owner_entry(before, x) == kept_owner(old_owners.take(j + 1), x, server@) by {
                        lemma_owner_push(old_owners.take(j as int), e, x);
                    }
                }
            }
            j = j + 1;
        }
        assert(old_owners.take(m as int) =~= old_owners);
        self.owners = owners;
    }

    /// The server recorded for `item`.
    pub fn owner_of(&self, item: &str) -> (r: Option<String>)
        ensures
            match self.spec_owner(item@) {
                Some(s) => r matches Some(x) && x@ == s,
                None => r is None,
            },
    {
        let ghost o = owners_view(self.owners@);
        proof { lemma_owner_entry_index(o, item@); }
        let n = self.owners.len();
        let mut i: usize = 0;
        while i < n
            invariant
                n == self.owners@.len(),
                o == owners_view(self.owners@),
                i <= n,
                forall|k: int| 0 <= k < i ==> #[trigger] o[k].0 != item@,
            decreases n - i,
        {
            if str_eq(self.owners[i].0.as_str(), item) {
                proof {
                    lemma_owner_entry_index(o, item@);
                    assert(o[i as int].0 == item@);
                    let s = owner_entry(o, item@)->0;
                    if owner_entry(o, item@) is None {
                        assert(o[i as int].0 != item@);
                    }
                    let k = choose|k: int| 0 <= k < o.len() && #[trigger] o[k].0 == item@ && o[k].1 == s
                        && forall|m: int| 0 <= m < k ==> #[trigger] o[m].0 != item@;
                    if k < i {
                        assert(o[k].0 != item@);
                    } else if k > i {
                        assert(o[i as int].0 != item@);
                    }
                }
                return Some(crate::text::string_clone(&self.owners[i].1));
            }
            i = i + 1;
        }
        proof { lemma_owner_entry_index(o, item@); }
        None
    }
}

/// No server appears twice in a listing.
pub open spec fn servers_distinct(l: Seq<(Seq<char>, Seq<Seq<char>>)>) -> bool {
    forall|a: int, b: int| 0 <= a < l.len() && 0 <= b < l.len() && a != b ==> #[trigger] l[a].0 != #[trigger] l[b].0
}

proof fn lemma_listed_for_at(l: Seq<(Seq<char>, Seq<Seq<char>>)>, k: int)
    requires
        servers_distinct(l),
        0 <= k < l.len(),
    ensures
        listed_for(l, l[k].0) == Some(l[k].1),
    decreases l.len(),
{
    if k > 0 {
        assert(l[0].0 != l[k].0);
        let rest = l.drop_first();
        assert forall|a: int, b: int| 0 <= a < rest.len() && 0 <= b < rest.len() && a != b implies #[trigger] rest[a].0 != #[trigger] rest[b].0 by {
            assert(l[a + 1].0 != l[b + 1].0);
        }
        assert(rest[k - 1] == l[k]);
        lemma_listed_for_at(rest, k - 1);
    }
}

/// Recording the same offers twice in a row reports no change the second
/// time: every server finds exactly its previous list.
pub proof fn lemma_repeated_round_unchanged(l: Seq<(Seq<char>, Seq<Seq<char>>)>)
    requires
        servers_distinct(l),
    ensures
        changed_servers(l, l).len() == 0,
{
    lemma_unchanged_prefix(l, l.len() as int);
    assert(l.take(l.len() as int) =~= l);
}

proof fn lemma_unchanged_prefix(l: Seq<(Seq<char>, Seq<Seq<char>>)>, n: int)
    requires
        servers_distinct(l),
        0 <= n <= l.len(),
    ensures
        changed_servers(l, l.take(n)).len() == 0,
    decreases n,
{
    if n > 0 {
        assert(l.take(n).drop_last() =~= l.take(n - 1));
        assert(l.take(n).last() == l[n - 1]);
        lemma_listed_for_at(l, n - 1);
        lemma_unchanged_prefix(l, n - 1);
    }
}


/// Where starting a server stands: how many attempts were made, out of one
/// plus the allowed retries, and whether any of them failed.
#[derive(Debug, Clone, Copy)]
pub struct StartAttempts {
    pub attempts: u64,
    pub max_retries: u32,
    pub failed: bool,
}

/// What to do after an attempt to start a server.
#[derive(Debug, Clone, Copy, PartialEq, Eq, Structural)]
pub enum StartStep {
    /// Stop trying.
    Stop,
    /// Wait, then try again.
    Retry,
}

impl StartAttempts {
    /// No attempt made yet.
    pub fn new(max_retries: u32) -> (s: Self)
        ensures
            s.attempts == 0,
            s.max_retries == max_retries,
            !s.failed,
    {
        StartAttempts { attempts: 0, max_retries, failed: false }
    }

    /// Record the outcome of one attempt. A success ends the attempts; a
    /// failure is retried while retries are left. Any failure is remembered,
    /// and makes the start fail even when a later attempt succeeds.
    pub fn record(&mut self, succeeded: bool) -> (step: StartStep)
        requires
            old(self).attempts <= old(self).max_retries,
        ensures
            final(self).attempts == old(self).attempts + 1,
            final(self).max_retries == old(self).max_retries,
            final(self).failed == (old(self).failed || !succeeded),
            (step == StartStep::Retry) <==> (!succeeded && old(self).attempts < old(self).max_retries),
            step == StartStep::Retry ==> final(self).attempts <= final(self).max_retries,
    {
        let tried = self.attempts;
        self.attempts = tried + 1;
        if succeeded {
            StartStep::Stop
        } else {
            self.failed = true;
            if tried < self.max_retries as u64 {
                StartStep::Retry
            } else {
                StartStep::Stop
            }
        }
    }
}

} // verus!
