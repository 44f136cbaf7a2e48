use std::time::SystemTime;

use llama_agent::chat_template::{
    detect_model_type, format_tools_for_template, session_chat_messages, sort_and_dedup, style_for_model,
    ChatTemplateEngine, FunctionCallParser, JsonToolCallParser, TemplateStyle, ToolCallParser,
    XmlToolCallParser,
};
use llama_agent::json::JsonValue;
use llama_agent::types::{Message, MessageRole, Session, SessionId, ToolCall, ToolCallId, ToolDefinition};

fn msg(role: MessageRole, content: &str) -> Message {
    Message { role, content: content.to_string(), tool_call_id: None, tool_name: None, timestamp: SystemTime::now() }
}

fn create_test_session() -> Session {
    Session {
        id: SessionId::new(),
        messages: vec![
            msg(MessageRole::System, "You are a helpful assistant."),
            msg(MessageRole::User, "Hello, can you help me?"),
        ],
        mcp_servers: vec![],
        available_tools: vec![ToolDefinition {
            name: "list_files".to_string(),
            description: "List files in a directory".to_string(),
            parameters: JsonValue::parse(r#"{"type": "object", "properties": {"path": {"type": "string"}}}"#).unwrap(),
            server_name: "filesystem".to_string(),
        }],
        available_prompts: vec![],
        created_at: SystemTime::now(),
        updated_at: SystemTime::now(),
    }
}

#[test]
fn test_chat_template_engine_creation() {
    let engine = ChatTemplateEngine::new();
    let names = engine.parser_names();
    assert_eq!(names.len(), 3);
    assert!(names.iter().any(|n| n == "json"));
    assert!(names.iter().any(|n| n == "xml"));
    assert!(names.iter().any(|n| n == "function_call"));
}

#[test]
fn test_format_tools_for_template() {
    let session = create_test_session();
    let formatted = format_tools_for_template(&session.available_tools).unwrap();
    assert!(formatted.contains("Available tools:"));
    assert!(formatted.contains("list_files"));
    assert!(formatted.contains("filesystem"));
}

#[test]
fn tools_context_holds_the_indented_tool_list() {
    let session = create_test_session();
    let formatted = format_tools_for_template(&session.available_tools).unwrap();
    assert!(formatted.contains("\"name\": \"list_files\""));
    assert!(formatted.contains("\"server_name\": \"filesystem\""));
    assert!(formatted.starts_with("You are an AI assistant with access to the following tools."));
    assert!(formatted.ends_with("Always use the tools when they are needed to fulfill user requests."));
}

#[test]
fn test_json_tool_call_parser() {
    let parser = JsonToolCallParser::new();
    let text = r#"{"function_name": "list_files", "arguments": {"path": "/tmp"}}"#;
    let tool_calls = parser.parse_tool_calls(text).unwrap();
    assert_eq!(tool_calls.len(), 1);
    assert_eq!(tool_calls[0].name, "list_files");

    let text = r#"{"tool": "list_files", "parameters": {"path": "/tmp"}}"#;
    let tool_calls = parser.parse_tool_calls(text).unwrap();
    assert_eq!(tool_calls.len(), 1);
    assert_eq!(tool_calls[0].name, "list_files");

    let text = r#"{"name": "list_files", "args": {"path": "/tmp"}}"#;
    let tool_calls = parser.parse_tool_calls(text).unwrap();
    assert_eq!(tool_calls.len(), 1);
    assert_eq!(tool_calls[0].name, "list_files");
}

#[test]
fn test_json_tool_call_parser_mixed_with_text() {
    let parser = JsonToolCallParser::new();
    let text = r#"I'll help you list the files in the current directory.

{"function_name": "list_directory", "arguments": {"path": "."}}

I apologize for the confusion. Let me try again with the correct format."#;
    let tool_calls = parser.parse_tool_calls(text).unwrap();
    assert_eq!(tool_calls.len(), 1);
    assert_eq!(tool_calls[0].name, "list_directory");

    let complex_text = r#"{"function_name": "complex_tool", "arguments": {"nested": {"key": "value", "array": [1, 2, 3]}, "simple": "test"}}"#;
    let tool_calls = parser.parse_tool_calls(complex_text).unwrap();
    assert_eq!(tool_calls.len(), 1);
    assert_eq!(tool_calls[0].name, "complex_tool");

    let problematic_text =
        r#"{"function_name": "list_directory", "arguments": {"path": "."}}I apologize for the confusion"#;
    let tool_calls = parser.parse_tool_calls(problematic_text).unwrap();
    assert_eq!(tool_calls.len(), 1);
    assert_eq!(tool_calls[0].name, "list_directory");

    let deep_nested = r#"{"function_name": "deep_tool", "arguments": {"level1": {"level2": {"level3": {"value": "test"}}}, "array": [{"nested": true}, {"nested": false}]}}"#;
    let tool_calls = parser.parse_tool_calls(deep_nested).unwrap();
    assert_eq!(tool_calls.len(), 1);
    assert_eq!(tool_calls[0].name, "deep_tool");
}

#[test]
fn test_json_tool_call_parser_fallback_parsing() {
    let parser = JsonToolCallParser::new();
    let malformed_text = r#"Sure, I can help! {"function_name": "list_directory", "arguments": {"path": "."}} I need to check what's in your directory first."#;
    let tool_calls = parser.parse_tool_calls(malformed_text).unwrap();
    assert_eq!(tool_calls.len(), 1);
    assert_eq!(tool_calls[0].name, "list_directory");

    let buried_text = r#"
        Let me help you with that task. First, I need to understand what files are available.
        I'll use the directory listing tool to check: {"function_name": "list_directory", "arguments": {"path": "."}}
        After checking the directory, I can provide better assistance.
        "#;
    let tool_calls = parser.parse_tool_calls(buried_text).unwrap();
    assert_eq!(tool_calls.len(), 1);
    assert_eq!(tool_calls[0].name, "list_directory");
}

#[test]
fn json_tool_call_keeps_its_arguments() {
    let parser = JsonToolCallParser::new();
    let calls = parser.parse_tool_calls(r#"{"function_name": "read", "arguments": {"path": "/etc"}}"#).unwrap();
    assert_eq!(calls[0].arguments.get_str("path"), Some("/etc"));
    assert_eq!(
        parser.extract_balanced_json(r#"say {"a": {"b": "}"}} then"#),
        Some(r#"say {"a": {"b": "}"}}"#.to_string())
    );
    assert_eq!(parser.extract_balanced_json("no braces here"), None);
}

#[test]
fn test_xml_tool_call_parser() {
    let parser = XmlToolCallParser::new();
    let text = r#"<function_call name="list_files">{"path": "/tmp"}</function_call>"#;
    let tool_calls = parser.parse_tool_calls(text).unwrap();
    assert_eq!(tool_calls.len(), 1);
    assert_eq!(tool_calls[0].name, "list_files");
}

#[test]
fn test_function_call_parser() {
    let parser = FunctionCallParser::new();
    let text = "Call list_files with arguments {\"path\": \"/tmp\"}";
    let tool_calls = parser.parse_tool_calls(text).unwrap();
    assert_eq!(tool_calls.len(), 1);
    assert_eq!(tool_calls[0].name, "list_files");
}

#[test]
fn test_extract_tool_calls_multiple_formats() {
    let engine = ChatTemplateEngine::new();
    let text = r#"
        I'll help you with that. Let me list the files first.
        {"function_name": "list_files", "arguments": {"path": "/tmp"}}
        "#;
    let tool_calls = engine.extract_tool_calls(text).unwrap();
    assert_eq!(tool_calls.len(), 1);
    assert_eq!(tool_calls[0].name, "list_files");
}

#[test]
fn test_debug_logging_tool_extraction() {
    let engine = ChatTemplateEngine::new();
    let text = r#"
        I'll help you list the files in the current directory.
        {"function_name": "list_directory", "arguments": {"path": "."}}
        "#;
    let tool_calls = engine.extract_tool_calls(text).unwrap();
    assert_eq!(tool_calls.len(), 1);
    assert_eq!(tool_calls[0].name, "list_directory");

    let empty_calls = engine.extract_tool_calls("Just a regular response with no tool calls.").unwrap();
    assert_eq!(empty_calls.len(), 0);

    let problematic_text = r#"{"function_name": "list_directory", "arguments": {"path": "."}}I need to check the files in the current directory for you."#;
    let tool_calls = engine.extract_tool_calls(problematic_text).unwrap();
    assert_eq!(tool_calls.len(), 1);
    assert_eq!(tool_calls[0].name, "list_directory");
}

#[test]
fn test_extract_tool_calls_no_matches() {
    let engine = ChatTemplateEngine::new();
    let tool_calls = engine.extract_tool_calls("This is just regular text with no tool calls.").unwrap();
    assert_eq!(tool_calls.len(), 0);
}

#[test]
fn test_register_custom_parser() {
    let mut engine = ChatTemplateEngine::new();
    let initial_count = engine.parser_names().len();
    engine.register_parser("custom".to_string(), Box::new(JsonToolCallParser::new()));
    assert_eq!(engine.parser_names().len(), initial_count + 1);
    assert!(engine.parser_names().iter().any(|n| n == "custom"));
    engine.register_parser("json".to_string(), Box::new(JsonToolCallParser::new()));
    assert_eq!(engine.parser_names().len(), initial_count + 1);
}

#[test]
fn test_tool_call_deduplication() {
    let engine = ChatTemplateEngine::new();
    let text = r#"
        {"function_name": "list_files", "arguments": {"path": "/tmp"}}
        I'll also check another directory.
        {"function_name": "list_files", "arguments": {"path": "/home"}}
        "#;
    let tool_calls = engine.extract_tool_calls(text).unwrap();
    assert_eq!(tool_calls.len(), 2);
}

#[test]
fn sort_and_dedup_orders_by_identifier_and_keeps_the_first() {
    let a = ToolCallId::from_value(5);
    let b = ToolCallId::from_value(2);
    let calls = vec![
        ToolCall { id: a, name: "first".to_string(), arguments: JsonValue::Null },
        ToolCall { id: b, name: "second".to_string(), arguments: JsonValue::Null },
        ToolCall { id: a, name: "third".to_string(), arguments: JsonValue::Null },
    ];
    let out = sort_and_dedup(calls);
    let names: Vec<&str> = out.iter().map(|c| c.name.as_str()).collect();
    assert_eq!(names, vec!["second", "first"]);
}

#[test]
fn test_apply_chat_template_with_tools_format() {
    let engine = ChatTemplateEngine::new();
    let messages = vec![
        ("user".to_string(), "Hello".to_string()),
        ("assistant".to_string(), "Hi there!".to_string()),
    ];
    let prompt = engine.format_chat_template(&messages, Some("Available tools: list_files")).unwrap();
    assert!(prompt.contains("### System:"));
    assert!(prompt.contains("Available tools: list_files"));
    assert!(prompt.contains("### Human:"));
    assert!(prompt.contains("Hello"));
    assert!(prompt.contains("### Assistant:"));
}

#[test]
fn prompt_layouts_per_model() {
    let engine = ChatTemplateEngine::new();
    let messages = vec![("user".to_string(), "Hi".to_string())];
    assert_eq!(
        engine.format_phi3_template(&messages, None).unwrap(),
        "<|user|>\nHi<|end|>\n<|assistant|>\n"
    );
    assert_eq!(
        engine.format_qwen_template(&messages, None).unwrap(),
        "<|im_start|>user\nHi<|im_end|>\n<|im_start|>assistant\n"
    );
    assert!(matches!(style_for_model("phi3"), TemplateStyle::Phi3));
    assert!(matches!(style_for_model("qwen"), TemplateStyle::Qwen));
    assert!(matches!(style_for_model("llama"), TemplateStyle::Plain));
}

#[test]
fn session_rendering_puts_tools_first() {
    let engine = ChatTemplateEngine::new();
    let session = create_test_session();
    let pairs = session_chat_messages(&session);
    assert_eq!(pairs.len(), 2);
    assert_eq!(pairs[0].0, "system");
    let prompt = engine.render_session(&session, "plain").unwrap();
    let tools_at = prompt.find("Available tools:").unwrap();
    let user_at = prompt.find("Hello, can you help me?").unwrap();
    assert!(tools_at < user_at);
    assert!(prompt.ends_with("### Assistant:\n"));
}

#[test]
fn model_type_detection() {
    assert_eq!(detect_model_type(Some("Qwen/Qwen2-7B"), "", "", None), "qwen");
    assert_eq!(detect_model_type(Some("microsoft/Phi-3-mini"), "", "", None), "phi3");
    assert_eq!(detect_model_type(None, "", "run --model qwen-small", None), "qwen");
}

#[test]
fn any_model_type_has_a_usable_template() {
    let engine = ChatTemplateEngine::new();
    assert!(engine.validate_template("qwen").is_ok());
    assert!(engine.validate_template("unknown").is_ok());
}

#[test]
fn first_found_takes_the_first_non_empty_list() {
    let call = |name: &str| ToolCall { id: ToolCallId::new(), name: name.to_string(), arguments: JsonValue::Null };
    let results = vec![
        Err(llama_agent::types::TemplateError::ToolCallParsing("bad".to_string())),
        Ok(vec![]),
        Ok(vec![call("a"), call("b")]),
        Ok(vec![call("c")]),
    ];
    let names: Vec<String> = llama_agent::chat_template::first_found(results).into_iter().map(|c| c.name).collect();
    assert_eq!(names, vec!["a".to_string(), "b".to_string()]);
    assert!(llama_agent::chat_template::first_found(vec![Ok(vec![]), Err(llama_agent::types::TemplateError::Invalid("x".to_string()))]).is_empty());
    assert!(llama_agent::chat_template::first_found(vec![]).is_empty());
}
