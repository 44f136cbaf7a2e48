use llama_agent::json::JsonValue;
use llama_agent::mcp::{
    discovery_failure, health_from_check, join_texts, not_initialized, overall_status, parse_prompt_content,
    parse_prompt_list, parse_prompt_message, parse_prompt_result, prompt_not_found_after_refresh,
    prompt_request_params, rpc_result, server_error_line, shutdown_outcome, tool_not_found_after_refresh, tool_result_for,
    DiscoveryCache, HealthStatus, StartAttempts, StartStep,
};
use llama_agent::types::{MCPError, PromptContent, PromptRole, ToolCallId};

fn json(text: &str) -> JsonValue {
    JsonValue::parse(text).expect("valid JSON")
}

fn protocol_text(e: MCPError) -> String {
    match e {
        MCPError::Protocol(m) => m,
        other => panic!("expected a protocol error, got {:?}", other),
    }
}

#[test]
fn prompt_result_with_text_and_image() {
    let reply = json(
        r#"{"description": "Greeting", "messages": [
            {"role": "user", "content": {"type": "text", "text": "Hi"}},
            {"role": "assistant", "content": {"type": "image", "data": "AAA", "mimeType": "image/png"}},
            {"role": "user", "content": "plain"}
        ]}"#,
    );
    let result = parse_prompt_result(&reply).unwrap();
    assert_eq!(result.description.as_deref(), Some("Greeting"));
    assert_eq!(result.messages.len(), 3);
    assert_eq!(result.messages[0].role, PromptRole::User);
    match &result.messages[0].content {
        PromptContent::Text { text } => assert_eq!(text, "Hi"),
        other => panic!("unexpected {:?}", other),
    }
    assert_eq!(result.messages[1].role, PromptRole::Assistant);
    match &result.messages[1].content {
        PromptContent::Image { data, mime_type } => {
            assert_eq!(data, "AAA");
            assert_eq!(mime_type, "image/png");
        },
        other => panic!("unexpected {:?}", other),
    }
    match &result.messages[2].content {
        PromptContent::Text { text } => assert_eq!(text, "plain"),
        other => panic!("unexpected {:?}", other),
    }
}

#[test]
fn prompt_result_errors() {
    assert_eq!(
        protocol_text(parse_prompt_result(&json(r#"{"description": "x"}"#)).unwrap_err()),
        "Invalid prompts/get response format: missing messages"
    );
    assert_eq!(
        protocol_text(parse_prompt_message(&json(r#"{"role": "system", "content": "x"}"#)).unwrap_err()),
        "Unknown message role: system"
    );
    assert_eq!(
        protocol_text(parse_prompt_message(&json(r#"{"content": "x"}"#)).unwrap_err()),
        "Message missing role field"
    );
    assert_eq!(
        protocol_text(parse_prompt_content(&json(r#"{"type": "video"}"#)).unwrap_err()),
        "Unknown content type: video"
    );
    assert_eq!(
        protocol_text(parse_prompt_content(&json(r#"{"type": "image", "data": "AAA"}"#)).unwrap_err()),
        "Image content missing mimeType field"
    );
    assert_eq!(
        protocol_text(parse_prompt_content(&json("42")).unwrap_err()),
        "Content must be either object with type or string"
    );
}

#[test]
fn resource_content_keeps_uri_and_text() {
    let c = parse_prompt_content(&json(
        r#"{"type": "resource", "resource": {"uri": "file:///a.txt", "text": "body", "mimeType": "text/plain"}}"#,
    ))
    .unwrap();
    match c {
        PromptContent::Resource { resource } => {
            assert_eq!(resource.uri, "file:///a.txt");
            assert_eq!(resource.text.as_deref(), Some("body"));
            assert_eq!(resource.mime_type, "text/plain");
            assert_eq!(resource.name, "");
            assert!(resource.title.is_none());
        },
        other => panic!("unexpected {:?}", other),
    }
}

#[test]
fn prompt_list_reads_arguments() {
    let reply = json(
        r#"{"prompts": [
            {"name": "greet", "description": "Say hello", "arguments": [
                {"name": "who", "description": "Whom to greet", "required": true},
                {"name": "tone"}
            ]},
            {"name": "bare"}
        ]}"#,
    );
    let prompts = parse_prompt_list(&reply, "srv").unwrap();
    assert_eq!(prompts.len(), 2);
    assert_eq!(prompts[0].name, "greet");
    assert_eq!(prompts[0].server_name, "srv");
    assert_eq!(prompts[0].description.as_deref(), Some("Say hello"));
    let args = prompts[0].arguments.as_ref().unwrap();
    assert_eq!(args.len(), 2);
    assert_eq!(args[0].required, Some(true));
    assert_eq!(args[1].required, Some(false));
    assert!(args[1].description.is_none());
    assert_eq!(prompts[1].arguments.as_ref().unwrap().len(), 0);

    assert_eq!(
        protocol_text(parse_prompt_list(&json(r#"{"prompts": [{"description": "no name"}]}"#), "s").unwrap_err()),
        "Prompt missing name field"
    );
    assert_eq!(
        protocol_text(parse_prompt_list(&json("{}"), "s").unwrap_err()),
        "Invalid prompts/list response format"
    );
}

#[test]
fn prompt_request_holds_name_and_arguments() {
    let p = prompt_request_params("greet", Some(json(r#"{"who": "Ann"}"#)));
    assert_eq!(p.get_str("name"), Some("greet"));
    assert_eq!(p.get("arguments").unwrap().get_str("who"), Some("Ann"));
    let p = prompt_request_params("greet", None);
    assert!(p.get("arguments").is_none());
    assert_eq!(p.to_text(), r#"{"name":"greet"}"#);
}

#[test]
fn error_lines_and_failures() {
    assert_eq!(
        server_error_line("fs", &MCPError::Connection("down".to_string())),
        "Server 'fs': Connection error: down"
    );
    let errors = vec!["a".to_string(), "b".to_string()];
    match discovery_failure("tools", false, &errors) {
        Some(MCPError::Connection(m)) => assert_eq!(m, "Failed to discover tools from any server. Errors: a; b"),
        other => panic!("unexpected {:?}", other),
    }
    assert!(discovery_failure("tools", true, &errors).is_none());
    assert!(discovery_failure("tools", false, &vec![]).is_none());
    assert!(shutdown_outcome(&vec![]).is_ok());
    match shutdown_outcome(&errors) {
        Err(MCPError::Connection(m)) => assert_eq!(m, "Errors during shutdown: a; b"),
        other => panic!("unexpected {:?}", other),
    }
    assert_eq!(join_texts(&errors, ", "), "a, b");
    assert_eq!(join_texts(&vec![], ", "), "");
}

#[test]
fn not_found_errors() {
    match tool_not_found_after_refresh("grep") {
        MCPError::ToolCallFailed(m) => assert_eq!(m, "Tool 'grep' not found in any connected server after refresh"),
        other => panic!("unexpected {:?}", other),
    }
    match prompt_not_found_after_refresh("p") {
        MCPError::Protocol(m) => assert_eq!(m, "Prompt 'p' not found in any connected server after refresh"),
        other => panic!("unexpected {:?}", other),
    }
    match not_initialized("fs") {
        MCPError::Connection(m) => assert_eq!(m, "Server 'fs' not initialized"),
        other => panic!("unexpected {:?}", other),
    }
}

#[test]
fn health_and_overall_status() {
    match health_from_check(Err(MCPError::Protocol("bad".to_string()))) {
        HealthStatus::Unhealthy(m) => assert_eq!(m, "Health check error: Protocol error: bad"),
        other => panic!("unexpected {:?}", other),
    }
    assert!(matches!(health_from_check(Ok(HealthStatus::Healthy)), HealthStatus::Healthy));
    assert_eq!(overall_status(true, &vec![HealthStatus::Healthy, HealthStatus::Healthy]), "healthy");
    assert_eq!(overall_status(true, &vec![HealthStatus::Healthy, HealthStatus::Unhealthy("x".to_string())]), "unhealthy");
    assert_eq!(overall_status(false, &vec![]), "unhealthy");
    assert_eq!(overall_status(true, &vec![]), "healthy");
}

#[test]
fn tool_results_from_outcomes() {
    let id = ToolCallId::new();
    let ok = tool_result_for(id, Ok(json(r#"{"files": []}"#)));
    assert_eq!(ok.call_id, id);
    assert!(ok.error.is_none());
    assert!(ok.result.get("files").is_some());
    let failed = tool_result_for(id, Err(MCPError::ToolCallFailed("boom".to_string())));
    assert!(failed.result.is_null());
    assert_eq!(failed.error.as_deref(), Some("Tool execution failed: Tool call failed: boom"));
}

fn listing(server: &str, items: &[&str]) -> (String, Vec<String>) {
    (server.to_string(), items.iter().map(|s| s.to_string()).collect())
}

#[test]
fn discovery_rounds_report_changes_and_owners() {
    let mut cache = DiscoveryCache::new();
    let changed = cache.record_round(vec![listing("fs", &["read", "write"]), listing("web", &["fetch"])]);
    assert_eq!(changed, vec!["fs".to_string(), "web".to_string()]);
    assert_eq!(cache.owner_of("read").as_deref(), Some("fs"));
    assert_eq!(cache.owner_of("fetch").as_deref(), Some("web"));
    assert!(cache.owner_of("missing").is_none());

    let changed = cache.record_round(vec![listing("fs", &["read", "write"]), listing("web", &["fetch"])]);
    assert!(changed.is_empty());

    let changed = cache.record_round(vec![listing("fs", &["read"]), listing("web", &["fetch", "read"])]);
    assert_eq!(changed, vec!["fs".to_string(), "web".to_string()]);
    assert_eq!(cache.owner_of("read").as_deref(), Some("web"));
    assert!(cache.owner_of("write").is_none());

    cache.forget_server("web");
    assert!(cache.owner_of("fetch").is_none());
    assert!(cache.owner_of("read").is_none());
}

#[test]
fn server_start_attempts() {
    let mut a = StartAttempts::new(2);
    assert_eq!(a.record(false), StartStep::Retry);
    assert_eq!(a.record(false), StartStep::Retry);
    assert_eq!(a.record(false), StartStep::Stop);
    assert_eq!(a.attempts, 3);
    assert!(a.failed);

    let mut b = StartAttempts::new(3);
    assert_eq!(b.record(true), StartStep::Stop);
    assert!(!b.failed);

    let mut c = StartAttempts::new(3);
    assert_eq!(c.record(false), StartStep::Retry);
    assert_eq!(c.record(true), StartStep::Stop);
    assert!(c.failed);
    assert_eq!(c.attempts, 2);
}

#[test]
fn reply_lines_give_their_result() {
    let r = rpc_result("{\"jsonrpc\":\"2.0\",\"id\":1,\"result\":{\"tools\":[]}}\n").expect("a result");
    assert_eq!(r.to_text(), "{\"tools\":[]}");
    let r = rpc_result("{\"result\":null}").expect("a null result");
    assert!(r.is_null());
}

#[test]
fn reply_lines_with_an_error_are_refused() {
    let e = rpc_result("{\"id\":2,\"error\":{\"code\":-32601,\"message\":\"no such method\"},\"result\":1}").unwrap_err();
    assert_eq!(protocol_text(e), "MCP server error: {\"code\":-32601,\"message\":\"no such method\"}");
}

#[test]
fn reply_lines_without_a_result_are_refused() {
    let e = rpc_result("{\"jsonrpc\":\"2.0\",\"id\":3}").unwrap_err();
    assert_eq!(protocol_text(e), "Missing result in response");
    let e = rpc_result("[1, 2]").unwrap_err();
    assert_eq!(protocol_text(e), "Missing result in response");
}

#[test]
fn reply_lines_that_are_not_json_are_refused() {
    let e = rpc_result("not json at all").unwrap_err();
    let m = protocol_text(e);
    assert!(m.starts_with("Failed to parse response: "), "{}", m);
    assert!(m.len() > "Failed to parse response: ".len());
}
