use std::time::{Duration, SystemTime};

use llama_agent::agent::{
    f32_within, failed_tool_result, has_excessive_repetition, plan_tool_execution, should_execute_in_parallel,
    tool_followup_messages, tool_message_content, validate_generation_request, validate_services,
    validate_tool_arguments, GenerationLoop, GenerationRequest, ServiceConfigError, MAX_TOOL_ITERATIONS,
    TEMPERATURE_MAX_BITS, TOOL_CALL_REASON, TOP_P_MAX_BITS,
};
use llama_agent::json::JsonValue;
use llama_agent::types::{
    FinishReason, GenerationResponse, MCPError, MCPServerConfig, Message, MessageRole, QueueConfig, QueueError, Session, SessionConfig, SessionError,
    SessionId, TemplateError, ToolCall, ToolCallId, ToolDefinition, ToolResult,
};

fn msg(content: &str) -> Message {
    Message {
        role: MessageRole::User,
        content: content.to_string(),
        tool_call_id: None,
        tool_name: None,
        timestamp: SystemTime::now(),
    }
}

fn invalid_text(r: Result<(), TemplateError>) -> String {
    match r {
        Err(TemplateError::Invalid(m)) => m,
        other => panic!("expected Invalid, got {:?}", other),
    }
}

fn call(name: &str, args: JsonValue) -> ToolCall {
    ToolCall { id: ToolCallId::new(), name: name.to_string(), arguments: args }
}

fn tool(name: &str, params: JsonValue) -> ToolDefinition {
    ToolDefinition { name: name.to_string(), description: String::new(), parameters: params, server_name: "s".to_string() }
}

fn session_with_tools(tools: Vec<ToolDefinition>) -> Session {
    Session {
        id: SessionId::new(),
        messages: vec![],
        mcp_servers: vec![],
        available_tools: tools,
        available_prompts: vec![],
        created_at: SystemTime::now(),
        updated_at: SystemTime::now(),
    }
}

#[test]
fn float_bounds_follow_comparisons() {
    for x in [-1.0f32, -0.0, 0.0, 0.5, 1.0, 1.5, 2.0, 2.5, f32::NAN, f32::INFINITY] {
        assert_eq!(f32_within(x.to_bits(), TEMPERATURE_MAX_BITS), (0.0..=2.0).contains(&x), "value {}", x);
        assert_eq!(f32_within(x.to_bits(), TOP_P_MAX_BITS), (0.0..=1.0).contains(&x), "value {}", x);
    }
}

#[test]
fn generation_request_checks_in_order() {
    let id = SessionId::new();
    let ok = GenerationRequest::new(id).with_max_tokens(10).with_temperature_bits(0.7f32.to_bits());
    assert!(validate_generation_request(&ok, &vec![msg("hello")]).is_ok());

    let r = GenerationRequest::new(id).with_max_tokens(0);
    assert_eq!(invalid_text(validate_generation_request(&r, &vec![])), "max_tokens must be greater than 0");

    let r = GenerationRequest::new(id).with_temperature_bits(2.5f32.to_bits());
    assert_eq!(invalid_text(validate_generation_request(&r, &vec![])), "temperature must be between 0.0 and 2.0");

    let r = GenerationRequest::new(id).with_top_p_bits(1.5f32.to_bits());
    assert_eq!(invalid_text(validate_generation_request(&r, &vec![])), "top_p must be between 0.0 and 1.0");

    let r = GenerationRequest::new(id).with_stop_tokens(vec![String::new()]);
    assert_eq!(invalid_text(validate_generation_request(&r, &vec![])), "stop tokens cannot be empty");

    let r = GenerationRequest::new(id).with_stop_tokens(vec!["x".repeat(101)]);
    assert_eq!(invalid_text(validate_generation_request(&r, &vec![])), "stop tokens cannot exceed 100 characters");

    let r = GenerationRequest::new(id);
    assert_eq!(
        invalid_text(validate_generation_request(&r, &vec![msg("a\0b")])),
        "message content contains null bytes"
    );
    assert_eq!(
        invalid_text(validate_generation_request(&r, &vec![msg(&"y".repeat(100_001))])),
        "individual message exceeds size limit"
    );
    let many: Vec<Message> = (0..11).map(|_| msg(&"z".repeat(95_000))).collect();
    assert_eq!(
        invalid_text(validate_generation_request(&r, &many)),
        "session content exceeds maximum size limit"
    );
}

#[test]
fn repetition_needs_equal_windows() {
    assert!(has_excessive_repetition(&"a".repeat(400)));
    assert!(!has_excessive_repetition("short"));
    let distinct: String = (0..300u32).map(|i| char::from_u32(0x4E00 + i).unwrap()).collect();
    assert!(!has_excessive_repetition(&distinct));
    let r = GenerationRequest::new(SessionId::new());
    assert_eq!(
        invalid_text(validate_generation_request(&r, &vec![msg(&"ab".repeat(200))])),
        "message contains excessive repetition"
    );
}

#[test]
fn tool_argument_checks() {
    let def = tool("read", JsonValue::parse(r#"{"type": "object"}"#).unwrap());
    assert!(validate_tool_arguments(&call("read", JsonValue::parse(r#"{"path": "/"}"#).unwrap()), &def).is_ok());
    assert_eq!(
        validate_tool_arguments(&call("read", JsonValue::Null), &def).unwrap_err(),
        "Tool requires arguments but none provided"
    );
    assert_eq!(
        validate_tool_arguments(&call("", JsonValue::Null), &def).unwrap_err(),
        "Tool name must be 1-100 characters"
    );
    let big = JsonValue::String("q".repeat(10_001));
    assert_eq!(
        validate_tool_arguments(&call("read", big), &def).unwrap_err(),
        "Tool arguments exceed maximum size limit"
    );
    assert!(validate_tool_arguments(&call("read", JsonValue::Null), &tool("read", JsonValue::Null)).is_ok());
}

#[test]
fn parallel_only_for_distinct_tools() {
    assert!(!should_execute_in_parallel(&vec![]));
    assert!(!should_execute_in_parallel(&vec![call("a", JsonValue::Null)]));
    assert!(should_execute_in_parallel(&vec![call("a", JsonValue::Null), call("b", JsonValue::Null)]));
    assert!(!should_execute_in_parallel(&vec![
        call("a", JsonValue::Null),
        call("b", JsonValue::Null),
        call("a", JsonValue::Null)
    ]));
}

#[test]
fn tool_plan_finds_the_tool_or_lists_the_others() {
    let session = session_with_tools(vec![tool("read", JsonValue::Null), tool("write", JsonValue::Null)]);
    assert_eq!(plan_tool_execution(&call("write", JsonValue::Null), &session), Ok(1));
    assert_eq!(
        plan_tool_execution(&call("delete", JsonValue::Null), &session),
        Err("Tool 'delete' not found in available tools. Available tools: read, write".to_string())
    );
    assert_eq!(
        plan_tool_execution(&call("  ", JsonValue::Null), &session),
        Err("Tool name cannot be empty".to_string())
    );
}

#[test]
fn tool_messages_report_results() {
    let id = ToolCallId::new();
    let failed = failed_tool_result(id, "no such tool".to_string());
    assert_eq!(failed.call_id, id);
    assert!(failed.result.is_null());
    assert_eq!(tool_message_content(&failed), "Error: no such tool");

    let ok = ToolResult { call_id: id, result: JsonValue::parse(r#"{"n": 1}"#).unwrap(), error: None };
    assert_eq!(tool_message_content(&ok), r#"{"n":1}"#);

    let now = SystemTime::now();
    let msgs = tool_followup_messages("calling", &vec![ok, failed], now);
    assert_eq!(msgs.len(), 3);
    assert_eq!(msgs[0].role.as_str(), "assistant");
    assert_eq!(msgs[0].content, "calling");
    assert_eq!(msgs[1].role.as_str(), "tool");
    assert_eq!(msgs[1].tool_call_id, Some(id));
    assert_eq!(msgs[2].content, "Error: no such tool");
}

fn response(text: &str, tokens: u32, reason: &str) -> GenerationResponse {
    GenerationResponse {
        generated_text: text.to_string(),
        tokens_generated: tokens,
        generation_time: Duration::from_millis(1),
        finish_reason: FinishReason::Stopped(reason.to_string()),
    }
}

#[test]
fn generation_loop_stops_after_the_limit() {
    let mut g = GenerationLoop::new();
    let mut runs = 0;
    while g.begin_iteration() {
        assert!(g.record_response(&response("x", 2, TOOL_CALL_REASON)));
        runs += 1;
    }
    assert_eq!(runs, MAX_TOOL_ITERATIONS);
    assert_eq!(g.accumulated, "x".repeat(MAX_TOOL_ITERATIONS));
    assert_eq!(g.total_tokens, 2 * MAX_TOOL_ITERATIONS as u32);
}

#[test]
fn only_a_tool_call_stop_runs_tools() {
    let mut g = GenerationLoop::new();
    assert!(g.begin_iteration());
    assert!(!g.record_response(&response("done", 3, "Maximum tokens reached")));
    assert!(g.record_response(&response("call", 1, "Tool call detected")));
    assert_eq!(g.accumulated, "donecall");
    assert_eq!(g.total_tokens, 4);
}

fn server(name: &str, command: &str) -> MCPServerConfig {
    MCPServerConfig { name: name.to_string(), command: command.to_string(), args: vec![], timeout_secs: None }
}

#[test]
fn service_settings_are_checked_in_order() {
    let q = QueueConfig { max_queue_size: 10, request_timeout: Duration::from_secs(30), worker_threads: 1 };
    let s = SessionConfig { max_sessions: 10, session_timeout: Duration::from_secs(60) };
    assert!(validate_services(&q, &s, &vec![server("a", "run"), server("b", "run")]).is_ok());

    let bad_q = QueueConfig { max_queue_size: 0, ..q };
    assert!(matches!(
        validate_services(&bad_q, &s, &vec![]),
        Err(ServiceConfigError::Queue(QueueError::WorkerError(_)))
    ));

    let bad_s = SessionConfig { max_sessions: 0, ..s };
    assert!(matches!(
        validate_services(&q, &bad_s, &vec![]),
        Err(ServiceConfigError::Session(SessionError::InvalidState(_)))
    ));

    match validate_services(&q, &s, &vec![server("a", "run"), server("a", "go")]) {
        Err(ServiceConfigError::MCP(MCPError::Protocol(m))) => assert_eq!(m, "Duplicate MCP server name: a"),
        other => panic!("unexpected {:?}", other),
    }
    assert!(matches!(
        validate_services(&q, &s, &vec![server("", "run")]),
        Err(ServiceConfigError::MCP(MCPError::Protocol(_)))
    ));
}
