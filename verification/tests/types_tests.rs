use std::time::{Duration, SystemTime};

use llama_agent::agent::GenerationRequest;
use llama_agent::json::JsonValue;
use llama_agent::stopper::RepetitionConfig;
use llama_agent::types::{
    FinishReason, MCPError, MCPServerConfig, Message, MessageRole, QueueConfig, QueueError, Session,
    SessionConfig, SessionError, SessionId, StoppingConfig, StreamChunk, TemplateError, ToolCallId,
    ToolDefinition, ToolResult,
};

#[test]
fn test_message_role_as_str() {
    assert_eq!(MessageRole::System.as_str(), "system");
    assert_eq!(MessageRole::User.as_str(), "user");
    assert_eq!(MessageRole::Assistant.as_str(), "assistant");
    assert_eq!(MessageRole::Tool.as_str(), "tool");
}

#[test]
fn test_mcp_server_config() {
    let config = MCPServerConfig {
        name: "filesystem".to_string(),
        command: "npx".to_string(),
        args: vec!["-y".to_string(), "@modelcontextprotocol/server-filesystem".to_string()],
        timeout_secs: None,
    };
    assert_eq!(config.name, "filesystem");
    assert_eq!(config.command, "npx");
    assert_eq!(config.args.len(), 2);
}

#[test]
fn test_finish_reason() {
    let reasons = [
        FinishReason::Stopped("Maximum tokens reached".to_string()),
        FinishReason::Stopped("Stop token detected".to_string()),
        FinishReason::Stopped("End of sequence token detected".to_string()),
        FinishReason::Stopped("Tool call detected".to_string()),
        FinishReason::Stopped("Error: test error".to_string()),
    ];
    assert_eq!(reasons.len(), 5);
    match &reasons[4] {
        FinishReason::Stopped(msg) => assert_eq!(msg, "Error: test error"),
    }
}

#[test]
fn test_session_config_default() {
    let config = SessionConfig::default();
    assert_eq!(config.max_sessions, 1000);
    assert_eq!(config.session_timeout, Duration::from_secs(3600));
}

#[test]
fn test_stream_chunk() {
    let chunk = StreamChunk { text: "Hello".to_string(), is_complete: false, token_count: 1 };
    assert_eq!(chunk.text, "Hello");
    assert!(!chunk.is_complete);
    assert_eq!(chunk.token_count, 1);
}

#[test]
fn test_queue_config_validation() {
    let config = QueueConfig { max_queue_size: 100, request_timeout: Duration::from_secs(30), worker_threads: 2 };
    assert!(config.validate().is_ok());
    let config = QueueConfig { max_queue_size: 0, request_timeout: Duration::from_secs(30), worker_threads: 1 };
    assert!(config.validate().is_err());
    let config = QueueConfig { max_queue_size: 100, request_timeout: Duration::from_secs(30), worker_threads: 0 };
    assert!(config.validate().is_err());
    let config = QueueConfig { max_queue_size: 100, request_timeout: Duration::from_secs(30), worker_threads: 20 };
    assert!(config.validate().is_err());
    let config = QueueConfig { max_queue_size: 100, request_timeout: Duration::from_secs(0), worker_threads: 1 };
    assert!(config.validate().is_err());
}

#[test]
fn queue_config_errors_name_the_problem() {
    let config = QueueConfig { max_queue_size: 100, request_timeout: Duration::from_millis(999), worker_threads: 1 };
    match config.validate() {
        Err(QueueError::WorkerError(m)) => assert_eq!(m, "Request timeout must be greater than 0 seconds"),
        other => panic!("unexpected: {:?}", other),
    }
    let config = QueueConfig { max_queue_size: 100, request_timeout: Duration::from_secs(1), worker_threads: 17 };
    match config.validate() {
        Err(QueueError::WorkerError(m)) => assert_eq!(m, "Worker threads should not exceed 16 for most systems"),
        other => panic!("unexpected: {:?}", other),
    }
    assert!(QueueConfig::default().validate().is_ok());
}

#[test]
fn test_session_config_validation() {
    let config = SessionConfig { max_sessions: 1000, session_timeout: Duration::from_secs(3600) };
    assert!(config.validate().is_ok());
    let config = SessionConfig { max_sessions: 0, session_timeout: Duration::from_secs(3600) };
    assert!(config.validate().is_err());
    let config = SessionConfig { max_sessions: 1000, session_timeout: Duration::from_secs(0) };
    assert!(config.validate().is_err());
}

#[test]
fn test_mcp_server_config_validation() {
    let config = MCPServerConfig { name: "filesystem".to_string(), command: "npx".to_string(), args: vec!["-y".to_string()], timeout_secs: None };
    assert!(config.validate().is_ok());
    let config = MCPServerConfig { name: "".to_string(), command: "npx".to_string(), args: vec![], timeout_secs: None };
    assert!(config.validate().is_err());
    let config = MCPServerConfig { name: "filesystem".to_string(), command: "".to_string(), args: vec![], timeout_secs: None };
    assert!(config.validate().is_err());
    let config = MCPServerConfig { name: "file@system".to_string(), command: "npx".to_string(), args: vec![], timeout_secs: None };
    assert!(config.validate().is_err());
}

#[test]
fn mcp_server_config_error_texts() {
    let config = MCPServerConfig { name: "file@system".to_string(), command: "npx".to_string(), args: vec![], timeout_secs: None };
    match config.validate() {
        Err(e) => assert_eq!(e.message(), "Protocol error: MCP server name contains invalid characters"),
        Ok(()) => panic!("expected an error"),
    }
    let config = MCPServerConfig { name: "my-server_2".to_string(), command: "x".to_string(), args: vec![], timeout_secs: Some(5) };
    assert!(config.validate().is_ok());
}

#[test]
fn test_stopping_config_validation() {
    let config = StoppingConfig { max_tokens: Some(100), repetition_detection: Some(RepetitionConfig::default()), eos_detection: true };
    assert!(config.validate().is_ok());
    let config = StoppingConfig { max_tokens: Some(0), repetition_detection: None, eos_detection: true };
    assert!(config.validate().is_err());
    let config = StoppingConfig { max_tokens: Some(200_000), repetition_detection: None, eos_detection: true };
    assert!(config.validate().is_err());
    let config = StoppingConfig {
        max_tokens: Some(100),
        repetition_detection: Some(RepetitionConfig { min_pattern_length: 0, max_pattern_length: 10, min_repetitions: 3, window_size: 1000 }),
        eos_detection: true,
    };
    assert!(config.validate().is_err());
    let config = StoppingConfig {
        max_tokens: Some(100),
        repetition_detection: Some(RepetitionConfig { min_pattern_length: 20, max_pattern_length: 10, min_repetitions: 3, window_size: 1000 }),
        eos_detection: true,
    };
    assert!(config.validate().is_err());
    let config = StoppingConfig {
        max_tokens: Some(100),
        repetition_detection: Some(RepetitionConfig { min_pattern_length: 10, max_pattern_length: 100, min_repetitions: 1, window_size: 1000 }),
        eos_detection: true,
    };
    assert!(config.validate().is_err());
    let config = StoppingConfig {
        max_tokens: Some(100),
        repetition_detection: Some(RepetitionConfig { min_pattern_length: 10, max_pattern_length: 100, min_repetitions: 3, window_size: 0 }),
        eos_detection: true,
    };
    assert!(config.validate().is_err());
}

#[test]
fn stopping_config_error_texts() {
    let config = StoppingConfig { max_tokens: Some(200_000), repetition_detection: None, eos_detection: true };
    assert_eq!(config.validate(), Err("max_tokens cannot exceed 100,000 for safety".to_string()));
    let config = StoppingConfig {
        max_tokens: None,
        repetition_detection: Some(RepetitionConfig { min_pattern_length: 10, max_pattern_length: 100, min_repetitions: 3, window_size: 100_001 }),
        eos_detection: false,
    };
    assert_eq!(config.validate(), Err("window_size cannot exceed 100,000 for memory safety".to_string()));
}

#[test]
fn test_stopping_config_new_validated() {
    let config = StoppingConfig::new_validated(Some(100), Some(RepetitionConfig::default()), true);
    assert!(config.is_ok());
    let config = StoppingConfig::new_validated(Some(0), None, true);
    assert!(config.is_err());
}

#[test]
fn test_generation_request_builder_methods() {
    let session_id = SessionId::new();
    let request = GenerationRequest::new(session_id)
        .with_max_tokens(100)
        .with_temperature_bits(0.7f32.to_bits())
        .with_top_p_bits(0.9f32.to_bits())
        .with_stop_tokens(vec!["</s>".to_string()])
        .with_default_stopping();
    assert_eq!(request.max_tokens, Some(100));
    assert_eq!(request.temperature_bits, Some(0.7f32.to_bits()));
    assert_eq!(request.top_p_bits, Some(0.9f32.to_bits()));
    assert_eq!(request.stop_tokens, vec!["</s>".to_string()]);
    assert!(request.stopping_config.is_some());

    let request = GenerationRequest::new(session_id).with_validated_stopping_config(StoppingConfig::default());
    assert!(request.is_ok());
    let invalid_config = StoppingConfig { max_tokens: Some(0), repetition_detection: None, eos_detection: true };
    let request = GenerationRequest::new(session_id).with_validated_stopping_config(invalid_config);
    assert!(request.is_err());
}

#[test]
fn test_generation_request_effective_max_tokens() {
    let session_id = SessionId::new();
    let request = GenerationRequest::new(session_id)
        .with_max_tokens(200)
        .with_stopping_config(StoppingConfig { max_tokens: Some(100), repetition_detection: None, eos_detection: true });
    assert_eq!(request.effective_max_tokens(), Some(200));
    let request = GenerationRequest::new(session_id)
        .with_stopping_config(StoppingConfig { max_tokens: Some(150), repetition_detection: None, eos_detection: true });
    assert_eq!(request.effective_max_tokens(), Some(150));
    let request = GenerationRequest::new(session_id);
    assert_eq!(request.effective_max_tokens(), None);
}

#[test]
fn test_generation_request_migrate_max_tokens() {
    let session_id = SessionId::new();
    let request = GenerationRequest::new(session_id).with_max_tokens(300).migrate_max_tokens_to_stopping_config();
    assert_eq!(request.max_tokens, None);
    assert!(request.stopping_config.is_some());
    let stopping_config = request.stopping_config.unwrap();
    assert_eq!(stopping_config.max_tokens, Some(300));
    assert!(stopping_config.eos_detection);

    let existing_config = StoppingConfig { max_tokens: None, repetition_detection: Some(RepetitionConfig::default()), eos_detection: false };
    let request = GenerationRequest::new(session_id)
        .with_max_tokens(400)
        .with_stopping_config(existing_config)
        .migrate_max_tokens_to_stopping_config();
    assert_eq!(request.max_tokens, None);
    let stopping_config = request.stopping_config.unwrap();
    assert_eq!(stopping_config.max_tokens, Some(400));
    assert!(stopping_config.repetition_detection.is_some());
    assert!(!stopping_config.eos_detection);
}

#[test]
fn migration_keeps_the_effective_limit() {
    let request = GenerationRequest::new(SessionId::new()).with_max_tokens(77);
    let before = request.effective_max_tokens();
    let after = request.migrate_max_tokens_to_stopping_config().effective_max_tokens();
    assert_eq!(before, after);
    assert_eq!(after, Some(77));
}

#[test]
fn test_tool_definition() {
    let tool = ToolDefinition {
        name: "list_files".to_string(),
        description: "List files in a directory".to_string(),
        parameters: JsonValue::Object(vec![llama_agent::json::JsonField {
            key: "type".to_string(),
            value: JsonValue::String("object".to_string()),
        }]),
        server_name: "filesystem".to_string(),
    };
    assert_eq!(tool.name, "list_files");
    assert_eq!(tool.server_name, "filesystem");
}

#[test]
fn test_session_id() {
    let session_id = SessionId::new();
    let text = session_id.to_text();
    let parsed = SessionId::from_text(&text).unwrap();
    assert_eq!(session_id, parsed);
    assert!(!text.is_empty());
    assert_eq!(text.len(), 26);
}

#[test]
fn test_tool_call_id() {
    let tool_call_id = ToolCallId::new();
    let text = tool_call_id.to_text();
    let parsed = ToolCallId::from_text(&text).unwrap();
    assert_eq!(tool_call_id, parsed);
    assert!(!text.is_empty());
}

#[test]
fn ids_round_trip_through_ulids_and_values() {
    let u = ulid::Ulid::new();
    let id = SessionId::from_ulid(u);
    assert_eq!(id.as_ulid(), u);
    assert_eq!(id.to_value(), u.0);
    assert_eq!(SessionId::from_value(42).to_value(), 42);
    assert_eq!(SessionId::from_value(0).to_text(), "00000000000000000000000000");
    assert!(SessionId::from_text("not a ulid").is_none());
}

#[test]
fn test_message_with_tool_call() {
    let tool_call_id = ToolCallId::new();
    let message = Message {
        role: MessageRole::Tool,
        content: "Tool response content".to_string(),
        tool_call_id: Some(tool_call_id),
        tool_name: Some("test_tool".to_string()),
        timestamp: SystemTime::now(),
    };
    assert_eq!(message.role.as_str(), "tool");
    assert_eq!(message.tool_call_id, Some(tool_call_id));
    assert_eq!(message.tool_name.as_ref().unwrap(), "test_tool");
}

#[test]
fn test_tool_result() {
    let call_id = ToolCallId::new();
    let result = ToolResult {
        call_id,
        result: JsonValue::Object(vec![llama_agent::json::JsonField {
            key: "status".to_string(),
            value: JsonValue::String("success".to_string()),
        }]),
        error: None,
    };
    assert_eq!(result.call_id, call_id);
    assert!(result.error.is_none());
}

#[test]
fn test_session_creation() {
    let session = Session {
        id: SessionId::new(),
        messages: Vec::new(),
        mcp_servers: Vec::new(),
        available_tools: Vec::new(),
        available_prompts: Vec::new(),
        created_at: SystemTime::now(),
        updated_at: SystemTime::now(),
    };
    assert!(!session.id.to_text().is_empty());
    assert!(session.messages.is_empty());
    assert!(session.mcp_servers.is_empty());
    assert!(session.available_tools.is_empty());
    assert!(session.available_prompts.is_empty());
}

#[test]
fn test_message_creation() {
    let message = Message {
        role: MessageRole::User,
        content: "Hello, world!".to_string(),
        tool_call_id: None,
        tool_name: None,
        timestamp: SystemTime::now(),
    };
    assert_eq!(message.role.as_str(), "user");
    assert_eq!(message.content, "Hello, world!");
    assert!(message.tool_call_id.is_none());
    assert!(message.tool_name.is_none());
}

#[test]
fn test_generation_request() {
    let request = GenerationRequest {
        session_id: SessionId::new(),
        max_tokens: Some(100),
        temperature_bits: Some(0.7f32.to_bits()),
        top_p_bits: Some(0.9f32.to_bits()),
        stop_tokens: vec!["</s>".to_string()],
        stopping_config: None,
    };
    assert_eq!(request.max_tokens, Some(100));
    assert_eq!(request.temperature_bits.map(f32::from_bits), Some(0.7));
    assert_eq!(request.stop_tokens.len(), 1);
}

#[test]
fn error_texts_follow_display() {
    assert_eq!(QueueError::Full.message(), "Queue is full");
    assert_eq!(QueueError::WorkerError("x".to_string()).message(), "Worker thread error: x");
    assert_eq!(SessionError::NotFound("abc".to_string()).message(), "Session not found: abc");
    assert_eq!(SessionError::LimitExceeded.message(), "Session limit exceeded");
    assert_eq!(MCPError::ServerNotFound("s".to_string()).message(), "MCP server not found: s");
    assert_eq!(TemplateError::Invalid("bad".to_string()).message(), "Invalid template: bad");
}
