use std::time::SystemTime;

use llama_agent::json::JsonValue;
use llama_agent::types::{Message, MessageRole, Session, SessionId, ToolCall, ToolCallId, ToolDefinition};
use llama_agent::validation::generation_request::{MessageContentConfig, MessageContentValidator};
use llama_agent::validation::tool_call::{ArgumentValidatorConfig, ToolArgumentValidator};
use llama_agent::validation::{
    ValidatesGenerationRequest, ValidatesToolCall, ValidationError, ValidationResult, Validator,
};

struct TestValidator {
    should_fail: bool,
}

impl Validator<String> for TestValidator {
    type Error = ValidationError;

    fn validate(&self, _session: &Session, target: &String) -> Result<(), Self::Error> {
        if self.should_fail {
            Err(ValidationError::invalid_state(&format!("Test failure for: {}", target)))
        } else {
            Ok(())
        }
    }
}

fn message(content: &str) -> Message {
    Message {
        role: MessageRole::User,
        content: content.to_string(),
        tool_call_id: None,
        tool_name: None,
        timestamp: SystemTime::now(),
    }
}

fn session_with(messages: Vec<Message>, tools: Vec<ToolDefinition>) -> Session {
    Session {
        id: SessionId::new(),
        messages,
        mcp_servers: vec![],
        available_tools: tools,
        available_prompts: vec![],
        created_at: SystemTime::now(),
        updated_at: SystemTime::now(),
    }
}

fn create_test_session() -> Session {
    session_with(vec![message("Hello, world!")], vec![])
}

fn json(text: &str) -> JsonValue {
    JsonValue::parse(text).expect("valid JSON")
}

fn tool_definition(name: &str) -> ToolDefinition {
    ToolDefinition {
        name: name.to_string(),
        description: format!("Test tool {}", name),
        parameters: json(r#"{"type": "object", "properties": {"input": {"type": "string"}}}"#),
        server_name: "test_server".to_string(),
    }
}

fn tool_call(name: &str, args: JsonValue) -> ToolCall {
    ToolCall { id: ToolCallId::new(), name: name.to_string(), arguments: args }
}

// ---- validation/mod.rs ----

#[test]
fn test_validator_trait_success() {
    let validator = TestValidator { should_fail: false };
    let session = create_test_session();
    assert!(validator.validate(&session, &"test input".to_string()).is_ok());
}

#[test]
fn test_validator_trait_failure() {
    let validator = TestValidator { should_fail: true };
    let session = create_test_session();
    let result = validator.validate(&session, &"test input".to_string());
    assert!(result.is_err());
    assert!(result.unwrap_err().message().contains("Test failure"));
}

#[test]
fn test_validation_error_constructors() {
    let error = ValidationError::security_violation("test security issue");
    assert!(matches!(error, ValidationError::SecurityViolation(_)));
    assert_eq!(error.message(), "Security violation: test security issue");

    let error = ValidationError::parameter_bounds("test bounds issue");
    assert!(matches!(error, ValidationError::ParameterBounds(_)));
    assert_eq!(error.message(), "Parameter out of bounds: test bounds issue");

    let error = ValidationError::invalid_state("test state issue");
    assert!(matches!(error, ValidationError::InvalidState(_)));
    assert_eq!(error.message(), "Invalid state: test state issue");

    let error = ValidationError::content_validation("test content issue");
    assert!(matches!(error, ValidationError::ContentValidation(_)));
    assert_eq!(error.message(), "Content validation failed: test content issue");

    let error = ValidationError::schema_validation("test schema issue");
    assert!(matches!(error, ValidationError::SchemaValidation(_)));
    assert_eq!(error.message(), "Schema validation failed: test schema issue");
}

#[test]
fn test_multiple_errors() {
    let errors = vec![
        ValidationError::security_violation("security issue"),
        ValidationError::parameter_bounds("bounds issue"),
    ];
    let combined = ValidationError::multiple(errors.clone());
    assert!(matches!(combined, ValidationError::Multiple(_)));
    assert!(combined.message().contains("security issue"));
    assert!(combined.message().contains("bounds issue"));

    let single = ValidationError::multiple(vec![ValidationError::invalid_state("single")]);
    assert!(matches!(single, ValidationError::InvalidState(_)));
    assert_eq!(single.message(), "Invalid state: single");
}

#[test]
fn test_empty_multiple_errors() {
    let combined = ValidationError::multiple(vec![]);
    assert!(matches!(combined, ValidationError::Multiple(_)));
    let ValidationError::Multiple(errors) = combined else { panic!("Expected Multiple variant") };
    assert!(errors.is_empty());
}

#[test]
fn test_validation_error_clone_and_eq() {
    let error1 = ValidationError::security_violation("test");
    let error2 = error1.clone();
    assert_eq!(error1, error2);

    let error3 = ValidationError::parameter_bounds("test");
    assert_ne!(error1, error3);

    let multiple1 = ValidationError::multiple(vec![
        ValidationError::security_violation("a"),
        ValidationError::parameter_bounds("b"),
    ]);
    let multiple2 = ValidationError::multiple(vec![
        ValidationError::security_violation("a"),
        ValidationError::parameter_bounds("b"),
    ]);
    assert_eq!(multiple1, multiple2);
}

#[test]
fn test_validation_result_type() {
    let success: ValidationResult = Ok(());
    assert!(success.is_ok());
    let failure: ValidationResult = Err(ValidationError::invalid_state("test"));
    assert!(failure.is_err());
    let success_with_value: ValidationResult<String> = Ok("validated".to_string());
    assert_eq!(success_with_value.unwrap(), "validated");
}

#[test]
fn test_validates_generation_request_trait() {
    fn accepts_generation_request_validator<T: ValidatesGenerationRequest<String>>(_validator: T) {}
    accepts_generation_request_validator(TestValidator { should_fail: false });
}

#[test]
fn test_validates_tool_call_trait() {
    fn accepts_tool_call_validator<T: ValidatesToolCall<String>>(_validator: T) {}
    accepts_tool_call_validator(TestValidator { should_fail: false });
}

#[test]
fn multiple_error_text_lists_each_error() {
    let combined = ValidationError::multiple(vec![
        ValidationError::security_violation("a"),
        ValidationError::parameter_bounds("b"),
    ]);
    assert_eq!(
        combined.message(),
        "Multiple validation errors: Security violation: a; Parameter out of bounds: b"
    );
}

// ---- message content validator ----

#[test]
fn test_valid_message_passes() {
    let validator = MessageContentValidator::new();
    let session = create_test_session();
    assert!(validator.validate(&session, &message("Hello, how are you today?")).is_ok());
}

#[test]
fn test_message_too_long_fails() {
    let validator = MessageContentValidator::new();
    let session = create_test_session();
    let result = validator.validate(&session, &message(&"a".repeat(100_001)));
    assert!(result.is_err());
    assert!(result.unwrap_err().message().contains("exceeds maximum length"));
}

#[test]
fn message_too_long_text_gives_both_sizes() {
    let validator = MessageContentValidator::new();
    let session = create_test_session();
    let result = validator.validate(&session, &message(&"a".repeat(123_456)));
    assert_eq!(
        result.unwrap_err().message(),
        "Security violation: Message exceeds maximum length of 100KB (current: 123KB)"
    );
}

#[test]
fn test_suspicious_patterns_fail() {
    let validator = MessageContentValidator::new();
    let session = create_test_session();
    let suspicious_contents = vec![
        "<script>alert('xss')</script>",
        "javascript:alert('xss')",
        "rm -rf /",
        "DELETE FROM users",
        "../../../etc/passwd",
        "eval(user_input)",
    ];
    for suspicious_content in suspicious_contents {
        let result = validator.validate(&session, &message(suspicious_content));
        assert!(result.is_err(), "Should fail for: {}", suspicious_content);
        assert!(result.unwrap_err().message().contains("unsafe content patterns"));
    }
}

#[test]
fn test_excessive_repetition_fails() {
    let validator = MessageContentValidator::new();
    let session = create_test_session();
    let result = validator.validate(&session, &message(&"abcd".repeat(26)));
    assert!(result.is_err());
    assert!(result.unwrap_err().message().contains("excessive repetition"));
}

#[test]
fn test_short_repetitive_content_passes() {
    let validator = MessageContentValidator::new();
    let session = create_test_session();
    assert!(validator.validate(&session, &message(&"abcd".repeat(5))).is_ok());
}

#[test]
fn test_custom_config() {
    let config = MessageContentConfig {
        max_length: 1000,
        custom_suspicious_patterns: vec!["custom_bad".to_string()],
        repetition_threshold: 3,
    };
    let validator = MessageContentValidator::with_config(config);
    let session = create_test_session();

    let result = validator.validate(&session, &message("This contains custom_bad content"));
    assert!(result.is_err());

    let result = validator.validate(&session, &message(&"a".repeat(1001)));
    assert!(result.is_err());
    assert!(result.unwrap_err().message().contains("1KB"));
}

#[test]
fn test_case_insensitive_pattern_matching() {
    let validator = MessageContentValidator::new();
    let session = create_test_session();
    assert!(validator.validate(&session, &message("This has <SCRIPT> tag")).is_err());
    assert!(validator.validate(&session, &message("This has <ScRiPt> tag")).is_err());
}

#[test]
fn test_validator_is_cloneable() {
    let validator1 = MessageContentValidator::new();
    let validator2 = validator1.clone();
    let session = create_test_session();
    let m = message("test message");
    assert_eq!(validator1.validate(&session, &m).is_ok(), validator2.validate(&session, &m).is_ok());
}

#[test]
fn test_all_default_suspicious_patterns() {
    let validator = MessageContentValidator::new();
    let session = create_test_session();
    let test_cases = vec![
        ("<script>", "Script injection"),
        ("</script>", "Script close tag"),
        ("javascript:", "JavaScript protocol"),
        ("eval(", "Eval function"),
        ("function(", "Function definition"),
        ("${{", "Template injection"),
        ("}}", "Template close"),
        ("<%", "Template open"),
        ("%>", "Template close"),
        ("<?php", "PHP open"),
        ("?>", "PHP close"),
        ("rm -rf", "Dangerous command"),
        ("DELETE FROM", "SQL deletion"),
        ("DROP TABLE", "SQL drop"),
        ("INSERT INTO", "SQL insertion"),
        ("../../../", "Path traversal"),
        ("..\\..\\..\\", "Windows path traversal"),
    ];
    for (pattern, description) in test_cases {
        let result = validator.validate(&session, &message(&format!("Test content with {}", pattern)));
        assert!(result.is_err(), "Should detect {} pattern: {}", description, pattern);
    }
}

#[test]
fn test_repetition_threshold_config() {
    let config = MessageContentConfig {
        max_length: 100_000,
        custom_suspicious_patterns: Vec::new(),
        repetition_threshold: 3,
    };
    let validator = MessageContentValidator::with_config(config);
    let session = create_test_session();
    let result = validator.validate(&session, &message(&"abcd".repeat(26)));
    assert!(result.is_err());
    assert!(result.unwrap_err().message().contains("excessive repetition"));
}

#[test]
fn test_empty_message_passes() {
    let validator = MessageContentValidator::new();
    assert!(validator.validate(&create_test_session(), &message("")).is_ok());
}

#[test]
fn test_whitespace_only_message_passes() {
    let validator = MessageContentValidator::new();
    assert!(validator.validate(&create_test_session(), &message("   \t\n  ")).is_ok());
}

#[test]
fn suspicious_content_and_repetition_checks() {
    let validator = MessageContentValidator::new();
    assert!(validator.contains_suspicious_content("please DROP table now"));
    assert!(!validator.contains_suspicious_content("a plain sentence"));
    assert!(validator.has_excessive_repetition(&"wxyz".repeat(30)));
    assert!(!validator.has_excessive_repetition("short text"));
}

// ---- tool argument validator ----

#[test]
fn test_valid_tool_call_passes() {
    let validator = ToolArgumentValidator::new();
    let session = session_with(vec![], vec![tool_definition("test_tool")]);
    let call = tool_call("test_tool", json(r#"{"input": "hello world"}"#));
    assert!(validator.validate(&session, &call).is_ok());
}

#[test]
fn test_empty_tool_name_fails() {
    let validator = ToolArgumentValidator::new();
    let session = session_with(vec![], vec![tool_definition("test_tool")]);
    let result = validator.validate(&session, &tool_call("", json(r#"{"input": "test"}"#)));
    assert!(result.is_err());
    assert!(result.unwrap_err().message().contains("name cannot be empty"));
}

#[test]
fn test_invalid_tool_name_characters_fail() {
    let validator = ToolArgumentValidator::new();
    let session = session_with(vec![], vec![]);
    for invalid_name in ["tool@name", "tool name", "tool.name", "tool/name", "tool\\name"] {
        let result = validator.validate(&session, &tool_call(invalid_name, json(r#"{"input": "test"}"#)));
        assert!(result.is_err(), "Should fail for name: {}", invalid_name);
        assert!(result.unwrap_err().message().contains("invalid characters"));
    }
}

#[test]
fn test_tool_not_available_fails() {
    let validator = ToolArgumentValidator::new();
    let session = session_with(vec![], vec![tool_definition("available_tool")]);
    let result = validator.validate(&session, &tool_call("unavailable_tool", json(r#"{"input": "test"}"#)));
    assert!(result.is_err());
    let error_msg = result.unwrap_err().message();
    assert!(error_msg.contains("is not available"));
    assert!(error_msg.contains("available_tool"));
}

#[test]
fn test_excessive_argument_size_fails() {
    let config = ArgumentValidatorConfig { max_argument_size: 100, ..Default::default() };
    let validator = ToolArgumentValidator::with_config(config);
    let session = session_with(vec![], vec![tool_definition("test_tool")]);
    let args = json(&format!(r#"{{"input": "{}"}}"#, "a".repeat(200)));
    let result = validator.validate(&session, &tool_call("test_tool", args));
    assert!(result.is_err());
    assert!(result.unwrap_err().message().contains("exceed maximum size"));
}

#[test]
fn test_excessive_argument_depth_fails() {
    let config = ArgumentValidatorConfig { max_argument_depth: 3, ..Default::default() };
    let validator = ToolArgumentValidator::with_config(config);
    let session = session_with(vec![], vec![tool_definition("test_tool")]);
    let deep_args = json(r#"{"level1": {"level2": {"level3": {"level4": "too deep"}}}}"#);
    let result = validator.validate(&session, &tool_call("test_tool", deep_args));
    assert!(result.is_err());
    assert!(result.unwrap_err().message().contains("exceed maximum depth"));
}

#[test]
fn test_long_name_fails() {
    let validator = ToolArgumentValidator::new();
    let session = session_with(vec![], vec![]);
    let result = validator.validate(&session, &tool_call(&"a".repeat(257), json("{}")));
    assert!(result.is_err());
    assert!(result.unwrap_err().message().contains("name exceeds maximum length"));
}

#[test]
fn test_json_depth_calculation() {
    assert_eq!(ToolArgumentValidator::get_json_depth(&json("\"string\"")), 1);
    assert_eq!(ToolArgumentValidator::get_json_depth(&json("42")), 1);
    assert_eq!(ToolArgumentValidator::get_json_depth(&json("null")), 1);
    assert_eq!(ToolArgumentValidator::get_json_depth(&json("{}")), 1);
    assert_eq!(ToolArgumentValidator::get_json_depth(&json("[]")), 1);
    assert_eq!(ToolArgumentValidator::get_json_depth(&json(r#"{"a": 1}"#)), 2);
    assert_eq!(ToolArgumentValidator::get_json_depth(&json("[1, 2, 3]")), 2);
    assert_eq!(ToolArgumentValidator::get_json_depth(&json(r#"{"a": {"b": 1}}"#)), 3);
    assert_eq!(ToolArgumentValidator::get_json_depth(&json(r#"{"a": [{"b": 1}]}"#)), 4);
}

#[test]
fn test_valid_tool_name_formats() {
    let validator = ToolArgumentValidator::new();
    let session = session_with(
        vec![],
        vec![
            tool_definition("valid_tool_123"),
            tool_definition("tool-with-hyphens"),
            tool_definition("UPPERCASE"),
            tool_definition("123numbers"),
        ],
    );
    for name in ["valid_tool_123", "tool-with-hyphens", "UPPERCASE", "123numbers"] {
        let result = validator.validate(&session, &tool_call(name, json("{}")));
        assert!(result.is_ok(), "Should pass for name: {}", name);
    }
}

#[test]
fn test_arguments_required_but_none_provided() {
    let validator = ToolArgumentValidator::new();
    let session = session_with(vec![], vec![tool_definition("test_tool")]);
    let result = validator.validate(&session, &tool_call("test_tool", JsonValue::Null));
    assert!(result.is_err());
    assert!(result.unwrap_err().message().contains("Tool requires arguments but none provided"));
}

#[test]
fn test_tool_with_no_parameter_schema() {
    let validator = ToolArgumentValidator::new();
    let mut tool_def = tool_definition("test_tool");
    tool_def.parameters = JsonValue::Null;
    let session = session_with(vec![], vec![tool_def]);
    assert!(validator.validate(&session, &tool_call("test_tool", JsonValue::Null)).is_ok());
}

#[test]
fn test_argument_validator_config_defaults() {
    let config = ArgumentValidatorConfig::default();
    assert_eq!(config.max_argument_depth, 10);
    assert_eq!(config.max_argument_size, 1_000_000);
    assert!(config.strict_type_checking);
}

#[test]
fn test_validator_with_custom_config() {
    let config = ArgumentValidatorConfig { max_argument_depth: 5, max_argument_size: 500, strict_type_checking: false };
    let validator = ToolArgumentValidator::with_config(config.clone());
    assert_eq!(validator.config().max_argument_depth, 5);
    assert_eq!(validator.config().max_argument_size, 500);
    assert!(!validator.config().strict_type_checking);
}

#[test]
fn message_length_counts_characters() {
    let config = MessageContentConfig { max_length: 1, custom_suspicious_patterns: Vec::new(), repetition_threshold: 5 };
    let validator = MessageContentValidator::with_config(config);
    let session = create_test_session();
    assert!(validator.validate(&session, &message("é")).is_ok());
    let result = validator.validate(&session, &message("éé"));
    assert_eq!(result.unwrap_err().message(), "Security violation: Message exceeds maximum length of 0KB (current: 0KB)");
}
