use llama_agent::cli::{
    buffer_is_full, check_output_settings, count_non_empty, exit_code_for, first_dimension_mismatch, OutputSettingsError, f32_outside, is_local_model_path, looks_like_tool_request, use_huggingface,
    validate_args, validate_model_named, validate_output_extension, validate_parameters, AgentArgs,
    ArgsError, PathFacts, StreamTally,
};
use llama_agent::types::StreamChunk;

// ---- embedding parameters ----

#[test]
fn test_validate_parameters_zero_batch_size() {
    let result = validate_parameters(0, None);
    assert!(result.is_err());
    assert!(result.unwrap_err().contains("Batch size must be greater than 0"));
}

#[test]
fn test_validate_parameters_large_batch_size() {
    let result = validate_parameters(2048, None);
    assert!(result.is_err());
    assert!(result.unwrap_err().contains("Batch size is too large"));
}

#[test]
fn test_validate_parameters_zero_max_length() {
    let result = validate_parameters(32, Some(0));
    assert!(result.is_err());
    assert!(result.unwrap_err().contains("Max length must be greater than 0"));
}

#[test]
fn test_validate_parameters_large_max_length() {
    let result = validate_parameters(32, Some(10000));
    assert!(result.is_err());
    assert!(result.unwrap_err().contains("Max length is too large"));
}

#[test]
fn test_validate_parameters_small_max_length() {
    let result = validate_parameters(32, Some(16));
    assert!(result.is_err());
    assert!(result.unwrap_err().contains("Max length is too small"));
}

#[test]
fn test_validate_parameters_valid() {
    assert!(validate_parameters(32, Some(512)).is_ok());
}

#[test]
fn test_validate_parameters_valid_no_max_length() {
    assert!(validate_parameters(64, None).is_ok());
}

#[test]
fn parameter_errors_give_the_refused_value() {
    assert_eq!(
        validate_parameters(2048, None).unwrap_err(),
        "Batch size is too large: 2048. Maximum recommended is 1024\n💡 Large batch sizes may cause memory issues"
    );
    assert_eq!(
        validate_parameters(32, Some(16)).unwrap_err(),
        "Max length is too small: 16. Minimum recommended is 32\n💡 Very short sequences may not capture meaningful semantics"
    );
    assert!(validate_parameters(1024, Some(8192)).is_ok());
    assert!(validate_parameters(1, Some(32)).is_ok());
    assert!(validate_parameters(1025, Some(512)).is_err());
    assert!(validate_parameters(32, Some(8193)).is_err());
}

// ---- output path and model name ----

#[test]
fn test_validate_output_path_no_extension() {
    let result = validate_output_extension("/tmp/output");
    assert!(result.is_err());
    assert!(result.unwrap_err().contains("must have .parquet extension"));
}

#[test]
fn test_validate_output_path_wrong_extension() {
    let result = validate_output_extension("/tmp/output.txt");
    assert!(result.is_err());
    assert!(result.unwrap_err().contains("must have .parquet extension"));
}

#[test]
fn output_path_with_parquet_extension_passes() {
    assert!(validate_output_extension("/tmp/dir/output.parquet").is_ok());
    assert_eq!(
        validate_output_extension("/tmp/output.txt").unwrap_err(),
        "Output file must have .parquet extension, got: /tmp/output.txt\n💡 Use a .parquet extension for the output file"
    );
}

#[test]
fn test_validate_model_source_empty() {
    let result = validate_model_named("");
    assert!(result.is_err());
    assert!(result.unwrap_err().contains("Model path cannot be empty"));
}

#[test]
fn test_error_messages_contain_suggestions() {
    let error_msg = validate_model_named("").unwrap_err();
    assert!(error_msg.contains("💡"));
    assert!(error_msg.contains("HuggingFace repo"));

    let error_msg = validate_output_extension("/tmp/output.txt").unwrap_err();
    assert!(error_msg.contains("💡"));
    assert!(error_msg.contains(".parquet"));

    let error_msg = validate_parameters(0, None).unwrap_err();
    assert!(error_msg.contains("💡"));
    assert!(error_msg.contains("reasonable batch size"));
}

#[test]
fn huggingface_is_used_for_slashed_names_that_are_no_path() {
    assert!(use_huggingface("microsoft/DialoGPT-medium", false));
    assert!(!use_huggingface("microsoft/DialoGPT-medium", true));
    assert!(!use_huggingface("local_model", false));
}

#[test]
fn non_blank_lines_are_counted() {
    let lines = vec![
        "Hello world".to_string(),
        "".to_string(),
        "   ".to_string(),
        "\tTest content ".to_string(),
    ];
    assert_eq!(count_non_empty(&lines), 2);
    assert_eq!(count_non_empty(&vec![]), 0);
}

// ---- agent runner arguments ----

fn good_args() -> AgentArgs {
    AgentArgs {
        model: "microsoft/DialoGPT-medium".to_string(),
        filename: None,
        prompt: "Hello".to_string(),
        limit: 512,
        batch_size: 512,
        max_queue_size: 10,
        request_timeout: 30,
        worker_threads: 1,
        max_sessions: 10,
        session_timeout: 3600,
        temperature_bits: 0.7f32.to_bits(),
        top_p_bits: 0.9f32.to_bits(),
        debug: false,
    }
}

const NO_PATH: PathFacts = PathFacts { exists: false, is_dir: false };

fn invalid_text(r: Result<(), ArgsError>) -> String {
    match r {
        Err(ArgsError::Invalid(m)) => m,
        other => panic!("expected Invalid, got {:?}", other),
    }
}

#[test]
fn valid_arguments_pass() {
    assert!(validate_args(&good_args(), NO_PATH).is_ok());
    let mut local = good_args();
    local.model = "./models/qwen".to_string();
    assert!(validate_args(&local, PathFacts { exists: true, is_dir: true }).is_ok());
}

#[test]
fn model_argument_checks() {
    let mut a = good_args();
    a.model = String::new();
    assert_eq!(invalid_text(validate_args(&a, NO_PATH)), "Model path cannot be empty");

    a.model = "/no/such/dir".to_string();
    assert_eq!(
        invalid_text(validate_args(&a, NO_PATH)),
        "Local model path does not exist: /no/such/dir. Please check that the path is correct."
    );
    assert_eq!(
        invalid_text(validate_args(&a, PathFacts { exists: true, is_dir: false })),
        "Local model path must be a directory: /no/such/dir. Please provide a folder containing model files."
    );

    a.model = "justaname".to_string();
    assert_eq!(
        invalid_text(validate_args(&a, NO_PATH)),
        "HuggingFace model repo must be in format 'organization/model': justaname. Example: microsoft/DialoGPT-medium"
    );

    a.model = "a/b/c".to_string();
    assert_eq!(
        invalid_text(validate_args(&a, NO_PATH)),
        "Invalid HuggingFace repo format: a/b/c. Must be exactly 'organization/model'"
    );
}

#[test]
fn numeric_argument_checks() {
    let mut a = good_args();
    a.limit = 0;
    assert_eq!(invalid_text(validate_args(&a, NO_PATH)), "Token limit must be greater than 0");
    a.limit = 9000;
    assert_eq!(
        invalid_text(validate_args(&a, NO_PATH)),
        "Token limit is too large: 9000. Maximum recommended limit is 8192 tokens."
    );

    let mut a = good_args();
    a.prompt = "   ".to_string();
    assert_eq!(invalid_text(validate_args(&a, NO_PATH)), "Prompt cannot be empty");

    let mut a = good_args();
    a.batch_size = 4096;
    assert_eq!(
        invalid_text(validate_args(&a, NO_PATH)),
        "Batch size is too large: 4096. Maximum recommended is 2048"
    );

    let mut a = good_args();
    a.worker_threads = 0;
    assert_eq!(invalid_text(validate_args(&a, NO_PATH)), "Worker threads must be greater than 0");

    let mut a = good_args();
    a.session_timeout = 0;
    assert_eq!(
        invalid_text(validate_args(&a, NO_PATH)),
        "Session timeout must be greater than 0 seconds"
    );
}

#[test]
fn sampling_range_checks() {
    let mut a = good_args();
    a.temperature_bits = 1.5f32.to_bits();
    assert!(matches!(validate_args(&a, NO_PATH), Err(ArgsError::TemperatureOutOfRange)));
    a.temperature_bits = 2.0f32.to_bits();
    assert!(matches!(validate_args(&a, NO_PATH), Err(ArgsError::TemperatureOutOfRange)));
    a.temperature_bits = 1.0f32.to_bits();
    assert!(validate_args(&a, NO_PATH).is_ok());
    a.temperature_bits = 0.0f32.to_bits();
    assert!(validate_args(&a, NO_PATH).is_ok());
    a.temperature_bits = (-0.1f32).to_bits();
    assert!(matches!(validate_args(&a, NO_PATH), Err(ArgsError::TemperatureOutOfRange)));
    a.temperature_bits = f32::NAN.to_bits();
    assert!(matches!(validate_args(&a, NO_PATH), Err(ArgsError::TemperatureOutOfRange)));

    let mut a = good_args();
    a.top_p_bits = 1.5f32.to_bits();
    assert!(matches!(validate_args(&a, NO_PATH), Err(ArgsError::TopPOutOfRange)));
    a.top_p_bits = 0.0f32.to_bits();
    assert!(validate_args(&a, NO_PATH).is_ok());
    a.top_p_bits = f32::NAN.to_bits();
    assert!(matches!(validate_args(&a, NO_PATH), Err(ArgsError::TopPOutOfRange)));
}

#[test]
fn float_range_test_matches_comparisons() {
    for x in [-1.0f32, -0.0, 0.0, 0.5, 1.0, 1.0000001, 2.0, 3.0, f32::INFINITY, f32::NEG_INFINITY, f32::NAN] {
        let expected = !(0.0f32..=1.0).contains(&x);
        assert_eq!(f32_outside(x.to_bits(), 1.0f32.to_bits()), expected, "value {}", x);
    }
}

#[test]
fn local_paths_are_recognised() {
    assert!(is_local_model_path("/abs/path"));
    assert!(is_local_model_path("./rel"));
    assert!(is_local_model_path("../up"));
    assert!(is_local_model_path("C:\\models\\x"));
    assert!(!is_local_model_path("org/model"));
    assert!(!is_local_model_path(".hidden/x"));
}

// ---- streamed output ----

#[test]
fn stream_tally_accumulates_chunks() {
    let mut tally = StreamTally::new();
    let done = tally.absorb(&StreamChunk { text: "Hel".to_string(), is_complete: false, token_count: 1 });
    assert!(!done);
    let done = tally.absorb(&StreamChunk { text: "lo".to_string(), is_complete: true, token_count: 2 });
    assert!(done);
    assert_eq!(tally.text, "Hello");
    assert_eq!(tally.token_count, 3);
}

#[test]
fn tool_requests_need_a_fence_and_a_keyword() {
    assert!(looks_like_tool_request("```json\n{\"function_call\": {}}\n```"));
    assert!(looks_like_tool_request("``` tool_call ```"));
    assert!(!looks_like_tool_request("function_call without fence"));
    assert!(!looks_like_tool_request("```plain code```"));
}

#[test]
fn exit_codes_follow_the_message() {
    assert_eq!(exit_code_for("Model path does not exist: /x"), 2);
    assert_eq!(exit_code_for("Invalid HuggingFace repo"), 2);
    assert_eq!(exit_code_for("Token limit must be greater than 0"), 2);
    assert_eq!(exit_code_for("Prompt cannot be empty"), 2);
    assert_eq!(exit_code_for("Batch size must be between 1 and 2048"), 2);
    assert_eq!(exit_code_for("Max length too large"), 2);
    assert_eq!(exit_code_for("Invalid something"), 2);
    assert_eq!(exit_code_for("Failed to load model: no file"), 3);
    assert_eq!(exit_code_for("Failed to initialize embedding model"), 3);
    assert_eq!(exit_code_for("Model loading failed"), 3);
    assert_eq!(exit_code_for("Invalid model; Failed to load model"), 2);
    assert_eq!(exit_code_for("Out of memory"), 1);
    assert_eq!(exit_code_for(""), 1);
}

#[test]
fn output_settings_are_checked_in_order() {
    assert_eq!(check_output_settings(384, 0), Some(OutputSettingsError::InvalidBatchSize));
    assert_eq!(check_output_settings(0, 0), Some(OutputSettingsError::InvalidBatchSize));
    assert_eq!(check_output_settings(0, 10), Some(OutputSettingsError::EmptyEmbedding));
    assert_eq!(check_output_settings(384, 10), None);
}

#[test]
fn first_mismatching_embedding_is_found() {
    assert_eq!(first_dimension_mismatch(&vec![4, 4, 3, 5], 4), Some(2));
    assert_eq!(first_dimension_mismatch(&vec![4, 4], 4), None);
    assert_eq!(first_dimension_mismatch(&vec![], 4), None);
    assert!(buffer_is_full(10, 10));
    assert!(!buffer_is_full(9, 10));
}
