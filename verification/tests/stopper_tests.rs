use llama_agent::stopper::{EosStopper, MaxTokensStopper, RepetitionConfig, RepetitionStopper, Stopper};
use llama_agent::types::FinishReason;

#[test]
fn test_eos_stopper_creation() {
    let eos_token_id = 2;
    let stopper = EosStopper::new(eos_token_id);
    assert_eq!(stopper.eos_token_id(), eos_token_id);
}

#[test]
fn test_eos_stopper_different_token_ids() {
    let test_cases = [0, 1, 2, 128001, 999999];
    for token_id in test_cases {
        let stopper = EosStopper::new(token_id);
        assert_eq!(stopper.eos_token_id(), token_id);
    }
}

#[test]
fn test_eos_stopper_interface_compliance() {
    let stopper = EosStopper::new(2);
    let _boxed: Box<dyn Stopper> = Box::new(stopper);
}

#[test]
fn test_eos_stopper_thread_safety() {
    fn assert_send<T: Send>() {}
    fn assert_sync<T: Sync>() {}
    assert_send::<EosStopper>();
    assert_sync::<EosStopper>();
    let stopper = EosStopper::new(2);
    let _moved_stopper = stopper;
}

#[test]
fn test_eos_stopper_clone_and_debug() {
    let eos_token_id = 128001;
    let stopper = EosStopper::new(eos_token_id);
    let debug_str = format!("{:?}", stopper);
    assert!(debug_str.contains("EosStopper"));
    assert!(debug_str.contains("128001"));
}

#[test]
fn test_eos_stopper_edge_cases() {
    let boundary_cases = [0, u32::MAX, 1, 2];
    for token_id in boundary_cases {
        let stopper = EosStopper::new(token_id);
        assert_eq!(stopper.eos_token_id(), token_id);
        let debug_output = format!("{:?}", stopper);
        assert!(debug_output.contains(&token_id.to_string()));
    }
}

#[test]
fn eos_stopper_never_stops_on_its_own() {
    let mut stopper = EosStopper::new(2);
    assert!(stopper.should_stop(0).is_none());
    assert_eq!(stopper.eos_token_id(), 2);
}

#[test]
fn max_tokens_stopper_counts_batches_and_stops_at_the_limit() {
    let mut stopper = MaxTokensStopper::new(10);
    assert_eq!(stopper.max_tokens(), 10);
    assert_eq!(stopper.tokens_generated(), 0);
    assert!(stopper.should_stop(0).is_none());
    assert!(stopper.should_stop(4).is_none());
    assert_eq!(stopper.tokens_generated(), 4);
    match stopper.should_stop(6) {
        Some(FinishReason::Stopped(reason)) => {
            assert!(reason.contains("Maximum tokens reached"));
            assert_eq!(reason, "Maximum tokens reached (10/10)");
        },
        None => panic!("expected a stop"),
    }
    assert_eq!(stopper.tokens_generated(), 10);
}

#[test]
fn zero_limit_stops_at_once() {
    let mut stopper = MaxTokensStopper::new(0);
    match stopper.should_stop(0) {
        Some(FinishReason::Stopped(reason)) => assert!(reason.contains("Maximum tokens reached")),
        None => panic!("expected a stop"),
    }
    let mut saturating = MaxTokensStopper::new(usize::MAX);
    assert!(saturating.should_stop(usize::MAX - 1).is_none());
    assert!(saturating.should_stop(5).is_some());
    assert_eq!(saturating.tokens_generated(), usize::MAX);
}

#[test]
fn test_repetition_config_default() {
    let config = RepetitionConfig::default();
    assert_eq!(config.min_pattern_length, 10);
    assert_eq!(config.max_pattern_length, 100);
    assert_eq!(config.min_repetitions, 3);
    assert_eq!(config.window_size, 1000);
}

#[test]
fn test_repetition_stopper_creation() {
    let config = RepetitionConfig::default();
    let stopper = RepetitionStopper::new(config.clone());
    assert_eq!(stopper.config().min_pattern_length, config.min_pattern_length);
    assert_eq!(stopper.config().max_pattern_length, config.max_pattern_length);
    assert_eq!(stopper.config().min_repetitions, config.min_repetitions);
    assert_eq!(stopper.config().window_size, config.window_size);
    assert_eq!(stopper.window_token_count(), 0);
    assert_eq!(stopper.current_window_size(), 0);
}

#[test]
fn test_add_token_text() {
    let mut stopper = RepetitionStopper::new(RepetitionConfig::default());
    stopper.add_token_text("Hello".to_string());
    assert_eq!(stopper.window_token_count(), 1);
    assert_eq!(stopper.current_window_size(), 5);
    stopper.add_token_text(" World".to_string());
    assert_eq!(stopper.window_token_count(), 2);
    assert_eq!(stopper.current_window_size(), 11);
}

#[test]
fn test_window_text_concatenation() {
    let mut stopper = RepetitionStopper::new(RepetitionConfig::default());
    stopper.add_token_text("Hello".to_string());
    stopper.add_token_text(" ".to_string());
    stopper.add_token_text("World".to_string());
    assert_eq!(stopper.get_window_text(), "Hello World");
}

#[test]
fn test_window_size_enforcement() {
    let config = RepetitionConfig { min_pattern_length: 5, max_pattern_length: 20, min_repetitions: 2, window_size: 10 };
    let mut stopper = RepetitionStopper::new(config);
    stopper.add_token_text("Hello".to_string());
    stopper.add_token_text(" ".to_string());
    stopper.add_token_text("World".to_string());
    assert!(stopper.current_window_size() <= 10);
    let window_text = stopper.get_window_text();
    assert!(!window_text.starts_with("Hello"));
}

#[test]
fn window_keeps_the_most_recent_tokens_that_fit() {
    let config = RepetitionConfig { min_pattern_length: 5, max_pattern_length: 20, min_repetitions: 2, window_size: 10 };
    let mut stopper = RepetitionStopper::new(config);
    stopper.add_token_text("Hello".to_string());
    stopper.add_token_text(" ".to_string());
    stopper.add_token_text("World".to_string());
    assert_eq!(stopper.get_window_text(), " World");
    assert_eq!(stopper.current_window_size(), 6);
    stopper.add_token_text("this token is too long".to_string());
    assert_eq!(stopper.get_window_text(), "");
    assert_eq!(stopper.current_window_size(), 0);
}

#[test]
fn window_size_counts_characters() {
    let mut stopper = RepetitionStopper::new(RepetitionConfig::default());
    stopper.add_token_text("é".to_string());
    assert_eq!(stopper.current_window_size(), 1);
    let config = RepetitionConfig { min_pattern_length: 1, max_pattern_length: 1, min_repetitions: 2, window_size: 1 };
    let mut small = RepetitionStopper::new(config);
    small.add_token_text("é".to_string());
    assert_eq!(small.get_window_text(), "é");
    small.add_token_text("ü".to_string());
    assert_eq!(small.get_window_text(), "ü");
}

#[test]
fn test_repetition_detection_simple_pattern() {
    let config = RepetitionConfig { min_pattern_length: 3, max_pattern_length: 10, min_repetitions: 3, window_size: 100 };
    let mut stopper = RepetitionStopper::new(config);
    stopper.add_token_text("abc".to_string());
    stopper.add_token_text("abc".to_string());
    stopper.add_token_text("abc".to_string());
    let result = stopper.detect_repetition();
    assert!(result.is_some());
    let (pattern, count) = result.unwrap();
    assert_eq!(pattern, "abc");
    assert_eq!(count, 3);
}

#[test]
fn test_repetition_detection_no_repetition() {
    let config = RepetitionConfig { min_pattern_length: 3, max_pattern_length: 10, min_repetitions: 3, window_size: 100 };
    let mut stopper = RepetitionStopper::new(config);
    stopper.add_token_text("Hello".to_string());
    stopper.add_token_text(" ".to_string());
    stopper.add_token_text("World".to_string());
    assert!(stopper.detect_repetition().is_none());
}

#[test]
fn test_repetition_detection_insufficient_repetitions() {
    let config = RepetitionConfig { min_pattern_length: 3, max_pattern_length: 10, min_repetitions: 3, window_size: 100 };
    let mut stopper = RepetitionStopper::new(config);
    stopper.add_token_text("abc".to_string());
    stopper.add_token_text("abc".to_string());
    assert!(stopper.detect_repetition().is_none());
}

#[test]
fn test_repetition_detection_longer_patterns() {
    let config = RepetitionConfig { min_pattern_length: 5, max_pattern_length: 20, min_repetitions: 2, window_size: 100 };
    let mut stopper = RepetitionStopper::new(config);
    let pattern = "hello world ";
    stopper.add_token_text(pattern.to_string());
    stopper.add_token_text(pattern.to_string());
    let result = stopper.detect_repetition();
    assert!(result.is_some());
    let (detected_pattern, count) = result.unwrap();
    assert_eq!(detected_pattern, pattern);
    assert_eq!(count, 2);
}

#[test]
fn test_repetition_detection_prioritizes_longer_patterns() {
    let config = RepetitionConfig { min_pattern_length: 2, max_pattern_length: 10, min_repetitions: 2, window_size: 100 };
    let mut stopper = RepetitionStopper::new(config);
    stopper.add_token_text("ab".to_string());
    stopper.add_token_text("ab".to_string());
    stopper.add_token_text("ab".to_string());
    let result = stopper.detect_repetition();
    assert!(result.is_some());
    let (pattern, count) = result.unwrap();
    assert_eq!(pattern, "ab");
    assert_eq!(count, 3);
}

#[test]
fn test_repetition_detection_pattern_too_short() {
    let config = RepetitionConfig { min_pattern_length: 10, max_pattern_length: 20, min_repetitions: 2, window_size: 100 };
    let mut stopper = RepetitionStopper::new(config);
    stopper.add_token_text("abc".to_string());
    stopper.add_token_text("abc".to_string());
    assert!(stopper.detect_repetition().is_none());
}

#[test]
fn test_repetition_detection_window_too_small() {
    let config = RepetitionConfig { min_pattern_length: 5, max_pattern_length: 20, min_repetitions: 2, window_size: 100 };
    let mut stopper = RepetitionStopper::new(config);
    stopper.add_token_text("hi".to_string());
    assert!(stopper.detect_repetition().is_none());
}

#[test]
fn test_repetition_detection_mixed_content() {
    let config = RepetitionConfig { min_pattern_length: 4, max_pattern_length: 15, min_repetitions: 3, window_size: 200 };
    let mut stopper = RepetitionStopper::new(config);
    stopper.add_token_text("The quick brown fox ".to_string());
    stopper.add_token_text("test ".to_string());
    stopper.add_token_text("test ".to_string());
    stopper.add_token_text("test ".to_string());
    let result = stopper.detect_repetition();
    assert!(result.is_some());
    let (pattern, count) = result.unwrap();
    assert_eq!(pattern, "test ");
    assert_eq!(count, 3);
}

#[test]
fn test_repetition_detection_partial_pattern_at_end() {
    let config = RepetitionConfig { min_pattern_length: 4, max_pattern_length: 15, min_repetitions: 3, window_size: 100 };
    let mut stopper = RepetitionStopper::new(config);
    stopper.add_token_text("test".to_string());
    stopper.add_token_text("test".to_string());
    stopper.add_token_text("test".to_string());
    stopper.add_token_text("te".to_string());
    let result = stopper.detect_repetition();
    assert!(result.is_some());
    let (_pattern, count) = result.unwrap();
    assert!(count >= 3);
}

#[test]
fn partial_pattern_at_end_is_found_as_its_rotation() {
    let config = RepetitionConfig { min_pattern_length: 4, max_pattern_length: 15, min_repetitions: 3, window_size: 100 };
    let mut stopper = RepetitionStopper::new(config);
    stopper.add_token_text("test".to_string());
    stopper.add_token_text("test".to_string());
    stopper.add_token_text("test".to_string());
    stopper.add_token_text("te".to_string());
    assert_eq!(stopper.detect_repetition(), Some(("stte".to_string(), 3)));
}

#[test]
fn test_stopper_trait_compliance() {
    let stopper = RepetitionStopper::new(RepetitionConfig::default());
    let _boxed: Box<dyn Stopper> = Box::new(stopper);
}

#[test]
fn test_thread_safety() {
    fn assert_send<T: Send>() {}
    assert_send::<RepetitionStopper>();
}

#[test]
fn test_edge_case_empty_tokens() {
    let mut stopper = RepetitionStopper::new(RepetitionConfig::default());
    stopper.add_token_text("".to_string());
    stopper.add_token_text("test".to_string());
    stopper.add_token_text("".to_string());
    assert_eq!(stopper.get_window_text(), "test");
    assert_eq!(stopper.window_token_count(), 1);
}

#[test]
fn test_large_window_size() {
    let config = RepetitionConfig { min_pattern_length: 3, max_pattern_length: 10, min_repetitions: 2, window_size: 10000 };
    let mut stopper = RepetitionStopper::new(config);
    for i in 0..1000 {
        stopper.add_token_text(format!("token{} ", i));
    }
    assert!(stopper.current_window_size() <= 10000);
}

#[test]
fn test_config_edge_cases() {
    let config = RepetitionConfig { min_pattern_length: 0, max_pattern_length: 0, min_repetitions: 0, window_size: 0 };
    let mut stopper = RepetitionStopper::new(config);
    stopper.add_token_text("test".to_string());
    let _result = stopper.detect_repetition();
}

#[test]
fn test_unicode_support() {
    let config = RepetitionConfig { min_pattern_length: 1, max_pattern_length: 10, min_repetitions: 2, window_size: 100 };
    let mut stopper = RepetitionStopper::new(config);
    stopper.add_token_text("🔥".to_string());
    stopper.add_token_text("🔥".to_string());
    let result = stopper.detect_repetition();
    assert!(result.is_some());
    let (pattern, count) = result.unwrap();
    assert_eq!(pattern, "🔥");
    assert_eq!(count, 2);
}

#[test]
fn repetition_config_validation_messages() {
    assert!(RepetitionConfig::default().validate().is_ok());
    let bad = RepetitionConfig { min_pattern_length: 0, max_pattern_length: 10, min_repetitions: 3, window_size: 100 };
    assert!(bad.validate().is_err());
    let bad = RepetitionConfig { min_pattern_length: 5, max_pattern_length: 4, min_repetitions: 3, window_size: 100 };
    assert!(bad.validate().is_err());
}

#[test]
fn repetition_stopper_stops_with_a_reason() {
    let config = RepetitionConfig { min_pattern_length: 3, max_pattern_length: 10, min_repetitions: 3, window_size: 100 };
    let mut stopper = RepetitionStopper::new(config);
    assert!(stopper.should_stop(0).is_none());
    stopper.add_token_text("abc".to_string());
    stopper.add_token_text("abc".to_string());
    stopper.add_token_text("abc".to_string());
    assert!(stopper.should_stop(0).is_some());
}

#[test]
fn window_keeps_the_longest_recent_run_that_fits() {
    let config = RepetitionConfig { min_pattern_length: 1, max_pattern_length: 2, min_repetitions: 2, window_size: 6 };
    let mut stopper = RepetitionStopper::new(config);
    for t in ["aaaa", "", "bb", "ccc"] {
        stopper.add_token_text(t.to_string());
    }
    assert_eq!(stopper.get_window_text(), "bbccc");
    assert_eq!(stopper.window_token_count(), 2);
    assert_eq!(stopper.current_window_size(), 5);
    stopper.add_token_text("d".to_string());
    assert_eq!(stopper.get_window_text(), "bbcccd");
    stopper.add_token_text("eeeeeee".to_string());
    assert_eq!(stopper.get_window_text(), "");
    assert_eq!(stopper.window_token_count(), 0);
    stopper.add_token_text("é".to_string());
    assert_eq!(stopper.current_window_size(), 1);
}
