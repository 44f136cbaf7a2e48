use llama_agent::model::{get_optimal_thread_count, parse_u64, process_memory_mb, split_words};

#[test]
fn thread_count_is_three_quarters_of_the_cores_within_bounds() {
    assert_eq!(get_optimal_thread_count(None), 3);
    assert_eq!(get_optimal_thread_count(Some(1)), 1);
    assert_eq!(get_optimal_thread_count(Some(0)), 1);
    assert_eq!(get_optimal_thread_count(Some(8)), 6);
    assert_eq!(get_optimal_thread_count(Some(10)), 7);
    assert_eq!(get_optimal_thread_count(Some(64)), 16);
}

#[test]
fn numbers_are_read_like_from_str() {
    assert_eq!(parse_u64("12345"), Some(12345));
    assert_eq!(parse_u64("+7"), Some(7));
    assert_eq!(parse_u64("18446744073709551615"), Some(u64::MAX));
    assert_eq!(parse_u64("18446744073709551616"), None);
    assert_eq!(parse_u64(""), None);
    assert_eq!(parse_u64("+"), None);
    assert_eq!(parse_u64("-1"), None);
    assert_eq!(parse_u64("12a"), None);
    for text in ["0", "42", "+0", "007", "99999999999999999999", " 1", "1 "] {
        assert_eq!(parse_u64(text), text.parse::<u64>().ok(), "text {:?}", text);
    }
}

#[test]
fn words_are_split_on_whitespace() {
    let words: Vec<String> = split_words("  VmRSS:\t  1024 kB ").into_iter().map(|w| w.into_iter().collect()).collect();
    assert_eq!(words, vec!["VmRSS:", "1024", "kB"]);
    assert!(split_words("   ").is_empty());
}

#[test]
fn resident_memory_is_read_from_the_status() {
    let status = "Name:\tllama\nVmPeak:\t  900000 kB\nVmRSS:\t  204800 kB\nThreads:\t4\n";
    assert_eq!(process_memory_mb(status), 200);
    assert_eq!(process_memory_mb("Name:\tx\n"), 0);
    assert_eq!(process_memory_mb("VmRSS: lots kB\nVmRSS: 2048 kB\n"), 2);
}
