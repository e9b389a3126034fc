use brave_search::query::{
    freshness, freshness_of_lowercase, normalized_query, request_count,
    retry_requested_by_lowercase, should_retry_with_minimal_parameters, token_budget,
};

#[test]
fn request_count_follows_context_window_bands() {
    assert_eq!(request_count(0), 4);
    assert_eq!(request_count(8_191), 4);
    assert_eq!(request_count(8_192), 5);
    assert_eq!(request_count(16_383), 5);
    assert_eq!(request_count(16_384), 6);
    assert_eq!(request_count(32_767), 6);
    assert_eq!(request_count(32_768), 8);
    assert_eq!(request_count(usize::MAX), 8);
}

#[test]
fn token_budget_is_a_clamped_quarter() {
    assert_eq!(token_budget(0), 2_048);
    assert_eq!(token_budget(8_192), 2_048);
    assert_eq!(token_budget(8_196), 2_049);
    assert_eq!(token_budget(16_000), 4_000);
    assert_eq!(token_budget(24_576), 6_144);
    assert_eq!(token_budget(100_000), 6_144);
    assert_eq!(token_budget(usize::MAX), 6_144);
}

#[test]
fn request_size_grows_with_the_window() {
    let windows = [0usize, 4_000, 8_192, 12_000, 16_384, 20_000, 32_768, 1 << 20];
    for pair in windows.windows(2) {
        assert!(request_count(pair[0]) <= request_count(pair[1]));
        assert!(token_budget(pair[0]) <= token_budget(pair[1]));
    }
}

#[test]
fn freshness_picks_a_day_for_present_words() {
    assert_eq!(freshness("What's the LATEST on Mars?"), Some("pd".to_string()));
    assert_eq!(freshness("Breaking: markets"), Some("pd".to_string()));
    assert_eq!(freshness("weather today"), Some("pd".to_string()));
    assert_eq!(freshness("what is happening Right Now"), Some("pd".to_string()));
    assert_eq!(freshness("current news on chips"), Some("pd".to_string()));
}

#[test]
fn freshness_picks_a_week_or_a_month() {
    assert_eq!(freshness("recent papers on RL"), Some("pw".to_string()));
    assert_eq!(freshness("games released This Week"), Some("pw".to_string()));
    assert_eq!(freshness("movies out this month"), Some("pm".to_string()));
}

#[test]
fn freshness_prefers_the_shortest_period() {
    assert_eq!(freshness("today and this week"), Some("pd".to_string()));
    assert_eq!(freshness("recent news this month"), Some("pw".to_string()));
}

#[test]
fn freshness_is_absent_for_timeless_queries() {
    assert_eq!(freshness("rust borrow checker"), None);
    assert_eq!(freshness(""), None);
    assert_eq!(freshness_of_lowercase("LATEST"), None);
    assert_eq!(freshness_of_lowercase("latest"), Some("pd".to_string()));
}

#[test]
fn retry_is_asked_for_parameter_errors() {
    assert!(should_retry_with_minimal_parameters("Unable to validate parameters"));
    assert!(should_retry_with_minimal_parameters("INVALID PARAMETER: count"));
    assert!(should_retry_with_minimal_parameters("could not Validate Parameters here"));
    assert!(!should_retry_with_minimal_parameters("Rate limit exceeded"));
    assert!(!should_retry_with_minimal_parameters(""));
    assert!(!retry_requested_by_lowercase("INVALID PARAMETER"));
    assert!(retry_requested_by_lowercase("invalid parameter"));
}

#[test]
fn normalized_query_collapses_white_space() {
    assert_eq!(normalized_query("  hello \n\t world  "), "hello world");
    assert_eq!(normalized_query("one\ntwo\r\nthree"), "one two three");
    assert_eq!(normalized_query("a\u{00A0}b\u{3000}c"), "a b c");
    assert_eq!(normalized_query("a\u{200B}b"), "a\u{200B}b");
}

#[test]
fn normalized_query_of_blank_message_is_empty() {
    assert_eq!(normalized_query(""), "");
    assert_eq!(normalized_query("   \n\t "), "");
}

#[test]
fn normalized_query_keeps_fifty_words() {
    let words: Vec<String> = (0..60).map(|i| format!("w{i}")).collect();
    let expected = words[..50].join(" ");
    assert_eq!(normalized_query(&words.join("  ")), expected);
}

#[test]
fn normalized_query_cuts_at_last_space_within_limit() {
    let word = "a".repeat(39);
    let words = vec![word.clone(); 11];
    let expected = vec![word; 10].join(" ");
    let result = normalized_query(&words.join(" "));
    assert_eq!(result, expected);
    assert_eq!(result.chars().count(), 399);
}

#[test]
fn normalized_query_cuts_a_single_long_word() {
    let long = "x".repeat(500);
    assert_eq!(normalized_query(&long), "x".repeat(400));
    let two = format!("{} tail", "y".repeat(450));
    assert_eq!(normalized_query(&two), "y".repeat(400));
}

#[test]
fn normalized_query_counts_characters_not_bytes() {
    let word = "é".repeat(300);
    let query = format!("{word} {word}");
    assert_eq!(normalized_query(&query), word);
}

#[test]
fn normalized_query_is_idempotent_on_examples() {
    let samples = [
        "  hello \n\t world  ".to_string(),
        "x".repeat(500),
        vec!["a".repeat(39); 11].join(" "),
        (0..70).map(|i| format!("word{i}")).collect::<Vec<_>>().join("\n"),
        "   ".to_string(),
    ];
    for sample in samples.iter() {
        let once = normalized_query(sample);
        assert_eq!(normalized_query(&once), once);
        assert!(once.chars().count() <= 400);
        assert!(once.split_whitespace().count() <= 50);
        assert_eq!(once.trim(), once);
    }
}
