use brave_search::context::{
    continue_context_search, full_request, minimal_request, search_failure_message,
    server_error_message, server_error_message_from, start_context_search,
    BraveSearchContextRequest, ContextStep, ErrorEnvelope, ErrorPayload, PendingSearch,
    SearchAttempt,
};
use brave_search::sources::BraveResponse;

fn request(query: &str, window: Option<usize>, incognito: bool) -> BraveSearchContextRequest {
    BraveSearchContextRequest {
        query: query.to_string(),
        context_window: window,
        is_incognito: incognito,
    }
}

fn pending(attempt: SearchAttempt) -> PendingSearch {
    PendingSearch { attempt, query: "latest rust".to_string(), is_incognito: false }
}

#[test]
fn key_errors_end_the_request() {
    let step = start_context_search(&Err("no key".to_string()), &request("hi", None, false));
    match step {
        ContextStep::Finished(Err(m)) => assert_eq!(m, "no key"),
        _ => panic!("expected an error"),
    }
}

#[test]
fn blank_messages_are_refused() {
    let step = start_context_search(&Ok("k".to_string()), &request(" \n ", None, false));
    match step {
        ContextStep::Finished(Err(m)) => {
            assert_eq!(m, "Enter a message before using Brave grounding.")
        }
        _ => panic!("expected an error"),
    }
}

#[test]
fn first_search_uses_all_parameters() {
    let step = start_context_search(&Ok("k".to_string()), &request("  latest   rust ", None, true));
    match step {
        ContextStep::Search { pending, request } => {
            assert!(matches!(pending.attempt, SearchAttempt::Full));
            assert_eq!(pending.query, "latest rust");
            assert!(pending.is_incognito);
            assert_eq!(request.q, "latest rust");
            assert_eq!(request.country.as_deref(), Some("us"));
            assert_eq!(request.search_lang.as_deref(), Some("en"));
            assert_eq!(request.count, Some(5));
            assert_eq!(request.freshness.as_deref(), Some("pd"));
            assert_eq!(request.maximum_number_of_urls, Some(5));
            assert_eq!(request.maximum_number_of_tokens, Some(2048));
            assert_eq!(request.maximum_number_of_snippets, Some(18));
            assert_eq!(request.maximum_number_of_tokens_per_url, Some(768));
            assert_eq!(request.maximum_number_of_snippets_per_url, Some(2));
            assert_eq!(request.context_threshold_mode.as_deref(), Some("balanced"));
        }
        _ => panic!("expected a search"),
    }
}

#[test]
fn full_request_is_sized_by_the_window() {
    let r = full_request(&"rust".to_string(), 40_000);
    assert_eq!(r.count, Some(8));
    assert_eq!(r.maximum_number_of_tokens, Some(6_144));
    assert_eq!(r.freshness, None);
}

#[test]
fn minimal_request_keeps_query_and_freshness() {
    let r = minimal_request(&"this week in rust".to_string());
    assert_eq!(r.q, "this week in rust");
    assert_eq!(r.freshness.as_deref(), Some("pw"));
    assert!(r.country.is_none() && r.search_lang.is_none() && r.count.is_none());
    assert!(r.maximum_number_of_urls.is_none() && r.maximum_number_of_tokens.is_none());
    assert!(r.maximum_number_of_snippets.is_none());
    assert!(r.maximum_number_of_tokens_per_url.is_none());
    assert!(r.maximum_number_of_snippets_per_url.is_none());
    assert!(r.context_threshold_mode.is_none());
}

#[test]
fn responses_become_payloads() {
    let empty = BraveResponse { grounding: None, sources: None };
    match continue_context_search(pending(SearchAttempt::Full), Ok(empty)) {
        ContextStep::Finished(Ok(payload)) => {
            assert!(payload.context_message.contains("Search query: latest rust"));
            assert!(payload.context_message.ends_with("No relevant Brave Search grounding was returned for this query."));
        }
        _ => panic!("expected a payload"),
    }
}

#[test]
fn parameter_errors_are_retried_once() {
    let step = continue_context_search(
        pending(SearchAttempt::Full),
        Err("Unable to validate parameters".to_string()),
    );
    let next = match step {
        ContextStep::Search { pending, request } => {
            assert!(matches!(pending.attempt, SearchAttempt::Minimal));
            assert_eq!(request.q, "latest rust");
            assert!(request.count.is_none());
            assert_eq!(request.freshness.as_deref(), Some("pd"));
            pending
        }
        _ => panic!("expected a retry"),
    };
    match continue_context_search(next, Err("Unable to validate parameters".to_string())) {
        ContextStep::Finished(Err(m)) => assert_eq!(m, "Unable to validate parameters"),
        _ => panic!("expected the error"),
    }
}

#[test]
fn other_errors_are_not_retried() {
    match continue_context_search(pending(SearchAttempt::Full), Err("timeout".to_string())) {
        ContextStep::Finished(Err(m)) => assert_eq!(m, "timeout"),
        _ => panic!("expected the error"),
    }
}

fn envelope(message: Option<&str>, detail: Option<&str>) -> Option<ErrorEnvelope> {
    Some(ErrorEnvelope {
        error: Some(ErrorPayload {
            message: message.map(|s| s.to_string()),
            detail: detail.map(|s| s.to_string()),
        }),
    })
}

#[test]
fn server_errors_prefer_message_then_detail_then_body() {
    assert_eq!(
        server_error_message(envelope(Some(" bad key "), Some("d")), b"{}"),
        Some("bad key".to_string())
    );
    assert_eq!(
        server_error_message(envelope(Some("  "), Some(" detail ")), b"{}"),
        Some("detail".to_string())
    );
    assert_eq!(
        server_error_message(envelope(None, None), b" raw body "),
        Some("raw body".to_string())
    );
    assert_eq!(server_error_message(None, b"  \n "), None);
    assert_eq!(
        server_error_message_from(Some(ErrorEnvelope { error: None }), " text "),
        Some("text".to_string())
    );
}

#[test]
fn server_error_bodies_are_read_lossily() {
    assert_eq!(
        server_error_message(None, b"  oops \xff "),
        Some("oops \u{FFFD}".to_string())
    );
    assert_eq!(
        server_error_message(None, "caf\u{e9}".as_bytes()),
        Some("caf\u{e9}".to_string())
    );
}

#[test]
fn silent_failures_get_a_general_message() {
    assert_eq!(search_failure_message(None, b""), "Brave Search request failed.");
    assert_eq!(search_failure_message(None, b"Forbidden"), "Forbidden");
}
