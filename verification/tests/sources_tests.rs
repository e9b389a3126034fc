use brave_search::message::{decimal_string, make_context_message};
use brave_search::sources::{
    grounded_sources, normalize_snippet, trim_or_none, BraveResponse, Grounding,
    GroundingResult, SourceMetadata,
};

fn result(name: Option<&str>, url: &str, title: Option<&str>, snippets: &[&str]) -> GroundingResult {
    GroundingResult {
        name: name.map(|s| s.to_string()),
        url: url.to_string(),
        title: title.map(|s| s.to_string()),
        snippets: if snippets.is_empty() {
            None
        } else {
            Some(snippets.iter().map(|s| s.to_string()).collect())
        },
    }
}

fn response(
    poi: Option<GroundingResult>,
    map: Vec<GroundingResult>,
    generic: Vec<GroundingResult>,
    sources: Vec<(&str, SourceMetadata)>,
) -> BraveResponse {
    BraveResponse {
        grounding: Some(Grounding {
            generic: Some(generic),
            poi,
            map: Some(map),
        }),
        sources: Some(sources.into_iter().map(|(k, v)| (k.to_string(), v)).collect()),
    }
}

fn meta(title: Option<&str>, hostname: Option<&str>, age: &[&str]) -> SourceMetadata {
    SourceMetadata {
        title: title.map(|s| s.to_string()),
        hostname: hostname.map(|s| s.to_string()),
        age: Some(age.iter().map(|s| s.to_string()).collect()),
    }
}

#[test]
fn snippets_collapse_white_space() {
    assert_eq!(normalize_snippet("  a \n b\t\tc "), "a b c");
    assert_eq!(normalize_snippet(" \n "), "");
}

#[test]
fn long_snippets_are_shortened_with_an_ellipsis() {
    let long = "z".repeat(300);
    let short = normalize_snippet(&long);
    assert_eq!(short, format!("{}...", "z".repeat(277)));
    assert_eq!(short.chars().count(), 280);
    let exact = "q".repeat(280);
    assert_eq!(normalize_snippet(&exact), exact);
    assert_eq!(normalize_snippet(&short), short);
}

#[test]
fn trim_or_none_drops_blank_text() {
    assert_eq!(trim_or_none(None), None);
    assert_eq!(trim_or_none(Some("   ".to_string())), None);
    assert_eq!(trim_or_none(Some(" hi ".to_string())), Some("hi".to_string()));
    assert_eq!(trim_or_none(trim_or_none(Some(" hi ".to_string()))), Some("hi".to_string()));
}

#[test]
fn sources_follow_poi_map_generic_order() {
    let resp = response(
        Some(result(Some("Poi"), "https://poi.example", None, &[])),
        vec![result(Some("Map"), "https://map.example", None, &[])],
        vec![result(Some("Gen"), "https://gen.example", None, &[])],
        vec![],
    );
    let sources = grounded_sources(&resp);
    let urls: Vec<&str> = sources.iter().map(|s| s.url.as_str()).collect();
    assert_eq!(urls, vec!["https://poi.example", "https://map.example", "https://gen.example"]);
}

#[test]
fn repeated_urls_merge_their_snippets() {
    let resp = response(
        None,
        vec![],
        vec![
            result(Some("First"), " https://a.example ", None, &["one"]),
            result(Some("Second"), "https://a.example", None, &["one", "two", "three"]),
        ],
        vec![],
    );
    let sources = grounded_sources(&resp);
    assert_eq!(sources.len(), 1);
    assert_eq!(sources[0].url, "https://a.example");
    assert_eq!(sources[0].title, "First");
    assert_eq!(sources[0].snippets, vec!["one".to_string(), "two".to_string()]);
}

#[test]
fn full_sources_gain_no_snippets() {
    let resp = response(
        None,
        vec![],
        vec![
            result(None, "https://a.example", None, &["  ", "x", "y", "z"]),
            result(None, "https://a.example", None, &["w"]),
        ],
        vec![],
    );
    let sources = grounded_sources(&resp);
    assert_eq!(sources[0].snippets, vec!["x".to_string(), "y".to_string()]);
}

#[test]
fn at_most_six_sources_are_kept() {
    let generic: Vec<GroundingResult> =
        (0..8).map(|i| result(None, &format!("https://s{i}.example"), None, &[])).collect();
    let sources = grounded_sources(&response(None, vec![], generic, vec![]));
    assert_eq!(sources.len(), 6);
    assert_eq!(sources[5].url, "https://s5.example");
}

#[test]
fn blank_urls_are_skipped() {
    let resp = response(None, vec![], vec![result(Some("x"), "   ", None, &["s"])], vec![]);
    assert!(grounded_sources(&resp).is_empty());
    let empty = BraveResponse { grounding: None, sources: None };
    assert!(grounded_sources(&empty).is_empty());
}

#[test]
fn titles_fall_back_in_order() {
    let resp = response(
        None,
        vec![],
        vec![
            result(Some("  "), "https://a.example", Some(" Title A "), &[]),
            result(None, "https://b.example", Some(""), &[]),
            result(None, "https://c.example", None, &[]),
        ],
        vec![("https://b.example", meta(Some(" Meta B "), Some(" b.example "), &[" 2 days ago ", "x"]))],
    );
    let sources = grounded_sources(&resp);
    assert_eq!(sources[0].title, "Title A");
    assert_eq!(sources[1].title, "Meta B");
    assert_eq!(sources[1].hostname, Some("b.example".to_string()));
    assert_eq!(sources[1].age, Some("2 days ago".to_string()));
    assert_eq!(sources[2].title, "https://c.example");
    assert_eq!(sources[2].hostname, None);
    assert_eq!(sources[2].age, None);
}

#[test]
fn decimal_numbers_are_written_plainly() {
    assert_eq!(decimal_string(0), "0");
    assert_eq!(decimal_string(7), "7");
    assert_eq!(decimal_string(10), "10");
    assert_eq!(decimal_string(1234), "1234");
    assert_eq!(decimal_string(usize::MAX), usize::MAX.to_string());
}

const INTRO: &str = "Live Brave Search grounding is enabled for the latest user message.\nUse the web context below when it is relevant. Prefer this grounding over stale model memory for time-sensitive claims.\nCite source hostnames or URLs when you rely on this web grounding.";

#[test]
fn message_without_sources_says_so() {
    let empty = BraveResponse { grounding: None, sources: None };
    assert_eq!(
        make_context_message(&empty, "rust news", false),
        format!("{INTRO}\nSearch query: rust news\n\nNo relevant Brave Search grounding was returned for this query.")
    );
}

#[test]
fn incognito_message_carries_the_extra_line() {
    let empty = BraveResponse { grounding: None, sources: None };
    let message = make_context_message(&empty, "q", true);
    assert_eq!(
        message,
        format!("{INTRO}\nThis request came from an incognito chat, so treat the web grounding as ephemeral session context only.\nSearch query: q\n\nNo relevant Brave Search grounding was returned for this query.")
    );
}

#[test]
fn message_lists_numbered_sources() {
    let resp = response(
        None,
        vec![],
        vec![
            result(Some("Alpha"), "https://a.example", None, &["first  snippet"]),
            result(Some("Beta"), "https://b.example", None, &[]),
        ],
        vec![("https://a.example", meta(None, Some("a.example"), &["1 day"]))],
    );
    let message = make_context_message(&resp, "alpha beta", false);
    assert_eq!(
        message,
        format!("{INTRO}\nSearch query: alpha beta\n\nWeb Sources:\n1. Alpha\nURL: https://a.example\nHost: a.example\nAge: 1 day\nSnippets:\n- first snippet\n\n2. Beta\nURL: https://b.example")
    );
}
