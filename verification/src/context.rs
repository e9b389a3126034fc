//! One grounding request from start to end: the query and the search
//! request built for it, the single retry with minimal parameters, the
//! reading of failed responses, and the payload handed back.

use vstd::prelude::*;

use crate::message::context_message_spec;
use crate::message::make_context_message;
use crate::query::{
    freshness, freshness_spec, normalized_query, normalized_query_spec, request_count,
    request_count_spec, retry_spec, should_retry_with_minimal_parameters, token_budget,
    token_budget_spec,
};
use crate::sources::{grounded_sources_spec, trim_or_none, trim_or_none_spec, BraveResponse};
use crate::text::{chars_of, lowercase_of, string_of, trim, trim_chars};

verus! {

broadcast use vstd::string::group_string_axioms;

/// The context window assumed when the request gives none.
pub const DEFAULT_CONTEXT_WINDOW: usize = 8192;

/// The most snippets asked for in all.
pub const MAX_SNIPPETS_ASKED: usize = 18;

/// The most tokens asked for per URL.
pub const MAX_TOKENS_PER_URL: usize = 768;

/// The most snippets asked for per URL.
pub const MAX_SNIPPETS_PER_URL: usize = 2;

/// The message when the message has nothing to search for.
pub const EMPTY_QUERY: &'static str = "Enter a message before using Brave grounding.";

/// The message for a failed response that explains nothing.
pub const SEARCH_FAILED: &'static str = "Brave Search request failed.";

/// A request for web context for a chat message.
pub struct BraveSearchContextRequest {
    pub query: String,
    pub context_window: Option<usize>,
    pub is_incognito: bool,
}

/// The web context for a chat message.
pub struct BraveSearchContextPayload {
    pub context_message: String,
}

/// The parameters of one search; a parameter that is `None` is not sent.
pub struct BraveRequest {
    pub q: String,
    pub country: Option<String>,
    pub search_lang: Option<String>,
    pub count: Option<usize>,
    pub freshness: Option<String>,
    pub maximum_number_of_urls: Option<usize>,
    pub maximum_number_of_tokens: Option<usize>,
    pub maximum_number_of_snippets: Option<usize>,
    pub maximum_number_of_tokens_per_url: Option<usize>,
    pub maximum_number_of_snippets_per_url: Option<usize>,
    pub context_threshold_mode: Option<String>,
}

/// The context window of a request.
pub open spec fn context_window_of(request: BraveSearchContextRequest) -> usize {
    match request.context_window {
        Some(w) => w,
        None => DEFAULT_CONTEXT_WINDOW,
    }
}

/// `r` is the full search for the query `q` with this context window:
/// US English results, sized by the context window, with the query's
/// freshness filter.
pub open spec fn is_full_request(r: BraveRequest, q: Seq<char>, context_window: usize) -> bool {
    &&& r.q@ == q
    &&& r.country.deep_view() == Some("us"@)
    &&& r.search_lang.deep_view() == Some("en"@)
    &&& r.count == Some(request_count_spec(context_window))
    &&& r.freshness.deep_view() == freshness_spec(lowercase_of(q))
    &&& r.maximum_number_of_urls == Some(request_count_spec(context_window))
    &&& r.maximum_number_of_tokens == Some(token_budget_spec(context_window))
    &&& r.maximum_number_of_snippets == Some(MAX_SNIPPETS_ASKED)
    &&& r.maximum_number_of_tokens_per_url == Some(MAX_TOKENS_PER_URL)
    &&& r.maximum_number_of_snippets_per_url == Some(MAX_SNIPPETS_PER_URL)
    &&& r.context_threshold_mode.deep_view() == Some("balanced"@)
}

/// `r` is the minimal search for the query `q`: the query and its
/// freshness filter, nothing else.
pub open spec fn is_minimal_request(r: BraveRequest, q: Seq<char>) -> bool {
    &&& r.q@ == q
    &&& r.country is None
    &&& r.search_lang is None
    &&& r.count is None
    &&& r.freshness.deep_view() == freshness_spec(lowercase_of(q))
    &&& r.maximum_number_of_urls is None
    &&& r.maximum_number_of_tokens is None
    &&& r.maximum_number_of_snippets is None
    &&& r.maximum_number_of_tokens_per_url is None
    &&& r.maximum_number_of_snippets_per_url is None
    &&& r.context_threshold_mode is None
}

/// A request without a context window is sized for 8192 tokens; the full
/// search asks for US English results, at most 18 snippets in all, 768
/// tokens and 2 snippets per URL, with the balanced threshold; the minimal
/// search sends only the query and its freshness filter.
pub proof fn law_search_parameters(
    request: BraveSearchContextRequest,
    r: BraveRequest,
    q: Seq<char>,
    context_window: usize,
)
    ensures
        request.context_window is None ==> context_window_of(request) == 8192,
        request.context_window matches Some(w) ==> context_window_of(request) == w,
        is_full_request(r, q, context_window) ==> {
            &&& r.q@ == q
            &&& r.count == Some(request_count_spec(context_window))
            &&& r.maximum_number_of_urls == r.count
            &&& r.maximum_number_of_tokens == Some(token_budget_spec(context_window))
            &&& r.maximum_number_of_snippets == Some(18usize)
            &&& r.maximum_number_of_tokens_per_url == Some(768usize)
            &&& r.maximum_number_of_snippets_per_url == Some(2usize)
            &&& r.country.deep_view() == Some("us"@)
            &&& r.search_lang.deep_view() == Some("en"@)
            &&& r.context_threshold_mode.deep_view() == Some("balanced"@)
            &&& r.freshness.deep_view() == freshness_spec(lowercase_of(q))
        },
        is_minimal_request(r, q) ==> r.q@ == q && r.freshness.deep_view() == freshness_spec(
            lowercase_of(q),
        ) && r.count is None && r.country is None && r.search_lang is None,
        EMPTY_QUERY@ == "Enter a message before using Brave grounding."@,
        SEARCH_FAILED@ == "Brave Search request failed."@,
{
}

/// The full search for `query`.
pub fn full_request(query: &String, context_window: usize) -> (r: BraveRequest)
    ensures
        is_full_request(r, query@, context_window),
{
    let count = request_count(context_window);
    BraveRequest {
        q: query.clone(),
        country: Some("us".to_string()),
        search_lang: Some("en".to_string()),
        count: Some(count),
        freshness: freshness(query.as_str()),
        maximum_number_of_urls: Some(count),
        maximum_number_of_tokens: Some(token_budget(context_window)),
        maximum_number_of_snippets: Some(MAX_SNIPPETS_ASKED),
        maximum_number_of_tokens_per_url: Some(MAX_TOKENS_PER_URL),
        maximum_number_of_snippets_per_url: Some(MAX_SNIPPETS_PER_URL),
        context_threshold_mode: Some("balanced".to_string()),
    }
}

/// The minimal search for `query`.
pub fn minimal_request(query: &String) -> (r: BraveRequest)
    ensures
        is_minimal_request(r, query@),
{
    BraveRequest {
        q: query.clone(),
        country: None,
        search_lang: None,
        count: None,
        freshness: freshness(query.as_str()),
        maximum_number_of_urls: None,
        maximum_number_of_tokens: None,
        maximum_number_of_snippets: None,
        maximum_number_of_tokens_per_url: None,
        maximum_number_of_snippets_per_url: None,
        context_threshold_mode: None,
    }
}

/// Which search of a grounding request is under way.
pub enum SearchAttempt {
    /// The first search, with all parameters.
    Full,
    /// The retry, with the minimal parameters.
    Minimal,
}

/// A grounding request whose search is under way.
pub struct PendingSearch {
    pub attempt: SearchAttempt,
    pub query: String,
    pub is_incognito: bool,
}

/// What to do next for a grounding request.
pub enum ContextStep {
    /// Send this search and hand its outcome to `continue_context_search`.
    Search { pending: PendingSearch, request: BraveRequest },
    /// The grounding request is answered.
    Finished(Result<BraveSearchContextPayload, String>),
}

/// Starts a grounding request, given what reading the API key gave: an
/// error of the key is the answer; a message without words is refused;
/// otherwise the full search for the normalized query is sent.
pub fn start_context_search(
    api_key: &Result<String, String>,
    request: &BraveSearchContextRequest,
) -> (step: ContextStep)
    ensures
        match api_key {
            Err(e) => step matches ContextStep::Finished(Err(m)) && m@ == e@,
            Ok(_) => {
                let q = normalized_query_spec(request.query@);
                if q.len() == 0 {
                    step matches ContextStep::Finished(Err(m)) && m@ == EMPTY_QUERY@
                } else {
                    step matches ContextStep::Search { pending, request: r } && pending.attempt
                        is Full && pending.query@ == q && pending.is_incognito
                        == request.is_incognito && is_full_request(
                        r,
                        q,
                        context_window_of(*request),
                    )
                }
            },
        },
{
    match api_key {
        Err(e) => {
            return ContextStep::Finished(Err(e.clone()));
        },
        Ok(_) => {},
    }
    let query = normalized_query(request.query.as_str());
    if query.as_str().is_empty() {
        return ContextStep::Finished(Err(EMPTY_QUERY.to_string()));
    }
    let context_window = match request.context_window {
        Some(w) => w,
        None => DEFAULT_CONTEXT_WINDOW,
    };
    let search = full_request(&query, context_window);
    ContextStep::Search {
        pending: PendingSearch { attempt: SearchAttempt::Full, query, is_incognito: request.is_incognito },
        request: search,
    }
}

/// Goes on with a grounding request once its search has an outcome: a
/// response is rendered into the payload; a failure of the full search that
/// asks for fewer parameters is retried once with the minimal ones; any
/// other failure is the answer.  A minimal search is never retried.
pub fn continue_context_search(pending: PendingSearch, outcome: Result<BraveResponse, String>) -> (step:
    ContextStep)
    ensures
        match outcome {
            Ok(response) => step matches ContextStep::Finished(Ok(payload))
                && payload.context_message@ == context_message_spec(
                grounded_sources_spec(&response),
                pending.query@,
                pending.is_incognito,
            ),
            Err(message) => if pending.attempt is Full && retry_spec(lowercase_of(message@)) {
                step matches ContextStep::Search { pending: next, request: r } && next.attempt
                    is Minimal && next.query@ == pending.query@ && next.is_incognito
                    == pending.is_incognito && is_minimal_request(r, pending.query@)
            } else {
                step matches ContextStep::Finished(Err(m)) && m@ == message@
            },
        },
        pending.attempt is Minimal ==> step is Finished,
{
    match outcome {
        Ok(response) => {
            let message = make_context_message(&response, pending.query.as_str(), pending.is_incognito);
            ContextStep::Finished(Ok(BraveSearchContextPayload { context_message: message }))
        },
        Err(message) => {
            let first = match pending.attempt {
                SearchAttempt::Full => true,
                SearchAttempt::Minimal => false,
            };
            if first && should_retry_with_minimal_parameters(message.as_str()) {
                let request = minimal_request(&pending.query);
                ContextStep::Search {
                    pending: PendingSearch {
                        attempt: SearchAttempt::Minimal,
                        query: pending.query,
                        is_incognito: pending.is_incognito,
                    },
                    request,
                }
            } else {
                ContextStep::Finished(Err(message))
            }
        },
    }
}

/// The explanation inside an error response.
pub struct ErrorPayload {
    pub message: Option<String>,
    pub detail: Option<String>,
}

/// An error response, as far as it could be read.
pub struct ErrorEnvelope {
    pub error: Option<ErrorPayload>,
}

/// What a failed response says: its error's message, else its error's
/// detail, each trimmed and used only when not empty; else the body's text,
/// trimmed, when not empty.
pub open spec fn server_error_spec(envelope: Option<ErrorEnvelope>, text: Seq<char>) -> Option<
    Seq<char>,
> {
    let from_envelope = match envelope {
        Some(ErrorEnvelope { error: Some(e) }) => match trim_or_none_spec(e.message.deep_view()) {
            Some(m) => Some(m),
            None => trim_or_none_spec(e.detail.deep_view()),
        },
        _ => None,
    };
    match from_envelope {
        Some(m) => Some(m),
        None => if trim(text).len() == 0 {
            None
        } else {
            Some(trim(text))
        },
    }
}

/// A failed response is explained by its error's message when that is not
/// blank, else by its error's detail when that is not blank, else by the
/// body's text when that is not blank, each trimmed; otherwise by nothing.
pub proof fn law_server_error_order(envelope: Option<ErrorEnvelope>, text: Seq<char>)
    ensures
        ({
            let said = server_error_spec(envelope, text);
            let msg_ok = envelope matches Some(ErrorEnvelope { error: Some(e) })
                && e.message matches Some(m) && trim(m@).len() > 0;
            let detail_ok = envelope matches Some(ErrorEnvelope { error: Some(e) })
                && e.detail matches Some(d) && trim(d@).len() > 0;
            &&& envelope matches Some(ErrorEnvelope { error: Some(e) }) ==> (e.message matches Some(
                m,
            ) ==> (trim(m@).len() > 0 ==> said == Some(trim(m@))))
            &&& !msg_ok ==> (envelope matches Some(ErrorEnvelope { error: Some(e) }) ==> (
            e.detail matches Some(d) ==> (trim(d@).len() > 0 ==> said == Some(trim(d@)))))
            &&& !msg_ok && !detail_ok && trim(text).len() > 0 ==> said == Some(trim(text))
            &&& !msg_ok && !detail_ok && trim(text).len() == 0 ==> said is None
        }),
{
}

/// What `String::from_utf8_lossy` makes of these bytes.  Beyond the fact
/// below about valid UTF-8, the replacement of invalid sequences is not
/// restated here.
pub uninterp spec fn utf8_lossy_text(bytes: Seq<u8>) -> Seq<char>;

/// Calls `String::from_utf8_lossy`: its result is `utf8_lossy_text` of
/// the bytes, and the decoded text where they are valid UTF-8.
#[verifier::external_body]
fn utf8_lossy(data: &[u8]) -> (r: String)
    ensures
        r@ == utf8_lossy_text(data@),
        vstd::utf8::valid_utf8(data@) ==> r@ == vstd::utf8::decode_utf8(data@),
{
    String::from_utf8_lossy(data).into_owned()
}

/// What a failed response says, given the response body as text.
pub fn server_error_message_from(envelope: Option<ErrorEnvelope>, text: &str) -> (r: Option<String>)
    ensures
        r.deep_view() == server_error_spec(envelope, text@),
{
    match envelope {
        Some(ErrorEnvelope { error: Some(e) }) => {
            match trim_or_none(e.message) {
                Some(m) => {
                    return Some(m);
                },
                None => {},
            }
            match trim_or_none(e.detail) {
                Some(d) => {
                    return Some(d);
                },
                None => {},
            }
        },
        _ => {},
    }
    let chars = chars_of(text);
    let trimmed = trim_chars(&chars);
    if trimmed.len() == 0 {
        None
    } else {
        Some(string_of(&trimmed))
    }
}

/// What a failed response says, given its body and the error envelope read
/// from it, if any.
pub fn server_error_message(envelope: Option<ErrorEnvelope>, data: &[u8]) -> (r: Option<String>)
    ensures
        r.deep_view() == server_error_spec(envelope, utf8_lossy_text(data@)),
{
    let text = utf8_lossy(data);
    server_error_message_from(envelope, text.as_str())
}

/// The error of a failed response: what it says, or a general message.
pub fn search_failure_message(envelope: Option<ErrorEnvelope>, data: &[u8]) -> (m: String)
    ensures
        m@ == match server_error_spec(envelope, utf8_lossy_text(data@)) {
            Some(said) => said,
            None => SEARCH_FAILED@,
        },
{
    match server_error_message(envelope, data) {
        Some(said) => said,
        None => SEARCH_FAILED.to_string(),
    }
}

} // verus!
