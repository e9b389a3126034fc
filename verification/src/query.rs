//! Shaping of the search query: word limits, length limits, freshness
//! hints and the request size derived from the model's context window.

use vstd::prelude::*;

use crate::text::{
    chars_of, contains_chars, copy_range, has_sub, is_whitespace, is_ws, join, join_chars,
    lowercase_of, split_words, string_of, to_lowercase, trim, trim_chars, words, is_word, no_ws,
    spaced, lemma_join_spaced, lemma_words_of_join, lemma_spaced_trim, lemma_spaced_words,
    lemma_spaced_prefix, lemma_no_ws_spaced, lemma_words_prefix_count, lemma_no_words_trim,
    lemma_words_are_words,
};

verus! {

broadcast use vstd::string::group_string_axioms;

/// At most this many words of the message go into a query.
pub const MAX_QUERY_WORDS: usize = 50;

/// At most this many characters go into a query.
pub const MAX_QUERY_CHARS: usize = 400;

/// How many results to ask for, by the size of the context window.
pub open spec fn request_count_spec(context_window: usize) -> usize {
    if context_window <= 8191 {
        4
    } else if context_window <= 16383 {
        5
    } else if context_window <= 32767 {
        6
    } else {
        8
    }
}

/// The number of results to ask for, given the context window in tokens.
pub fn request_count(context_window: usize) -> (n: usize)
    ensures
        n == request_count_spec(context_window),
{
    if context_window <= 8191 {
        4
    } else if context_window <= 16383 {
        5
    } else if context_window <= 32767 {
        6
    } else {
        8
    }
}

/// A quarter of the context window, kept within 2048 and 6144 tokens.
pub open spec fn token_budget_spec(context_window: usize) -> usize {
    let quarter = context_window / 4;
    if quarter < 2048 {
        2048
    } else if quarter > 6144 {
        6144
    } else {
        quarter
    }
}

/// The number of tokens of web context to ask for.
pub fn token_budget(context_window: usize) -> (n: usize)
    ensures
        n == token_budget_spec(context_window),
{
    let quarter = context_window / 4;
    if quarter < 2048 {
        2048
    } else if quarter > 6144 {
        6144
    } else {
        quarter
    }
}

/// A larger context window never asks for fewer results or fewer tokens,
/// and the token budget stays within its bounds.
pub proof fn law_request_size_monotone(small: usize, large: usize)
    requires
        small <= large,
    ensures
        request_count_spec(small) <= request_count_spec(large),
        token_budget_spec(small) <= token_budget_spec(large),
        2048 <= token_budget_spec(large) <= 6144,
        4 <= request_count_spec(large) <= 8,
{
}

/// The token budget is a quarter of the context window, raised to 2048
/// when the quarter is smaller and lowered to 6144 when it is larger.
pub proof fn law_token_budget_is_clamped_quarter(context_window: usize)
    ensures
        context_window / 4 < 2048 ==> token_budget_spec(context_window) == 2048,
        2048 <= context_window / 4 <= 6144 ==> token_budget_spec(context_window)
            == context_window / 4,
        context_window / 4 > 6144 ==> token_budget_spec(context_window) == 6144,
        8192 <= context_window <= 24579 ==> token_budget_spec(context_window) == context_window
            / 4,
{
}

/// The result count steps up at 8192, 16384 and 32768 tokens of context.
pub proof fn law_request_count_bands(context_window: usize)
    ensures
        context_window < 8192 ==> request_count_spec(context_window) == 4,
        8192 <= context_window < 16384 ==> request_count_spec(context_window) == 5,
        16384 <= context_window < 32768 ==> request_count_spec(context_window) == 6,
        32768 <= context_window ==> request_count_spec(context_window) == 8,
{
}

/// The freshness filter for a lowercased query: a day for words about the
/// present moment, a week for recent events, a month for this month.
pub open spec fn freshness_spec(lower: Seq<char>) -> Option<Seq<char>> {
    if has_sub(lower, "today"@) || has_sub(lower, "breaking"@) || has_sub(lower, "latest"@)
        || has_sub(lower, "right now"@) || has_sub(lower, "current news"@) {
        Some("pd"@)
    } else if has_sub(lower, "this week"@) || has_sub(lower, "recent"@) {
        Some("pw"@)
    } else if has_sub(lower, "this month"@) {
        Some("pm"@)
    } else {
        None
    }
}

/// Whether the literal `pat` occurs in `s`.
fn contains_str(s: &[char], pat: &str) -> (b: bool)
    ensures
        b == has_sub(s@, pat@),
{
    let p = chars_of(pat);
    contains_chars(s, &p)
}

/// The freshness filter for a query that is already lowercased.
pub fn freshness_of_lowercase(lower: &str) -> (r: Option<String>)
    ensures
        r.deep_view() == freshness_spec(lower@),
{
    let s = chars_of(lower);
    if contains_str(&s, "today") || contains_str(&s, "breaking") || contains_str(&s, "latest")
        || contains_str(&s, "right now") || contains_str(&s, "current news") {
        return Some("pd".to_string());
    }
    if contains_str(&s, "this week") || contains_str(&s, "recent") {
        return Some("pw".to_string());
    }
    if contains_str(&s, "this month") {
        return Some("pm".to_string());
    }
    None
}

/// The freshness filter for a query: `freshness_spec` of its lowercase form.
pub fn freshness(query: &str) -> (r: Option<String>)
    ensures
        r.deep_view() == freshness_spec(lowercase_of(query@)),
{
    let normalized = to_lowercase(query);
    freshness_of_lowercase(normalized.as_str())
}

/// Whether a lowercased error message says that the request's parameters
/// were refused.
pub open spec fn retry_spec(lower: Seq<char>) -> bool {
    has_sub(lower, "validate parameters"@) || has_sub(lower, "unable to validate parameters"@)
        || has_sub(lower, "invalid parameter"@)
}

/// Whether a lowercased error message asks for a retry with fewer
/// parameters.
pub fn retry_requested_by_lowercase(lower: &str) -> (b: bool)
    ensures
        b == retry_spec(lower@),
{
    let s = chars_of(lower);
    contains_str(&s, "validate parameters") || contains_str(&s, "unable to validate parameters")
        || contains_str(&s, "invalid parameter")
}

/// Whether an error message asks for a retry with the minimal parameters.
pub fn should_retry_with_minimal_parameters(message: &str) -> (b: bool)
    ensures
        b == retry_spec(lowercase_of(message@)),
{
    let normalized = to_lowercase(message);
    retry_requested_by_lowercase(normalized.as_str())
}

/// The query names the present moment.
pub open spec fn names_today(lower: Seq<char>) -> bool {
    ||| has_sub(lower, "today"@)
    ||| has_sub(lower, "breaking"@)
    ||| has_sub(lower, "latest"@)
    ||| has_sub(lower, "right now"@)
    ||| has_sub(lower, "current news"@)
}

/// A past-day filter is chosen exactly when the lowercased query contains
/// "today", "breaking", "latest", "right now" or "current news"; otherwise
/// a past-week filter when it contains "this week" or "recent"; otherwise a
/// past-month filter when it contains "this month"; a query with none of
/// these phrases gets no filter.
pub proof fn law_freshness_phrases(lower: Seq<char>)
    ensures
        names_today(lower) ==> freshness_spec(lower) == Some("pd"@),
        !names_today(lower) && (has_sub(lower, "this week"@) || has_sub(lower, "recent"@))
            ==> freshness_spec(lower) == Some("pw"@),
        !names_today(lower) && !has_sub(lower, "this week"@) && !has_sub(lower, "recent"@)
            && has_sub(lower, "this month"@) ==> freshness_spec(lower) == Some("pm"@),
        freshness_spec(lower) is Some ==> names_today(lower) || has_sub(lower, "this week"@)
            || has_sub(lower, "recent"@) || has_sub(lower, "this month"@),
        !names_today(lower) && !has_sub(lower, "this week"@) && !has_sub(lower, "recent"@)
            && !has_sub(lower, "this month"@) ==> freshness_spec(lower) is None,
{
}

/// A message that contains "unable to validate parameters" contains
/// "validate parameters".
proof fn lemma_unable_to_validate(lower: Seq<char>)
    ensures
        has_sub(lower, "unable to validate parameters"@) ==> has_sub(
            lower,
            "validate parameters"@,
        ),
{
    reveal_strlit("unable to validate parameters");
    reveal_strlit("validate parameters");
    let long = "unable to validate parameters"@;
    let short = "validate parameters"@;
    if has_sub(lower, long) {
        let i = choose|i: int|
            0 <= i <= lower.len() - long.len() && #[trigger] lower.subrange(i, i + long.len())
                == long;
        assert(long.subrange(10, 29) =~= short);
        assert(lower.subrange(i + 10, i + 10 + short.len()) =~= lower.subrange(
            i,
            i + long.len(),
        ).subrange(10, 29));
        assert(lower.subrange(i + 10, i + 10 + short.len()) == short);
    }
}

/// A failed search is retried exactly when its lowercased message contains
/// "validate parameters" or "invalid parameter".
pub proof fn law_retry_phrases(lower: Seq<char>)
    ensures
        retry_spec(lower) <==> has_sub(lower, "validate parameters"@) || has_sub(
            lower,
            "invalid parameter"@,
        ),
{
    lemma_unable_to_validate(lower);
}

/// The position of the last white-space character of `p`, if any.
pub open spec fn last_ws_index(p: Seq<char>) -> Option<int>
    decreases p.len(),
{
    if p.len() == 0 {
        None
    } else if is_ws(p.last()) {
        Some(p.len() - 1)
    } else {
        last_ws_index(p.drop_last())
    }
}

/// The first words of `q`, at most `MAX_QUERY_WORDS`, single-spaced.
pub open spec fn limited_words(q: Seq<char>) -> Seq<char> {
    let ws = words(q);
    let count = if ws.len() < MAX_QUERY_WORDS {
        ws.len() as int
    } else {
        MAX_QUERY_WORDS as int
    };
    join(ws.take(count), seq![' '])
}

/// The query sent for a message: its first words, single-spaced; if that
/// is longer than `MAX_QUERY_CHARS`, its first `MAX_QUERY_CHARS` characters,
/// cut back to the last white space among them where there is one.
pub open spec fn normalized_query_spec(q: Seq<char>) -> Seq<char> {
    if words(q).len() == 0 {
        trim(q)
    } else {
        let t = trim(limited_words(q));
        if t.len() <= MAX_QUERY_CHARS {
            t
        } else {
            let p = t.take(MAX_QUERY_CHARS as int);
            match last_ws_index(p) {
                Some(i) => if trim(p.take(i)).len() > 0 {
                    trim(p.take(i))
                } else {
                    trim(p)
                },
                None => trim(p),
            }
        }
    }
}

/// The query to send for the message `query`.
pub fn normalized_query(query: &str) -> (r: String)
    ensures
        r@ == normalized_query_spec(query@),
{
    let q = chars_of(query);
    let ws = split_words(&q);
    if ws.len() == 0 {
        let t = trim_chars(&q);
        return string_of(&t);
    }
    let count = if ws.len() < MAX_QUERY_WORDS {
        ws.len()
    } else {
        MAX_QUERY_WORDS
    };
    let limited = join_chars(&ws, count, ' ');
    let t = trim_chars(&limited);
    if t.len() <= MAX_QUERY_CHARS {
        return string_of(&t);
    }
    let p = copy_range(&t, 0, MAX_QUERY_CHARS);
    let mut i: usize = p.len();
    assert(p@.take(p@.len() as int) == p@);
    while i > 0 && !is_whitespace(p[i - 1])
        invariant
            i <= p@.len(),
            last_ws_index(p@) == last_ws_index(p@.take(i as int)),
        decreases i,
    {
        assert(p@.take(i as int).drop_last() == p@.take(i - 1));
        i = i - 1;
    }
    assert(p@.take(p@.len() as int) == p@);
    if i > 0 {
        assert(p@.take(i as int).drop_last() == p@.take(i - 1));
        let before = copy_range(&p, 0, i - 1);
        assert(before@ == p@.take(i - 1));
        let shortened = trim_chars(&before);
        if shortened.len() > 0 {
            return string_of(&shortened);
        }
    } else {
        assert(p@.take(0) == Seq::<char>::empty());
    }
    let whole = trim_chars(&p);
    string_of(&whole)
}


/// Where the last white space of `p` stands, if it has one.
proof fn lemma_last_ws_index(p: Seq<char>)
    ensures
        last_ws_index(p) matches Some(i) ==> 0 <= i < p.len() && is_ws(p[i]) && forall|j: int|
            i < j < p.len() ==> !is_ws(#[trigger] p[j]),
        last_ws_index(p) is None ==> no_ws(p),
    decreases p.len(),
{
    if p.len() > 0 && !is_ws(p.last()) {
        lemma_last_ws_index(p.drop_last());
        if let Some(i) = last_ws_index(p) {
            assert forall|j: int| i < j < p.len() implies !is_ws(#[trigger] p[j]) by {
                if j < p.len() - 1 {
                    assert(p[j] == p.drop_last()[j]);
                }
            }
        }
        if last_ws_index(p) is None {
            assert forall|i: int| 0 <= i < p.len() implies !is_ws(#[trigger] p[i]) by {
                if i < p.len() - 1 {
                    assert(p[i] == p.drop_last()[i]);
                }
            }
        }
    }
}

/// The query for a message has no leading, trailing or repeated white
/// space, at most `MAX_QUERY_CHARS` characters and at most
/// `MAX_QUERY_WORDS` words, and it is empty exactly when the message has no
/// words.
pub proof fn law_normalized_query_shape(q: Seq<char>)
    ensures
        spaced(normalized_query_spec(q)),
        normalized_query_spec(q).len() <= 400,
        words(normalized_query_spec(q)).len() <= 50,
        normalized_query_spec(q).len() == 0 <==> words(q).len() == 0,
{
    let r = normalized_query_spec(q);
    let ws = words(q);
    if ws.len() == 0 {
        lemma_no_words_trim(q);
        assert(words(r) == Seq::<Seq<char>>::empty());
    } else {
        lemma_words_are_words(q);
        let m = if ws.len() < MAX_QUERY_WORDS {
            ws.len() as int
        } else {
            MAX_QUERY_WORDS as int
        };
        let w = ws.take(m);
        assert forall|i: int| 0 <= i < w.len() implies is_word(#[trigger] w[i]) by {
            assert(w[i] == ws[i]);
        }
        let l = limited_words(q);
        assert(l == join(w, seq![' ']));
        lemma_join_spaced(w);
        lemma_words_of_join(w);
        lemma_spaced_trim(l);
        assert(words(l).len() == m);
        if l.len() > MAX_QUERY_CHARS {
            let p = l.take(MAX_QUERY_CHARS as int);
            lemma_last_ws_index(p);
            match last_ws_index(p) {
                Some(i) => {
                    assert(p[i] == l[i]);
                    assert(i > 0);
                    lemma_spaced_prefix(l, i);
                    assert(p.take(i) == l.take(i));
                    lemma_spaced_trim(l.take(i));
                    lemma_words_prefix_count(l, i);
                    assert(r == l.take(i));
                },
                None => {
                    lemma_no_ws_spaced(p);
                    lemma_spaced_trim(p);
                    lemma_words_prefix_count(l, MAX_QUERY_CHARS as int);
                    assert(r == p);
                },
            }
        }
    }
}

/// Normalizing a query that is already normalized leaves it unchanged.
pub proof fn law_normalized_query_idempotent(q: Seq<char>)
    ensures
        normalized_query_spec(normalized_query_spec(q)) == normalized_query_spec(q),
{
    let r = normalized_query_spec(q);
    law_normalized_query_shape(q);
    lemma_spaced_words(r);
    lemma_spaced_trim(r);
    if r.len() == 0 {
        assert(words(r).len() == 0);
    } else {
        let wr = words(r);
        assert(wr.take(wr.len() as int) == wr);
        assert(limited_words(r) == r);
    }
}


/// The query is a prefix of the message's first `MAX_QUERY_WORDS` words
/// joined by single spaces: all of it when that has at most
/// `MAX_QUERY_CHARS` characters; otherwise it ends just before the last
/// white space among the first `MAX_QUERY_CHARS` characters, or, where
/// there is none, it is those characters.
pub proof fn law_normalized_query_cut(q: Seq<char>)
    ensures
        ({
            let ws = words(q);
            let m = if ws.len() < 50 {
                ws.len() as int
            } else {
                50
            };
            let l = join(ws.take(m), seq![' ']);
            let r = normalized_query_spec(q);
            &&& r.len() <= l.len()
            &&& r == l.take(r.len() as int)
            &&& l.len() <= 400 ==> r == l
            &&& l.len() > 400 ==> {
                ||| r.len() == 400 && no_ws(l.take(400))
                ||| r.len() < 400 && is_ws(l[r.len() as int]) && forall|j: int|
                    r.len() < j < 400 ==> !is_ws(#[trigger] l[j])
            }
        }),
{
    let r = normalized_query_spec(q);
    let ws = words(q);
    if ws.len() == 0 {
        lemma_no_words_trim(q);
        assert(ws.take(0) == Seq::<Seq<char>>::empty());
    } else {
        lemma_words_are_words(q);
        let m = if ws.len() < MAX_QUERY_WORDS {
            ws.len() as int
        } else {
            MAX_QUERY_WORDS as int
        };
        let w = ws.take(m);
        assert forall|i: int| 0 <= i < w.len() implies is_word(#[trigger] w[i]) by {
            assert(w[i] == ws[i]);
        }
        let l = limited_words(q);
        assert(l == join(w, seq![' ']));
        lemma_join_spaced(w);
        lemma_spaced_trim(l);
        if l.len() <= MAX_QUERY_CHARS {
            assert(l.take(l.len() as int) == l);
        } else {
            let p = l.take(MAX_QUERY_CHARS as int);
            lemma_last_ws_index(p);
            match last_ws_index(p) {
                Some(i) => {
                    assert(p[i] == l[i]);
                    assert(i > 0);
                    lemma_spaced_prefix(l, i);
                    assert(p.take(i) == l.take(i));
                    lemma_spaced_trim(l.take(i));
                    assert(r == l.take(i));
                    assert forall|j: int| i < j < MAX_QUERY_CHARS implies !is_ws(#[trigger] l[j]) by {
                        assert(p[j] == l[j]);
                    }
                },
                None => {
                    lemma_no_ws_spaced(p);
                    lemma_spaced_trim(p);
                    assert(r == p);
                },
            }
        }
    }
}

} // verus!
