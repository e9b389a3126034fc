//! The sources of a search response: which results are kept, how their
//! titles, hosts, ages and snippets are chosen, and how duplicates of one
//! URL are merged.

use vstd::prelude::*;

use crate::text::{
    chars_of, copy_range, is_ws, join, join_chars, lemma_join_spaced, lemma_spaced_words,
    lemma_trim_idempotent, lemma_words_are_words, spaced, split_words, string_of, trim,
    trim_chars, vecs_view, words,
};

verus! {

broadcast use vstd::string::group_string_axioms;

/// At most this many sources go into the context.
pub const MAX_SOURCES: usize = 6;

/// At most this many snippets are kept for one source.
pub const MAX_SNIPPETS: usize = 2;

/// A snippet longer than this many characters is shortened.
pub const MAX_SNIPPET_CHARS: usize = 280;

/// How many characters of a shortened snippet are kept before the ellipsis.
pub const SNIPPET_KEEP_CHARS: usize = 277;

/// One search result of a grounding section.
pub struct GroundingResult {
    pub name: Option<String>,
    pub url: String,
    pub title: Option<String>,
    pub snippets: Option<Vec<String>>,
}

/// What the response says about a URL.
pub struct SourceMetadata {
    pub title: Option<String>,
    pub hostname: Option<String>,
    pub age: Option<Vec<String>>,
}

/// The result sections of a response.
pub struct Grounding {
    pub generic: Option<Vec<GroundingResult>>,
    pub poi: Option<GroundingResult>,
    pub map: Option<Vec<GroundingResult>>,
}

/// A search response: its result sections and, per URL, its metadata.
/// Each URL occurs at most once in `sources`; where one occurred twice,
/// the first entry would be the one used.
pub struct BraveResponse {
    pub grounding: Option<Grounding>,
    pub sources: Option<Vec<(String, SourceMetadata)>>,
}

/// A source as it is shown to the model.
pub struct GroundedSource {
    pub url: String,
    pub title: String,
    pub hostname: Option<String>,
    pub age: Option<String>,
    pub snippets: Vec<String>,
}

/// The characters of a `GroundedSource`.
pub struct SourceView {
    pub url: Seq<char>,
    pub title: Seq<char>,
    pub hostname: Option<Seq<char>>,
    pub age: Option<Seq<char>>,
    pub snippets: Seq<Seq<char>>,
}

impl View for GroundedSource {
    type V = SourceView;

    open spec fn view(&self) -> SourceView {
        SourceView {
            url: self.url@,
            title: self.title@,
            hostname: self.hostname.deep_view(),
            age: self.age.deep_view(),
            snippets: self.snippets.deep_view(),
        }
    }
}

/// The views of a sequence of sources.
pub open spec fn sources_view(v: Seq<GroundedSource>) -> Seq<SourceView> {
    v.map_values(|s: GroundedSource| s@)
}

/// A snippet with its white space collapsed to single spaces, shortened to
/// `SNIPPET_KEEP_CHARS` characters and an ellipsis when it is longer than
/// `MAX_SNIPPET_CHARS`.
pub open spec fn normalize_snippet_spec(s: Seq<char>) -> Seq<char> {
    let collapsed = join(words(s), seq![' ']);
    if collapsed.len() > MAX_SNIPPET_CHARS {
        collapsed.take(SNIPPET_KEEP_CHARS as int) + "..."@
    } else {
        collapsed
    }
}

/// The snippet as it is shown to the model.
pub fn normalize_snippet(snippet: &str) -> (r: String)
    ensures
        r@ == normalize_snippet_spec(snippet@),
{
    let s = chars_of(snippet);
    let ws = split_words(&s);
    let collapsed = join_chars(&ws, ws.len(), ' ');
    assert(vecs_view(ws@).take(ws@.len() as int) == vecs_view(ws@));
    if collapsed.len() > MAX_SNIPPET_CHARS {
        let kept = copy_range(&collapsed, 0, SNIPPET_KEEP_CHARS);
        let mut shortened = string_of(&kept);
        shortened.append("...");
        return shortened;
    }
    string_of(&collapsed)
}

/// `None`, or the trimmed text where it is not empty.
pub open spec fn trim_or_none_spec(value: Option<Seq<char>>) -> Option<Seq<char>> {
    match value {
        Some(v) => if trim(v).len() == 0 {
            None
        } else {
            Some(trim(v))
        },
        None => None,
    }
}

/// The trimmed text of `value`, or `None` where nothing remains.
fn trim_or_none_ref(value: &Option<String>) -> (r: Option<String>)
    ensures
        r.deep_view() == trim_or_none_spec(value.deep_view()),
{
    match value {
        Some(v) => {
            let c = chars_of(v.as_str());
            let t = trim_chars(&c);
            if t.len() == 0 {
                None
            } else {
                Some(string_of(&t))
            }
        },
        None => None,
    }
}

/// The trimmed text of `value`, or `None` where nothing remains.
pub fn trim_or_none(value: Option<String>) -> (r: Option<String>)
    ensures
        r.deep_view() == trim_or_none_spec(value.deep_view()),
{
    trim_or_none_ref(&value)
}


/// The metadata of the first entry for `url`, if any.
pub open spec fn find_meta(entries: Seq<(String, SourceMetadata)>, url: Seq<char>) -> Option<
    SourceMetadata,
>
    decreases entries.len(),
{
    if entries.len() == 0 {
        None
    } else if entries[0].0@ == url {
        Some(entries[0].1)
    } else {
        find_meta(entries.drop_first(), url)
    }
}

/// The metadata that `response` gives for `url`.
pub open spec fn meta_for(response: &BraveResponse, url: Seq<char>) -> Option<SourceMetadata> {
    match &response.sources {
        Some(entries) => find_meta(entries@, url),
        None => None,
    }
}

/// The metadata that `response` gives for `url`.
fn lookup_meta<'a>(response: &'a BraveResponse, url: &String) -> (r: Option<&'a SourceMetadata>)
    ensures
        match r {
            Some(m) => meta_for(response, url@) == Some(*m),
            None => meta_for(response, url@) is None,
        },
{
    match &response.sources {
        Some(entries) => {
            let mut i: usize = 0;
            assert(entries@.skip(0) == entries@);
            while i < entries.len()
                invariant
                    i <= entries@.len(),
                    response.sources == Some(*entries),
                    find_meta(entries@, url@) == find_meta(entries@.skip(i as int), url@),
                decreases entries@.len() - i,
            {
                assert(entries@.skip(i as int)[0] == entries@[i as int]);
                let entry = &entries[i];
                if entry.0 == *url {
                    assert(entries@.skip(i as int)[0].0@ == url@);
                    return Some(&entry.1);
                }
                assert(entries@.skip(i as int).drop_first() == entries@.skip(i + 1));
                i = i + 1;
            }
            None
        },
        None => None,
    }
}

/// The snippets of a result: the first `limit` of its normalized snippets
/// that are not empty.
pub open spec fn pick_snippets(raw: Seq<Seq<char>>, limit: nat) -> Seq<Seq<char>>
    decreases raw.len(),
{
    if raw.len() == 0 || limit == 0 {
        Seq::empty()
    } else {
        let n = normalize_snippet_spec(raw[0]);
        if n.len() == 0 {
            pick_snippets(raw.drop_first(), limit)
        } else {
            seq![n] + pick_snippets(raw.drop_first(), (limit - 1) as nat)
        }
    }
}

/// The raw snippets of a result.
pub open spec fn raw_snippets(r: GroundingResult) -> Seq<Seq<char>> {
    match r.snippets {
        Some(v) => v.deep_view(),
        None => Seq::empty(),
    }
}

/// The first two non-empty normalized snippets of `r`.
fn result_snippets(r: &GroundingResult) -> (out: Vec<String>)
    ensures
        out.deep_view() == pick_snippets(raw_snippets(*r), MAX_SNIPPETS as nat),
{
    let mut out: Vec<String> = Vec::new();
    match &r.snippets {
        Some(v) => {
            let ghost raw = v.deep_view();
            let mut i: usize = 0;
            assert(raw.skip(0) == raw);
            while i < v.len() && out.len() < MAX_SNIPPETS
                invariant
                    i <= v@.len(),
                    raw == v.deep_view(),
                    raw == raw_snippets(*r),
                    out@.len() <= MAX_SNIPPETS,
                    pick_snippets(raw, MAX_SNIPPETS as nat) == out.deep_view() + pick_snippets(
                        raw.skip(i as int),
                        (MAX_SNIPPETS - out@.len()) as nat,
                    ),
                decreases v@.len() - i,
            {
                let n = normalize_snippet(v[i].as_str());
                assert(raw.skip(i as int)[0] == v@[i as int]@);
                assert(raw.skip(i as int).drop_first() == raw.skip(i + 1));
                if !n.as_str().is_empty() {
                    let ghost before = out.deep_view();
                    out.push(n);
                    assert(out.deep_view() == before.push(n@));
                    assert(before.push(n@) + pick_snippets(
                        raw.skip(i + 1),
                        (MAX_SNIPPETS - out@.len()) as nat,
                    ) == before + (seq![n@] + pick_snippets(
                        raw.skip(i + 1),
                        (MAX_SNIPPETS - out@.len()) as nat,
                    )));
                } else {
                    assert(n@.len() == 0);
                }
                i = i + 1;
            }
            assert(pick_snippets(raw.skip(i as int), (MAX_SNIPPETS - out@.len()) as nat)
                == Seq::<Seq<char>>::empty());
        },
        None => {
            assert(out.deep_view() == Seq::<Seq<char>>::empty());
        },
    }
    out
}

/// The title of a new source: the result's name, else its title, else the
/// metadata's title, else the URL, each trimmed and used only when it is
/// not empty.
pub open spec fn title_spec(r: GroundingResult, meta: Option<SourceMetadata>, url: Seq<char>) -> Seq<
    char,
> {
    match trim_or_none_spec(r.name.deep_view()) {
        Some(t) => t,
        None => match trim_or_none_spec(r.title.deep_view()) {
            Some(t) => t,
            None => match meta {
                Some(m) => match trim_or_none_spec(m.title.deep_view()) {
                    Some(t) => t,
                    None => url,
                },
                None => url,
            },
        },
    }
}

/// The host of a new source: the metadata's host name, trimmed.
pub open spec fn hostname_spec(meta: Option<SourceMetadata>) -> Option<Seq<char>> {
    match meta {
        Some(m) => trim_or_none_spec(m.hostname.deep_view()),
        None => None,
    }
}

/// The age of a new source: the metadata's first age, trimmed.
pub open spec fn age_spec(meta: Option<SourceMetadata>) -> Option<Seq<char>> {
    match meta {
        Some(m) => match m.age {
            Some(a) => if a@.len() > 0 {
                trim_or_none_spec(Some(a@[0]@))
            } else {
                None
            },
            None => None,
        },
        None => None,
    }
}

/// The first position of a source with this URL.
pub open spec fn find_url(state: Seq<SourceView>, url: Seq<char>) -> Option<int>
    decreases state.len(),
{
    if state.len() == 0 {
        None
    } else if state[0].url == url {
        Some(0)
    } else {
        match find_url(state.drop_first(), url) {
            Some(k) => Some(k + 1),
            None => None,
        }
    }
}

/// Snippets of a later result with the same URL, added while fewer than
/// `MAX_SNIPPETS` are kept and skipped where already present.
pub open spec fn add_snippets(cur: Seq<Seq<char>>, new: Seq<Seq<char>>) -> Seq<Seq<char>>
    decreases new.len(),
{
    if new.len() == 0 {
        cur
    } else {
        let next = if cur.contains(new[0]) {
            cur
        } else {
            cur.push(new[0])
        };
        if next.len() == MAX_SNIPPETS {
            next
        } else {
            add_snippets(next, new.drop_first())
        }
    }
}

/// The snippets of a source after another result with its URL.
pub open spec fn merge_snippets(cur: Seq<Seq<char>>, new: Seq<Seq<char>>) -> Seq<Seq<char>> {
    if cur.len() < MAX_SNIPPETS {
        add_snippets(cur, new)
    } else {
        cur
    }
}

/// The sources after one more result: results without a URL are skipped, a
/// new URL adds a source at the end, a known URL only gains snippets.
pub open spec fn absorb(state: Seq<SourceView>, r: GroundingResult, response: &BraveResponse) -> Seq<
    SourceView,
> {
    let url = trim(r.url@);
    if url.len() == 0 {
        state
    } else {
        let snippets = pick_snippets(raw_snippets(r), MAX_SNIPPETS as nat);
        match find_url(state, url) {
            None => {
                let meta = meta_for(response, url);
                state.push(
                    SourceView {
                        url,
                        title: title_spec(r, meta, url),
                        hostname: hostname_spec(meta),
                        age: age_spec(meta),
                        snippets,
                    },
                )
            },
            Some(k) => state.update(
                k,
                SourceView { snippets: merge_snippets(state[k].snippets, snippets), ..state[k] },
            ),
        }
    }
}

/// The sources after all of `results`, in order.
pub open spec fn absorb_all(results: Seq<GroundingResult>, response: &BraveResponse) -> Seq<
    SourceView,
>
    decreases results.len(),
{
    if results.len() == 0 {
        Seq::empty()
    } else {
        absorb(absorb_all(results.drop_last(), response), results.last(), response)
    }
}

/// The results of a response in the order they are read: the point of
/// interest, then the map results, then the generic results.
pub open spec fn grounding_results(response: &BraveResponse) -> Seq<GroundingResult> {
    match &response.grounding {
        Some(g) => {
            let poi = match &g.poi {
                Some(p) => seq![*p],
                None => Seq::empty(),
            };
            let map = match &g.map {
                Some(m) => m@,
                None => Seq::empty(),
            };
            let generic = match &g.generic {
                Some(v) => v@,
                None => Seq::empty(),
            };
            poi + map + generic
        },
        None => Seq::empty(),
    }
}

/// The results of a response are read as: the point of interest, if any,
/// then each map result in order, then each generic result in order.
pub proof fn law_grounding_results_order(response: &BraveResponse)
    ensures
        response.grounding is None ==> grounding_results(response).len() == 0,
        response.grounding matches Some(g) ==> {
            let rs = grounding_results(response);
            let p: int = if g.poi is Some {
                1
            } else {
                0
            };
            let ml: int = match g.map {
                Some(m) => m@.len() as int,
                None => 0,
            };
            let gl: int = match g.generic {
                Some(v) => v@.len() as int,
                None => 0,
            };
            &&& rs.len() == p + ml + gl
            &&& (g.poi matches Some(x) ==> rs[0] == x)
            &&& (g.map matches Some(m) ==> forall|i: int| 0 <= i < ml ==> rs[p + i] == m@[i])
            &&& (g.generic matches Some(v) ==> forall|i: int|
                0 <= i < gl ==> rs[p + ml + i] == v@[i])
        },
{
}

/// The sources shown for a response: those of all its results, in the order
/// their URLs first appear, at most `MAX_SOURCES`.
pub open spec fn grounded_sources_spec(response: &BraveResponse) -> Seq<SourceView> {
    let all = absorb_all(grounding_results(response), response);
    if all.len() <= MAX_SOURCES {
        all
    } else {
        all.take(MAX_SOURCES as int)
    }
}

proof fn lemma_find_url_none(state: Seq<SourceView>, url: Seq<char>)
    requires
        forall|j: int| 0 <= j < state.len() ==> #[trigger] state[j].url != url,
    ensures
        find_url(state, url) is None,
    decreases state.len(),
{
    if state.len() > 0 {
        assert forall|j: int| 0 <= j < state.len() - 1 implies #[trigger] state.drop_first()[j].url
            != url by {
            assert(state.drop_first()[j] == state[j + 1]);
        }
        lemma_find_url_none(state.drop_first(), url);
    }
}

proof fn lemma_find_url_some(state: Seq<SourceView>, url: Seq<char>, k: int)
    requires
        0 <= k < state.len(),
        state[k].url == url,
        forall|j: int| 0 <= j < k ==> #[trigger] state[j].url != url,
    ensures
        find_url(state, url) == Some(k),
    decreases k,
{
    if k > 0 {
        assert forall|j: int| 0 <= j < k - 1 implies #[trigger] state.drop_first()[j].url != url by {
            assert(state.drop_first()[j] == state[j + 1]);
        }
        assert(state.drop_first()[k - 1] == state[k]);
        lemma_find_url_some(state.drop_first(), url, k - 1);
    }
}

/// Whether `v` holds a string with the characters of `s`.
fn contains_string(v: &Vec<String>, s: &String) -> (b: bool)
    ensures
        b == v.deep_view().contains(s@),
{
    let mut i: usize = 0;
    while i < v.len()
        invariant
            i <= v@.len(),
            forall|j: int| 0 <= j < i ==> v.deep_view()[j] != s@,
        decreases v@.len() - i,
    {
        if v[i] == *s {
            assert(v.deep_view()[i as int] == s@);
            return true;
        }
        i = i + 1;
    }
    false
}

/// Adds the new snippets of a later result to a source.
fn merge_into(cur: &mut Vec<String>, new: Vec<String>)
    requires
        old(cur)@.len() < MAX_SNIPPETS,
    ensures
        final(cur).deep_view() == add_snippets(old(cur).deep_view(), new.deep_view()),
{
    let ghost nv = new.deep_view();
    let mut i: usize = 0;
    assert(nv.skip(0) == nv);
    while i < new.len()
        invariant
            i <= new@.len(),
            nv == new.deep_view(),
            cur@.len() < MAX_SNIPPETS,
            add_snippets(old(cur).deep_view(), nv) == add_snippets(cur.deep_view(), nv.skip(i as int)),
        decreases new@.len() - i,
    {
        let ghost before = cur.deep_view();
        let ghost rest = nv.skip(i as int);
        assert(rest[0] == new@[i as int]@);
        assert(rest.drop_first() == nv.skip(i + 1));
        if !contains_string(cur, &new[i]) {
            cur.push(new[i].clone());
            assert(cur.deep_view() == before.push(new@[i as int]@));
        }
        if cur.len() == MAX_SNIPPETS {
            return;
        }
        i = i + 1;
    }
    assert(nv.skip(i as int).len() == 0);
}

/// Takes one more result into the sources.
fn absorb_result(state: &mut Vec<GroundedSource>, r: &GroundingResult, response: &BraveResponse)
    ensures
        sources_view(final(state)@) == absorb(sources_view(old(state)@), *r, response),
{
    let ghost sv = sources_view(state@);
    let raw_url = chars_of(r.url.as_str());
    let trimmed = trim_chars(&raw_url);
    if trimmed.len() == 0 {
        return;
    }
    let url = string_of(&trimmed);
    let meta = lookup_meta(response, &url);
    let snippets = result_snippets(r);
    let mut k: usize = 0;
    while k < state.len() && !(state[k].url == url)
        invariant
            k <= state@.len(),
            sv == sources_view(state@),
            forall|j: int| 0 <= j < k ==> #[trigger] sv[j].url != url@,
        decreases state@.len() - k,
    {
        k = k + 1;
    }
    if k == state.len() {
        proof {
            lemma_find_url_none(sv, url@);
        }
        let name = trim_or_none_ref(&r.name);
        let title = match name {
            Some(t) => t,
            None => match trim_or_none_ref(&r.title) {
                Some(t) => t,
                None => match meta {
                    Some(m) => match trim_or_none_ref(&m.title) {
                        Some(t) => t,
                        None => url.clone(),
                    },
                    None => url.clone(),
                },
            },
        };
        let hostname = match meta {
            Some(m) => trim_or_none_ref(&m.hostname),
            None => None,
        };
        let age = match meta {
            Some(m) => match &m.age {
                Some(a) => if a.len() > 0 {
                    let first = Some(a[0].clone());
                    trim_or_none_ref(&first)
                } else {
                    None
                },
                None => None,
            },
            None => None,
        };
        let src = GroundedSource { url, title, hostname, age, snippets };
        let ghost sv_src = src@;
        state.push(src);
        assert(sources_view(state@) == sv.push(sv_src));
    } else {
        proof {
            lemma_find_url_some(sv, url@, k as int);
        }
        if state[k].snippets.len() < MAX_SNIPPETS {
            let mut src = state.remove(k);
            merge_into(&mut src.snippets, snippets);
            let ghost sv_src = src@;
            state.insert(k, src);
            assert(sources_view(state@) == sv.update(k as int, sv_src));
        }
    }
}


proof fn lemma_absorb_all_push(done: Seq<GroundingResult>, r: GroundingResult, response: &BraveResponse)
    ensures
        absorb_all(done.push(r), response) == absorb(absorb_all(done, response), r, response),
{
    assert(done.push(r).drop_last() == done);
}

/// Takes each of `results` into the sources, in order.
fn absorb_results(
    state: &mut Vec<GroundedSource>,
    results: &Vec<GroundingResult>,
    response: &BraveResponse,
    Ghost(done): Ghost<Seq<GroundingResult>>,
)
    requires
        sources_view(old(state)@) == absorb_all(done, response),
    ensures
        sources_view(final(state)@) == absorb_all(done + results@, response),
{
    let mut i: usize = 0;
    while i < results.len()
        invariant
            i <= results@.len(),
            sources_view(state@) == absorb_all(done + results@.take(i as int), response),
        decreases results@.len() - i,
    {
        absorb_result(state, &results[i], response);
        proof {
            lemma_absorb_all_push(done + results@.take(i as int), results@[i as int], response);
            assert(done + results@.take(i + 1) == (done + results@.take(i as int)).push(
                results@[i as int],
            ));
        }
        i = i + 1;
    }
    assert(results@.take(i as int) == results@);
}

/// The sources of a response, in the order their URLs first appear, at most
/// `MAX_SOURCES`.
pub fn grounded_sources(response: &BraveResponse) -> (r: Vec<GroundedSource>)
    ensures
        sources_view(r@) == grounded_sources_spec(response),
{
    let mut state: Vec<GroundedSource> = Vec::new();
    assert(sources_view(state@) == Seq::<SourceView>::empty());
    match &response.grounding {
        Some(g) => {
            let ghost mut done: Seq<GroundingResult> = Seq::empty();
            match &g.poi {
                Some(p) => {
                    absorb_result(&mut state, p, response);
                    proof {
                        lemma_absorb_all_push(done, *p, response);
                        done = done.push(*p);
                    }
                },
                None => {},
            }
            match &g.map {
                Some(m) => {
                    absorb_results(&mut state, m, response, Ghost(done));
                    proof {
                        done = done + m@;
                    }
                },
                None => {},
            }
            match &g.generic {
                Some(v) => {
                    absorb_results(&mut state, v, response, Ghost(done));
                    proof {
                        done = done + v@;
                    }
                },
                None => {},
            }
            assert(done == grounding_results(response));
        },
        None => {},
    }
    state.truncate(MAX_SOURCES);
    state
}


/// Trimming an optional text twice is trimming it once.
pub proof fn law_trim_or_none_idempotent(value: Option<Seq<char>>)
    ensures
        trim_or_none_spec(trim_or_none_spec(value)) == trim_or_none_spec(value),
{
    if let Some(v) = value {
        lemma_trim_idempotent(v);
    }
}

/// A snippet, once normalized, has at most `MAX_SNIPPET_CHARS` characters
/// and no leading, trailing or repeated white space.
pub proof fn law_normalize_snippet_shape(s: Seq<char>)
    ensures
        normalize_snippet_spec(s).len() <= 280,
        spaced(normalize_snippet_spec(s)),
{
    reveal_strlit("...");
    let c = join(words(s), seq![' ']);
    lemma_words_are_words(s);
    lemma_join_spaced(words(s));
    if c.len() > MAX_SNIPPET_CHARS {
        let k = SNIPPET_KEEP_CHARS as int;
        let r = c.take(k) + "..."@;
        assert(r[0] == c[0]);
        assert(r.last() == '.');
        assert forall|i: int|
            0 <= i < r.len() && is_ws(#[trigger] r[i]) implies r[i] == ' ' && i + 1 < r.len()
            && !is_ws(r[i + 1]) by {
            if i < k {
                assert(r[i] == c[i]);
                assert(!is_ws(c[i + 1]));
                if i + 1 < k {
                    assert(r[i + 1] == c[i + 1]);
                } else {
                    assert(r[i + 1] == '.');
                }
            } else {
                assert(r[i] == '.');
            }
        }
    }
}

/// Normalizing a normalized snippet leaves it unchanged.
pub proof fn law_normalize_snippet_idempotent(s: Seq<char>)
    ensures
        normalize_snippet_spec(normalize_snippet_spec(s)) == normalize_snippet_spec(s),
{
    let r = normalize_snippet_spec(s);
    law_normalize_snippet_shape(s);
    lemma_spaced_words(r);
}

/// A source as the library shows it: a trimmed, non-empty URL, a non-empty
/// title, and at most `MAX_SNIPPETS` snippets, none of them empty.
pub open spec fn source_wf(v: SourceView) -> bool {
    &&& v.url.len() > 0
    &&& trim(v.url) == v.url
    &&& v.title.len() > 0
    &&& v.snippets.len() <= 2
    &&& forall|k: int| 0 <= k < v.snippets.len() ==> (#[trigger] v.snippets[k]).len() > 0
}

/// Every source is well formed and no two sources have the same URL.
pub open spec fn sources_wf(state: Seq<SourceView>) -> bool {
    &&& forall|i: int| 0 <= i < state.len() ==> source_wf(#[trigger] state[i])
    &&& forall|i: int, j: int|
        0 <= i < j < state.len() ==> #[trigger] state[i].url != #[trigger] state[j].url
}

proof fn lemma_find_url(state: Seq<SourceView>, url: Seq<char>)
    ensures
        find_url(state, url) matches Some(k) ==> 0 <= k < state.len() && state[k].url == url,
        find_url(state, url) is None ==> forall|j: int|
            0 <= j < state.len() ==> #[trigger] state[j].url != url,
    decreases state.len(),
{
    if state.len() > 0 && state[0].url != url {
        lemma_find_url(state.drop_first(), url);
        assert forall|j: int| 0 < j < state.len() implies state[j].url == state.drop_first()[j
            - 1].url by {}
    }
}

proof fn lemma_pick_snippets(raw: Seq<Seq<char>>, limit: nat)
    ensures
        pick_snippets(raw, limit).len() <= limit,
        forall|k: int|
            0 <= k < pick_snippets(raw, limit).len() ==> (#[trigger] pick_snippets(raw, limit)[k]).len()
                > 0,
    decreases raw.len(),
{
    if raw.len() > 0 && limit > 0 {
        let n = normalize_snippet_spec(raw[0]);
        if n.len() == 0 {
            lemma_pick_snippets(raw.drop_first(), limit);
        } else {
            let rest = pick_snippets(raw.drop_first(), (limit - 1) as nat);
            lemma_pick_snippets(raw.drop_first(), (limit - 1) as nat);
            assert forall|k: int| 0 < k < (seq![n] + rest).len() implies (seq![n] + rest)[k]
                == rest[k - 1] by {}
        }
    }
}

proof fn lemma_add_snippets(cur: Seq<Seq<char>>, new: Seq<Seq<char>>)
    requires
        cur.len() < MAX_SNIPPETS,
        forall|k: int| 0 <= k < cur.len() ==> (#[trigger] cur[k]).len() > 0,
        forall|k: int| 0 <= k < new.len() ==> (#[trigger] new[k]).len() > 0,
    ensures
        add_snippets(cur, new).len() <= MAX_SNIPPETS,
        forall|k: int|
            0 <= k < add_snippets(cur, new).len() ==> (#[trigger] add_snippets(cur, new)[k]).len()
                > 0,
    decreases new.len(),
{
    if new.len() > 0 {
        let next = if cur.contains(new[0]) {
            cur
        } else {
            cur.push(new[0])
        };
        assert forall|k: int| 0 <= k < next.len() implies (#[trigger] next[k]).len() > 0 by {
            if k < cur.len() {
                assert(next[k] == cur[k]);
            }
        }
        if next.len() != MAX_SNIPPETS {
            assert forall|k: int| 0 <= k < new.drop_first().len() implies (
            #[trigger] new.drop_first()[k]).len() > 0 by {
                assert(new.drop_first()[k] == new[k + 1]);
            }
            lemma_add_snippets(next, new.drop_first());
        }
    }
}

/// The snippets picked from a result are at most `limit` normalized
/// snippets of the result, none of them empty; the first is the first
/// non-empty normalized snippet of the result; and fewer than `limit` are
/// picked only when every non-empty normalized snippet is picked.
pub proof fn law_pick_snippets(raw: Seq<Seq<char>>, limit: nat)
    ensures
        ({
            let p = pick_snippets(raw, limit);
            &&& p.len() <= limit
            &&& forall|k: int|
                0 <= k < p.len() ==> (#[trigger] p[k]).len() > 0 && exists|i: int|
                    0 <= i < raw.len() && p[k] == normalize_snippet_spec(#[trigger] raw[i])
            &&& p.len() < limit ==> forall|i: int|
                0 <= i < raw.len() && normalize_snippet_spec(#[trigger] raw[i]).len() > 0
                    ==> p.contains(normalize_snippet_spec(raw[i]))
            &&& forall|i: int|
                0 <= i < raw.len() && limit > 0 && normalize_snippet_spec(#[trigger] raw[i]).len()
                    > 0 && (forall|j: int|
                    0 <= j < i ==> normalize_snippet_spec(#[trigger] raw[j]).len() == 0) ==> p[0]
                    == normalize_snippet_spec(raw[i])
        }),
    decreases raw.len(),
{
    let p = pick_snippets(raw, limit);
    if raw.len() > 0 && limit > 0 {
        let rest = raw.drop_first();
        let n = normalize_snippet_spec(raw[0]);
        if n.len() == 0 {
            law_pick_snippets(rest, limit);
            assert forall|k: int| 0 <= k < p.len() implies (#[trigger] p[k]).len() > 0 && exists|
                i: int,
            | 0 <= i < raw.len() && p[k] == normalize_snippet_spec(#[trigger] raw[i]) by {
                let i = choose|i: int|
                    0 <= i < rest.len() && p[k] == normalize_snippet_spec(#[trigger] rest[i]);
                assert(raw[i + 1] == rest[i]);
            }
            if p.len() < limit {
                assert forall|i: int|
                    0 <= i < raw.len() && normalize_snippet_spec(#[trigger] raw[i]).len() > 0
                        implies p.contains(normalize_snippet_spec(raw[i])) by {
                    assert(i > 0);
                    assert(raw[i] == rest[i - 1]);
                }
            }
            assert forall|i: int|
                0 <= i < raw.len() && limit > 0 && normalize_snippet_spec(#[trigger] raw[i]).len()
                    > 0 && (forall|j: int|
                    0 <= j < i ==> normalize_snippet_spec(#[trigger] raw[j]).len() == 0) implies p[0]
                == normalize_snippet_spec(raw[i]) by {
                assert(i > 0);
                assert(raw[i] == rest[i - 1]);
                assert forall|j: int| 0 <= j < i - 1 implies normalize_snippet_spec(
                    #[trigger] rest[j],
                ).len() == 0 by {
                    assert(rest[j] == raw[j + 1]);
                }
            }
        } else {
            let q = pick_snippets(rest, (limit - 1) as nat);
            law_pick_snippets(rest, (limit - 1) as nat);
            assert(p == seq![n] + q);
            assert forall|k: int| 0 <= k < p.len() implies (#[trigger] p[k]).len() > 0 && exists|
                i: int,
            | 0 <= i < raw.len() && p[k] == normalize_snippet_spec(#[trigger] raw[i]) by {
                if k == 0 {
                    assert(p[0] == normalize_snippet_spec(raw[0]));
                } else {
                    assert(p[k] == q[k - 1]);
                    let i = choose|i: int|
                        0 <= i < rest.len() && q[k - 1] == normalize_snippet_spec(
                            #[trigger] rest[i],
                        );
                    assert(raw[i + 1] == rest[i]);
                }
            }
            if p.len() < limit {
                assert forall|i: int|
                    0 <= i < raw.len() && normalize_snippet_spec(#[trigger] raw[i]).len() > 0
                        implies p.contains(normalize_snippet_spec(raw[i])) by {
                    if i == 0 {
                        assert(p[0] == n);
                    } else {
                        assert(raw[i] == rest[i - 1]);
                        let k = choose|k: int| 0 <= k < q.len() && q[k] == normalize_snippet_spec(
                            rest[i - 1],
                        );
                        assert(p[k + 1] == q[k]);
                    }
                }
            }
            assert forall|i: int|
                0 <= i < raw.len() && limit > 0 && normalize_snippet_spec(#[trigger] raw[i]).len()
                    > 0 && (forall|j: int|
                    0 <= j < i ==> normalize_snippet_spec(#[trigger] raw[j]).len() == 0) implies p[0]
                == normalize_snippet_spec(raw[i]) by {
                if i > 0 {
                    assert(normalize_snippet_spec(raw[0]).len() == 0);
                }
            }
        }
    }
}

/// `x` is the first snippet of `new` that `kept` does not hold.
pub open spec fn first_fresh(new: Seq<Seq<char>>, kept: Seq<Seq<char>>, x: Seq<char>) -> bool {
    exists|m: int|
        0 <= m < new.len() && #[trigger] new[m] == x && !kept.contains(x) && forall|m2: int|
            0 <= m2 < m ==> kept.contains(#[trigger] new[m2])
}

/// Adding snippets keeps the old ones first, then adds, one at a time, the
/// first new snippet not yet held, and stops only at `MAX_SNIPPETS` or when
/// every new snippet is held.
proof fn lemma_add_snippets_greedy(cur: Seq<Seq<char>>, new: Seq<Seq<char>>)
    requires
        cur.len() < MAX_SNIPPETS,
    ensures
        ({
            let out = add_snippets(cur, new);
            &&& cur.len() <= out.len() <= MAX_SNIPPETS
            &&& out.take(cur.len() as int) == cur
            &&& forall|j: int|
                cur.len() <= j < out.len() ==> first_fresh(new, out.take(j), #[trigger] out[j])
            &&& out.len() < MAX_SNIPPETS ==> forall|m: int|
                0 <= m < new.len() ==> out.contains(#[trigger] new[m])
        }),
    decreases new.len(),
{
    let out = add_snippets(cur, new);
    if new.len() == 0 {
        assert(out.take(cur.len() as int) == cur);
    } else {
        let x = new[0];
        let rest = new.drop_first();
        if cur.contains(x) {
            lemma_add_snippets_greedy(cur, rest);
            assert(out == add_snippets(cur, rest));
            let i = choose|i: int| 0 <= i < cur.len() && cur[i] == x;
            assert forall|j: int| cur.len() <= j < out.len() implies first_fresh(
                new,
                out.take(j),
                #[trigger] out[j],
            ) by {
                assert(first_fresh(rest, out.take(j), out[j]));
                let m = choose|m: int|
                    0 <= m < rest.len() && #[trigger] rest[m] == out[j] && !out.take(j).contains(
                        out[j],
                    ) && forall|m2: int| 0 <= m2 < m ==> out.take(j).contains(#[trigger] rest[m2]);
                assert(out.take(j)[i] == out.take(cur.len() as int)[i]);
                assert(out.take(j).contains(new[0]));
                assert(new[m + 1] == rest[m]);
                assert forall|m2: int| 0 <= m2 < m + 1 implies out.take(j).contains(
                    #[trigger] new[m2],
                ) by {
                    if m2 > 0 {
                        assert(new[m2] == rest[m2 - 1]);
                    }
                }
            }
            if out.len() < MAX_SNIPPETS {
                assert forall|m: int| 0 <= m < new.len() implies out.contains(#[trigger] new[m]) by {
                    if m == 0 {
                        assert(out[i] == out.take(cur.len() as int)[i]);
                    } else {
                        assert(new[m] == rest[m - 1]);
                    }
                }
            }
        } else {
            let next = cur.push(x);
            if next.len() == MAX_SNIPPETS {
                assert(out == next);
                assert(out.take(cur.len() as int) == cur);
                assert forall|j: int| cur.len() <= j < out.len() implies first_fresh(
                    new,
                    out.take(j),
                    #[trigger] out[j],
                ) by {
                    assert(j == cur.len());
                    assert(out.take(j) == cur);
                    assert(new[0] == out[j]);
                }
            } else {
                lemma_add_snippets_greedy(next, rest);
                assert(out == add_snippets(next, rest));
                assert(out.take(next.len() as int) == next);
                assert(out.take(cur.len() as int) == next.take(cur.len() as int));
                assert(next.take(cur.len() as int) == cur);
                let c = cur.len() as int;
                assert(out[c] == x) by {
                    assert(out.take(next.len() as int)[c] == next[c]);
                }
                assert forall|j: int| cur.len() <= j < out.len() implies first_fresh(
                    new,
                    out.take(j),
                    #[trigger] out[j],
                ) by {
                    if j == c {
                        assert(out.take(j) == cur);
                        assert(new[0] == out[j]);
                    } else {
                        assert(first_fresh(rest, out.take(j), out[j]));
                        let m = choose|m: int|
                            0 <= m < rest.len() && #[trigger] rest[m] == out[j]
                                && !out.take(j).contains(out[j]) && forall|m2: int|
                                0 <= m2 < m ==> out.take(j).contains(#[trigger] rest[m2]);
                        assert(out.take(j)[c] == x);
                        assert(out.take(j).contains(new[0]));
                        assert(new[m + 1] == rest[m]);
                        assert forall|m2: int| 0 <= m2 < m + 1 implies out.take(j).contains(
                            #[trigger] new[m2],
                        ) by {
                            if m2 > 0 {
                                assert(new[m2] == rest[m2 - 1]);
                            }
                        }
                    }
                }
                if out.len() < MAX_SNIPPETS {
                    assert forall|m: int| 0 <= m < new.len() implies out.contains(#[trigger] new[m]) by {
                        if m == 0 {
                            assert(out[c] == new[0]);
                        } else {
                            assert(new[m] == rest[m - 1]);
                        }
                    }
                }
            }
        }
    }
}

/// A result whose trimmed URL is that of a kept source with fewer than
/// `MAX_SNIPPETS` snippets (none included) changes only that source's
/// snippets: its old snippets stay first; each added snippet is the first
/// of the result's snippets (normalized, non-empty, at most two) that the
/// source does not hold yet; and the source stops short of `MAX_SNIPPETS`
/// only when it holds all of them.  A source that already has
/// `MAX_SNIPPETS` snippets is left as it is.
pub proof fn law_absorb_repeated_url(
    state: Seq<SourceView>,
    r: GroundingResult,
    response: &BraveResponse,
    k: int,
)
    requires
        sources_wf(state),
        0 <= k < state.len(),
        state[k].url == trim(r.url@),
    ensures
        ({
            let next = absorb(state, r, response);
            let old = state[k].snippets;
            let new = pick_snippets(raw_snippets(r), 2);
            let out = next[k].snippets;
            &&& next.len() == state.len()
            &&& forall|i: int| 0 <= i < state.len() && i != k ==> next[i] == state[i]
            &&& next[k].url == state[k].url
            &&& next[k].title == state[k].title
            &&& next[k].hostname == state[k].hostname
            &&& next[k].age == state[k].age
            &&& (old.len() >= 2 ==> out == old)
            &&& (old.len() < 2 ==> {
                &&& old.len() <= out.len() <= 2
                &&& out.take(old.len() as int) == old
                &&& forall|j: int|
                    old.len() <= j < out.len() ==> first_fresh(new, out.take(j), #[trigger] out[j])
                &&& out.len() < 2 ==> forall|m: int|
                    0 <= m < new.len() ==> out.contains(#[trigger] new[m])
            })
        }),
{
    let url = trim(r.url@);
    assert(source_wf(state[k]));
    assert forall|j: int| 0 <= j < k implies #[trigger] state[j].url != url by {
        assert(state[j].url != state[k].url);
    }
    lemma_find_url_some(state, url, k);
    let new = pick_snippets(raw_snippets(r), MAX_SNIPPETS as nat);
    if state[k].snippets.len() < MAX_SNIPPETS {
        lemma_add_snippets_greedy(state[k].snippets, new);
    }
}

/// A result whose trimmed URL is new and not empty adds one source at the
/// end, with that URL; its title is the result's name, else the result's
/// title, else the metadata's title, each trimmed and only if not blank,
/// else the URL; its host is the metadata's host name and its age the
/// metadata's first age, trimmed and only if not blank; its snippets are
/// the result's first two non-empty normalized snippets.  A result with a
/// blank URL changes nothing.
pub proof fn law_absorb_new_url(state: Seq<SourceView>, r: GroundingResult, response: &BraveResponse)
    requires
        forall|i: int| 0 <= i < state.len() ==> #[trigger] state[i].url != trim(r.url@),
    ensures
        trim(r.url@).len() == 0 ==> absorb(state, r, response) == state,
        trim(r.url@).len() > 0 ==> {
            let url = trim(r.url@);
            let next = absorb(state, r, response);
            let v = next.last();
            let meta = meta_for(response, url);
            let name_ok = r.name matches Some(n) && trim(n@).len() > 0;
            let title_ok = r.title matches Some(t) && trim(t@).len() > 0;
            let meta_title_ok = meta matches Some(m) && m.title matches Some(t) && trim(t@).len()
                > 0;
            &&& next.len() == state.len() + 1
            &&& next.take(state.len() as int) == state
            &&& v.url == url
            &&& (r.name matches Some(n) ==> (trim(n@).len() > 0 ==> v.title == trim(n@)))
            &&& (!name_ok ==> (r.title matches Some(t) ==> (trim(t@).len() > 0 ==> v.title
                == trim(t@))))
            &&& (!name_ok && !title_ok ==> (meta matches Some(m) ==> (m.title matches Some(t)
                ==> (trim(t@).len() > 0 ==> v.title == trim(t@)))))
            &&& (!name_ok && !title_ok && !meta_title_ok ==> v.title == url)
            &&& (meta matches Some(m) ==> (m.hostname matches Some(h) ==> (trim(h@).len() > 0
                ==> v.hostname == Some(trim(h@)))))
            &&& (!(meta matches Some(m) && m.hostname matches Some(h) && trim(h@).len() > 0)
                ==> v.hostname is None)
            &&& (meta matches Some(m) ==> (m.age matches Some(a) ==> (a@.len() > 0 ==> (trim(
                a@[0]@,
            ).len() > 0 ==> v.age == Some(trim(a@[0]@))))))
            &&& (!(meta matches Some(m) && m.age matches Some(a) && a@.len() > 0 && trim(
                a@[0]@,
            ).len() > 0) ==> v.age is None)
            &&& v.snippets == pick_snippets(raw_snippets(r), 2)
        },
{
    lemma_find_url_none(state, trim(r.url@));
    if trim(r.url@).len() > 0 {
        let next = absorb(state, r, response);
        assert(next.take(state.len() as int) == state);
    }
}

/// The metadata used for a URL is that of the first entry whose key is the
/// URL, and there is none exactly when no entry has that key.
pub proof fn law_find_meta(entries: Seq<(String, SourceMetadata)>, url: Seq<char>)
    ensures
        find_meta(entries, url) is None <==> forall|i: int|
            0 <= i < entries.len() ==> (#[trigger] entries[i]).0@ != url,
        find_meta(entries, url) matches Some(m) ==> exists|i: int|
            0 <= i < entries.len() && (#[trigger] entries[i]).0@ == url && entries[i].1 == m
                && forall|j: int| 0 <= j < i ==> (#[trigger] entries[j]).0@ != url,
    decreases entries.len(),
{
    if entries.len() > 0 {
        let rest = entries.drop_first();
        law_find_meta(rest, url);
        if entries[0].0@ == url {
            assert(entries[0].0@ == url);
        } else {
            assert forall|i: int| 0 < i < entries.len() implies entries[i] == rest[i - 1] by {}
            if let Some(m) = find_meta(rest, url) {
                let i = choose|i: int|
                    0 <= i < rest.len() && (#[trigger] rest[i]).0@ == url && rest[i].1 == m
                        && forall|j: int| 0 <= j < i ==> (#[trigger] rest[j]).0@ != url;
                assert(entries[i + 1] == rest[i]);
                assert forall|j: int| 0 <= j < i + 1 implies (#[trigger] entries[j]).0@ != url by {
                    if j > 0 {
                        assert(entries[j] == rest[j - 1]);
                    }
                }
            } else {
                assert forall|i: int| 0 <= i < entries.len() implies (#[trigger] entries[i]).0@
                    != url by {
                    if i > 0 {
                        assert(entries[i] == rest[i - 1]);
                    }
                }
            }
        }
    }
}

proof fn lemma_absorb_wf(state: Seq<SourceView>, r: GroundingResult, response: &BraveResponse)
    requires
        sources_wf(state),
    ensures
        sources_wf(absorb(state, r, response)),
{
    let url = trim(r.url@);
    if url.len() > 0 {
        lemma_trim_idempotent(r.url@);
        let snippets = pick_snippets(raw_snippets(r), MAX_SNIPPETS as nat);
        lemma_pick_snippets(raw_snippets(r), MAX_SNIPPETS as nat);
        lemma_find_url(state, url);
        let next = absorb(state, r, response);
        match find_url(state, url) {
            None => {
                let meta = meta_for(response, url);
                let v = next.last();
                assert(v.title.len() > 0);
                assert(source_wf(v));
                assert forall|i: int| 0 <= i < next.len() implies source_wf(#[trigger] next[i]) by {
                    if i < state.len() {
                        assert(next[i] == state[i]);
                    }
                }
                assert forall|i: int, j: int|
                    0 <= i < j < next.len() implies #[trigger] next[i].url != #[trigger] next[j].url by {
                    if j < state.len() {
                        assert(next[i] == state[i]);
                        assert(next[j] == state[j]);
                    } else {
                        assert(next[i] == state[i]);
                    }
                }
            },
            Some(k) => {
                let old_v = state[k];
                if old_v.snippets.len() < MAX_SNIPPETS {
                    lemma_add_snippets(old_v.snippets, snippets);
                }
                let v = next[k];
                assert(source_wf(v));
                assert forall|i: int| 0 <= i < next.len() implies source_wf(#[trigger] next[i]) by {
                    if i != k {
                        assert(next[i] == state[i]);
                    }
                }
                assert forall|i: int, j: int|
                    0 <= i < j < next.len() implies #[trigger] next[i].url != #[trigger] next[j].url by {
                    assert(next[i].url == state[i].url);
                    assert(next[j].url == state[j].url);
                }
            },
        }
    }
}

proof fn lemma_absorb_all_wf(results: Seq<GroundingResult>, response: &BraveResponse)
    ensures
        sources_wf(absorb_all(results, response)),
    decreases results.len(),
{
    if results.len() > 0 {
        lemma_absorb_all_wf(results.drop_last(), response);
        lemma_absorb_wf(absorb_all(results.drop_last(), response), results.last(), response);
    }
}

/// The sources of a response are at most `MAX_SOURCES`, each is well
/// formed, and no URL occurs twice.
pub proof fn law_grounded_sources_shape(response: &BraveResponse)
    ensures
        grounded_sources_spec(response).len() <= 6,
        sources_wf(grounded_sources_spec(response)),
{
    let all = absorb_all(grounding_results(response), response);
    lemma_absorb_all_wf(grounding_results(response), response);
    let s = grounded_sources_spec(response);
    if all.len() > MAX_SOURCES {
        assert forall|i: int| 0 <= i < s.len() implies source_wf(#[trigger] s[i]) by {
            assert(s[i] == all[i]);
        }
        assert forall|i: int, j: int|
            0 <= i < j < s.len() implies #[trigger] s[i].url != #[trigger] s[j].url by {
            assert(s[i] == all[i]);
            assert(s[j] == all[j]);
        }
    }
}


/// The URLs of the sources after one more result: all URLs kept before, at
/// the same places, plus the result's trimmed URL when it is not blank.
proof fn lemma_absorb_urls(state: Seq<SourceView>, r: GroundingResult, response: &BraveResponse)
    ensures
        ({
            let next = absorb(state, r, response);
            let url = trim(r.url@);
            &&& next.len() >= state.len()
            &&& forall|j: int| 0 <= j < state.len() ==> #[trigger] next[j].url == state[j].url
            &&& url.len() > 0 ==> exists|j: int| 0 <= j < next.len() && #[trigger] next[j].url == url
            &&& forall|j: int|
                state.len() <= j < next.len() ==> #[trigger] next[j].url == url && url.len() > 0
        }),
{
    let url = trim(r.url@);
    if url.len() > 0 {
        lemma_find_url(state, url);
        let next = absorb(state, r, response);
        match find_url(state, url) {
            None => {
                assert(next[state.len() as int].url == url);
            },
            Some(k) => {
                assert(next[k].url == url);
            },
        }
    }
}

proof fn lemma_absorb_all_urls(results: Seq<GroundingResult>, response: &BraveResponse)
    ensures
        ({
            let all = absorb_all(results, response);
            &&& forall|i: int|
                0 <= i < results.len() && trim(results[i].url@).len() > 0 ==> exists|j: int|
                    0 <= j < all.len() && #[trigger] all[j].url == trim(
                        #[trigger] results[i].url@,
                    )
            &&& forall|j: int|
                0 <= j < all.len() ==> exists|i: int|
                    0 <= i < results.len() && (#[trigger] all[j]).url == trim(results[i].url@)
        }),
    decreases results.len(),
{
    if results.len() > 0 {
        let prev = results.drop_last();
        let state = absorb_all(prev, response);
        let r = results.last();
        let all = absorb_all(results, response);
        lemma_absorb_all_urls(prev, response);
        lemma_absorb_urls(state, r, response);
        assert forall|i: int|
            0 <= i < results.len() && trim(results[i].url@).len() > 0 implies exists|j: int|
            0 <= j < all.len() && #[trigger] all[j].url == trim(#[trigger] results[i].url@) by {
            if i < results.len() - 1 {
                assert(results[i] == prev[i]);
                let j = choose|j: int|
                    0 <= j < state.len() && #[trigger] state[j].url == trim(prev[i].url@);
                assert(all[j].url == state[j].url);
            }
        }
        assert forall|j: int| 0 <= j < all.len() implies exists|i: int|
            0 <= i < results.len() && (#[trigger] all[j]).url == trim(results[i].url@) by {
            if j < state.len() {
                assert(all[j].url == state[j].url);
                let i = choose|i: int|
                    0 <= i < prev.len() && (#[trigger] state[j]).url == trim(prev[i].url@);
                assert(results[i] == prev[i]);
            } else {
                assert(all[j].url == trim(results[results.len() - 1].url@));
            }
        }
    }
}

/// Every result with a non-blank URL is shown as a source with its trimmed
/// URL unless `MAX_SOURCES` sources are already shown, and every source
/// shown has the trimmed URL of some result.
pub proof fn law_grounded_sources_cover(response: &BraveResponse)
    ensures
        ({
            let s = grounded_sources_spec(response);
            let rs = grounding_results(response);
            &&& forall|i: int|
                0 <= i < rs.len() && trim(rs[i].url@).len() > 0 ==> s.len() == 6
                    || exists|j: int| 0 <= j < s.len() && #[trigger] s[j].url == trim(
                    #[trigger] rs[i].url@,
                )
            &&& forall|j: int|
                0 <= j < s.len() ==> exists|i: int|
                    0 <= i < rs.len() && (#[trigger] s[j]).url == trim(rs[i].url@)
        }),
{
    let rs = grounding_results(response);
    let all = absorb_all(rs, response);
    let s = grounded_sources_spec(response);
    lemma_absorb_all_urls(rs, response);
    if all.len() > MAX_SOURCES {
        assert forall|j: int| 0 <= j < s.len() implies exists|i: int|
            0 <= i < rs.len() && (#[trigger] s[j]).url == trim(rs[i].url@) by {
            assert(s[j] == all[j]);
        }
    }
}

/// A normalized snippet is the snippet's words joined by single spaces when
/// that has at most `MAX_SNIPPET_CHARS` characters, and otherwise its first
/// `SNIPPET_KEEP_CHARS` characters followed by three dots.
pub proof fn law_normalize_snippet_exact(s: Seq<char>)
    ensures
        ({
            let c = join(words(s), seq![' ']);
            let r = normalize_snippet_spec(s);
            &&& c.len() <= 280 ==> r == c
            &&& c.len() > 280 ==> {
                &&& r.len() == 280
                &&& r.take(277) == c.take(277)
                &&& r.skip(277) == seq!['.', '.', '.']
            }
        }),
{
    reveal_strlit("...");
    let c = join(words(s), seq![' ']);
    if c.len() > MAX_SNIPPET_CHARS {
        let r = normalize_snippet_spec(s);
        assert(r.take(SNIPPET_KEEP_CHARS as int) == c.take(SNIPPET_KEEP_CHARS as int));
        assert(r.skip(SNIPPET_KEEP_CHARS as int) == seq!['.', '.', '.']);
    }
}

/// An optional text becomes nothing when absent or blank, and its trimmed
/// text otherwise.
pub proof fn law_trim_or_none_values(value: Option<Seq<char>>)
    ensures
        value is None ==> trim_or_none_spec(value) is None,
        value matches Some(v) ==> (trim(v).len() == 0 <==> trim_or_none_spec(value) is None),
        value matches Some(v) ==> (trim(v).len() > 0 ==> trim_or_none_spec(value) == Some(
            trim(v),
        )),
{
}

} // verus!
