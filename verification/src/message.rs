//! The context message handed to the model: an introduction, the query and
//! one numbered block per source.

use vstd::prelude::*;

use crate::sources::{grounded_sources, grounded_sources_spec, sources_view, BraveResponse, GroundedSource, SourceView};
use crate::text::{join, join_strings};

verus! {

broadcast use vstd::string::group_string_axioms;

/// The first line of every context message.
pub const INTRO_ENABLED: &'static str = "Live Brave Search grounding is enabled for the latest user message.";

/// The second line of every context message.
pub const INTRO_USE: &'static str = "Use the web context below when it is relevant. Prefer this grounding over stale model memory for time-sensitive claims.";

/// The third line of every context message.
pub const INTRO_CITE: &'static str = "Cite source hostnames or URLs when you rely on this web grounding.";

/// The line added for a request from an incognito chat.
pub const INTRO_INCOGNITO: &'static str = "This request came from an incognito chat, so treat the web grounding as ephemeral session context only.";

/// What follows the introduction when the response has no sources.
pub const NO_SOURCES: &'static str = "\n\nNo relevant Brave Search grounding was returned for this query.";

/// What stands between the introduction and the source blocks.
pub const SOURCES_HEADING: &'static str = "\n\nWeb Sources:\n";

/// The decimal digit for `d`.
pub open spec fn digit_char(d: nat) -> char {
    (48 + d) as char
}

/// The decimal representation of `n`, without leading zeros.
pub open spec fn decimal(n: nat) -> Seq<char>
    decreases n,
{
    if n < 10 {
        seq![digit_char(n)]
    } else {
        decimal(n / 10) + seq![digit_char(n % 10)]
    }
}

/// The number that decimal digits denote.
pub open spec fn digits_value(s: Seq<char>) -> int
    decreases s.len(),
{
    if s.len() == 0 {
        0
    } else {
        digits_value(s.drop_last()) * 10 + (s.last() as int - 48)
    }
}

/// The decimal form of `n` consists of the digits '0' to '9', starts with
/// '0' only for zero, and denotes `n`.
pub proof fn law_decimal_denotes(n: nat)
    ensures
        decimal(n).len() >= 1,
        forall|i: int| 0 <= i < decimal(n).len() ==> '0' <= #[trigger] decimal(n)[i] <= '9',
        n > 0 ==> decimal(n)[0] != '0',
        digits_value(decimal(n)) == n,
    decreases n,
{
    if n >= 10 {
        law_decimal_denotes(n / 10);
        let d = decimal(n);
        let hi = decimal(n / 10);
        assert(d.drop_last() == hi);
        assert(d[0] == hi[0]);
        assert forall|i: int| 0 <= i < d.len() implies '0' <= #[trigger] d[i] <= '9' by {
            if i < hi.len() {
                assert(d[i] == hi[i]);
            }
        }
        let r = n % 10;
        assert(d.last() == digit_char(r));
        assert(digit_char(r) as int == 48 + r);
        assert(n == (n / 10) * 10 + r);
        assert(digits_value(d) == digits_value(hi) * 10 + (d.last() as int - 48));
    } else {
        let d = decimal(n);
        assert(d.drop_last() == Seq::<char>::empty());
        assert(digits_value(Seq::<char>::empty()) == 0);
        assert(digit_char(n) as int == 48 + n);
        assert(digits_value(d) == digits_value(d.drop_last()) * 10 + (d.last() as int - 48));
    }
}

fn digit(d: usize) -> (c: char)
    requires
        d < 10,
    ensures
        c == digit_char(d as nat),
{
    ((d as u8) + 48u8) as char
}

/// `n` written in decimal, as `format!("{}", n)` writes it.
pub fn decimal_string(n: usize) -> (s: String)
    ensures
        s@ == decimal(n as nat),
    decreases n,
{
    if n < 10 {
        let mut s = String::new();
        s.push(digit(n));
        s
    } else {
        let mut s = decimal_string(n / 10);
        s.push(digit(n % 10));
        s
    }
}


/// The lines of the introduction: the fixed lines, the incognito line for
/// an incognito chat, then the query.
pub open spec fn intro_lines(query: Seq<char>, is_incognito: bool) -> Seq<Seq<char>> {
    let fixed = seq![INTRO_ENABLED@, INTRO_USE@, INTRO_CITE@];
    let with_mode = if is_incognito {
        fixed.push(INTRO_INCOGNITO@)
    } else {
        fixed
    };
    with_mode.push("Search query: "@ + query)
}

/// The lines that a source's snippets take.
pub open spec fn snippet_lines(snippets: Seq<Seq<char>>) -> Seq<Seq<char>> {
    snippets.map_values(|x: Seq<char>| "- "@ + x)
}

/// The lines of the block for the source at `index` (counted from 0): its
/// number and title, its URL, its host and age where known, and its
/// snippets under a heading where it has any.
pub open spec fn source_lines(index: nat, s: SourceView) -> Seq<Seq<char>> {
    let head = seq![decimal(index + 1) + ". "@ + s.title, "URL: "@ + s.url];
    let with_host = match s.hostname {
        Some(h) => head.push("Host: "@ + h),
        None => head,
    };
    let with_age = match s.age {
        Some(a) => with_host.push("Age: "@ + a),
        None => with_host,
    };
    if s.snippets.len() > 0 {
        with_age.push("Snippets:"@) + snippet_lines(s.snippets)
    } else {
        with_age
    }
}

/// The block of a source lists, line by line: its number and title, its
/// URL, its host and its age where known, and, where it has `n > 0`
/// snippets, the line "Snippets:" followed by exactly `n` lines, one per
/// snippet in order, each "- " and the snippet.
pub proof fn law_source_lines(index: nat, s: SourceView)
    ensures
        ({
            let l = source_lines(index, s);
            let h: int = if s.hostname is Some {
                1
            } else {
                0
            };
            let a: int = if s.age is Some {
                1
            } else {
                0
            };
            let n = s.snippets.len() as int;
            &&& l[0] == decimal(index + 1) + ". "@ + s.title
            &&& l[1] == "URL: "@ + s.url
            &&& (s.hostname matches Some(x) ==> l[2] == "Host: "@ + x)
            &&& (s.age matches Some(x) ==> l[2 + h] == "Age: "@ + x)
            &&& (n == 0 ==> l.len() == 2 + h + a)
            &&& (n > 0 ==> {
                &&& l.len() == 3 + h + a + n
                &&& l[2 + h + a] == "Snippets:"@
                &&& forall|k: int| 0 <= k < n ==> l[3 + h + a + k] == "- "@ + s.snippets[k]
            })
        }),
{
}

/// The introduction has the three fixed lines, then the incognito line
/// exactly for an incognito chat, then "Search query: " and the query; the
/// message is the introduction followed by the no-sources line when there
/// are no sources, and by the heading and one block per source otherwise.
pub proof fn law_message_layout(sources: Seq<SourceView>, query: Seq<char>, is_incognito: bool)
    ensures
        ({
            let lines = intro_lines(query, is_incognito);
            let intro = join(lines, "\n"@);
            let msg = context_message_spec(sources, query, is_incognito);
            &&& lines.len() == (if is_incognito {
                5int
            } else {
                4int
            })
            &&& lines[0] == INTRO_ENABLED@ && lines[1] == INTRO_USE@ && lines[2] == INTRO_CITE@
            &&& is_incognito ==> lines[3] == INTRO_INCOGNITO@
            &&& lines.last() == "Search query: "@ + query
            &&& sources.len() == 0 ==> msg == intro + NO_SOURCES@
            &&& sources.len() > 0 ==> msg == intro + SOURCES_HEADING@ + join(
                source_blocks(sources),
                "\n\n"@,
            )
            &&& source_blocks(sources).len() == sources.len()
            &&& forall|i: int|
                0 <= i < sources.len() ==> #[trigger] source_blocks(sources)[i] == join(
                    source_lines(i as nat, sources[i]),
                    "\n"@,
                )
            &&& INTRO_ENABLED@
                == "Live Brave Search grounding is enabled for the latest user message."@
            &&& INTRO_USE@
                == "Use the web context below when it is relevant. Prefer this grounding over stale model memory for time-sensitive claims."@
            &&& INTRO_CITE@
                == "Cite source hostnames or URLs when you rely on this web grounding."@
            &&& INTRO_INCOGNITO@
                == "This request came from an incognito chat, so treat the web grounding as ephemeral session context only."@
            &&& NO_SOURCES@
                == "\n\nNo relevant Brave Search grounding was returned for this query."@
            &&& SOURCES_HEADING@ == "\n\nWeb Sources:\n"@
        }),
{
}

/// The blocks of all sources, numbered from 1.
pub open spec fn source_blocks(sources: Seq<SourceView>) -> Seq<Seq<char>> {
    Seq::new(sources.len(), |i: int| join(source_lines(i as nat, sources[i]), "\n"@))
}

/// The context message for these sources.
pub open spec fn context_message_spec(
    sources: Seq<SourceView>,
    query: Seq<char>,
    is_incognito: bool,
) -> Seq<char> {
    let intro = join(intro_lines(query, is_incognito), "\n"@);
    if sources.len() == 0 {
        intro + NO_SOURCES@
    } else {
        intro + SOURCES_HEADING@ + join(source_blocks(sources), "\n\n"@)
    }
}

/// A label followed by a text.
fn labelled(label: &str, value: &str) -> (r: String)
    ensures
        r@ == label@ + value@,
{
    let mut r = label.to_string();
    r.append(value);
    r
}

/// The block for the source at `index`.
fn source_block(index: usize, s: &GroundedSource) -> (r: String)
    requires
        index < usize::MAX,
    ensures
        r@ == join(source_lines(index as nat, s@), "\n"@),
{
    let mut lines: Vec<String> = Vec::new();
    let mut first = decimal_string(index + 1);
    first.append(". ");
    first.append(s.title.as_str());
    lines.push(first);
    lines.push(labelled("URL: ", s.url.as_str()));
    match &s.hostname {
        Some(h) => lines.push(labelled("Host: ", h.as_str())),
        None => {},
    }
    match &s.age {
        Some(a) => lines.push(labelled("Age: ", a.as_str())),
        None => {},
    }
    let ghost sv = s@;
    let ghost head = seq![decimal(index as nat + 1) + ". "@ + sv.title, "URL: "@ + sv.url];
    let ghost with_host = match sv.hostname {
        Some(h) => head.push("Host: "@ + h),
        None => head,
    };
    let ghost with_age = match sv.age {
        Some(a) => with_host.push("Age: "@ + a),
        None => with_host,
    };
    assert(lines.deep_view() == with_age);
    if s.snippets.len() > 0 {
        lines.push("Snippets:".to_string());
        let ghost base = lines.deep_view();
        let mut i: usize = 0;
        while i < s.snippets.len()
            invariant
                i <= s.snippets@.len(),
                sv == s@,
                lines.deep_view() == base + snippet_lines(sv.snippets.take(i as int)),
            decreases s.snippets@.len() - i,
        {
            let line = labelled("- ", s.snippets[i].as_str());
            let ghost before = lines.deep_view();
            lines.push(line);
            assert(lines.deep_view() == before.push(line@));
            assert(snippet_lines(sv.snippets.take(i + 1)) == snippet_lines(
                sv.snippets.take(i as int),
            ).push("- "@ + sv.snippets[i as int]));
            i = i + 1;
        }
        assert(sv.snippets.take(i as int) == sv.snippets);
        assert(base == with_age.push("Snippets:"@));
        assert(lines.deep_view() == source_lines(index as nat, sv));
    } else {
        assert(sv.snippets.len() == 0);
        assert(lines.deep_view() == source_lines(index as nat, sv));
    }
    join_strings(&lines, "\n")
}

/// The context message for a response: the introduction with the query,
/// then a numbered block per source, or a line saying that none was found.
pub fn make_context_message(response: &BraveResponse, query: &str, is_incognito: bool) -> (r:
    String)
    ensures
        r@ == context_message_spec(grounded_sources_spec(response), query@, is_incognito),
{
    let sources = grounded_sources(response);
    let mut intro_parts: Vec<String> = Vec::new();
    intro_parts.push(INTRO_ENABLED.to_string());
    intro_parts.push(INTRO_USE.to_string());
    intro_parts.push(INTRO_CITE.to_string());
    if is_incognito {
        intro_parts.push(INTRO_INCOGNITO.to_string());
    }
    intro_parts.push(labelled("Search query: ", query));
    assert(intro_parts.deep_view() == intro_lines(query@, is_incognito));
    let mut message = join_strings(&intro_parts, "\n");
    let ghost sv = sources_view(sources@);
    if sources.len() == 0 {
        message.append(NO_SOURCES);
        return message;
    }
    let mut blocks: Vec<String> = Vec::new();
    let mut i: usize = 0;
    while i < sources.len()
        invariant
            i <= sources@.len(),
            sv == sources_view(sources@),
            blocks.deep_view() == source_blocks(sv).take(i as int),
        decreases sources@.len() - i,
    {
        let block = source_block(i, &sources[i]);
        let ghost before = blocks.deep_view();
        blocks.push(block);
        assert(blocks.deep_view() == before.push(block@));
        assert(source_blocks(sv).take(i + 1) == source_blocks(sv).take(i as int).push(block@));
        i = i + 1;
    }
    assert(source_blocks(sv).take(i as int) == source_blocks(sv));
    message.append(SOURCES_HEADING);
    let body = join_strings(&blocks, "\n\n");
    message.append(body.as_str());
    message
}

} // verus!
