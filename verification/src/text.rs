//! Character-level text model: whitespace, trimming, words and joining.

use vstd::prelude::*;

verus! {

broadcast use vstd::string::group_string_axioms;

/// The Unicode `White_Space` property, which `char::is_whitespace` tests.
pub open spec fn is_ws(c: char) -> bool {
    let u = c as u32;
    ||| 0x09 <= u <= 0x0D
    ||| u == 0x20
    ||| u == 0x85
    ||| u == 0xA0
    ||| u == 0x1680
    ||| 0x2000 <= u <= 0x200A
    ||| u == 0x2028
    ||| u == 0x2029
    ||| u == 0x202F
    ||| u == 0x205F
    ||| u == 0x3000
}

/// Whether `c` is Unicode white space.
pub fn is_whitespace(c: char) -> (b: bool)
    ensures
        b == is_ws(c),
{
    let u = c as u32;
    (0x09 <= u && u <= 0x0D) || u == 0x20 || u == 0x85 || u == 0xA0 || u == 0x1680 || (0x2000
        <= u && u <= 0x200A) || u == 0x2028 || u == 0x2029 || u == 0x202F || u == 0x205F || u
        == 0x3000
}

/// `String::push` appends one character.
pub assume_specification[ String::push ](s: &mut String, ch: char)
    ensures
        final(s)@ == old(s)@.push(ch),
;

/// The characters of `s`, in order.
pub fn chars_of(s: &str) -> (v: Vec<char>)
    ensures
        v@ == s@,
{
    let mut v: Vec<char> = Vec::new();
    for c in it: s.chars()
        invariant
            v@ == it.seq().take(it.index() as int),
            it.seq() == s@,
    {
        v.push(c);
    }
    v
}

/// The string made of the characters of `v`.
pub fn string_of(v: &[char]) -> (s: String)
    ensures
        s@ == v@,
{
    let mut s = String::new();
    let mut i: usize = 0;
    while i < v.len()
        invariant
            i <= v@.len(),
            s@ == v@.take(i as int),
        decreases v@.len() - i,
    {
        s.push(v[i]);
        i = i + 1;
        assert(v@.take(i as int) == v@.take(i - 1).push(v@[i - 1]));
    }
    assert(v@.take(i as int) == v@);
    s
}


/// Leading white space removed, as `str::trim_start` does.
pub open spec fn trim_start(s: Seq<char>) -> Seq<char>
    decreases s.len(),
{
    if s.len() > 0 && is_ws(s[0]) {
        trim_start(s.drop_first())
    } else {
        s
    }
}

/// Trailing white space removed, as `str::trim_end` does.
pub open spec fn trim_end(s: Seq<char>) -> Seq<char>
    decreases s.len(),
{
    if s.len() > 0 && is_ws(s.last()) {
        trim_end(s.drop_last())
    } else {
        s
    }
}

/// Leading and trailing white space removed, as `str::trim` does.
pub open spec fn trim(s: Seq<char>) -> Seq<char> {
    trim_end(trim_start(s))
}

/// The number of characters before the first white space of `s`.
pub open spec fn word_len(s: Seq<char>) -> nat
    decreases s.len(),
{
    if s.len() == 0 || is_ws(s[0]) {
        0
    } else {
        1 + word_len(s.drop_first())
    }
}

/// The maximal runs of non-white-space characters of `s`, in order, as
/// `str::split_whitespace` yields them.
pub open spec fn words(s: Seq<char>) -> Seq<Seq<char>>
    decreases s.len(),
{
    if s.len() == 0 {
        Seq::empty()
    } else if is_ws(s[0]) {
        words(s.drop_first())
    } else {
        proof {
            lemma_word_len_bound(s);
        }
        seq![s.take(word_len(s) as int)] + words(s.skip(word_len(s) as int))
    }
}

/// The pieces of `ws` with `sep` between each two neighbours.
pub open spec fn join(ws: Seq<Seq<char>>, sep: Seq<char>) -> Seq<char>
    decreases ws.len(),
{
    if ws.len() == 0 {
        Seq::empty()
    } else if ws.len() == 1 {
        ws[0]
    } else {
        ws[0] + sep + join(ws.drop_first(), sep)
    }
}

/// No character of `s` is white space.
pub open spec fn no_ws(s: Seq<char>) -> bool {
    forall|i: int| 0 <= i < s.len() ==> !is_ws(#[trigger] s[i])
}

/// A non-empty piece without white space.
pub open spec fn is_word(w: Seq<char>) -> bool {
    w.len() > 0 && no_ws(w)
}

/// Every piece of `ws` is a word.
pub open spec fn all_words(ws: Seq<Seq<char>>) -> bool {
    forall|i: int| 0 <= i < ws.len() ==> is_word(#[trigger] ws[i])
}

pub proof fn lemma_word_len_bound(s: Seq<char>)
    ensures
        word_len(s) <= s.len(),
        s.len() > 0 && !is_ws(s[0]) ==> word_len(s) >= 1,
        forall|i: int| 0 <= i < word_len(s) ==> !is_ws(#[trigger] s[i]),
        word_len(s) < s.len() ==> is_ws(s[word_len(s) as int]),
    decreases s.len(),
{
    if s.len() > 0 && !is_ws(s[0]) {
        lemma_word_len_bound(s.drop_first());
        assert forall|i: int| 0 <= i < word_len(s) implies !is_ws(#[trigger] s[i]) by {
            if i > 0 {
                assert(s[i] == s.drop_first()[i - 1]);
            }
        }
    }
}

/// A run of `k` non-white-space characters ended by white space or by the
/// end of `s` has length `word_len(s)`.
pub proof fn lemma_word_len_exact(s: Seq<char>, k: int)
    requires
        0 <= k <= s.len(),
        forall|i: int| 0 <= i < k ==> !is_ws(#[trigger] s[i]),
        k == s.len() || is_ws(s[k]),
    ensures
        word_len(s) == k,
    decreases k,
{
    if k > 0 {
        assert forall|i: int| 0 <= i < k - 1 implies !is_ws(#[trigger] s.drop_first()[i]) by {
            assert(s.drop_first()[i] == s[i + 1]);
        }
        if k < s.len() {
            assert(s.drop_first()[k - 1] == s[k]);
        }
        lemma_word_len_exact(s.drop_first(), k - 1);
    }
}

/// Every piece that `words` yields is a word.
pub proof fn lemma_words_are_words(s: Seq<char>)
    ensures
        all_words(words(s)),
    decreases s.len(),
{
    if s.len() > 0 {
        if is_ws(s[0]) {
            lemma_words_are_words(s.drop_first());
        } else {
            lemma_word_len_bound(s);
            let n = word_len(s) as int;
            lemma_words_are_words(s.skip(n));
            let w = s.take(n);
            assert(is_word(w));
            assert(words(s) == seq![w] + words(s.skip(n)));
            assert forall|i: int| 0 <= i < words(s).len() implies is_word(#[trigger] words(s)[i]) by {
                if i > 0 {
                    assert(words(s)[i] == words(s.skip(n))[i - 1]);
                }
            }
        }
    }
}

/// Appending a piece at the end of a join.
pub proof fn lemma_join_push(ws: Seq<Seq<char>>, w: Seq<char>, sep: Seq<char>)
    requires
        ws.len() >= 1,
    ensures
        join(ws.push(w), sep) == join(ws, sep) + sep + w,
    decreases ws.len(),
{
    if ws.len() == 1 {
        assert(ws.push(w).drop_first() == seq![w]);
        assert(join(seq![w], sep) == w);
    } else {
        assert(ws.push(w).drop_first() == ws.drop_first().push(w));
        lemma_join_push(ws.drop_first(), w, sep);
        assert(join(ws.push(w), sep) == ws[0] + sep + join(ws.drop_first().push(w), sep));
        assert(join(ws, sep) == ws[0] + sep + join(ws.drop_first(), sep));
        assert(ws[0] + sep + (join(ws.drop_first(), sep) + sep + w) == (ws[0] + sep + join(
            ws.drop_first(),
            sep,
        )) + sep + w);
    }
}

/// `s` is empty, or starts and ends with a non-white-space character and
/// every white-space character in it is a single space between two words.
pub open spec fn spaced(s: Seq<char>) -> bool {
    s.len() > 0 ==> {
        &&& !is_ws(s[0])
        &&& !is_ws(s.last())
        &&& forall|i: int|
            0 <= i < s.len() && is_ws(#[trigger] s[i]) ==> s[i] == ' ' && i + 1 < s.len()
                && !is_ws(s[i + 1])
    }
}

/// Joining words with single spaces gives a spaced string, which is empty
/// only when there are no words.
pub proof fn lemma_join_spaced(ws: Seq<Seq<char>>)
    requires
        all_words(ws),
    ensures
        spaced(join(ws, seq![' '])),
        ws.len() > 0 ==> join(ws, seq![' ']).len() > 0,
    decreases ws.len(),
{
    let sp = seq![' '];
    if ws.len() == 1 {
        assert(is_word(ws[0]));
    } else if ws.len() >= 2 {
        let w = ws[0];
        let rest = ws.drop_first();
        assert forall|i: int| 0 <= i < rest.len() implies is_word(#[trigger] rest[i]) by {
            assert(rest[i] == ws[i + 1]);
        }
        lemma_join_spaced(rest);
        let r = join(rest, sp);
        let s = join(ws, sp);
        assert(is_word(ws[0]));
        assert(s == w + sp + r);
        assert(s[0] == w[0]);
        assert(s.last() == r.last());
        assert forall|i: int|
            0 <= i < s.len() && is_ws(#[trigger] s[i]) implies s[i] == ' ' && i + 1 < s.len()
            && !is_ws(s[i + 1]) by {
            if i < w.len() {
                assert(s[i] == w[i]);
            } else if i == w.len() {
                assert(s[i + 1] == r[0]);
            } else {
                assert(s[i] == r[i - w.len() - 1]);
                assert(s[i + 1] == r[i - w.len()]);
            }
        }
    }
}

/// Splitting words joined with single spaces gives the words back.
pub proof fn lemma_words_of_join(ws: Seq<Seq<char>>)
    requires
        all_words(ws),
    ensures
        words(join(ws, seq![' '])) == ws,
    decreases ws.len(),
{
    let sp = seq![' '];
    if ws.len() == 0 {
    } else if ws.len() == 1 {
        let w = ws[0];
        assert(is_word(w));
        lemma_word_len_exact(w, w.len() as int);
        assert(w.take(w.len() as int) == w);
        assert(words(w.skip(w.len() as int)) == Seq::<Seq<char>>::empty());
        assert(words(w) == seq![w]);
        assert(seq![w] == ws);
    } else {
        let w = ws[0];
        let rest = ws.drop_first();
        assert forall|i: int| 0 <= i < rest.len() implies is_word(#[trigger] rest[i]) by {
            assert(rest[i] == ws[i + 1]);
        }
        lemma_words_of_join(rest);
        let r = join(rest, sp);
        let s = join(ws, sp);
        assert(is_word(w));
        assert(s == w + sp + r);
        assert forall|i: int| 0 <= i < w.len() implies !is_ws(#[trigger] s[i]) by {
            assert(s[i] == w[i]);
        }
        assert(s[w.len() as int] == ' ');
        lemma_word_len_exact(s, w.len() as int);
        assert(s.take(w.len() as int) == w);
        let tail = s.skip(w.len() as int);
        assert(tail.drop_first() == r);
        assert(tail[0] == ' ');
        assert(words(tail) == words(r));
        assert(words(s) == seq![w] + rest);
        assert(seq![w] + rest == ws);
    }
}

/// A spaced string has no leading or trailing white space.
pub proof fn lemma_spaced_trim(s: Seq<char>)
    requires
        spaced(s),
    ensures
        trim(s) == s,
{
    assert(trim_start(s) == s);
}

/// Joining the words of a spaced string with single spaces gives it back.
pub proof fn lemma_spaced_words(s: Seq<char>)
    requires
        spaced(s),
    ensures
        join(words(s), seq![' ']) == s,
        s.len() > 0 ==> words(s).len() > 0,
    decreases s.len(),
{
    let sp = seq![' '];
    if s.len() > 0 {
        lemma_word_len_bound(s);
        let n = word_len(s) as int;
        if n == s.len() {
            assert(s.take(n) == s);
            assert(words(s.skip(n)) == Seq::<Seq<char>>::empty());
            assert(words(s) == seq![s]);
        } else {
            assert(is_ws(s[n]));
            let rest = s.skip(n + 1);
            assert(rest.len() > 0);
            assert(rest[0] == s[n + 1]);
            assert(rest.last() == s.last());
            assert forall|j: int|
                0 <= j < rest.len() && is_ws(#[trigger] rest[j]) implies rest[j] == ' ' && j + 1
                < rest.len() && !is_ws(rest[j + 1]) by {
                assert(rest[j] == s[n + 1 + j]);
                assert(s[n + 1 + j] == ' ');
                if j + 1 < rest.len() {
                    assert(rest[j + 1] == s[n + 2 + j]);
                }
            }
            lemma_spaced_words(rest);
            let tail = s.skip(n);
            assert(tail.drop_first() == rest);
            assert(tail[0] == s[n]);
            assert(words(tail) == words(rest));
            let wr = words(rest);
            assert(words(s) == seq![s.take(n)] + wr);
            let all = seq![s.take(n)] + wr;
            assert(all.drop_first() == wr);
            assert(join(all, sp) == s.take(n) + sp + join(wr, sp));
            assert(s[n] == ' ');
            assert(s.take(n) + sp + rest == s);
        }
    }
}

/// Cutting a spaced string just before one of its spaces leaves a spaced
/// string.
pub proof fn lemma_spaced_prefix(s: Seq<char>, i: int)
    requires
        spaced(s),
        0 < i < s.len(),
        is_ws(s[i]),
    ensures
        spaced(s.take(i)),
{
    let p = s.take(i);
    assert(p[0] == s[0]);
    assert(p.last() == s[i - 1]);
    if is_ws(s[i - 1]) {
        assert(!is_ws(s[i]));
    }
    assert forall|j: int|
        0 <= j < p.len() && is_ws(#[trigger] p[j]) implies p[j] == ' ' && j + 1 < p.len()
        && !is_ws(p[j + 1]) by {
        assert(p[j] == s[j]);
        assert(!is_ws(s[j + 1]));
        if j + 1 < p.len() {
            assert(p[j + 1] == s[j + 1]);
        }
    }
}

/// A non-empty string without white space is spaced.
pub proof fn lemma_no_ws_spaced(s: Seq<char>)
    requires
        no_ws(s),
    ensures
        spaced(s),
{
    if s.len() > 0 {
        assert(!is_ws(s[s.len() - 1]));
    }
}

/// A prefix of a string has no more words than the string.
pub proof fn lemma_words_prefix_count(s: Seq<char>, k: int)
    requires
        0 <= k <= s.len(),
    ensures
        words(s.take(k)).len() <= words(s).len(),
    decreases s.len(),
{
    let p = s.take(k);
    if k == 0 {
        assert(p.len() == 0);
    } else if is_ws(s[0]) {
        assert(p[0] == s[0]);
        assert(p.drop_first() == s.drop_first().take(k - 1));
        lemma_words_prefix_count(s.drop_first(), k - 1);
    } else {
        lemma_word_len_bound(s);
        let n = word_len(s) as int;
        assert(p[0] == s[0]);
        if k <= n {
            assert forall|i: int| 0 <= i < k implies !is_ws(#[trigger] p[i]) by {
                assert(p[i] == s[i]);
            }
            lemma_word_len_exact(p, k);
            assert(p.skip(k).len() == 0);
            assert(words(p.skip(k)) == Seq::<Seq<char>>::empty());
            assert(words(p).len() == 1);
        } else {
            assert forall|i: int| 0 <= i < n implies !is_ws(#[trigger] p[i]) by {
                assert(p[i] == s[i]);
            }
            assert(p[n] == s[n]);
            lemma_word_len_exact(p, n);
            assert(p.skip(n) == s.skip(n).take(k - n));
            lemma_words_prefix_count(s.skip(n), k - n);
        }
    }
}

/// A string without words trims to nothing.
pub proof fn lemma_no_words_trim(s: Seq<char>)
    requires
        words(s).len() == 0,
    ensures
        trim(s) == Seq::<char>::empty(),
    decreases s.len(),
{
    if s.len() > 0 {
        assert(is_ws(s[0]));
        lemma_no_words_trim(s.drop_first());
        assert(trim_start(s) == trim_start(s.drop_first()));
    }
}

proof fn lemma_trim_start_first(s: Seq<char>)
    ensures
        trim_start(s).len() > 0 ==> !is_ws(trim_start(s)[0]),
    decreases s.len(),
{
    if s.len() > 0 && is_ws(s[0]) {
        lemma_trim_start_first(s.drop_first());
    }
}

proof fn lemma_trim_end_prefix(s: Seq<char>)
    ensures
        trim_end(s) == s.take(trim_end(s).len() as int),
        trim_end(s).len() <= s.len(),
        trim_end(s).len() > 0 ==> !is_ws(trim_end(s).last()),
    decreases s.len(),
{
    if s.len() > 0 && is_ws(s.last()) {
        lemma_trim_end_prefix(s.drop_last());
        let t = trim_end(s.drop_last());
        assert(s.drop_last().take(t.len() as int) == s.take(t.len() as int));
    } else {
        assert(s.take(s.len() as int) == s);
    }
}

/// A trimmed text that is not empty starts and ends with a character that
/// is not white space.
proof fn lemma_trim_ends(s: Seq<char>)
    ensures
        trim(s).len() > 0 ==> !is_ws(trim(s)[0]) && !is_ws(trim(s).last()),
{
    let t = trim_start(s);
    lemma_trim_start_first(s);
    lemma_trim_end_prefix(t);
    if trim(s).len() > 0 {
        assert(trim(s)[0] == t[0]);
    }
}

/// Trimming twice is trimming once.
pub proof fn lemma_trim_idempotent(s: Seq<char>)
    ensures
        trim(trim(s)) == trim(s),
{
    let t = trim(s);
    lemma_trim_ends(s);
    assert(trim_start(t) == t);
    if t.len() > 0 {
        assert(t.last() == t[t.len() - 1]);
    }
    assert(trim_end(t) == t);
}

proof fn lemma_trim_start_skip(s: Seq<char>)
    ensures
        trim_start(s).len() <= s.len(),
        trim_start(s) == s.skip(s.len() - trim_start(s).len()),
        forall|i: int| 0 <= i < s.len() - trim_start(s).len() ==> is_ws(#[trigger] s[i]),
    decreases s.len(),
{
    if s.len() > 0 && is_ws(s[0]) {
        lemma_trim_start_skip(s.drop_first());
        let t = s.drop_first();
        assert(t.skip(t.len() - trim_start(t).len()) == s.skip(s.len() - trim_start(s).len()));
        assert forall|i: int| 0 <= i < s.len() - trim_start(s).len() implies is_ws(#[trigger] s[i]) by {
            if i > 0 {
                assert(s[i] == t[i - 1]);
            }
        }
    } else {
        assert(s.skip(0) == s);
    }
}

proof fn lemma_trim_end_tail(s: Seq<char>)
    ensures
        forall|i: int| trim_end(s).len() <= i < s.len() ==> is_ws(#[trigger] s[i]),
    decreases s.len(),
{
    lemma_trim_end_prefix(s);
    if s.len() > 0 && is_ws(s.last()) {
        lemma_trim_end_tail(s.drop_last());
        assert forall|i: int| trim_end(s).len() <= i < s.len() implies is_ws(#[trigger] s[i]) by {
            if i < s.len() - 1 {
                assert(s[i] == s.drop_last()[i]);
            }
        }
    }
}

/// Trimming cuts white space, and only white space, from both ends: the
/// trimmed text is the part of `s` from position `a` to `b`, everything
/// before `a` and from `b` on is white space, and the trimmed text, when
/// not empty, starts and ends with a character that is not.
pub proof fn law_trim_cuts_ends(s: Seq<char>)
    ensures
        ({
            let t = trim(s);
            let a = s.len() - trim_start(s).len();
            let b = a + t.len();
            &&& 0 <= a <= b <= s.len()
            &&& t == s.subrange(a, b)
            &&& forall|i: int| 0 <= i < a ==> is_ws(#[trigger] s[i])
            &&& forall|i: int| b <= i < s.len() ==> is_ws(#[trigger] s[i])
            &&& t.len() > 0 ==> !is_ws(t[0]) && !is_ws(t.last())
        }),
{
    let u = trim_start(s);
    let t = trim(s);
    let a = s.len() - u.len();
    lemma_trim_start_skip(s);
    lemma_trim_end_prefix(u);
    lemma_trim_end_tail(u);
    lemma_trim_ends(s);
    assert(u == s.skip(a));
    assert(t.len() <= u.len());
    assert(t == u.take(t.len() as int));
    assert forall|i: int| 0 <= i < t.len() implies #[trigger] t[i] == s.subrange(a, a + t.len())[i] by {
        assert(t[i] == u[i]);
        assert(u[i] == s[a + i]);
    }
    assert(t =~= s.subrange(a, a + t.len()));
    assert forall|i: int| a + t.len() <= i < s.len() implies is_ws(#[trigger] s[i]) by {
        assert(u[i - a] == s[i]);
        assert(is_ws(u[i - a]));
    }
}

/// The characters of `s` that are not white space, in order.
pub open spec fn strip_ws(s: Seq<char>) -> Seq<char>
    decreases s.len(),
{
    if s.len() == 0 {
        Seq::empty()
    } else if is_ws(s[0]) {
        strip_ws(s.drop_first())
    } else {
        seq![s[0]] + strip_ws(s.drop_first())
    }
}

/// The pieces of `ws` one after the other.
pub open spec fn flatten_words(ws: Seq<Seq<char>>) -> Seq<char>
    decreases ws.len(),
{
    if ws.len() == 0 {
        Seq::empty()
    } else {
        ws[0] + flatten_words(ws.drop_first())
    }
}

/// How many characters of `s` are not white space and follow white space
/// or, when `after_ws`, the start of `s`.
pub open spec fn word_starts(s: Seq<char>, after_ws: bool) -> nat
    decreases s.len(),
{
    if s.len() == 0 {
        0
    } else {
        (if !is_ws(s[0]) && after_ws {
            1nat
        } else {
            0nat
        }) + word_starts(s.drop_first(), is_ws(s[0]))
    }
}

proof fn lemma_run_split(t: Seq<char>, k: int, after_ws: bool)
    requires
        0 < k <= t.len(),
        forall|i: int| 0 <= i < k ==> !is_ws(#[trigger] t[i]),
    ensures
        strip_ws(t) == t.take(k) + strip_ws(t.skip(k)),
        word_starts(t, after_ws) == (if after_ws {
            1nat
        } else {
            0nat
        }) + word_starts(t.skip(k), false),
    decreases k,
{
    let rest = t.drop_first();
    if k == 1 {
        assert(rest == t.skip(1));
        assert(t.take(1) == seq![t[0]]);
    } else {
        assert forall|i: int| 0 <= i < k - 1 implies !is_ws(#[trigger] rest[i]) by {
            assert(rest[i] == t[i + 1]);
        }
        lemma_run_split(rest, k - 1, false);
        assert(rest.skip(k - 1) == t.skip(k));
        assert(seq![t[0]] + rest.take(k - 1) == t.take(k));
    }
}

/// The words of a text are its non-white-space characters, in order, cut
/// into pieces without white space; there is one piece for each character
/// that is not white space and stands at the start or after white space.
pub proof fn law_words_partition(s: Seq<char>)
    ensures
        all_words(words(s)),
        flatten_words(words(s)) == strip_ws(s),
        words(s).len() == word_starts(s, true),
    decreases s.len(),
{
    lemma_words_are_words(s);
    if s.len() > 0 {
        if is_ws(s[0]) {
            law_words_partition(s.drop_first());
        } else {
            lemma_word_len_bound(s);
            let n = word_len(s) as int;
            let rest = s.skip(n);
            law_words_partition(rest);
            lemma_run_split(s, n, true);
            let ws = words(s);
            assert(ws == seq![s.take(n)] + words(rest));
            assert(ws.drop_first() == words(rest));
            if n < s.len() {
                assert(is_ws(rest[0]));
                assert(word_starts(rest, false) == word_starts(rest.drop_first(), true));
                assert(word_starts(rest, true) == word_starts(rest.drop_first(), true));
            }
        }
    }
}

/// The character sequences that the vectors of `ws` hold.
pub open spec fn vecs_view(ws: Seq<Vec<char>>) -> Seq<Seq<char>> {
    ws.map_values(|w: Vec<char>| w@)
}

/// The characters of `s` from `start` up to `end`.
pub fn copy_range(s: &[char], start: usize, end: usize) -> (v: Vec<char>)
    requires
        start <= end <= s@.len(),
    ensures
        v@ == s@.subrange(start as int, end as int),
{
    let mut v: Vec<char> = Vec::new();
    let mut i = start;
    while i < end
        invariant
            start <= i <= end <= s@.len(),
            v@ == s@.subrange(start as int, i as int),
        decreases end - i,
    {
        v.push(s[i]);
        i = i + 1;
        assert(v@ == s@.subrange(start as int, i as int));
    }
    v
}

/// `s` without leading and trailing white space.
pub fn trim_chars(s: &[char]) -> (t: Vec<char>)
    ensures
        t@ == trim(s@),
{
    let n = s.len();
    let mut i: usize = 0;
    assert(s@.skip(0) == s@);
    while i < n && is_whitespace(s[i])
        invariant
            i <= n == s@.len(),
            trim_start(s@) == trim_start(s@.skip(i as int)),
        decreases n - i,
    {
        assert(s@.skip(i as int).drop_first() == s@.skip(i + 1));
        i = i + 1;
    }
    assert(trim_start(s@.skip(i as int)) == s@.skip(i as int));
    assert(s@.skip(i as int) == s@.subrange(i as int, n as int));
    let mut j: usize = n;
    while j > i && is_whitespace(s[j - 1])
        invariant
            i <= j <= n == s@.len(),
            trim(s@) == trim_end(s@.subrange(i as int, j as int)),
        decreases j - i,
    {
        assert(s@.subrange(i as int, j as int).drop_last() == s@.subrange(i as int, j - 1));
        j = j - 1;
    }
    copy_range(s, i, j)
}

/// The words of `s`, as `str::split_whitespace` yields them.
pub fn split_words(s: &[char]) -> (ws: Vec<Vec<char>>)
    ensures
        vecs_view(ws@) == words(s@),
{
    let n = s.len();
    let mut ws: Vec<Vec<char>> = Vec::new();
    let mut i: usize = 0;
    assert(s@.skip(0) == s@);
    assert(vecs_view(ws@) == Seq::<Seq<char>>::empty());
    while i < n
        invariant
            i <= n == s@.len(),
            words(s@) == vecs_view(ws@) + words(s@.skip(i as int)),
        decreases n - i,
    {
        if is_whitespace(s[i]) {
            assert(s@.skip(i as int).drop_first() == s@.skip(i + 1));
            i = i + 1;
        } else {
            let mut j = i;
            while j < n && !is_whitespace(s[j])
                invariant
                    i <= j <= n == s@.len(),
                    forall|k: int| i <= k < j ==> !is_ws(#[trigger] s@[k]),
                decreases n - j,
            {
                j = j + 1;
            }
            let ghost t = s@.skip(i as int);
            assert forall|k: int| 0 <= k < j - i implies !is_ws(#[trigger] t[k]) by {
                assert(t[k] == s@[i + k]);
            }
            if j < n {
                assert(t[j - i] == s@[j as int]);
            }
            proof {
                lemma_word_len_exact(t, j - i);
            }
            assert(t.take(j - i) == s@.subrange(i as int, j as int));
            assert(t.skip(j - i) == s@.skip(j as int));
            let w = copy_range(s, i, j);
            let ghost before = ws@;
            ws.push(w);
            assert(vecs_view(ws@) == vecs_view(before).push(s@.subrange(i as int, j as int)));
            i = j;
        }
    }
    assert(words(s@.skip(n as int)) == Seq::<Seq<char>>::empty());
    ws
}

/// The first `count` pieces of `ws` with `sep` between each two neighbours.
pub fn join_chars(ws: &Vec<Vec<char>>, count: usize, sep: char) -> (r: Vec<char>)
    requires
        count <= ws@.len(),
    ensures
        r@ == join(vecs_view(ws@).take(count as int), seq![sep]),
{
    let ghost dv = vecs_view(ws@);
    let mut r: Vec<char> = Vec::new();
    let mut i: usize = 0;
    while i < count
        invariant
            i <= count <= ws@.len(),
            dv == vecs_view(ws@),
            r@ == join(dv.take(i as int), seq![sep]),
        decreases count - i,
    {
        let ghost before = r@;
        if i > 0 {
            r.push(sep);
        }
        let w = &ws[i];
        let mut k: usize = 0;
        let ghost mid = r@;
        while k < w.len()
            invariant
                k <= w@.len(),
                r@ == mid + w@.take(k as int),
            decreases w@.len() - k,
        {
            r.push(w[k]);
            k = k + 1;
            assert(w@.take(k as int) == w@.take(k - 1).push(w@[k - 1]));
        }
        assert(w@.take(k as int) == w@);
        assert(dv[i as int] == w@);
        assert(dv.take(i + 1) == dv.take(i as int).push(w@));
        if i > 0 {
            proof {
                lemma_join_push(dv.take(i as int), w@, seq![sep]);
            }
        } else {
            assert(dv.take(1) == seq![w@]);
        }
        i = i + 1;
    }
    r
}

/// The strings of `parts` with `sep` between each two neighbours.
pub fn join_strings(parts: &Vec<String>, sep: &str) -> (r: String)
    ensures
        r@ == join(parts.deep_view(), sep@),
{
    let ghost dv = parts.deep_view();
    let mut r = String::new();
    let mut i: usize = 0;
    while i < parts.len()
        invariant
            i <= parts@.len(),
            dv == parts.deep_view(),
            r@ == join(dv.take(i as int), sep@),
        decreases parts@.len() - i,
    {
        if i > 0 {
            r.append(sep);
        }
        r.append(parts[i].as_str());
        assert(dv[i as int] == parts@[i as int]@);
        assert(dv.take(i + 1) == dv.take(i as int).push(parts@[i as int]@));
        if i > 0 {
            proof {
                lemma_join_push(dv.take(i as int), parts@[i as int]@, sep@);
            }
        } else {
            assert(dv.take(1) == seq![parts@[0]@]);
        }
        i = i + 1;
    }
    assert(dv.take(i as int) == dv);
    r
}


/// `pat` occurs in `s` as a run of consecutive characters.
pub open spec fn has_sub(s: Seq<char>, pat: Seq<char>) -> bool {
    exists|i: int| 0 <= i <= s.len() - pat.len() && #[trigger] s.subrange(i, i + pat.len()) == pat
}

/// Whether `pat` occurs in `s`, as `str::contains` with a string pattern.
pub fn contains_chars(s: &[char], pat: &[char]) -> (b: bool)
    ensures
        b == has_sub(s@, pat@),
{
    let n = s.len();
    let m = pat.len();
    if m > n {
        return false;
    }
    let mut i: usize = 0;
    while i <= n - m
        invariant
            m <= n,
            n == s@.len(),
            m == pat@.len(),
            i <= n - m + 1,
            forall|j: int| 0 <= j < i ==> #[trigger] s@.subrange(j, j + m) != pat@,
        decreases n - m + 1 - i,
    {
        let mut k: usize = 0;
        while k < m && s[i + k] == pat[k]
            invariant
                i + m <= n,
                k <= m,
                n == s@.len(),
                m == pat@.len(),
                forall|t: int| 0 <= t < k ==> s@[i + t] == pat@[t],
            decreases m - k,
        {
            k = k + 1;
        }
        if k == m {
            assert(s@.subrange(i as int, i + m) == pat@);
            return true;
        }
        assert(s@.subrange(i as int, i + m)[k as int] != pat@[k as int]);
        i = i + 1;
    }
    false
}

/// What `str::to_lowercase` returns for a string with these characters.
/// The Unicode lowercase mapping is not restated here.
pub uninterp spec fn lowercase_of(s: Seq<char>) -> Seq<char>;

/// Calls `str::to_lowercase`; its result is `lowercase_of` the argument.
#[verifier::external_body]
pub(crate) fn to_lowercase(s: &str) -> (r: String)
    ensures
        r@ == lowercase_of(s@),
{
    s.to_lowercase()
}

} // verus!
