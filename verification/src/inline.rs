//! Inline markup: bracketed spans and what they become.

use vstd::prelude::*;
use crate::chars::{
    char_is_whitespace, contains, is_whitespace, matches_at, occurs_in, push_range, push_str,
    starts_with, string_from_chars, to_chars,
};

verus! {

/// Whether `s[open]` is a `[` and `s[close]` the first `]` after it, with no
/// line feed between the two.
pub open spec fn is_span(s: Seq<char>, open: int, close: int) -> bool {
    &&& 0 <= open < close < s.len()
    &&& s[open] == '['
    &&& s[close] == ']'
    &&& forall|k: int| open < k < close ==> s[k] != ']' && s[k] != '\n'
}

/// The position of the `]` that closes a span whose inner text begins at
/// `from`: the first `]` at or after `from`, unless a line feed comes first.
pub open spec fn closing_bracket(s: Seq<char>, from: int) -> Option<int>
    decreases s.len() - from,
{
    if from < 0 || from >= s.len() {
        None
    } else if s[from] == ']' {
        Some(from)
    } else if s[from] == '\n' {
        None
    } else {
        closing_bracket(s, from + 1)
    }
}

/// The first bracketed span of `s` at or after `from`, as the positions of its
/// `[` and its `]`: the leftmost `[` that has a closing bracket, paired with
/// the nearest one.
pub open spec fn first_span(s: Seq<char>, from: int) -> Option<(int, int)>
    decreases s.len() - from,
{
    if from < 0 || from >= s.len() {
        None
    } else if s[from] == '[' && closing_bracket(s, from + 1) is Some {
        Some((from, closing_bracket(s, from + 1)->0))
    } else {
        first_span(s, from + 1)
    }
}

/// The words of `s` from position `i` on, where `s[start..i]` is the run of
/// non-whitespace characters read so far.
pub open spec fn words_scan(s: Seq<char>, i: int, start: int) -> Seq<Seq<char>>
    decreases s.len() - i,
{
    let pending = if 0 <= start < i {
        seq![s.subrange(start, i)]
    } else {
        Seq::empty()
    };
    if i < 0 || i >= s.len() {
        pending
    } else if is_whitespace(s[i]) {
        pending + words_scan(s, i + 1, i + 1)
    } else {
        words_scan(s, i + 1, start)
    }
}

/// The maximal runs of non-whitespace characters of `s`, in order.
pub open spec fn words(s: Seq<char>) -> Seq<Seq<char>> {
    words_scan(s, 0, 0)
}

/// Whether `w` begins with `http://` or `https://`.
pub open spec fn is_url(w: Seq<char>) -> bool {
    starts_with(w, "http://"@) || starts_with(w, "https://"@)
}

/// Whether `s` holds `http://` or `https://` anywhere.
pub open spec fn mentions_url(s: Seq<char>) -> bool {
    contains(s, "http://"@) || contains(s, "https://"@)
}

/// The index of the first word at or after `from` that is a URL.
pub open spec fn first_url(ws: Seq<Seq<char>>, from: int) -> Option<int>
    decreases ws.len() - from,
{
    if from < 0 || from >= ws.len() {
        None
    } else if is_url(ws[from]) {
        Some(from)
    } else {
        first_url(ws, from + 1)
    }
}

/// The words of `ws` with one space between neighbours.
pub open spec fn join_words(ws: Seq<Seq<char>>) -> Seq<char>
    decreases ws.len(),
{
    if ws.len() == 0 {
        Seq::empty()
    } else if ws.len() == 1 {
        ws[0]
    } else {
        join_words(ws.drop_last()) + seq![' '] + ws.last()
    }
}

/// `[text](url)`.
pub open spec fn external_link(text: Seq<char>, url: Seq<char>) -> Seq<char> {
    "["@ + text + "]("@ + url + ")"@
}

/// `[[inner]]`.
pub open spec fn internal_link(inner: Seq<char>) -> Seq<char> {
    "[["@ + inner + "]]"@
}

/// `inner` without its two-character decoration prefix, between two copies of
/// `mark`.
pub open spec fn decorated(inner: Seq<char>, prefix: Seq<char>, mark: Seq<char>) -> Seq<char> {
    mark + inner.skip(prefix.len() as int) + mark
}

/// What a span that mentions a URL becomes: a link to its only word, or a
/// link to its first URL word labelled by the other words; an internal link
/// when no word begins with a scheme.
pub open spec fn link_markdown(inner: Seq<char>) -> Seq<char> {
    let ws = words(inner);
    if ws.len() == 1 {
        external_link(ws[0], ws[0])
    } else {
        match first_url(ws, 0) {
            Some(i) => external_link(join_words(ws.remove(i)), ws[i]),
            None => internal_link(inner),
        }
    }
}

/// What the span `[inner]` becomes.  The first rule that applies wins: bold,
/// italic, strikethrough, external link, internal link.
pub open spec fn span_markdown(inner: Seq<char>) -> Seq<char> {
    if starts_with(inner, "* "@) {
        decorated(inner, "* "@, "**"@)
    } else if starts_with(inner, "/ "@) {
        decorated(inner, "/ "@, "*"@)
    } else if starts_with(inner, "- "@) {
        decorated(inner, "- "@, "~~"@)
    } else if mentions_url(inner) {
        link_markdown(inner)
    } else {
        internal_link(inner)
    }
}

/// `s` with every bracketed span replaced by its Markdown, from left to
/// right; the text between spans stays as it is.
pub open spec fn inline_markdown(s: Seq<char>) -> Seq<char>
    decreases s.len(),
{
    match first_span(s, 0) {
        Some((open, close)) if 0 <= open < close < s.len() => s.subrange(0, open) + span_markdown(
            s.subrange(open + 1, close),
        ) + inline_markdown(s.subrange(close + 1, s.len() as int)),
        _ => s,
    }
}

/// A closing bracket lies at or after the place the search began, inside the
/// text, and is a `]`.
pub proof fn lemma_closing_bracket_bounds(s: Seq<char>, from: int)
    requires
        closing_bracket(s, from) is Some,
    ensures
        0 <= from <= closing_bracket(s, from)->0 < s.len(),
        s[closing_bracket(s, from)->0] == ']',
        forall|k: int| from <= k < closing_bracket(s, from)->0 ==> s[k] != ']' && s[k] != '\n',
    decreases s.len() - from,
{
    if s[from] != ']' {
        lemma_closing_bracket_bounds(s, from + 1);
    }
}

/// Text without `[` holds no span.
pub proof fn lemma_no_bracket_no_span(s: Seq<char>, from: int)
    requires
        !s.contains('['),
    ensures
        first_span(s, from) is None,
    decreases s.len() - from,
{
    if 0 <= from < s.len() {
        assert(s[from] != '[');
        lemma_no_bracket_no_span(s, from + 1);
    }
}

/// Text without `[` is left as it is.
pub proof fn lemma_plain_text_unchanged(s: Seq<char>)
    requires
        !s.contains('['),
    ensures
        inline_markdown(s) == s,
{
    lemma_no_bracket_no_span(s, 0);
}

/// Where no `]` and no line feed stands between `from` and a `]` at `close`,
/// that `]` is the closing bracket.
pub proof fn lemma_closing_bracket_found(s: Seq<char>, from: int, close: int)
    requires
        0 <= from <= close < s.len(),
        s[close] == ']',
        forall|k: int| from <= k < close ==> s[k] != ']' && s[k] != '\n',
    ensures
        closing_bracket(s, from) == Some(close),
    decreases close - from,
{
    if from < close {
        lemma_closing_bracket_found(s, from + 1, close);
    }
}

/// The span found from `from` on is a span, and no span begins between
/// `from` and it; where none is found, no span begins at or after `from`.
pub proof fn lemma_first_span_leftmost(s: Seq<char>, from: int)
    requires
        0 <= from,
    ensures
        match first_span(s, from) {
            Some((open, close)) => from <= open && is_span(s, open, close) && forall|
                p: int,
                q: int,
            | from <= p < open ==> !is_span(s, p, q),
            None => forall|p: int, q: int| from <= p ==> !is_span(s, p, q),
        },
    decreases s.len() - from,
{
    if from < s.len() {
        if s[from] == '[' && closing_bracket(s, from + 1) is Some {
            lemma_closing_bracket_bounds(s, from + 1);
        } else {
            lemma_first_span_leftmost(s, from + 1);
            assert forall|q: int| !is_span(s, from, q) by {
                if is_span(s, from, q) {
                    lemma_closing_bracket_found(s, from + 1, q);
                }
            }
        }
    }
}

/// Matching is not greedy: a span at the start of the text ends at its first
/// `]`, and what follows it is rewritten on its own.
pub proof fn lemma_leading_span(inner: Seq<char>, rest: Seq<char>)
    requires
        !inner.contains(']'),
        !inner.contains('\n'),
    ensures
        inline_markdown(seq!['['] + inner + seq![']'] + rest) == span_markdown(inner)
            + inline_markdown(rest),
{
    let s = seq!['['] + inner + seq![']'] + rest;
    let close = inner.len() as int + 1;
    assert forall|k: int| 1 <= k < close implies s[k] != ']' && s[k] != '\n' by {
        assert(s[k] == inner[k - 1]);
    }
    lemma_closing_bracket_found(s, 1, close);
    assert(s.subrange(0, 0) =~= Seq::<char>::empty());
    assert(s.subrange(1, close) =~= inner);
    assert(s.subrange(close + 1, s.len() as int) =~= rest);
    assert(inline_markdown(s) =~= span_markdown(inner) + inline_markdown(rest));
}

/// A decoration prefix decides the span whatever else it holds, a URL
/// included.
pub proof fn lemma_decoration_wins(inner: Seq<char>)
    ensures
        starts_with(inner, "* "@) ==> span_markdown(inner) == "**"@ + inner.skip(2) + "**"@,
        starts_with(inner, "/ "@) ==> span_markdown(inner) == "*"@ + inner.skip(2) + "*"@,
        starts_with(inner, "- "@) ==> span_markdown(inner) == "~~"@ + inner.skip(2) + "~~"@,
{
    reveal_strlit("* ");
    reveal_strlit("/ ");
    reveal_strlit("- ");
    if starts_with(inner, "/ "@) || starts_with(inner, "- "@) {
        assert(inner.subrange(0, 2)[0] == inner[0]);
    }
    if starts_with(inner, "- "@) {
        assert(!starts_with(inner, "/ "@));
    }
}

/// An undecorated span that mentions a URL becomes an external link, not an
/// internal one, where it is a single word or one of its words begins with
/// `http://` or `https://`.
pub proof fn lemma_url_makes_external_link(inner: Seq<char>)
    requires
        !starts_with(inner, "* "@),
        !starts_with(inner, "/ "@),
        !starts_with(inner, "- "@),
        mentions_url(inner),
        words(inner).len() == 1 || first_url(words(inner), 0) is Some,
    ensures
        span_markdown(inner) == if words(inner).len() == 1 {
            external_link(words(inner)[0], words(inner)[0])
        } else {
            external_link(
                join_words(words(inner).remove(first_url(words(inner), 0)->0)),
                words(inner)[first_url(words(inner), 0)->0],
            )
        },
{
}

/// Compiles `pattern` with `regex::Regex::new`, searches `text` with
/// `Regex::captures`, and hands back the text before the leftmost match, the
/// text of its capture group, and the text after the match.  It is called
/// with the one pattern `\[(.*?)\]`, and the contract claims what that
/// pattern means to the regex crate: a match is a `[`, then as few characters
/// other than line feeds as possible, then a `]`; the leftmost match is
/// reported, and none exactly when the text holds none.
#[verifier::external_body]
pub(crate) fn first_bracket_span<'a>(pattern: &str, text: &'a str) -> (r: Option<
    (&'a str, &'a str, &'a str),
>)
    requires
        pattern@ == "\\[(.*?)\\]"@,
    ensures
        match r {
            None => forall|p: int, q: int| !is_span(text@, p, q),
            Some((before, inner, after)) => {
                &&& text@ == before@ + seq!['['] + inner@ + seq![']'] + after@
                &&& is_span(text@, before@.len() as int, (before@.len() + inner@.len() + 1) as int)
                &&& forall|p: int, q: int| p < before@.len() ==> !is_span(text@, p, q)
            },
        },
{
    let re = regex::Regex::new(pattern).unwrap();
    match re.captures(text) {
        None => None,
        Some(caps) => {
            let whole = caps.get(0).unwrap();
            let inner = caps.get(1).unwrap();
            Some((&text[..whole.start()], inner.as_str(), &text[whole.end()..]))
        },
    }
}

/// The first span of `s` is the one that begins leftmost: where a span lies
/// at `open` and `close` and none begins before `open`, it is the first;
/// where the text holds no span, there is no first.
pub proof fn lemma_leftmost_is_first_span(s: Seq<char>, open: int, close: int)
    ensures
        (forall|p: int, q: int| !is_span(s, p, q)) ==> first_span(s, 0) is None,
        is_span(s, open, close) && (forall|p: int, q: int| p < open ==> !is_span(s, p, q))
            ==> first_span(s, 0) == Some((open, close)),
{
    lemma_first_span_leftmost(s, 0);
    if is_span(s, open, close) && (forall|p: int, q: int| p < open ==> !is_span(s, p, q)) {
        let (o, c) = first_span(s, 0)->0;
        assert(is_span(s, o, c));
        assert(o == open);
        assert(c == close);
    }
}

/// The views of the vectors of `v`.
pub open spec fn views(v: Seq<Vec<char>>) -> Seq<Seq<char>> {
    v.map_values(|w: Vec<char>| w@)
}

/// Splits `v` at whitespace into its words.
pub fn split_words(v: &Vec<char>) -> (res: Vec<Vec<char>>)
    ensures
        views(res@) == words(v@),
{
    let mut res: Vec<Vec<char>> = Vec::new();
    let mut cur: Vec<char> = Vec::new();
    let ghost mut start: int = 0;
    let mut i: usize = 0;
    assert(views(res@) + words_scan(v@, 0, 0) =~= words(v@));
    while i < v.len()
        invariant
            i <= v.len(),
            0 <= start <= i,
            cur@ == v@.subrange(start, i as int),
            views(res@) + words_scan(v@, i as int, start) == words(v@),
        decreases v.len() - i,
    {
        let c = v[i];
        let ghost before = views(res@);
        if char_is_whitespace(c) {
            if cur.len() > 0 {
                res.push(cur);
                cur = Vec::new();
                assert(views(res@) =~= before + seq![v@.subrange(start, i as int)]);
            }
            assert(views(res@) + words_scan(v@, i + 1, i + 1) =~= before + words_scan(
                v@,
                i as int,
                start,
            ));
            proof {
                start = i + 1;
            }
        } else {
            cur.push(c);
        }
        i += 1;
        assert(cur@ =~= v@.subrange(start, i as int));
    }
    let ghost before = views(res@);
    if cur.len() > 0 {
        res.push(cur);
        assert(views(res@) =~= before + seq![v@.subrange(start, i as int)]);
    }
    assert(views(res@) =~= before + words_scan(v@, i as int, start));
    res
}

/// Whether `w` begins with `http://` or `https://`.
pub fn word_is_url(w: &Vec<char>) -> (r: bool)
    ensures
        r == is_url(w@),
{
    let plain = to_chars("http://");
    let secure = to_chars("https://");
    matches_at(w, 0, &plain) || matches_at(w, 0, &secure)
}

/// The index of the first word that is a URL.
pub fn find_url(ws: &Vec<Vec<char>>) -> (r: Option<usize>)
    ensures
        match first_url(views(ws@), 0) {
            Some(i) => r == Some(i as usize) && 0 <= i < ws.len(),
            None => r is None,
        },
{
    let mut i: usize = 0;
    while i < ws.len()
        invariant
            i <= ws.len(),
            first_url(views(ws@), i as int) == first_url(views(ws@), 0),
        decreases ws.len() - i,
    {
        if word_is_url(&ws[i]) {
            return Some(i);
        }
        i += 1;
    }
    None
}

/// Appends to `out` the words of `ws` other than the one at `skip`, with one
/// space between neighbours.
pub(crate) fn push_joined_except(out: &mut Vec<char>, ws: &Vec<Vec<char>>, skip: usize)
    requires
        skip < ws.len(),
    ensures
        final(out)@ == old(out)@ + join_words(views(ws@).remove(skip as int)),
{
    let ghost rest = views(ws@).remove(skip as int);
    let mut j: usize = 0;
    assert(rest.take(0) =~= Seq::empty());
    while j < ws.len()
        invariant
            j <= ws.len(),
            skip < ws.len(),
            rest == views(ws@).remove(skip as int),
            out@ == old(out)@ + join_words(
                rest.take(
                    if j <= skip {
                        j as int
                    } else {
                        j - 1
                    },
                ),
            ),
        decreases ws.len() - j,
    {
        if j != skip {
            let ghost k: int = if j < skip {
                j as int
            } else {
                j - 1
            };
            assert(rest[k] == ws@[j as int]@);
            assert(rest.take(k + 1).drop_last() =~= rest.take(k));
            assert(rest.take(k + 1).last() == rest[k]);
            if j > 0 && !(skip == 0 && j == 1) {
                out.push(' ');
            } else {
                assert(rest.take(k + 1).len() == 1);
            }
            push_range(out, &ws[j], 0, ws[j].len());
            assert(ws@[j as int]@.subrange(0, ws@[j as int]@.len() as int) =~= ws@[j as int]@);
            assert(out@ =~= old(out)@ + join_words(rest.take(k + 1)));
        }
        j += 1;
    }
    assert(rest.take(ws.len() - 1) =~= rest);
}

/// Appends `[[inner]]` to `out`.
fn push_internal_link(out: &mut Vec<char>, inner: &Vec<char>)
    ensures
        final(out)@ == old(out)@ + internal_link(inner@),
{
    push_str(out, "[[");
    push_range(out, inner, 0, inner.len());
    push_str(out, "]]");
    assert(inner@.subrange(0, inner@.len() as int) =~= inner@);
    assert(out@ =~= old(out)@ + internal_link(inner@));
}

/// Appends to `out` what a span that mentions a URL becomes.
fn push_link(out: &mut Vec<char>, inner: &Vec<char>)
    ensures
        final(out)@ == old(out)@ + link_markdown(inner@),
{
    let ws = split_words(inner);
    if ws.len() == 1 {
        push_str(out, "[");
        push_range(out, &ws[0], 0, ws[0].len());
        push_str(out, "](");
        push_range(out, &ws[0], 0, ws[0].len());
        push_str(out, ")");
        assert(ws@[0]@.subrange(0, ws@[0]@.len() as int) =~= ws@[0]@);
        assert(out@ =~= old(out)@ + external_link(ws@[0]@, ws@[0]@));
    } else {
        match find_url(&ws) {
            Some(idx) => {
                push_str(out, "[");
                push_joined_except(out, &ws, idx);
                push_str(out, "](");
                push_range(out, &ws[idx], 0, ws[idx].len());
                push_str(out, ")");
                let ghost u = ws@[idx as int]@;
                assert(u.subrange(0, u.len() as int) =~= u);
                assert(out@ =~= old(out)@ + external_link(
                    join_words(views(ws@).remove(idx as int)),
                    u,
                ));
            },
            None => {
                push_internal_link(out, inner);
            },
        }
    }
}

/// Appends `inner` without the prefix `prefix` to `out`, between two copies
/// of `mark`; does nothing and reports `false` where `inner` does not begin
/// with `prefix`.
fn push_decorated(out: &mut Vec<char>, inner: &Vec<char>, prefix: &str, mark: &str) -> (r: bool)
    ensures
        r == starts_with(inner@, prefix@),
        r ==> final(out)@ == old(out)@ + decorated(inner@, prefix@, mark@),
        !r ==> final(out)@ == old(out)@,
{
    let p = to_chars(prefix);
    if !matches_at(inner, 0, &p) {
        return false;
    }
    push_str(out, mark);
    push_range(out, inner, p.len(), inner.len());
    push_str(out, mark);
    assert(out@ =~= old(out)@ + decorated(inner@, prefix@, mark@));
    true
}

/// Appends to `out` what the span `[inner]` becomes.
pub fn push_span(out: &mut Vec<char>, inner: &Vec<char>)
    ensures
        final(out)@ == old(out)@ + span_markdown(inner@),
{
    if push_decorated(out, inner, "* ", "**") {
        return ;
    }
    if push_decorated(out, inner, "/ ", "*") {
        return ;
    }
    if push_decorated(out, inner, "- ", "~~") {
        return ;
    }
    let plain = to_chars("http://");
    let secure = to_chars("https://");
    if occurs_in(inner, &plain) || occurs_in(inner, &secure) {
        push_link(out, inner);
    } else {
        push_internal_link(out, inner);
    }
}

/// The Markdown for the span `[inner]`, given the text between the brackets.
pub fn format_span(inner: &str) -> (out: String)
    ensures
        out@ == span_markdown(inner@),
{
    let mut buf: Vec<char> = Vec::new();
    let v = to_chars(inner);
    push_span(&mut buf, &v);
    assert(buf@ =~= span_markdown(inner@));
    string_from_chars(&buf)
}

/// Appends to `out` the text `text` with its bracketed spans rewritten.
pub fn push_content(out: &mut Vec<char>, text: &str)
    ensures
        final(out)@ == old(out)@ + inline_markdown(text@),
{
    let mut rest: &str = text;
    loop
        invariant
            out@ + inline_markdown(rest@) == old(out)@ + inline_markdown(text@),
        decreases rest@.len(),
    {
        let ghost prev = out@;
        let ghost s = rest@;
        match first_bracket_span("\\[(.*?)\\]", rest) {
            None => {
                proof {
                    lemma_leftmost_is_first_span(s, 0, 0);
                }
                push_str(out, rest);
                return ;
            },
            Some((before, inner, after)) => {
                proof {
                    let open = before@.len() as int;
                    let close = open + inner@.len() + 1;
                    lemma_leftmost_is_first_span(s, open, close);
                    assert(s.subrange(0, open) =~= before@);
                    assert(s.subrange(open + 1, close) =~= inner@);
                    assert(s.subrange(close + 1, s.len() as int) =~= after@);
                }
                push_str(out, before);
                let v = to_chars(inner);
                push_span(out, &v);
                rest = after;
                assert(out@ + inline_markdown(rest@) =~= prev + inline_markdown(s));
            },
        }
    }
}

/// Rewrites every bracketed span of `text`: `[* x]` to bold, `[/ x]` to
/// italic, `[- x]` to strikethrough, a span with a URL to an external link,
/// any other span to an internal link.  Text outside the spans is copied.
pub fn format_content(text: &str) -> (out: String)
    ensures
        out@ == inline_markdown(text@),
{
    let mut buf: Vec<char> = Vec::new();
    push_content(&mut buf, text);
    assert(buf@ =~= inline_markdown(text@));
    string_from_chars(&buf)
}

} // verus!
