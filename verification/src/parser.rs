//! The page formatter: one pass over a page's lines.

use vstd::prelude::*;
use crate::chars::{
    char_is_whitespace, is_whitespace, matches_at, push_range, push_str, starts_with,
    string_from_chars, to_chars,
};
use crate::inline::{inline_markdown, lemma_plain_text_unchanged, push_content};
use crate::models::Page;

verus! {

/// A piece of the Markdown document: what one step of the pass emits.
pub enum Block {
    /// The heading, made from the first line.
    Title { content: Seq<char> },
    /// A lone line break.
    Blank,
    /// A bullet; `indent` is the number of leading spaces and tabs.
    Item { indent: int, content: Seq<char> },
    /// A paragraph.
    Paragraph { content: Seq<char> },
    /// The opening fence of a code block.
    FenceOpen { lang: Seq<char> },
    /// A line inside a code block.
    CodeLine { text: Seq<char> },
    /// The closing fence before a line that leaves the code block.
    FenceClose,
    /// The closing fence of a code block that runs to the end of the page.
    FenceEnd,
}

/// Spaces and tabs indent a line; both count the same.
pub open spec fn is_indent_char(c: char) -> bool {
    c == ' ' || c == '\t'
}

/// The first position at or after `i` that holds no space or tab.
pub open spec fn indent_end(s: Seq<char>, i: int) -> int
    decreases s.len() - i,
{
    if 0 <= i < s.len() && is_indent_char(s[i]) {
        indent_end(s, i + 1)
    } else {
        i
    }
}

/// The number of leading spaces and tabs of `s`.
pub open spec fn indent_of(s: Seq<char>) -> int {
    indent_end(s, 0)
}

/// `s` without its leading spaces and tabs.
pub open spec fn content_of(s: Seq<char>) -> Seq<char> {
    s.skip(indent_of(s))
}

/// The first position at or after `i` that holds no whitespace.
pub open spec fn whitespace_end(s: Seq<char>, i: int) -> int
    decreases s.len() - i,
{
    if 0 <= i < s.len() && is_whitespace(s[i]) {
        whitespace_end(s, i + 1)
    } else {
        i
    }
}

/// The position after the last non-whitespace character of `s[lo..j]`, or
/// `lo` where there is none.
pub open spec fn whitespace_start(s: Seq<char>, lo: int, j: int) -> int
    decreases j,
{
    if 0 <= lo < j <= s.len() && is_whitespace(s[j - 1]) {
        whitespace_start(s, lo, j - 1)
    } else {
        j
    }
}

/// `s` without its leading and trailing whitespace.
pub open spec fn trimmed(s: Seq<char>) -> Seq<char> {
    let a = whitespace_end(s, 0);
    s.subrange(a, whitespace_start(s, a, s.len() as int))
}

/// `n` levels of nesting: two spaces each.
pub open spec fn nesting(n: int) -> Seq<char>
    decreases n,
{
    if n <= 0 {
        Seq::empty()
    } else {
        nesting(n - 1) + "  "@
    }
}

/// The text of a block.
pub open spec fn render_block(b: Block) -> Seq<char> {
    match b {
        Block::Title { content } => "# "@ + inline_markdown(content) + "\n\n"@,
        Block::Blank => "\n"@,
        Block::Item { indent, content } => nesting(indent - 1) + "- "@ + inline_markdown(content)
            + "\n"@,
        Block::Paragraph { content } => inline_markdown(content) + "\n\n"@,
        Block::FenceOpen { lang } => "```"@ + lang + "\n"@,
        Block::CodeLine { text } => text + "\n"@,
        Block::FenceClose => "```\n\n"@,
        Block::FenceEnd => "```\n"@,
    }
}

/// The text of a sequence of blocks: their texts, one after the other.
pub open spec fn render(blocks: Seq<Block>) -> Seq<char>
    decreases blocks.len(),
{
    if blocks.len() == 0 {
        Seq::empty()
    } else {
        render(blocks.drop_last()) + render_block(blocks.last())
    }
}

/// Whether a line met inside a code block belongs to its body: an empty line,
/// or one that begins with a space or a tab.
pub open spec fn is_code_body(t: Seq<char>) -> bool {
    t.len() == 0 || is_indent_char(t[0])
}

/// Whether a line opens a code block.
pub open spec fn is_fence_opener(t: Seq<char>) -> bool {
    starts_with(t, "code:"@)
}

/// The block for a line that is not part of a code block's body.
pub open spec fn plain_block(t: Seq<char>, first: bool) -> Block {
    if is_fence_opener(t) {
        Block::FenceOpen { lang: trimmed(t.skip("code:"@.len() as int)) }
    } else if first {
        Block::Title { content: content_of(t) }
    } else if content_of(t).len() == 0 && indent_of(t) == 0 {
        Block::Blank
    } else if indent_of(t) > 0 {
        Block::Item { indent: indent_of(t), content: content_of(t) }
    } else {
        Block::Paragraph { content: content_of(t) }
    }
}

/// The blocks that the line `t` gives; `first` says that it is the page's
/// first line, `inside` that the line before it left a code block open.
pub open spec fn line_blocks(t: Seq<char>, first: bool, inside: bool) -> Seq<Block> {
    if inside && is_code_body(t) {
        seq![
            Block::CodeLine {
                text: if t.len() == 0 {
                    t
                } else {
                    t.drop_first()
                },
            },
        ]
    } else if inside {
        seq![Block::FenceClose] + seq![plain_block(t, first)]
    } else {
        seq![plain_block(t, first)]
    }
}

/// Whether a code block is open after the line `t`.
pub open spec fn inside_after(t: Seq<char>, inside: bool) -> bool {
    if inside && is_code_body(t) {
        true
    } else {
        is_fence_opener(t)
    }
}

/// Whether a code block is open after the first `n` lines.
pub open spec fn inside_at(lines: Seq<Seq<char>>, n: int) -> bool
    decreases n,
{
    if n <= 0 || n > lines.len() {
        false
    } else {
        inside_after(lines[n - 1], inside_at(lines, n - 1))
    }
}

/// The blocks of the first `n` lines.
pub open spec fn blocks_upto(lines: Seq<Seq<char>>, n: int) -> Seq<Block>
    decreases n,
{
    if n <= 0 || n > lines.len() {
        Seq::empty()
    } else {
        blocks_upto(lines, n - 1) + line_blocks(lines[n - 1], n == 1, inside_at(lines, n - 1))
    }
}

/// The blocks of a whole page: those of its lines, and a closing fence where
/// the last line leaves a code block open.
pub open spec fn page_blocks(lines: Seq<Seq<char>>) -> Seq<Block> {
    let n = lines.len() as int;
    if inside_at(lines, n) {
        blocks_upto(lines, n) + seq![Block::FenceEnd]
    } else {
        blocks_upto(lines, n)
    }
}

/// The Markdown document for a page with the lines `lines`.
pub open spec fn page_markdown(lines: Seq<Seq<char>>) -> Seq<char> {
    render(page_blocks(lines))
}

/// A single block renders to its own text.
pub proof fn lemma_render_one(b: Block)
    ensures
        render(seq![b]) == render_block(b),
{
    assert(seq![b].drop_last() =~= Seq::<Block>::empty());
    assert(render(seq![b]) =~= render(Seq::<Block>::empty()) + render_block(b));
}

/// Rendering two sequences of blocks one after the other gives the two texts
/// one after the other.
pub proof fn lemma_render_concat(a: Seq<Block>, b: Seq<Block>)
    ensures
        render(a + b) == render(a) + render(b),
    decreases b.len(),
{
    if b.len() == 0 {
        assert(a + b =~= a);
        assert(render(a) + render(b) =~= render(a));
    } else {
        lemma_render_concat(a, b.drop_last());
        assert((a + b).drop_last() =~= a + b.drop_last());
        assert(render(a + b) =~= render(a) + render(b));
    }
}

/// Whether `b` is a fence: a closing one if `closing`, else an opening one.
pub open spec fn is_fence(b: Block, closing: bool) -> bool {
    if closing {
        b is FenceClose || b is FenceEnd
    } else {
        b is FenceOpen
    }
}

/// The number of closing fences (if `closing`) or opening fences among
/// `blocks`.
pub open spec fn fences(blocks: Seq<Block>, closing: bool) -> nat
    decreases blocks.len(),
{
    if blocks.len() == 0 {
        0
    } else if is_fence(blocks.last(), closing) {
        fences(blocks.drop_last(), closing) + 1
    } else {
        fences(blocks.drop_last(), closing)
    }
}

/// The number of opening fences among `blocks`.
pub open spec fn fence_opens(blocks: Seq<Block>) -> nat {
    fences(blocks, false)
}

/// The number of closing fences among `blocks`.
pub open spec fn fence_closes(blocks: Seq<Block>) -> nat {
    fences(blocks, true)
}

/// The fences of two sequences of blocks add up.
pub proof fn lemma_fences_concat(a: Seq<Block>, b: Seq<Block>, closing: bool)
    ensures
        fences(a + b, closing) == fences(a, closing) + fences(b, closing),
    decreases b.len(),
{
    if b.len() == 0 {
        assert(a + b =~= a);
    } else {
        lemma_fences_concat(a, b.drop_last(), closing);
        assert((a + b).drop_last() =~= a + b.drop_last());
    }
}

/// A single block counts as one fence or none.
pub proof fn lemma_fences_one(b: Block, closing: bool)
    ensures
        fences(seq![b], closing) == if is_fence(b, closing) {
            1nat
        } else {
            0nat
        },
{
    assert(seq![b].drop_last().len() == 0);
    assert(fences(seq![b].drop_last(), closing) == 0);
}

/// After any number of lines, the fences opened so far are the fences closed
/// so far, and one more where a code block is open.
pub proof fn lemma_fences_upto(lines: Seq<Seq<char>>, n: int)
    requires
        0 <= n <= lines.len(),
    ensures
        fence_opens(blocks_upto(lines, n)) == fence_closes(blocks_upto(lines, n)) + if inside_at(
            lines,
            n,
        ) {
            1nat
        } else {
            0nat
        },
    decreases n,
{
    if n > 0 {
        lemma_fences_upto(lines, n - 1);
        let t = lines[n - 1];
        let inside = inside_at(lines, n - 1);
        let before = blocks_upto(lines, n - 1);
        let here = line_blocks(t, n == 1, inside);
        let plain = plain_block(t, n == 1);
        lemma_fences_concat(before, here, false);
        lemma_fences_concat(before, here, true);
        lemma_fences_one(plain, false);
        lemma_fences_one(plain, true);
        if inside && is_code_body(t) {
            lemma_fences_one(here[0], false);
            lemma_fences_one(here[0], true);
        } else if inside {
            lemma_fences_one(Block::FenceClose, false);
            lemma_fences_one(Block::FenceClose, true);
            lemma_fences_concat(seq![Block::FenceClose], seq![plain], false);
            lemma_fences_concat(seq![Block::FenceClose], seq![plain], true);
        }
    }
}

/// Every page's document has as many closing fences as opening fences.
pub proof fn lemma_fences_balanced(lines: Seq<Seq<char>>)
    ensures
        fence_opens(page_blocks(lines)) == fence_closes(page_blocks(lines)),
{
    let n = lines.len() as int;
    lemma_fences_upto(lines, n);
    if inside_at(lines, n) {
        lemma_fences_concat(blocks_upto(lines, n), seq![Block::FenceEnd], false);
        lemma_fences_concat(blocks_upto(lines, n), seq![Block::FenceEnd], true);
        lemma_fences_one(Block::FenceEnd, false);
        lemma_fences_one(Block::FenceEnd, true);
    }
}

/// A page that ends inside a code block gets a closing fence as its last
/// block: its document is the text of its lines followed by the fence.
pub proof fn lemma_open_fence_closed_at_end(lines: Seq<Seq<char>>)
    requires
        inside_at(lines, lines.len() as int),
    ensures
        page_blocks(lines).last() == Block::FenceEnd,
        page_markdown(lines) == render(blocks_upto(lines, lines.len() as int)) + "```\n"@,
{
    lemma_render_concat(blocks_upto(lines, lines.len() as int), seq![Block::FenceEnd]);
    lemma_render_one(Block::FenceEnd);
}

/// The leading spaces and tabs counted from `i` end inside the text, and the
/// count stops at the first character that is neither.
pub proof fn lemma_indent_end(s: Seq<char>, i: int)
    requires
        0 <= i <= s.len(),
    ensures
        i <= indent_end(s, i) <= s.len(),
        forall|k: int| i <= k < indent_end(s, i) ==> is_indent_char(#[trigger] s[k]),
        indent_end(s, i) < s.len() ==> !is_indent_char(s[indent_end(s, i)]),
    decreases s.len() - i,
{
    if i < s.len() && is_indent_char(s[i]) {
        lemma_indent_end(s, i + 1);
    }
}

/// A line with `k >= 1` leading spaces and tabs that is neither the page's
/// first line nor inside a code block becomes a bullet: `k - 1` levels of
/// nesting, `- `, and the rest of the line with its inline markup rewritten.
pub proof fn lemma_indent_nesting(t: Seq<char>, k: int)
    requires
        k >= 1,
        indent_of(t) == k,
    ensures
        render(line_blocks(t, false, false)) == nesting(k - 1) + "- "@ + inline_markdown(
            t.skip(k),
        ) + "\n"@,
{
    reveal_strlit("code:");
    lemma_indent_end(t, 0);
    assert(is_indent_char(t[0]));
    if is_fence_opener(t) {
        assert(t.subrange(0, "code:"@.len() as int)[0] == "code:"@[0]);
    }
    lemma_render_one(plain_block(t, false));
}

/// Whether a line is plain: no `[`, no `code:` prefix, no leading space or
/// tab.
pub open spec fn is_plain_line(t: Seq<char>) -> bool {
    &&& !t.contains('[')
    &&& !is_fence_opener(t)
    &&& (t.len() == 0 || !is_indent_char(t[0]))
}

/// The document of the first `n` lines of a page of plain lines: the first
/// line as the heading, each later line as a paragraph of its own, an empty
/// line as a lone line break.
pub open spec fn plain_markdown(lines: Seq<Seq<char>>, n: int) -> Seq<char>
    decreases n,
{
    if n <= 0 || n > lines.len() {
        Seq::empty()
    } else if n == 1 {
        "# "@ + lines[0] + "\n\n"@
    } else if lines[n - 1].len() == 0 {
        plain_markdown(lines, n - 1) + "\n"@
    } else {
        plain_markdown(lines, n - 1) + lines[n - 1] + "\n\n"@
    }
}

/// The first `n` lines of a page of plain lines open no code block and give
/// the plain document.
pub proof fn lemma_plain_upto(lines: Seq<Seq<char>>, n: int)
    requires
        0 <= n <= lines.len(),
        forall|i: int| 0 <= i < lines.len() ==> is_plain_line(#[trigger] lines[i]),
    ensures
        !inside_at(lines, n),
        render(blocks_upto(lines, n)) == plain_markdown(lines, n),
    decreases n,
{
    if n > 0 {
        lemma_plain_upto(lines, n - 1);
        let t = lines[n - 1];
        assert(is_plain_line(t));
        let b = plain_block(t, n == 1);
        lemma_render_concat(blocks_upto(lines, n - 1), seq![b]);
        lemma_render_one(b);
        lemma_plain_text_unchanged(t);
        assert(indent_of(t) == 0);
        assert(content_of(t) =~= t);
        assert(render(blocks_upto(lines, n)) =~= plain_markdown(lines, n));
    }
}

/// A page whose lines hold no `[`, no `code:` prefix and no leading space or
/// tab passes through: its first line becomes the heading and every later
/// line stands unchanged as a paragraph of its own.
pub proof fn lemma_plain_page(lines: Seq<Seq<char>>)
    requires
        forall|i: int| 0 <= i < lines.len() ==> is_plain_line(#[trigger] lines[i]),
    ensures
        page_markdown(lines) == plain_markdown(lines, lines.len() as int),
{
    lemma_plain_upto(lines, lines.len() as int);
}

/// Counts the leading spaces and tabs of `text` and splits them off.
pub fn parse_indent(text: &str) -> (r: (usize, &str))
    ensures
        r.0 == indent_of(text@),
        r.1@ == content_of(text@),
        r.0 + r.1@.len() == text@.len(),
{
    let v = to_chars(text);
    let mut i: usize = 0;
    while i < v.len() && (v[i] == ' ' || v[i] == '\t')
        invariant
            i <= v.len(),
            v@ == text@,
            indent_end(v@, i as int) == indent_end(v@, 0),
        decreases v.len() - i,
    {
        i += 1;
    }
    (i, text.substring_char(i, v.len()))
}

/// The bounds of `v` without its leading and trailing whitespace.
fn trim_bounds(v: &Vec<char>) -> (r: (usize, usize))
    ensures
        r.0 <= r.1 <= v.len(),
        v@.subrange(r.0 as int, r.1 as int) == trimmed(v@),
{
    let mut a: usize = 0;
    while a < v.len() && char_is_whitespace(v[a])
        invariant
            a <= v.len(),
            whitespace_end(v@, a as int) == whitespace_end(v@, 0),
        decreases v.len() - a,
    {
        a += 1;
    }
    let mut b: usize = v.len();
    while a < b && char_is_whitespace(v[b - 1])
        invariant
            a <= b <= v.len(),
            whitespace_start(v@, a as int, b as int) == whitespace_start(
                v@,
                a as int,
                v.len() as int,
            ),
        decreases b,
    {
        b -= 1;
    }
    (a, b)
}

/// Appends `n` levels of nesting to `out`.
fn push_nesting(out: &mut Vec<char>, n: usize)
    ensures
        final(out)@ == old(out)@ + nesting(n as int),
{
    let mut i: usize = 0;
    assert(out@ =~= old(out)@ + nesting(0));
    while i < n
        invariant
            i <= n,
            out@ == old(out)@ + nesting(i as int),
        decreases n - i,
    {
        push_str(out, "  ");
        i += 1;
        assert(out@ =~= old(out)@ + nesting(i as int));
    }
}

/// Appends to `out` the block for a line that is not part of a code block's
/// body, and says whether the line opens a code block.
fn push_plain_block(out: &mut Vec<char>, text: &str, first: bool) -> (opened: bool)
    ensures
        final(out)@ == old(out)@ + render_block(plain_block(text@, first)),
        opened == is_fence_opener(text@),
{
    let v = to_chars(text);
    let tag = to_chars("code:");
    if matches_at(&v, 0, &tag) {
        let mut tail: Vec<char> = Vec::new();
        push_range(&mut tail, &v, tag.len(), v.len());
        assert(tail@ =~= text@.skip("code:"@.len() as int));
        let (a, b) = trim_bounds(&tail);
        push_str(out, "```");
        push_range(out, &tail, a, b);
        push_str(out, "\n");
        assert(out@ =~= old(out)@ + render_block(plain_block(text@, first)));
        return true;
    }
    let (indent, content) = parse_indent(text);
    if first {
        push_str(out, "# ");
        push_content(out, content);
        push_str(out, "\n\n");
    } else if v.len() == indent && indent == 0 {
        push_str(out, "\n");
    } else if indent > 0 {
        push_nesting(out, indent - 1);
        push_str(out, "- ");
        push_content(out, content);
        push_str(out, "\n");
    } else {
        push_content(out, content);
        push_str(out, "\n\n");
    }
    assert(out@ =~= old(out)@ + render_block(plain_block(text@, first)));
    false
}

/// Appends to `out` what one line of a page gives.  `first` says that the
/// line is the page's first, `inside` that a code block is open before it;
/// the result says whether one is open after it.
pub fn push_line(out: &mut Vec<char>, text: &str, first: bool, inside: bool) -> (now_inside: bool)
    ensures
        final(out)@ == old(out)@ + render(line_blocks(text@, first, inside)),
        now_inside == inside_after(text@, inside),
{
    if inside {
        let v = to_chars(text);
        if v.len() == 0 || v[0] == ' ' || v[0] == '\t' {
            let from: usize = if v.len() == 0 {
                0
            } else {
                1
            };
            push_range(out, &v, from, v.len());
            push_str(out, "\n");
            proof {
                let line = Block::CodeLine {
                    text: if text@.len() == 0 {
                        text@
                    } else {
                        text@.drop_first()
                    },
                };
                lemma_render_one(line);
                assert(out@ =~= old(out)@ + render_block(line));
            }
            return true;
        }
        push_str(out, "```\n\n");
    }
    let opened = push_plain_block(out, text, first);
    proof {
        let plain = plain_block(text@, first);
        lemma_render_one(plain);
        if inside {
            lemma_render_one(Block::FenceClose);
            lemma_render_concat(seq![Block::FenceClose], seq![plain]);
            assert(out@ =~= old(out)@ + (render_block(Block::FenceClose) + render_block(plain)));
        }
    }
    opened
}

/// Formats a page as one Markdown document.  The first line becomes the
/// heading (the stored title is not used), indented lines become bullets,
/// other lines paragraphs, and `code:` lines open fenced code blocks that
/// last while the lines are indented or empty; a code block still open at
/// the end of the page is closed.
pub fn parse_page(page: &Page) -> (out: String)
    ensures
        out@ == page_markdown(page.line_texts()),
{
    let ghost lines = page.line_texts();
    let mut buf: Vec<char> = Vec::new();
    let mut inside = false;
    let mut i: usize = 0;
    assert(buf@ =~= render(blocks_upto(lines, 0)));
    while i < page.lines.len()
        invariant
            i <= page.lines.len(),
            lines == page.line_texts(),
            lines.len() == page.lines.len(),
            buf@ == render(blocks_upto(lines, i as int)),
            inside == inside_at(lines, i as int),
        decreases page.lines.len() - i,
    {
        let text = page.lines[i].text();
        assert(text@ == lines[i as int]);
        proof {
            lemma_render_concat(
                blocks_upto(lines, i as int),
                line_blocks(lines[i as int], i == 0, inside),
            );
        }
        inside = push_line(&mut buf, text, i == 0, inside);
        i += 1;
    }
    if inside {
        push_str(&mut buf, "```\n");
        proof {
            lemma_render_one(Block::FenceEnd);
            lemma_render_concat(blocks_upto(lines, i as int), seq![Block::FenceEnd]);
        }
    }
    string_from_chars(&buf)
}

} // verus!
