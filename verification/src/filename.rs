//! File names derived from page titles.

use vstd::prelude::*;
use crate::chars::{push_str, string_from_chars, to_chars};

verus! {

/// Whether `c` may not stand in a file name.
pub open spec fn is_reserved(c: char) -> bool {
    c == '/' || c == '\\' || c == '<' || c == '>' || c == ':' || c == '"' || c == '|' || c == '?'
        || c == '*'
}

/// `c`, or an underscore in place of a reserved character.
pub open spec fn sanitized_char(c: char) -> char {
    if is_reserved(c) {
        '_'
    } else {
        c
    }
}

/// `name` with every reserved character replaced by an underscore.
pub open spec fn sanitized(name: Seq<char>) -> Seq<char> {
    name.map_values(|c: char| sanitized_char(c))
}

/// Appends to `out` the characters of `name`, each reserved one replaced by
/// an underscore.
fn push_sanitized(out: &mut Vec<char>, name: &str)
    ensures
        final(out)@ == old(out)@ + sanitized(name@),
{
    let chars = to_chars(name);
    let mut i: usize = 0;
    assert(out@ =~= old(out)@ + sanitized(chars@.take(0)));
    while i < chars.len()
        invariant
            i <= chars.len(),
            out@ == old(out)@ + sanitized(chars@.take(i as int)),
        decreases chars.len() - i,
    {
        let c = chars[i];
        let d = match c {
            '/' | '\\' | '<' | '>' | ':' | '"' | '|' | '?' | '*' => '_',
            _ => c,
        };
        out.push(d);
        assert(out@ =~= old(out)@ + sanitized(chars@.take(i + 1)));
        i += 1;
    }
    assert(chars@.take(chars.len() as int) =~= chars@);
}

/// Replaces each character that is invalid in a file name by `_`; all other
/// characters stay as they are, so the length never changes.
pub fn sanitize_filename(name: &str) -> (out: String)
    ensures
        out@ == sanitized(name@),
{
    let mut buf: Vec<char> = Vec::new();
    push_sanitized(&mut buf, name);
    assert(buf@ =~= sanitized(name@));
    string_from_chars(&buf)
}

/// The name of the file that holds the page titled `title`: the sanitized
/// title followed by `.md`.
pub fn page_filename(title: &str) -> (out: String)
    ensures
        out@ == sanitized(title@) + ".md"@,
{
    let mut buf: Vec<char> = Vec::new();
    push_sanitized(&mut buf, title);
    push_str(&mut buf, ".md");
    assert(buf@ =~= sanitized(title@) + ".md"@);
    string_from_chars(&buf)
}

} // verus!
