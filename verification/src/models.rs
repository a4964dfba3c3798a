//! The decoded export: pages made of lines.

use vstd::prelude::*;

verus! {

/// One line of a page.  An export writes a line either as an object with a
/// `text` field or as a bare string; both carry the same thing.
#[derive(Debug)]
pub enum Line {
    Object { text: String },
    String(String),
}

impl View for Line {
    type V = Seq<char>;

    /// The line's text, leading whitespace included.
    open spec fn view(&self) -> Seq<char> {
        match *self {
            Line::Object { text } => text@,
            Line::String(s) => s@,
        }
    }
}

impl Line {
    /// The line's text exactly as stored.
    pub fn text(&self) -> (r: &str)
        ensures
            r@ == self@,
    {
        match self {
            Line::Object { text } => text.as_str(),
            Line::String(s) => s.as_str(),
        }
    }
}

/// A page: its title and its lines, in order.
#[derive(Debug)]
pub struct Page {
    pub title: String,
    pub lines: Vec<Line>,
}

impl Page {
    /// The texts of the page's lines, in order.
    pub open spec fn line_texts(&self) -> Seq<Seq<char>> {
        self.lines@.map_values(|l: Line| l@)
    }
}

/// A whole export: its pages, in order.
#[derive(Debug)]
pub struct ScrapboxExport {
    pub pages: Vec<Page>,
}

} // verus!
