//! Conversion of Scrapbox pages to Markdown documents.
//!
//! A page is an ordered list of text lines.  [`parser::parse_page`] turns it
//! into one Markdown document: the first line becomes the heading, indented
//! lines become nested bullets, `code:` lines open fenced code blocks and
//! bracketed spans are rewritten by [`inline::format_content`].

pub mod chars;
pub mod filename;
pub mod inline;
pub mod models;
pub mod parser;
