use scrapbox_md::filename::{page_filename, sanitize_filename};
use scrapbox_md::models::{Line, Page, ScrapboxExport};
use scrapbox_md::parser::{parse_indent, parse_page, push_line};

fn page_of(lines: &[&str]) -> Page {
    Page {
        title: "ignored".to_string(),
        lines: lines.iter().map(|l| Line::String(l.to_string())).collect(),
    }
}

#[test]
fn test_parse_page() {
    let page = Page {
        title: "Test".to_string(),
        lines: vec![
            Line::String("Test Title".to_string()),
            Line::String("Line 1".to_string()),
            Line::String(" Line 2 (indented)".to_string()),
            Line::String("code:rust".to_string()),
            Line::String(" fn main() {}".to_string()),
        ],
    };
    let result = parse_page(&page);
    assert!(result.contains("# Test Title"));
    assert!(result.contains("- Line 2 (indented)"));
    assert!(result.contains("```rust"));
    assert!(result.contains("fn main() {}"));
}

#[test]
fn whole_document_of_a_mixed_page() {
    let page = page_of(&[
        "Test Title",
        "Line 1",
        " Line 2 (indented)",
        "code:rust",
        " fn main() {}",
    ]);
    assert_eq!(
        parse_page(&page),
        "# Test Title\n\nLine 1\n\n- Line 2 (indented)\n```rust\nfn main() {}\n```\n"
    );
}

#[test]
fn title_and_indented_bullet() {
    let page = page_of(&["Test Title", "Line 1", " Line 2 (indented)"]);
    assert_eq!(
        parse_page(&page),
        "# Test Title\n\nLine 1\n\n- Line 2 (indented)\n"
    );
}

#[test]
fn code_block_closed_by_next_line() {
    let page = page_of(&["T", "code:rust", " fn main() {}", "after"]);
    assert_eq!(
        parse_page(&page),
        "# T\n\n```rust\nfn main() {}\n```\n\nafter\n\n"
    );
}

#[test]
fn unterminated_fence_is_closed() {
    let page = page_of(&["T", "code:", " body"]);
    let out = parse_page(&page);
    assert_eq!(out, "# T\n\n```\nbody\n```\n");
    assert!(out.ends_with("```\n"));
}

#[test]
fn blank_line_is_one_line_break() {
    let page = page_of(&["T", "a", "", "b"]);
    assert_eq!(parse_page(&page), "# T\n\na\n\n\nb\n\n");
}

#[test]
fn empty_page() {
    assert_eq!(parse_page(&page_of(&[])), "");
}

#[test]
fn plain_lines_pass_through() {
    let page = page_of(&["Title", "first paragraph", "second * paragraph ]", "", "third"]);
    assert_eq!(
        parse_page(&page),
        "# Title\n\nfirst paragraph\n\nsecond * paragraph ]\n\n\nthird\n\n"
    );
}

#[test]
fn indent_gives_nesting() {
    let page = page_of(&["T", " one", "  two", "\t\t\tthree", " \t \tfour"]);
    assert_eq!(
        parse_page(&page),
        "# T\n\n- one\n  - two\n    - three\n      - four\n"
    );
}

#[test]
fn whitespace_only_line_is_an_empty_bullet() {
    let page = page_of(&["T", "  "]);
    assert_eq!(parse_page(&page), "# T\n\n  - \n");
}

#[test]
fn bullets_and_paragraphs_are_formatted_inline() {
    let page = page_of(&["T", " [* b] and [Page]", "[https://a.b]"]);
    assert_eq!(
        parse_page(&page),
        "# T\n\n- **b** and [[Page]]\n[https://a.b](https://a.b)\n\n"
    );
}

#[test]
fn title_is_formatted_inline_and_loses_its_indent() {
    assert_eq!(parse_page(&page_of(&["[* T]"])), "# **T**\n\n");
    assert_eq!(parse_page(&page_of(&["  T"])), "# T\n\n");
    assert_eq!(parse_page(&page_of(&[""])), "# \n\n");
}

#[test]
fn stored_title_is_not_used() {
    let page = Page {
        title: "Stored".to_string(),
        lines: vec![Line::Object { text: "First line".to_string() }],
    };
    assert_eq!(parse_page(&page), "# First line\n\n");
}

#[test]
fn code_body_is_not_formatted_and_loses_one_character() {
    let page = page_of(&["T", "code:txt", " [* x]", "   deep", "\ttab", "end"]);
    assert_eq!(
        parse_page(&page),
        "# T\n\n```txt\n[* x]\n  deep\ntab\n```\n\nend\n\n"
    );
}

#[test]
fn empty_line_stays_inside_the_code_block() {
    let page = page_of(&["T", "code:py", " a", "", " b"]);
    assert_eq!(parse_page(&page), "# T\n\n```py\na\n\nb\n```\n");
}

#[test]
fn language_is_trimmed() {
    let page = page_of(&["T", "code:  rust \t", " x"]);
    assert_eq!(parse_page(&page), "# T\n\n```rust\nx\n```\n");
}

#[test]
fn code_block_follows_code_block() {
    let page = page_of(&["T", "code:a", " 1", "code:b", " 2"]);
    assert_eq!(parse_page(&page), "# T\n\n```a\n1\n```\n\n```b\n2\n```\n");
}

#[test]
fn first_line_may_open_a_code_block() {
    let page = page_of(&["code:sh", " ls"]);
    assert_eq!(parse_page(&page), "```sh\nls\n```\n");
}

#[test]
fn fences_are_balanced() {
    let pages = [
        page_of(&["T", "code:a", " 1", "x", "code:b", " 2", "", "code:c"]),
        page_of(&["T", "code:a"]),
        page_of(&["code:a", "code:b", "code:c", "d"]),
    ];
    for page in pages.iter() {
        let out = parse_page(page);
        let opens = out.lines().filter(|l| l.starts_with("```") && l.len() > 3).count();
        let closes = out.lines().filter(|l| *l == "```").count();
        assert_eq!(opens, closes);
    }
}

#[test]
fn one_line_at_a_time() {
    let mut out: Vec<char> = Vec::new();
    assert!(!push_line(&mut out, "Title", true, false));
    assert!(push_line(&mut out, "code:c", false, false));
    assert!(push_line(&mut out, " int x;", false, true));
    assert!(!push_line(&mut out, "done", false, true));
    let text: String = out.iter().collect();
    assert_eq!(text, "# Title\n\n```c\nint x;\n```\n\ndone\n\n");
}

#[test]
fn indent_is_split_off() {
    assert_eq!(parse_indent("  \tabc d"), (3, "abc d"));
    assert_eq!(parse_indent("abc"), (0, "abc"));
    assert_eq!(parse_indent(" \t"), (2, ""));
    assert_eq!(parse_indent(""), (0, ""));
    assert_eq!(parse_indent(" 日本語"), (1, "日本語"));
    assert_eq!(parse_indent("\u{3000}x"), (0, "\u{3000}x"));
}

#[test]
fn line_text_of_both_shapes() {
    assert_eq!(Line::Object { text: "  a".to_string() }.text(), "  a");
    assert_eq!(Line::String("  a".to_string()).text(), "  a");
}

#[test]
fn export_holds_pages_in_order() {
    let export = ScrapboxExport { pages: vec![page_of(&["A"]), page_of(&["B"])] };
    let docs: Vec<String> = export.pages.iter().map(parse_page).collect();
    assert_eq!(docs, vec!["# A\n\n".to_string(), "# B\n\n".to_string()]);
}

#[test]
fn reserved_characters_become_underscores() {
    assert_eq!(sanitize_filename("a/b:c*?"), "a_b_c__");
    assert_eq!(sanitize_filename("\\<>\"|"), "_____");
    assert_eq!(sanitize_filename("plain name.md"), "plain name.md");
    assert_eq!(sanitize_filename("日本/語"), "日本_語");
    assert_eq!(sanitize_filename(""), "");
}

#[test]
fn file_name_of_a_page() {
    assert_eq!(page_filename("a/b:c*?"), "a_b_c__.md");
    assert_eq!(page_filename("Notes"), "Notes.md");
}
