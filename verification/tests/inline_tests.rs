use scrapbox_md::inline::{format_content, format_span, split_words};

#[test]
fn test_format_content() {
    assert_eq!(format_content("[Link]"), "[[Link]]");
    assert_eq!(format_content("[* Bold]"), "**Bold**");
    assert_eq!(
        format_content("[https://example.com]"),
        "[https://example.com](https://example.com)"
    );
    assert_eq!(
        format_content("[Example https://example.com]"),
        "[Example](https://example.com)"
    );
}

#[test]
fn internal_link() {
    assert_eq!(format_content("[Link]"), "[[Link]]");
}

#[test]
fn bold() {
    assert_eq!(format_content("[* Bold]"), "**Bold**");
}

#[test]
fn italic() {
    assert_eq!(format_content("[/ Italic]"), "*Italic*");
}

#[test]
fn strikethrough() {
    assert_eq!(format_content("[- Strike]"), "~~Strike~~");
}

#[test]
fn bare_url() {
    assert_eq!(
        format_content("[https://example.com]"),
        "[https://example.com](https://example.com)"
    );
}

#[test]
fn labelled_url() {
    assert_eq!(
        format_content("[Example https://example.com]"),
        "[Example](https://example.com)"
    );
}

#[test]
fn url_before_label() {
    assert_eq!(
        format_content("[http://x.org Example Site]"),
        "[Example Site](http://x.org)"
    );
}

#[test]
fn label_around_url() {
    assert_eq!(
        format_content("[see https://a.b/c for more]"),
        "[see for more](https://a.b/c)"
    );
}

#[test]
fn first_url_word_is_the_target() {
    assert_eq!(
        format_content("[a http://one https://two]"),
        "[a https://two](http://one)"
    );
}

#[test]
fn whitespace_inside_brackets_is_absorbed() {
    assert_eq!(
        format_content("[  Example \t  https://example.com  ]"),
        "[Example](https://example.com)"
    );
    assert_eq!(format_content("[a\u{3000}https://x.y]"), "[a](https://x.y)");
}

#[test]
fn single_word_with_url_inside() {
    assert_eq!(format_content("[xhttp://a]"), "[xhttp://a](xhttp://a)");
}

#[test]
fn url_in_the_middle_of_a_word_is_an_internal_link() {
    assert_eq!(format_content("[a xhttp://b]"), "[[a xhttp://b]]");
}

#[test]
fn decoration_wins_over_url() {
    assert_eq!(format_content("[* https://example.com]"), "**https://example.com**");
    assert_eq!(format_content("[/ see http://a.b]"), "*see http://a.b*");
    assert_eq!(format_content("[- http://a.b x]"), "~~http://a.b x~~");
}

#[test]
fn decoration_needs_the_space() {
    assert_eq!(format_content("[*Bold]"), "[[*Bold]]");
    assert_eq!(format_content("[* ]"), "****");
}

#[test]
fn adjacent_spans_are_independent() {
    assert_eq!(format_content("[a][b]"), "[[a]][[b]]");
    assert_eq!(format_content("[* a][/ b]"), "**a***b*");
}

#[test]
fn nested_brackets_pair_first_with_first() {
    assert_eq!(format_content("[a [b] c]"), "[[a [b]] c]");
}

#[test]
fn empty_brackets() {
    assert_eq!(format_content("[]"), "[[]]");
}

#[test]
fn unmatched_brackets_stay() {
    assert_eq!(format_content("a [b"), "a [b");
    assert_eq!(format_content("a ]b["), "a ]b[");
    assert_eq!(format_content(""), "");
}

#[test]
fn line_feed_ends_no_span() {
    assert_eq!(format_content("[a\nb]"), "[a\nb]");
    assert_eq!(format_content("[a\n[b]"), "[a\n[[b]]");
}

#[test]
fn text_around_spans_is_copied() {
    assert_eq!(
        format_content("see [Page] and [* this] now"),
        "see [[Page]] and **this** now"
    );
    assert_eq!(format_content("plain text"), "plain text");
}

#[test]
fn non_ascii_text() {
    assert_eq!(format_content("前 [* 太字] 後"), "前 **太字** 後");
    assert_eq!(format_content("[リンク]"), "[[リンク]]");
}

#[test]
fn span_from_its_inner_text() {
    assert_eq!(format_span("Link"), "[[Link]]");
    assert_eq!(format_span("* Bold"), "**Bold**");
    assert_eq!(format_span("a https://b.c"), "[a](https://b.c)");
    assert_eq!(format_span(""), "[[]]");
}

#[test]
fn words_are_split_at_whitespace() {
    let v: Vec<char> = " ab  c\td ".chars().collect();
    let words: Vec<String> = split_words(&v).iter().map(|w| w.iter().collect()).collect();
    assert_eq!(words, vec!["ab".to_string(), "c".to_string(), "d".to_string()]);
    let none: Vec<char> = "  \t ".chars().collect();
    assert_eq!(split_words(&none).len(), 0);
}
