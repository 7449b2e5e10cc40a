//! Extracting content and converting it to Markdown.

use rustbrowser::convert::{collapse_spaces, normalize, to_markdown};
use rustbrowser::error::Error;
use rustbrowser::extract::{content_of_body, extract, extract_whole_body, strip_noise};

#[test]
fn strip_noise_removes_scripts_and_styles() {
    let html = r#"<p>keep</p><script>var x = 1;</script><style>.a{color:red}</style><p>also</p>"#;
    let out = strip_noise(html);
    assert!(out.contains("keep") && out.contains("also"));
    assert!(!out.contains("var x"));
    assert!(!out.contains("color:red"));
}

#[test]
fn strip_noise_handles_unterminated_element() {
    let out = strip_noise("<p>keep</p><script>oops no close tag");
    assert!(out.contains("keep"));
    assert!(!out.contains("oops"));
}

#[test]
fn strip_noise_leaves_similar_tags_intact() {
    // Only exact noise tags are removed; tables/sections survive untouched.
    let html = "<table><tr><td>cell</td></tr></table>";
    assert_eq!(strip_noise(html), html);
}

#[test]
fn strip_noise_knows_tags_by_their_whole_name() {
    let html = "<scripted>a</scripted><styles>b</styles>";
    assert_eq!(strip_noise(html), html);
    assert_eq!(strip_noise("a<SCRIPT src='x'>b</Script >c"), "ac");
    assert_eq!(strip_noise("a<noscript>b</noscript>c<template>d</template>e"), "ace");
}

#[test]
fn strip_noise_keeps_text_without_noise() {
    let html = "déjà <b>vu</b> < script > 1 < 2";
    assert_eq!(strip_noise(html), html);
    assert_eq!(strip_noise(""), "");
}

#[test]
fn whole_body_keeps_content_and_drops_scripts() {
    let html = "<html><head><title>  Doc  Title </title></head>\
                    <body><h1>Head</h1><p>Body text here.</p>\
                    <script>track()</script></body></html>";
    let ex = extract_whole_body(html).unwrap();
    assert_eq!(ex.title, "Doc Title"); // whitespace collapsed
    assert!(ex.content_html.contains("Head"));
    assert!(ex.content_html.contains("Body text here."));
    assert!(!ex.content_html.contains("track()"));
}

#[test]
fn a_page_without_title_has_an_empty_one() {
    let e = content_of_body(None, Some("<p>x</p>"), "ignored");
    assert_eq!(e.title, "");
    assert_eq!(e.content_html, "<p>x</p>");
    assert_eq!(e.text, "");
    let e = content_of_body(Some(" a\n b "), None, "<i>y</i><script>z</script>");
    assert_eq!(e.title, "a b");
    assert_eq!(e.content_html, "<i>y</i>");
}

const ARTICLE: &str = "<html><head><title>On Bread</title></head><body><nav>Home About</nav><article>\
    <h1>On Bread</h1><p>Wild yeast raises the dough while it rests in a warm place, and the longer \
    it rests the better the bread will taste in the end, as every baker knows.</p><p>A second long \
    paragraph follows, with commas, and with enough words, so that the reader takes all of it for \
    the main content of this page.</p></article><footer>Imprint</footer></body></html>";

#[test]
fn the_reader_finds_the_article() {
    let e = extract(ARTICLE, "https://example.com/bread").unwrap();
    assert!(e.title.contains("On Bread"));
    assert!(e.content_html.contains("Wild yeast"));
    assert!(e.text.contains("Wild yeast"));
    assert!(!e.text.contains("Imprint"));
}

#[test]
fn the_reader_refuses_a_relative_url() {
    let e = extract(ARTICLE, "/bread").unwrap_err();
    assert!(matches!(e, Error::ReaderSetup { .. }));
    assert_eq!(e.message(), "initialising readability parser");
    assert!(e.chain().starts_with("initialising readability parser: "));
}

#[test]
fn the_reader_needs_content() {
    let e = extract("<html><body></body></html>", "https://example.com/").unwrap_err();
    assert!(matches!(e, Error::ReaderParse { .. }));
    assert_eq!(e.message(), "extracting main content");
}

#[test]
fn html_becomes_markdown() {
    let md = to_markdown("<h1>Title</h1><p>Some <b>bold</b> text.</p>").unwrap();
    assert_eq!(md, "# Title\n\nSome **bold** text.");
}

#[test]
fn normalizing_squeezes_blanks() {
    assert_eq!(normalize("a\n\n\n\nb   c  \n"), "a\n\nb c");
    assert_eq!(normalize("\n\n x \n"), "x");
    assert_eq!(normalize(""), "");
}

#[test]
fn code_blocks_are_left_alone() {
    let md = "a   b\n\n```\nx   y\n\n\n\nz\n```\n\nc   d";
    let out = normalize(md);
    assert!(out.contains("x   y"), "{out}");
    assert!(out.starts_with("a b\n"));
    assert!(out.ends_with("\nc d"));
}

#[test]
fn runs_of_spaces_become_one() {
    let line: Vec<char> = "a  b   c".chars().collect();
    assert_eq!(collapse_spaces(&line).iter().collect::<String>(), "a b c");
}
