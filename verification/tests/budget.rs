//! Fitting text into a budget of tokens.

use rustbrowser::budget::{fit, TRUNCATION_MARKER};
use rustbrowser::tokens;
use rustbrowser::tokens::TokenStats;

#[test]
fn under_budget_is_unchanged() {
    let md = "first paragraph\n\nsecond paragraph";
    let (out, truncated) = fit(md, 100_000);
    assert!(!truncated);
    assert_eq!(out, md);
}

#[test]
fn zero_budget_means_no_limit() {
    let (out, truncated) = fit("a\n\nb", 0);
    assert!(!truncated);
    assert_eq!(out, "a\n\nb");
}

#[test]
fn over_budget_truncates_with_marker() {
    let md = (0..40)
        .map(|i| format!("Paragraph {i} carries a handful of words to spend tokens."))
        .collect::<Vec<_>>()
        .join("\n\n");
    let (out, truncated) = fit(&md, 20);
    assert!(truncated);
    assert!(out.contains("truncated"));
    assert!(out.starts_with("Paragraph 0"));
    assert!(tokens::count(&out) <= 20);
    assert!(tokens::count(&out) < tokens::count(&md));
}

#[test]
fn oversized_first_paragraph_respects_budget() {
    let big = "word ".repeat(500);
    let (out, truncated) = fit(&big, 5);
    assert!(truncated);
    assert!(tokens::count(&out) <= 5);
    assert!(out.starts_with("word") || out.starts_with('…'));
}

#[test]
fn tiny_budget_still_respects_budget() {
    let big = "word ".repeat(20);
    let (out, truncated) = fit(&big, 1);
    assert!(truncated);
    assert!(tokens::count(&out) <= 1);
}

#[test]
fn cut_output_ends_in_the_marker() {
    let md = format!("One paragraph of some words.\n\n{}", "Another paragraph. ".repeat(9));
    let (out, truncated) = fit(&md, 18);
    assert!(truncated);
    assert!(out.ends_with(TRUNCATION_MARKER), "{out}");
    assert!(out.starts_with("One paragraph of some words."));
}

#[test]
fn tokens_are_counted() {
    assert_eq!(tokens::count(""), 0);
    assert_eq!(tokens::count("hello world"), 2);
    assert_eq!(tokens::try_count("hello world"), Some(2));
    assert!(tokens::within("hello world", 2));
    assert!(!tokens::within("hello world", 1));
}

#[test]
fn special_words_count_as_one_token() {
    assert_eq!(tokens::count("<|endoftext|>"), 1);
}

#[test]
fn savings_never_go_below_zero() {
    let s = TokenStats::measure("hello world", "hello");
    assert_eq!((s.raw_tokens, s.output_tokens, s.saved()), (2, 1, 1));
    assert_eq!(TokenStats { raw_tokens: 1, output_tokens: 5 }.saved(), 0);
    assert_eq!(TokenStats::try_measure("hello world", "hello").map(|s| s.saved()), Some(1));
}
