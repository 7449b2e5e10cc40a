//! Token accounting: how much the pipeline saved.
//!
//! Counts are those of the cl100k_base encoding. Other tokenizers differ, so the numbers are
//! estimates; the ratio between raw and distilled text is what matters.

use vstd::prelude::*;

verus! {

/// The number of tokens that the cl100k_base encoding spends on a text; nothing for a text that
/// the tokenizer gives up on.
pub uninterp spec fn token_count(text: Seq<char>) -> Option<usize>;

/// `tiktoken_rs`'s `CoreBPE::encode` with all special tokens allowed, on the cl100k_base
/// encoding: how many tokens come out, or nothing where it reports an error. The result is a
/// function of the text. An empty text has no tokens.
#[verifier::external_body]
fn encoded_len(text: &str) -> (r: Option<usize>)
    ensures
        r == token_count(text@),
        text@.len() == 0 ==> r == Some(0usize),
{
    let bpe = tiktoken_rs::cl100k_base_singleton();
    match bpe.encode(text, &bpe.special_tokens()) {
        Ok((tokens, _)) => Some(tokens.len()),
        Err(_) => None,
    }
}

/// The text can be counted and costs at most `max` tokens.
pub open spec fn costs_at_most(text: Seq<char>, max: usize) -> bool {
    token_count(text) matches Some(n) && n <= max
}

/// Counts the tokens of `text`; nothing for a text that the tokenizer gives up on.
pub fn try_count(text: &str) -> (r: Option<usize>)
    ensures
        r == token_count(text@),
        text@.len() == 0 ==> r == Some(0usize),
{
    encoded_len(text)
}

/// Counts the tokens of a text that the tokenizer can handle.
pub fn count(text: &str) -> (n: usize)
    requires
        token_count(text@) is Some,
    ensures
        token_count(text@) == Some(n),
        text@.len() == 0 ==> n == 0,
{
    match encoded_len(text) {
        Some(n) => n,
        None => 0,
    }
}

/// Whether `text` can be counted and costs at most `max` tokens.
pub fn within(text: &str, max: usize) -> (r: bool)
    ensures
        r == costs_at_most(text@, max),
        text@.len() == 0 ==> r,
{
    match encoded_len(text) {
        Some(n) => n <= max,
        None => false,
    }
}

/// What a page cost before and after distilling.
#[derive(Debug, Clone, Copy, PartialEq, Eq, Structural)]
pub struct TokenStats {
    /// Tokens of the raw HTML.
    pub raw_tokens: usize,
    /// Tokens of the distilled output.
    pub output_tokens: usize,
}

impl TokenStats {
    /// Counts both texts.
    pub fn measure(raw_html: &str, output: &str) -> (r: TokenStats)
        requires
            token_count(raw_html@) is Some,
            token_count(output@) is Some,
        ensures
            token_count(raw_html@) == Some(r.raw_tokens),
            token_count(output@) == Some(r.output_tokens),
    {
        TokenStats { raw_tokens: count(raw_html), output_tokens: count(output) }
    }

    /// Counts both texts; nothing where the tokenizer gives up on one of them.
    pub fn try_measure(raw_html: &str, output: &str) -> (r: Option<TokenStats>)
        ensures
            r is Some <==> token_count(raw_html@) is Some && token_count(output@) is Some,
            r matches Some(stats) ==> token_count(raw_html@) == Some(stats.raw_tokens)
                && token_count(output@) == Some(stats.output_tokens),
    {
        if try_count(raw_html).is_some() && try_count(output).is_some() {
            Some(TokenStats::measure(raw_html, output))
        } else {
            None
        }
    }

    /// The tokens that were saved; none where the output is the larger.
    pub open spec fn saved_spec(self) -> usize {
        if self.raw_tokens >= self.output_tokens {
            (self.raw_tokens - self.output_tokens) as usize
        } else {
            0
        }
    }

    /// How many tokens were saved.
    pub fn saved(&self) -> (n: usize)
        ensures
            n == self.saved_spec(),
    {
        self.raw_tokens.saturating_sub(self.output_tokens)
    }
}

/// What is saved never exceeds the raw cost, and it makes up the difference to the output
/// wherever the output is the cheaper of the two.
pub proof fn law_saved_is_bounded(stats: TokenStats)
    ensures
        stats.saved_spec() <= stats.raw_tokens,
        stats.output_tokens <= stats.raw_tokens ==> stats.saved_spec() + stats.output_tokens
            == stats.raw_tokens,
        stats.output_tokens >= stats.raw_tokens ==> stats.saved_spec() == 0,
{
}

/// A text is within a budget where it can be counted and its tokens are no more than that. A larger
/// budget holds what a smaller one holds.
pub proof fn law_budgets_are_in_tokens(text: Seq<char>, max: usize, more: usize)
    requires
        max <= more,
    ensures
        token_count(text) is None ==> !costs_at_most(text, max),
        token_count(text) matches Some(n) ==> (costs_at_most(text, max) <==> n <= max),
        costs_at_most(text, max) ==> costs_at_most(text, more),
{
}

} // verus!
