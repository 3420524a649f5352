//! Token counting with the `cl100k_base` byte-pair encoding of `tiktoken-rs`.

use vstd::prelude::*;

verus! {

/// The number that `compute_token_count` gives for a text: the number of tokens
/// of the `cl100k_base` encoding (special tokens allowed), or 0 where encoding
/// the text fails.
pub uninterp spec fn cl100k_token_count(text: Seq<char>) -> nat;

/// Compute the token count of a string using `tiktoken-rs`.
///
/// Trusted: builds the encoder with `tiktoken_rs::cl100k_base` and counts the
/// tokens that `CoreBPE::encode` gives with every special token allowed (what
/// `encode_with_special_tokens` counts). Where the encoder cannot be built, or
/// `encode` reports an error (its backtracking regex engine gives up, as on a run
/// of about a million whitespace characters), the count is 0 instead of a panic.
/// The encoder is built from data compiled into the crate, so the result is a
/// function of the text; the contract claims only that, and nothing of its value.
#[verifier::external_body]
pub fn compute_token_count(content: &str) -> (res: usize)
    ensures
        res == cl100k_token_count(content@),
{
    let bpe = match tiktoken_rs::cl100k_base() {
        Ok(bpe) => bpe,
        Err(_) => return 0,
    };
    match bpe.encode(content, &bpe.special_tokens()) {
        Ok((tokens, _)) => tokens.len(),
        Err(_) => 0,
    }
}

} // verus!
