//! Token counting for the embedding model's input budget.

use vstd::prelude::*;

verus! {

#[verifier::external_type_specification]
#[verifier::external_body]
pub struct ExCoreBPE(tiktoken_rs::CoreBPE);

/// The number of cl100k_base tokens of a text (the encoding of the
/// embedding model), special tokens included; `None` when it cannot be
/// tokenized.
pub uninterp spec fn token_count_of(text: Seq<char>) -> Option<usize>;

/// The tokenizer of the embedding model. It is built once and handed to
/// whatever needs to count tokens.
pub struct Tokenizer {
    bpe: tiktoken_rs::CoreBPE,
}

/// Relies on `tiktoken_rs::cl100k_base`: loads the cl100k_base encoding
/// from the data bundled with the crate; an error becomes `None`.
#[verifier::external_body]
fn load_cl100k_base() -> (r: Option<tiktoken_rs::CoreBPE>) {
    tiktoken_rs::cl100k_base().ok()
}

/// Relies on `CoreBPE::count`, with the encoding's own special tokens
/// allowed: the number of tokens `encode_with_special_tokens` gives, a
/// function of the text for a given encoding; an error becomes `None`.
#[verifier::external_body]
fn count_with_special(bpe: &tiktoken_rs::CoreBPE, text: &str) -> (r: Option<usize>)
    ensures
        r == token_count_of(text@),
{
    bpe.count(text, &bpe.special_tokens()).ok()
}

impl Tokenizer {
    /// The tokenizer of the embedding model, if its encoding loads.
    pub fn new() -> (r: Option<Tokenizer>) {
        match load_cl100k_base() {
            Some(bpe) => Some(Tokenizer { bpe }),
            None => None,
        }
    }

    /// Number of tokens of a text.
    pub fn count_tokens(&self, text: &str) -> (r: Option<usize>)
        ensures
            r == token_count_of(text@),
    {
        count_with_special(&self.bpe, text)
    }
}

} // verus!
