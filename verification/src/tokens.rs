//! The token counter: one count per caption string, for UI-side length
//! estimation.  The tokenizer itself is an outside dependency; its output is
//! named, not restated, and everything around the call is verified.

use vstd::prelude::*;
use instant_clip_tokenizer::Tokenizer;

verus! {

/// The number of tokens the CLIP tokenizer produces for `s`.  The bundled
/// vocabulary is fixed and the encoding depends on the text alone, so this is
/// a function of the characters.
pub uninterp spec fn clip_token_count(s: Seq<char>) -> nat;

/// Relies on instant_clip_tokenizer::Tokenizer: `new` loads the vocabulary
/// bundled with the crate, and `encode` appends to the output one token per
/// vocabulary unit of the lowercased text, deterministically in the text
/// alone; no word matches in an empty text, so nothing is appended for it.
#[verifier::external_body]
fn clip_token_count_exec(text: &str) -> (n: usize)
    ensures
        n as nat == clip_token_count(text@),
        text@.len() == 0 ==> n == 0,
{
    let tokenizer = Tokenizer::new();
    let mut toks = Vec::new();
    tokenizer.encode(text, &mut toks);
    toks.len()
}

/// Count tokens for each caption: same order and length as the input, one
/// count per string, each depending on that string alone.  An empty caption
/// counts zero tokens.
pub fn count_tokens(captions: &Vec<String>) -> (r: Vec<usize>)
    ensures
        r@.len() == captions@.len(),
        forall|i: int|
            0 <= i < captions@.len() ==> #[trigger] r@[i] as nat == clip_token_count(
                captions@[i]@,
            ),
        forall|i: int| 0 <= i < captions@.len() ==> (captions@[i]@.len() == 0 ==> r@[i] == 0),
{
    let mut r: Vec<usize> = Vec::new();
    let mut i: usize = 0;
    while i < captions.len()
        invariant
            i <= captions@.len(),
            r@.len() == i,
            forall|k: int|
                0 <= k < i ==> #[trigger] r@[k] as nat == clip_token_count(captions@[k]@),
            forall|k: int| 0 <= k < i ==> (captions@[k]@.len() == 0 ==> r@[k] == 0),
        decreases captions@.len() - i,
    {
        let n = clip_token_count_exec(captions[i].as_str());
        r.push(n);
        i += 1;
    }
    r
}

/// Token counting is deterministic: counting holds no state across calls, so
/// equal captions always count the same, however often they are counted.
pub proof fn lemma_token_count_deterministic(a: Seq<char>, b: Seq<char>)
    requires
        a == b,
    ensures
        clip_token_count(a) == clip_token_count(b),
{
}

} // verus!
