//! Sequences of unsigned integers as JSON text, through `serde_json`.
//!
//! The text that `serde_json` writes for a sequence, and the sequence it reads
//! from a text, are named by [`json_text`] and [`json_words`]; the verifier
//! knows nothing else of them.

use vstd::prelude::*;

verus! {

/// `serde_json::Error`, declared to the verifier as a type it cannot look into.
#[verifier::external_type_specification]
#[verifier::external_body]
pub struct ExJsonError(serde_json::Error);

/// The JSON text that stands for a sequence of unsigned integers.
pub uninterp spec fn json_text(words: Seq<u64>) -> Seq<u8>;

/// The sequence of unsigned integers that a JSON text stands for, if it
/// stands for one.
pub uninterp spec fn json_words(text: Seq<u8>) -> Option<Seq<u64>>;

/// `serde_json::to_vec`, on a vector of `u64`: the bytes of its JSON text.
/// The call cannot fail on such a value: the documented failures are a
/// `Serialize` impl that fails and a map with keys that are no strings, and
/// a vector of integers has neither.
#[verifier::external_body]
pub(crate) fn words_to_json(words: &Vec<u64>) -> (r: Result<Vec<u8>, serde_json::Error>)
    ensures
        match r {
            Ok(text) => text@ == json_text(words@),
            Err(_) => false,
        },
{
    serde_json::to_vec(words)
}

/// `serde_json::from_slice`, read as a vector of `u64`: the integers that
/// the text stands for, or an error where it stands for no such sequence.
#[verifier::external_body]
pub(crate) fn json_to_words(text: &[u8]) -> (r: Result<Vec<u64>, serde_json::Error>)
    ensures
        match r {
            Ok(words) => json_words(text@) == Some(words@),
            Err(_) => json_words(text@) is None,
        },
{
    serde_json::from_slice::<Vec<u64>>(text)
}

} // verus!
