//! Checks of stored codes.
use vstd::prelude::*;
use crate::types::{Alpha2, Alpha3};
use vstd::utf8::encode_utf8;

verus! {

/// A value that is longer (in UTF-8 bytes) than it may be.
#[derive(Clone, Copy, PartialEq, Eq, Debug, Structural)]
pub struct LengthError {
    /// The length of the value, in bytes.
    pub current_length: usize,
    /// The largest length allowed.
    pub expected_length: usize,
}

/// The length of a text in UTF-8 bytes, as `str::len` gives it.
pub open spec fn byte_len(s: Seq<char>) -> usize {
    encode_utf8(s).len() as usize
}

/// Accepts a value of at most `expect_length` bytes.
pub fn validate_alpha(val: &str, expect_length: usize) -> (res: Result<(), LengthError>)
    ensures
        byte_len(val@) <= expect_length ==> res is Ok,
        byte_len(val@) > expect_length ==> res == Err::<(), LengthError>(
            LengthError { current_length: byte_len(val@), expected_length: expect_length },
        ),
{
    if val.len() <= expect_length {
        Ok(())
    } else {
        Err(LengthError { current_length: val.len(), expected_length: expect_length })
    }
}

/// Accepts an alpha-2 code of at most two bytes.
pub fn validate_alpha2(val: &Alpha2) -> (res: Result<(), LengthError>)
    ensures
        byte_len(val@) <= 2 ==> res is Ok,
        byte_len(val@) > 2 ==> res == Err::<(), LengthError>(
            LengthError { current_length: byte_len(val@), expected_length: 2 },
        ),
{
    validate_alpha(val.0.as_str(), 2)
}

/// Accepts an alpha-3 code of at most three bytes.
pub fn validate_alpha3(val: &Alpha3) -> (res: Result<(), LengthError>)
    ensures
        byte_len(val@) <= 3 ==> res is Ok,
        byte_len(val@) > 3 ==> res == Err::<(), LengthError>(
            LengthError { current_length: byte_len(val@), expected_length: 3 },
        ),
{
    validate_alpha(val.0.as_str(), 3)
}

/// A text in one language.
#[derive(Clone, Debug)]
pub struct Translation {
    pub lang: String,
    pub text: String,
}

/// Why a list of translations is refused.
#[derive(Clone, Copy, PartialEq, Eq, Debug, Structural)]
pub enum TranslationError {
    /// The value is not a list of translations.
    InvalidFormat,
    /// A translation has an empty text.
    EmptyText,
}

/// Whether every translation has a text.
pub open spec fn texts_present(ts: Seq<Translation>) -> bool {
    forall|i: int| 0 <= i < ts.len() ==> (#[trigger] ts[i]).text@.len() > 0
}

/// Checks a list of translations as read from its stored form (`None` where
/// it did not read as one): every text must be non-empty.
pub fn validate_translation(parsed: &Option<Vec<Translation>>) -> (res: Result<(), TranslationError>)
    ensures
        parsed is None ==> res == Err::<(), TranslationError>(TranslationError::InvalidFormat),
        parsed matches Some(ts) ==> (texts_present(ts@) ==> res is Ok),
        parsed matches Some(ts) ==> (!texts_present(ts@) ==> res == Err::<(), TranslationError>(
            TranslationError::EmptyText,
        )),
{
    match parsed {
        None => Err(TranslationError::InvalidFormat),
        Some(ts) => {
            let mut i: usize = 0;
            while i < ts.len()
                invariant
                    0 <= i <= ts@.len(),
                    *parsed == Some(*ts),
                    forall|j: int| 0 <= j < i ==> (#[trigger] ts@[j]).text@.len() > 0,
                decreases ts.len() - i,
            {
                if ts[i].text.as_str().is_empty() {
                    assert(!texts_present(ts@)) by {
                        assert(ts@[i as int].text@.len() == 0);
                    }
                    return Err(TranslationError::EmptyText);
                }
                i = i + 1;
            }
            Ok(())
        },
    }
}

} // verus!
