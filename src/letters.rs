//! Which characters count as guessable letters.

use vstd::prelude::*;

verus! {

/// Whether a character has the Unicode `Alphabetic` property.
pub uninterp spec fn alphabetic_of(c: char) -> bool;

/// Whether a character has the Unicode `Lowercase` property.
pub uninterp spec fn lowercase_of(c: char) -> bool;

/// An ASCII capital letter, `'A'` through `'Z'`.
pub open spec fn is_ascii_capital(c: char) -> bool {
    'A' as u32 <= c as u32 <= 'Z' as u32
}

/// A letter that may be guessed and may appear in a secret word: alphabetic
/// and lowercase. Case is never folded, so no capital letter qualifies.
pub open spec fn is_guess_letter(c: char) -> bool {
    alphabetic_of(c) && lowercase_of(c)
}

/// Relies on `char::is_alphabetic`: it reports the character's Unicode
/// `Alphabetic` property, a function of the character alone.
#[verifier::external_body]
fn is_alphabetic(c: char) -> (r: bool)
    ensures
        r == alphabetic_of(c),
{
    c.is_alphabetic()
}

/// Relies on `char::is_lowercase`: it reports the character's Unicode
/// `Lowercase` property, a function of the character alone, which no ASCII
/// capital letter has.
#[verifier::external_body]
fn is_lowercase(c: char) -> (r: bool)
    ensures
        r == lowercase_of(c),
        is_ascii_capital(c) ==> !r,
{
    c.is_lowercase()
}

/// Decides whether `c` is a guessable letter.
pub fn guess_letter(c: char) -> (r: bool)
    ensures
        r == is_guess_letter(c),
        is_ascii_capital(c) ==> !r,
{
    let lower = is_lowercase(c);
    lower && is_alphabetic(c)
}

} // verus!
