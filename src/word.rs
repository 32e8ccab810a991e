//! Drawing the secret word.

use vstd::prelude::*;
use crate::letters::{is_guess_letter, guess_letter};

verus! {

/// The fewest letters a secret word may have.
pub const MIN_WORD_LENGTH: usize = 4;

/// The most letters a secret word may have.
pub const MAX_WORD_LENGTH: usize = 6;

/// A word that may be the secret: its length lies within the bounds and each
/// of its characters is a guessable letter.
pub open spec fn valid_secret(w: Seq<char>) -> bool {
    &&& MIN_WORD_LENGTH <= w.len() <= MAX_WORD_LENGTH
    &&& forall|i: int| 0 <= i < w.len() ==> #[trigger] is_guess_letter(w[i])
}

/// Relies on `random_word::gen` with the English list: it returns one word of
/// that list, drawn at random. Nothing is promised of which.
#[verifier::external_body]
fn draw_english_word() -> (r: Vec<char>) {
    random_word::gen(random_word::Lang::En).chars().collect()
}

/// Decides whether a drawn word may serve as the secret.
pub fn accept_candidate(candidate: &Vec<char>) -> (r: bool)
    ensures
        r == valid_secret(candidate@),
{
    let n = candidate.len();
    if n < MIN_WORD_LENGTH || n > MAX_WORD_LENGTH {
        return false;
    }
    let mut i: usize = 0;
    while i < n
        invariant
            n == candidate@.len(),
            i <= n,
            forall|j: int| 0 <= j < i ==> #[trigger] is_guess_letter(candidate@[j]),
        decreases n - i,
    {
        if !guess_letter(candidate[i]) {
            return false;
        }
        i += 1;
    }
    true
}

/// Draws English words until one may serve as the secret, giving up after
/// `max_draws` draws. Whatever the draws were, a returned word is valid;
/// `None` means that none of the draws was.
pub fn generate_word(max_draws: usize) -> (r: Option<Vec<char>>)
    ensures
        r matches Some(w) ==> valid_secret(w@),
        max_draws == 0 ==> r is None,
{
    let mut draws: usize = 0;
    while draws < max_draws
        invariant
            draws <= max_draws,
        decreases max_draws - draws,
    {
        let candidate = draw_english_word();
        if accept_candidate(&candidate) {
            return Some(candidate);
        }
        draws += 1;
    }
    None
}

} // verus!
