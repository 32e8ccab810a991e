//! The state of one game and the rules of a turn.

use vstd::prelude::*;
use crate::letters::{is_guess_letter, is_ascii_capital, guess_letter};
use crate::word::{valid_secret, accept_candidate};

verus! {

/// How many wrong guesses a game allows.
pub const STARTING_ATTEMPTS: u8 = 6;

/// What a revealed pattern shows at a position not yet guessed.
pub const PLACEHOLDER: char = '_';

/// The indices below `n` at which `w` holds `c`, in increasing order.
pub open spec fn hits_upto(w: Seq<char>, c: char, n: int) -> Seq<int>
    decreases n,
{
    if n <= 0 {
        Seq::empty()
    } else {
        let earlier = hits_upto(w, c, n - 1);
        if w[n - 1] == c {
            earlier.push(n - 1)
        } else {
            earlier
        }
    }
}

/// Every index at which `w` holds `c`, in increasing order.
pub open spec fn hits_of(w: Seq<char>, c: char) -> Seq<int> {
    hits_upto(w, c, w.len() as int)
}

/// The test for being the character `c`.
pub open spec fn same_as(c: char) -> spec_fn(char) -> bool {
    |x: char| x == c
}

/// How many times `c` occurs in `w`.
pub open spec fn occurrences(w: Seq<char>, c: char) -> nat {
    w.filter(same_as(c)).len()
}

/// The positions named by a list of hits.
pub open spec fn hit_indices(hits: Seq<(usize, char)>) -> Seq<int> {
    hits.map_values(|h: (usize, char)| h.0 as int)
}

/// The letter that a list of hits places at position `i`, if any does (the
/// last such hit, should several name `i`).
pub open spec fn hit_at(hits: Seq<(usize, char)>, i: int) -> Option<char>
    decreases hits.len(),
{
    if hits.len() == 0 {
        None
    } else if hits.last().0 as int == i {
        Some(hits.last().1)
    } else {
        hit_at(hits.drop_last(), i)
    }
}

/// A pattern with a list of hits applied: each position named by a hit takes
/// the hit's letter, every other position keeps what it held.
pub open spec fn filled(answer: Seq<char>, hits: Seq<(usize, char)>) -> Seq<char> {
    Seq::new(
        answer.len(),
        |i: int|
            match hit_at(hits, i) {
                Some(ch) => ch,
                None => answer[i],
            },
    )
}

/// A pattern after the letter `c` is revealed wherever `secret` holds it.
pub open spec fn revealed(pattern: Seq<char>, secret: Seq<char>, c: char) -> Seq<char> {
    Seq::new(pattern.len(), |i: int| if secret[i] == c { c } else { pattern[i] })
}

/// Finds every position of `word` that holds `letter`, in increasing order,
/// each paired with the letter found there.
pub fn check_guess(letter: char, word: &Vec<char>) -> (hits: Vec<(usize, char)>)
    ensures
        hit_indices(hits@) == hits_of(word@, letter),
        forall|k: int| 0 <= k < hits@.len() ==> (#[trigger] hits@[k]).1 == letter,
{
    let mut hits: Vec<(usize, char)> = Vec::new();
    let mut i: usize = 0;
    while i < word.len()
        invariant
            i <= word@.len(),
            hit_indices(hits@) == hits_upto(word@, letter, i as int),
            forall|k: int| 0 <= k < hits@.len() ==> (#[trigger] hits@[k]).1 == letter,
        decreases word@.len() - i,
    {
        let ghost before = hits@;
        if word[i] == letter {
            hits.push((i, letter));
            assert(hit_indices(hits@) =~= hit_indices(before).push(i as int));
        }
        i += 1;
    }
    hits
}

/// Builds the pattern that results from applying `hits` to `answer`: each
/// position named by a hit takes the hit's letter, every other keeps its own.
pub fn fill_answer(hits: Vec<(usize, char)>, answer: &Vec<char>) -> (r: Vec<char>)
    ensures
        r@ == filled(answer@, hits@),
{
    let mut new_answer: Vec<char> = Vec::new();
    let mut i: usize = 0;
    while i < answer.len()
        invariant
            i <= answer@.len(),
            new_answer@ == filled(answer@, hits@).subrange(0, i as int),
        decreases answer@.len() - i,
    {
        let mut found: Option<char> = None;
        let mut k: usize = 0;
        while k < hits.len()
            invariant
                k <= hits@.len(),
                found == hit_at(hits@.subrange(0, k as int), i as int),
            decreases hits@.len() - k,
        {
            assert(hits@.subrange(0, k + 1).drop_last() =~= hits@.subrange(0, k as int));
            if hits[k].0 == i {
                found = Some(hits[k].1);
            }
            k += 1;
        }
        assert(hits@.subrange(0, hits@.len() as int) =~= hits@);
        match found {
            Some(ch) => new_answer.push(ch),
            None => new_answer.push(answer[i]),
        }
        assert(new_answer@ =~= filled(answer@, hits@).subrange(0, i + 1));
        i += 1;
    }
    assert(new_answer@ =~= filled(answer@, hits@));
    new_answer
}

proof fn lemma_hit_at_upto(hits: Seq<(usize, char)>, w: Seq<char>, c: char, n: int)
    requires
        0 <= n <= w.len(),
        hit_indices(hits) == hits_upto(w, c, n),
        forall|k: int| 0 <= k < hits.len() ==> (#[trigger] hits[k]).1 == c,
    ensures
        forall|i: int|
            0 <= i < w.len() ==> #[trigger] hit_at(hits, i) == (if i < n && w[i] == c {
                Some(c)
            } else {
                None
            }),
    decreases n,
{
    assert(hit_indices(hits).len() == hits.len());
    if n == 0 {
        assert(hits.len() == 0);
    } else if w[n - 1] == c {
        let rest = hits.drop_last();
        assert(hits_upto(w, c, n).drop_last() =~= hits_upto(w, c, n - 1));
        assert(hit_indices(rest) =~= hit_indices(hits).drop_last());
        assert(hits.last().0 as int == hit_indices(hits).last());
        lemma_hit_at_upto(rest, w, c, n - 1);
        assert forall|i: int| 0 <= i < w.len() implies #[trigger] hit_at(hits, i) == (if i < n
            && w[i] == c {
            Some(c)
        } else {
            None
        }) by {
            if i != n - 1 {
                assert(hit_at(hits, i) == hit_at(rest, i));
            }
        }
    } else {
        lemma_hit_at_upto(hits, w, c, n - 1);
    }
}

proof fn lemma_hits_count_upto(w: Seq<char>, c: char, n: int)
    requires
        0 <= n <= w.len(),
    ensures
        hits_upto(w, c, n).len() == w.subrange(0, n).filter(same_as(c)).len(),
        hits_upto(w, c, n).len() > 0 <==> exists|i: int| 0 <= i < n && w[i] == c,
    decreases n,
{
    reveal(Seq::filter);
    if n > 0 {
        lemma_hits_count_upto(w, c, n - 1);
        assert(w.subrange(0, n).drop_last() =~= w.subrange(0, n - 1));
        if w[n - 1] == c {
            assert(exists|i: int| 0 <= i < n && w[i] == c);
        } else if hits_upto(w, c, n).len() == 0 {
            assert(!exists|i: int| 0 <= i < n && w[i] == c) by {
                if exists|i: int| 0 <= i < n && w[i] == c {
                    let i = choose|i: int| 0 <= i < n && w[i] == c;
                    assert(0 <= i < n - 1 && w[i] == c);
                }
            }
        }
    }
}

/// The number of hits of `c` in `w` is the number of its occurrences, and
/// there is one exactly when `w` contains `c`.
proof fn lemma_hits_count(w: Seq<char>, c: char)
    ensures
        hits_of(w, c).len() == occurrences(w, c),
        occurrences(w, c) > 0 <==> w.contains(c),
{
    lemma_hits_count_upto(w, c, w.len() as int);
    assert(w.subrange(0, w.len() as int) =~= w);
    if w.contains(c) {
        let i = choose|i: int| 0 <= i < w.len() && w[i] == c;
        assert(0 <= i < w.len() && w[i] == c);
    }
    if hits_of(w, c).len() > 0 {
        let i = choose|i: int| 0 <= i < w.len() && w[i] == c;
        assert(w[i] == c);
    }
}

/// Evaluating a letter against a word gives exactly one hit for each of its
/// occurrences, and applying those hits to a pattern of the word's length
/// reveals the letter at every one of those positions at once, leaving the
/// others as they were.
pub proof fn lemma_guess_reveals_every_occurrence(
    w: Seq<char>,
    pattern: Seq<char>,
    c: char,
    hits: Seq<(usize, char)>,
)
    requires
        pattern.len() == w.len(),
        hit_indices(hits) == hits_of(w, c),
        forall|k: int| 0 <= k < hits.len() ==> (#[trigger] hits[k]).1 == c,
    ensures
        hits.len() == occurrences(w, c),
        filled(pattern, hits) == revealed(pattern, w, c),
        forall|i: int| 0 <= i < w.len() && w[i] == c ==> #[trigger] revealed(pattern, w, c)[i] == c,
        forall|i: int|
            0 <= i < w.len() && w[i] != c ==> #[trigger] revealed(pattern, w, c)[i] == pattern[i],
{
    assert(hit_indices(hits).len() == hits.len());
    lemma_hits_count(w, c);
    lemma_hit_at_upto(hits, w, c, w.len() as int);
    assert(filled(pattern, hits) =~= revealed(pattern, w, c));
}

/// Where a game stands.
#[derive(Clone, Copy, Debug, PartialEq, Eq, Structural)]
pub enum Status {
    /// Guesses are still asked for.
    Playing,
    /// Every letter of the secret word is revealed.
    Won,
    /// The attempts ran out before the word was revealed.
    Lost,
}

/// What became of one key offered to a game.
#[derive(Clone, Copy, Debug, PartialEq, Eq, Structural)]
pub enum KeyVerdict {
    /// The game is over and takes no more guesses.
    GameOver,
    /// The letter was guessed before; nothing changed.
    AlreadyGuessed,
    /// The key is not a lowercase letter; nothing changed.
    NotALetter,
    /// The letter is not in the word; one attempt was spent.
    Miss,
    /// The letter is in the word at this many positions, all now revealed.
    Hit(usize),
}

/// A game as its rules see it.
pub struct GameView {
    /// The word to be guessed.
    pub secret: Seq<char>,
    /// The word as revealed so far.
    pub pattern: Seq<char>,
    /// The letters accepted as guesses, in the order they came.
    pub guessed: Seq<char>,
    /// How many more wrong guesses the game allows.
    pub attempts: nat,
}

impl GameView {
    /// The game's invariant: a valid secret, a pattern of its length in which
    /// each position shows the placeholder or the secret's letter there,
    /// distinct guessable letters as guesses, and attempts within the start.
    pub open spec fn wf(self) -> bool {
        &&& valid_secret(self.secret)
        &&& self.pattern.len() == self.secret.len()
        &&& forall|i: int|
            0 <= i < self.pattern.len() ==> #[trigger] self.pattern[i] == PLACEHOLDER
                || self.pattern[i] == self.secret[i]
        &&& self.guessed.no_duplicates()
        &&& forall|k: int| 0 <= k < self.guessed.len() ==> #[trigger] is_guess_letter(self.guessed[k])
        &&& self.attempts <= STARTING_ATTEMPTS
    }

    /// Won once the pattern is the secret; else lost once no attempt is left.
    pub open spec fn status(self) -> Status {
        if self.pattern == self.secret {
            Status::Won
        } else if self.attempts == 0 {
            Status::Lost
        } else {
            Status::Playing
        }
    }
}

/// A fresh game on `secret`: nothing revealed, nothing guessed, every attempt
/// left.
pub open spec fn initial(secret: Seq<char>) -> GameView {
    GameView {
        secret,
        pattern: Seq::new(secret.len(), |i: int| PLACEHOLDER),
        guessed: Seq::empty(),
        attempts: STARTING_ATTEMPTS as nat,
    }
}

/// The rule of a turn: the game after the key `c` and what became of it.
/// A finished game takes nothing; a letter guessed before and a key that is
/// no lowercase letter change nothing; any other letter is recorded, and
/// either costs one attempt (absent from the secret) or is revealed at every
/// position that holds it.
pub open spec fn step(m: GameView, c: char) -> (GameView, KeyVerdict) {
    if m.status() != Status::Playing {
        (m, KeyVerdict::GameOver)
    } else if m.guessed.contains(c) {
        (m, KeyVerdict::AlreadyGuessed)
    } else if !is_guess_letter(c) {
        (m, KeyVerdict::NotALetter)
    } else if occurrences(m.secret, c) == 0 {
        (
            GameView {
                secret: m.secret,
                pattern: m.pattern,
                guessed: m.guessed.push(c),
                attempts: (m.attempts - 1) as nat,
            },
            KeyVerdict::Miss,
        )
    } else {
        (
            GameView {
                secret: m.secret,
                pattern: revealed(m.pattern, m.secret, c),
                guessed: m.guessed.push(c),
                attempts: m.attempts,
            },
            KeyVerdict::Hit(occurrences(m.secret, c) as usize),
        )
    }
}

/// One game: the secret word, the pattern revealed so far, the letters
/// guessed and the attempts left.
pub struct Game {
    word: Vec<char>,
    answer: Vec<char>,
    guessed: Vec<char>,
    attempts: u8,
}

impl View for Game {
    type V = GameView;

    closed spec fn view(&self) -> GameView {
        GameView {
            secret: self.word@,
            pattern: self.answer@,
            guessed: self.guessed@,
            attempts: self.attempts as nat,
        }
    }
}

/// Whether `v` holds `c`.
fn holds(v: &Vec<char>, c: char) -> (r: bool)
    ensures
        r == v@.contains(c),
{
    let mut i: usize = 0;
    while i < v.len()
        invariant
            i <= v@.len(),
            forall|j: int| 0 <= j < i ==> v@[j] != c,
        decreases v@.len() - i,
    {
        if v[i] == c {
            assert(v@[i as int] == c);
            return true;
        }
        i += 1;
    }
    false
}

/// Whether two letter sequences are the same.
fn same_letters(a: &Vec<char>, b: &Vec<char>) -> (r: bool)
    ensures
        r == (a@ == b@),
{
    if a.len() != b.len() {
        return false;
    }
    let mut i: usize = 0;
    while i < a.len()
        invariant
            a@.len() == b@.len(),
            i <= a@.len(),
            forall|j: int| 0 <= j < i ==> a@[j] == b@[j],
        decreases a@.len() - i,
    {
        if a[i] != b[i] {
            return false;
        }
        i += 1;
    }
    assert(a@ =~= b@);
    true
}

impl Game {
    /// The game's invariant, over its view.
    pub open spec fn wf(&self) -> bool {
        self@.wf()
    }

    /// Starts a game on `word`.
    pub fn new(word: Vec<char>) -> (g: Game)
        requires
            valid_secret(word@),
        ensures
            g@ == initial(word@),
            g.wf(),
    {
        let mut answer: Vec<char> = Vec::new();
        let mut i: usize = 0;
        while i < word.len()
            invariant
                i <= word@.len(),
                answer@ == Seq::new(i as nat, |j: int| PLACEHOLDER),
            decreases word@.len() - i,
        {
            answer.push(PLACEHOLDER);
            assert(answer@ =~= Seq::new((i + 1) as nat, |j: int| PLACEHOLDER));
            i += 1;
        }
        let g = Game { word, answer, guessed: Vec::new(), attempts: STARTING_ATTEMPTS };
        assert(g@ =~= initial(g.word@));
        g
    }

    /// Starts a game on `word` if it may serve as the secret.
    pub fn start(word: Vec<char>) -> (r: Option<Game>)
        ensures
            r is Some <==> valid_secret(word@),
            r matches Some(g) ==> g@ == initial(word@) && g.wf(),
    {
        if accept_candidate(&word) {
            Some(Game::new(word))
        } else {
            None
        }
    }

    /// Where the game stands.
    pub fn status(&self) -> (s: Status)
        ensures
            s == self@.status(),
    {
        if same_letters(&self.answer, &self.word) {
            Status::Won
        } else if self.attempts == 0 {
            Status::Lost
        } else {
            Status::Playing
        }
    }

    /// Plays the key `c` as a guess, by the rule of a turn. A capital letter
    /// is never taken as a guess: it leaves the game as it was.
    pub fn offer_key(&mut self, c: char) -> (v: KeyVerdict)
        requires
            old(self).wf(),
        ensures
            final(self).wf(),
            (final(self)@, v) == step(old(self)@, c),
            is_ascii_capital(c) ==> final(self)@ == old(self)@ && !(v is Miss) && !(v is Hit),
    {
        if self.status() != Status::Playing {
            return KeyVerdict::GameOver;
        }
        if holds(&self.guessed, c) {
            return KeyVerdict::AlreadyGuessed;
        }
        if !guess_letter(c) {
            return KeyVerdict::NotALetter;
        }
        let hits = check_guess(c, &self.word);
        proof {
            lemma_guess_reveals_every_occurrence(self.word@, self.answer@, c, hits@);
            lemma_hits_count(self.word@, c);
        }
        let ghost before = self.guessed@;
        self.guessed.push(c);
        assert(self.guessed@ == before.push(c));
        assert forall|k: int| 0 <= k < self.guessed@.len() implies #[trigger] is_guess_letter(
            self.guessed@[k],
        ) by {
            if k < before.len() {
                assert(self.guessed@[k] == before[k]);
            }
        }
        assert(self.guessed@.no_duplicates()) by {
            assert forall|a: int, b: int|
                0 <= a < self.guessed@.len() && 0 <= b < self.guessed@.len() && a != b implies
                self.guessed@[a] != self.guessed@[b] by {
                if a < before.len() && b < before.len() {
                    assert(self.guessed@[a] == before[a] && self.guessed@[b] == before[b]);
                } else if a < before.len() {
                    assert(before.contains(before[a]));
                } else if b < before.len() {
                    assert(before.contains(before[b]));
                }
            }
        }
        let n = hits.len();
        if n == 0 {
            self.attempts = self.attempts - 1;
            KeyVerdict::Miss
        } else {
            self.answer = fill_answer(hits, &self.answer);
            KeyVerdict::Hit(n)
        }
    }

    /// The secret word.
    pub fn secret(&self) -> (r: &Vec<char>)
        ensures
            r@ == self@.secret,
    {
        &self.word
    }

    /// The word as revealed so far.
    pub fn pattern(&self) -> (r: &Vec<char>)
        ensures
            r@ == self@.pattern,
    {
        &self.answer
    }

    /// The letters guessed so far, in the order they came.
    pub fn guessed_letters(&self) -> (r: &Vec<char>)
        ensures
            r@ == self@.guessed,
    {
        &self.guessed
    }

    /// How many more wrong guesses the game allows.
    pub fn attempts_left(&self) -> (r: u8)
        ensures
            r as nat == self@.attempts,
    {
        self.attempts
    }
}

/// A letter absent from the secret, guessed for the first time while the
/// game is on, costs exactly one attempt and leaves the pattern as it was.
pub proof fn lemma_miss_costs_one_attempt(m: GameView, c: char)
    requires
        m.wf(),
        m.status() == Status::Playing,
        !m.guessed.contains(c),
        is_guess_letter(c),
        !m.secret.contains(c),
    ensures
        step(m, c).1 == KeyVerdict::Miss,
        step(m, c).0.attempts == m.attempts - 1,
        step(m, c).0.pattern == m.pattern,
        step(m, c).0.wf(),
{
    lemma_hits_count(m.secret, c);
    let g = m.guessed.push(c);
    assert forall|a: int, b: int| 0 <= a < g.len() && 0 <= b < g.len() && a != b implies g[a]
        != g[b] by {
        if a < m.guessed.len() && b < m.guessed.len() {
            assert(g[a] == m.guessed[a] && g[b] == m.guessed[b]);
        } else if a < m.guessed.len() {
            assert(m.guessed.contains(m.guessed[a]));
        } else if b < m.guessed.len() {
            assert(m.guessed.contains(m.guessed[b]));
        }
    }
    assert forall|k: int| 0 <= k < g.len() implies #[trigger] is_guess_letter(g[k]) by {
        if k < m.guessed.len() {
            assert(g[k] == m.guessed[k]);
        }
    }
}

/// Once every position of the pattern shows the secret's letter, the game is
/// won, and any further key is turned away with the game left as it is.
pub proof fn lemma_full_pattern_wins(m: GameView, c: char)
    requires
        m.wf(),
        forall|i: int| 0 <= i < m.pattern.len() ==> m.pattern[i] == m.secret[i],
    ensures
        m.status() == Status::Won,
        step(m, c) == (m, KeyVerdict::GameOver),
{
    assert(m.pattern =~= m.secret);
}

/// A letter guessed before changes neither the attempts left nor the pattern.
pub proof fn lemma_repeated_guess_changes_nothing(m: GameView, c: char)
    requires
        m.guessed.contains(c),
    ensures
        step(m, c).0 == m,
        step(m, c).0.attempts == m.attempts,
        step(m, c).0.pattern == m.pattern,
{
}

} // verus!
