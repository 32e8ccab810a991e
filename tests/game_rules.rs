use rustman::game::{check_guess, fill_answer, Game, KeyVerdict, Status, STARTING_ATTEMPTS};

fn chars(s: &str) -> Vec<char> {
    s.chars().collect()
}

fn text(v: &Vec<char>) -> String {
    v.iter().collect()
}

#[test]
fn check_guess_finds_every_occurrence() {
    let hits = check_guess('e', &chars("beetle"));
    assert_eq!(hits, vec![(1, 'e'), (2, 'e'), (5, 'e')]);
}

#[test]
fn check_guess_absent_letter_gives_no_hit() {
    assert!(check_guess('z', &chars("rusty")).is_empty());
}

#[test]
fn fill_answer_reveals_all_hits_and_keeps_earlier_letters() {
    let answer = chars("b__t__");
    let hits = check_guess('e', &chars("beetle"));
    assert_eq!(text(&fill_answer(hits, &answer)), "beet_e");
}

#[test]
fn fill_answer_without_hits_keeps_pattern() {
    let answer = chars("r_s__");
    assert_eq!(text(&fill_answer(Vec::new(), &answer)), "r_s__");
}

#[test]
fn start_refuses_invalid_words() {
    assert!(Game::start(chars("abc")).is_none());
    assert!(Game::start(chars("abcdefg")).is_none());
    assert!(Game::start(chars("Rusty")).is_none());
    assert!(Game::start(chars("ru5ty")).is_none());
    assert!(Game::start(chars("")).is_none());
}

#[test]
fn new_game_is_masked_with_all_attempts() {
    let g = Game::start(chars("rusty")).unwrap();
    assert_eq!(text(g.pattern()), "_____");
    assert_eq!(text(g.secret()), "rusty");
    assert!(g.guessed_letters().is_empty());
    assert_eq!(g.attempts_left(), STARTING_ATTEMPTS);
    assert_eq!(g.attempts_left(), 6);
    assert_eq!(g.status(), Status::Playing);
}

#[test]
fn rusty_scenario_is_won_with_five_attempts() {
    let mut g = Game::start(chars("rusty")).unwrap();
    assert_eq!(g.offer_key('r'), KeyVerdict::Hit(1));
    assert_eq!(text(g.pattern()), "r____");
    assert_eq!(g.offer_key('z'), KeyVerdict::Miss);
    assert_eq!(g.attempts_left(), 5);
    assert_eq!(g.offer_key('s'), KeyVerdict::Hit(1));
    assert_eq!(text(g.pattern()), "r_s__");
    assert_eq!(g.offer_key('s'), KeyVerdict::AlreadyGuessed);
    assert_eq!(text(g.pattern()), "r_s__");
    assert_eq!(g.attempts_left(), 5);
    assert_eq!(g.offer_key('u'), KeyVerdict::Hit(1));
    assert_eq!(text(g.pattern()), "rus__");
    assert_eq!(g.offer_key('t'), KeyVerdict::Hit(1));
    assert_eq!(text(g.pattern()), "rust_");
    assert_eq!(g.status(), Status::Playing);
    assert_eq!(g.offer_key('y'), KeyVerdict::Hit(1));
    assert_eq!(text(g.pattern()), "rusty");
    assert_eq!(g.status(), Status::Won);
    assert_eq!(g.attempts_left(), 5);
    assert_eq!(text(g.guessed_letters()), "rzsuty");
}

#[test]
fn repeated_letter_is_revealed_everywhere_at_once() {
    let mut g = Game::start(chars("beetle")).unwrap();
    assert_eq!(g.offer_key('e'), KeyVerdict::Hit(3));
    assert_eq!(text(g.pattern()), "_ee__e");
    assert_eq!(g.attempts_left(), 6);
}

#[test]
fn miss_costs_one_attempt_and_keeps_pattern() {
    let mut g = Game::start(chars("rusty")).unwrap();
    g.offer_key('u');
    assert_eq!(g.offer_key('q'), KeyVerdict::Miss);
    assert_eq!(g.attempts_left(), 5);
    assert_eq!(text(g.pattern()), "_u___");
}

#[test]
fn repeated_miss_is_not_charged_twice() {
    let mut g = Game::start(chars("rusty")).unwrap();
    assert_eq!(g.offer_key('q'), KeyVerdict::Miss);
    assert_eq!(g.offer_key('q'), KeyVerdict::AlreadyGuessed);
    assert_eq!(g.attempts_left(), 5);
    assert_eq!(text(g.pattern()), "_____");
    assert_eq!(text(g.guessed_letters()), "q");
}

#[test]
fn uppercase_key_is_not_a_guess() {
    let mut g = Game::start(chars("rusty")).unwrap();
    assert_eq!(g.offer_key('R'), KeyVerdict::NotALetter);
    assert_eq!(text(g.pattern()), "_____");
    assert_eq!(g.attempts_left(), 6);
    assert!(g.guessed_letters().is_empty());
}

#[test]
fn digits_and_punctuation_are_ignored() {
    let mut g = Game::start(chars("rusty")).unwrap();
    assert_eq!(g.offer_key('7'), KeyVerdict::NotALetter);
    assert_eq!(g.offer_key('_'), KeyVerdict::NotALetter);
    assert_eq!(g.offer_key(' '), KeyVerdict::NotALetter);
    assert_eq!(text(g.pattern()), "_____");
    assert_eq!(g.attempts_left(), 6);
}

#[test]
fn six_misses_lose_the_game() {
    let mut g = Game::start(chars("rusty")).unwrap();
    for c in ['a', 'b', 'c', 'd', 'e', 'f'] {
        assert_eq!(g.status(), Status::Playing);
        assert_eq!(g.offer_key(c), KeyVerdict::Miss);
    }
    assert_eq!(g.attempts_left(), 0);
    assert_eq!(g.status(), Status::Lost);
    assert_eq!(g.offer_key('r'), KeyVerdict::GameOver);
    assert_eq!(text(g.pattern()), "_____");
}

#[test]
fn won_game_takes_no_more_keys() {
    let mut g = Game::start(chars("abba")).unwrap();
    assert_eq!(g.offer_key('a'), KeyVerdict::Hit(2));
    assert_eq!(g.offer_key('b'), KeyVerdict::Hit(2));
    assert_eq!(g.status(), Status::Won);
    assert_eq!(g.offer_key('c'), KeyVerdict::GameOver);
    assert_eq!(g.attempts_left(), 6);
    assert_eq!(text(g.guessed_letters()), "ab");
}
