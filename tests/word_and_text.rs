use rustman::letters::guess_letter;
use rustman::render::{art_file_name, attempts_label, display_pattern};
use rustman::word::{accept_candidate, generate_word, MAX_WORD_LENGTH, MIN_WORD_LENGTH};

fn chars(s: &str) -> Vec<char> {
    s.chars().collect()
}

fn text(v: &Vec<char>) -> String {
    v.iter().collect()
}

#[test]
fn guess_letters_are_lowercase_alphabetic() {
    assert!(guess_letter('a'));
    assert!(guess_letter('z'));
    assert!(guess_letter('é'));
    assert!(!guess_letter('A'));
    assert!(!guess_letter('Z'));
    assert!(!guess_letter('3'));
    assert!(!guess_letter('_'));
    assert!(!guess_letter('-'));
}

#[test]
fn candidates_are_checked_for_length_and_letters() {
    assert!(accept_candidate(&chars("word")));
    assert!(accept_candidate(&chars("rusty")));
    assert!(accept_candidate(&chars("mirror")));
    assert!(!accept_candidate(&chars("cat")));
    assert!(!accept_candidate(&chars("letters")));
    assert!(!accept_candidate(&chars("Word")));
    assert!(!accept_candidate(&chars("can't")));
    assert!(!accept_candidate(&chars("")));
}

#[test]
fn no_draws_gives_no_word() {
    assert!(generate_word(0).is_none());
}

#[test]
fn generated_word_is_within_bounds() {
    let w = generate_word(10_000).expect("the English list has words of four to six letters");
    assert!(w.len() >= MIN_WORD_LENGTH && w.len() <= MAX_WORD_LENGTH);
    assert!(w.iter().all(|c| c.is_alphabetic() && c.is_lowercase()));
}

#[test]
fn art_files_exist_for_one_to_six() {
    assert_eq!(text(&art_file_name(6).unwrap()), "rustman6.txt");
    assert_eq!(text(&art_file_name(1).unwrap()), "rustman1.txt");
    assert_eq!(text(&art_file_name(3).unwrap()), "rustman3.txt");
    assert!(art_file_name(0).is_none());
    assert!(art_file_name(7).is_none());
}

#[test]
fn attempts_label_is_pluralized() {
    assert_eq!(text(&attempts_label(1)), "1 guess left");
    assert_eq!(text(&attempts_label(6)), "6 guesses left");
    assert_eq!(text(&attempts_label(0)), "0 guesses left");
    assert_eq!(text(&attempts_label(42)), "42 guesses left");
    assert_eq!(text(&attempts_label(255)), "255 guesses left");
}

#[test]
fn pattern_is_displayed_with_spaces() {
    assert_eq!(text(&display_pattern(&chars("r_s__"))), "r _ s _ _ ");
    assert_eq!(text(&display_pattern(&Vec::new())), "");
}
