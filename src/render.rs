//! The text that the screen shows each turn, apart from the art itself.

use vstd::prelude::*;
use crate::game::STARTING_ATTEMPTS;

verus! {

/// The decimal digit for `d`, which is below ten.
pub open spec fn digit(d: nat) -> char {
    if d == 0 {
        '0'
    } else if d == 1 {
        '1'
    } else if d == 2 {
        '2'
    } else if d == 3 {
        '3'
    } else if d == 4 {
        '4'
    } else if d == 5 {
        '5'
    } else if d == 6 {
        '6'
    } else if d == 7 {
        '7'
    } else if d == 8 {
        '8'
    } else {
        '9'
    }
}

/// The decimal notation of `n`, without leading zeros.
pub open spec fn decimal(n: nat) -> Seq<char>
    decreases n,
{
    if n < 10 {
        seq![digit(n)]
    } else {
        decimal(n / 10).push(digit(n % 10))
    }
}

/// The name of the art file for `n` attempts left.
pub open spec fn art_name(n: nat) -> Seq<char> {
    "rustman"@ + decimal(n) + ".txt"@
}

/// The line that states how many attempts are left, with the noun in the
/// singular for one.
pub open spec fn attempts_text(n: nat) -> Seq<char> {
    decimal(n) + if n == 1 {
        " guess left"@
    } else {
        " guesses left"@
    }
}

/// A pattern as displayed: each character followed by a space.
pub open spec fn spaced(s: Seq<char>) -> Seq<char>
    decreases s.len(),
{
    if s.len() == 0 {
        Seq::empty()
    } else {
        spaced(s.drop_last()) + seq![s.last(), ' ']
    }
}

fn digit_char(d: u8) -> (r: char)
    requires
        d < 10,
    ensures
        r == digit(d as nat),
{
    match d {
        0 => '0',
        1 => '1',
        2 => '2',
        3 => '3',
        4 => '4',
        5 => '5',
        6 => '6',
        7 => '7',
        8 => '8',
        _ => '9',
    }
}

/// Appends the decimal notation of `n`.
fn push_decimal(out: &mut Vec<char>, n: u8)
    ensures
        final(out)@ == old(out)@ + decimal(n as nat),
{
    let ghost start = out@;
    let ghost k = n as nat;
    if n >= 100 {
        out.push(digit_char(n / 100));
    }
    if n >= 10 {
        out.push(digit_char((n / 10) % 10));
    }
    out.push(digit_char(n % 10));
    proof {
        if k >= 100 {
            assert(decimal(k / 10) == decimal(k / 100).push(digit((k / 10) % 10)));
            assert(decimal(k / 100) == seq![digit(k / 100)]);
        } else if k >= 10 {
            assert(decimal(k / 10) == seq![digit(k / 10)]);
            assert((k / 10) % 10 == k / 10);
        }
    }
    assert(out@ =~= start + decimal(k));
}

/// Appends the characters of `s`.
fn push_text(out: &mut Vec<char>, s: &str)
    ensures
        final(out)@ == old(out)@ + s@,
{
    let n = s.unicode_len();
    let mut i: usize = 0;
    while i < n
        invariant
            n == s@.len(),
            i <= n,
            out@ == old(out)@ + s@.subrange(0, i as int),
        decreases n - i,
    {
        out.push(s.get_char(i));
        assert(s@.subrange(0, i + 1) =~= s@.subrange(0, i as int).push(s@[i as int]));
        i += 1;
    }
    assert(s@.subrange(0, n as int) =~= s@);
}

/// The name of the art file for `attempts` attempts left; there is one for
/// each count from one up to the starting attempts, and none otherwise.
pub fn art_file_name(attempts: u8) -> (r: Option<Vec<char>>)
    ensures
        r is Some <==> 1 <= attempts <= STARTING_ATTEMPTS,
        r matches Some(name) ==> name@ == art_name(attempts as nat),
{
    if attempts < 1 || attempts > STARTING_ATTEMPTS {
        return None;
    }
    let mut name: Vec<char> = Vec::new();
    push_text(&mut name, "rustman");
    push_decimal(&mut name, attempts);
    push_text(&mut name, ".txt");
    Some(name)
}

/// The line that states how many attempts are left.
pub fn attempts_label(attempts: u8) -> (r: Vec<char>)
    ensures
        r@ == attempts_text(attempts as nat),
{
    let mut label: Vec<char> = Vec::new();
    push_decimal(&mut label, attempts);
    if attempts == 1 {
        push_text(&mut label, " guess left");
    } else {
        push_text(&mut label, " guesses left");
    }
    label
}

/// The revealed pattern as displayed: each character followed by a space.
pub fn display_pattern(answer: &Vec<char>) -> (r: Vec<char>)
    ensures
        r@ == spaced(answer@),
{
    let mut shown: Vec<char> = Vec::new();
    let mut i: usize = 0;
    while i < answer.len()
        invariant
            i <= answer@.len(),
            shown@ == spaced(answer@.subrange(0, i as int)),
        decreases answer@.len() - i,
    {
        assert(answer@.subrange(0, i + 1).drop_last() =~= answer@.subrange(0, i as int));
        shown.push(answer[i]);
        shown.push(' ');
        assert(shown@ =~= spaced(answer@.subrange(0, i + 1)));
        i += 1;
    }
    assert(answer@.subrange(0, answer@.len() as int) =~= answer@);
    shown
}

} // verus!
