//! How a card is written: three characters, the rank in two and the suit.

use vstd::prelude::*;
use crate::card::{Card, is_black, is_red};

verus! {

/// `String::push` appends the character to the end of the string.
pub assume_specification[ String::push ](s: &mut String, c: char)
    ensures
        final(s)@ == old(s)@.push(c),
;

/// Colour pair of the red suits on the screen.
pub const PAIR_RED: i16 = 1;

/// Colour pair of the black suits on the screen.
pub const PAIR_BLK: i16 = 2;

/// The character of the decimal digit `d`.
pub open spec fn digit(d: int) -> char {
    (48 + d) as char
}

/// The rank in at least two characters: a letter behind a blank for ace,
/// jack, queen and king, else the number, with a blank before a single
/// digit.
pub open spec fn rank_text(rank: u8) -> Seq<char> {
    let n = rank as int;
    if n == 1 {
        seq![' ', 'A']
    } else if n == 11 {
        seq![' ', 'J']
    } else if n == 12 {
        seq![' ', 'Q']
    } else if n == 13 {
        seq![' ', 'K']
    } else if n < 10 {
        seq![' ', digit(n)]
    } else if n < 100 {
        seq![digit(n / 10), digit(n % 10)]
    } else {
        seq![digit(n / 100), digit(n / 10 % 10), digit(n % 10)]
    }
}

/// The card written out: its rank, then its suit.
pub open spec fn card_text(c: Card) -> Seq<char> {
    rank_text(c.number).push(c.suit)
}

/// The card as the table shows it: written out where it lies face up, else
/// its back.
pub open spec fn shown_text(c: Card) -> Seq<char> {
    if c.up {
        card_text(c)
    } else {
        seq![' ', 'X', 'X']
    }
}

/// The character of the decimal digit `d`.
fn digit_char(d: u8) -> (c: char)
    requires
        d < 10,
    ensures
        c == digit(d as int),
{
    (48u8 + d) as char
}

/// The card written out: `" AH"`, `" 7S"`, `"10D"`, `" KC"`.
pub fn card_string(card: &Card) -> (s: String)
    ensures
        s@ == card_text(*card),
{
    let n: u8 = card.number;
    let mut s: String = String::new();
    if n == 1 {
        s.push(' ');
        s.push('A');
    } else if n == 11 {
        s.push(' ');
        s.push('J');
    } else if n == 12 {
        s.push(' ');
        s.push('Q');
    } else if n == 13 {
        s.push(' ');
        s.push('K');
    } else if n < 10 {
        s.push(' ');
        s.push(digit_char(n));
    } else if n < 100 {
        s.push(digit_char(n / 10));
        s.push(digit_char(n % 10));
    } else {
        s.push(digit_char(n / 100));
        s.push(digit_char(n / 10 % 10));
        s.push(digit_char(n % 10));
    }
    s.push(card.suit);
    proof {
        assert(s@ =~= card_text(*card));
    }
    s
}

/// The card as the table shows it: written out where it lies face up, else
/// `" XX"`.
pub fn card_str_disp(card: &Card) -> (s: String)
    ensures
        s@ == shown_text(*card),
{
    if card.up {
        card_string(card)
    } else {
        let mut s: String = String::new();
        s.push(' ');
        s.push('X');
        s.push('X');
        proof {
            assert(s@ =~= seq![' ', 'X', 'X']);
        }
        s
    }
}

/// The colour pair in which the card is shown: red or black by its suit, and
/// none for a card that lies face down or has no suit.
pub fn colour_pair(card: &Card) -> (pair: Option<i16>)
    ensures
        pair == if card.up && is_red(card.suit) {
            Some(PAIR_RED)
        } else if card.up && is_black(card.suit) {
            Some(PAIR_BLK)
        } else {
            None
        },
{
    if !card.up {
        None
    } else if card.suit == 'H' || card.suit == 'D' {
        Some(PAIR_RED)
    } else if card.suit == 'C' || card.suit == 'S' {
        Some(PAIR_BLK)
    } else {
        None
    }
}

} // verus!
