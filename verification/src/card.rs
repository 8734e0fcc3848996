//! Cards and the rules that relate two cards.

use vstd::prelude::*;

verus! {

/// Rank of the lowest card of a suit.
pub const ACE: u8 = 1;

/// Rank of the highest card of a suit.
pub const KING: u8 = 13;

/// A playing card: its suit (`'H'`, `'S'`, `'D'` or `'C'`), its rank (1 for
/// the ace up to 13 for the king) and whether it lies face up.
#[derive(Debug, Clone, Copy, PartialEq, Eq, Structural)]
pub struct Card {
    pub suit: char,
    pub number: u8,
    pub up: bool,
}

/// Hearts and diamonds are red.
pub open spec fn is_red(suit: char) -> bool {
    suit == 'H' || suit == 'D'
}

/// Clubs and spades are black.
pub open spec fn is_black(suit: char) -> bool {
    suit == 'C' || suit == 'S'
}

/// The suit that foundation `f` collects: hearts, spades, diamonds, clubs.
pub open spec fn foundation_suit(f: int) -> char {
    if f == 0 {
        'H'
    } else if f == 1 {
        'S'
    } else if f == 2 {
        'D'
    } else {
        'C'
    }
}

/// The foundation that collects `suit`, or 4 where `suit` is no suit.
pub open spec fn foundation_of(suit: char) -> int {
    if suit == 'H' {
        0
    } else if suit == 'S' {
        1
    } else if suit == 'D' {
        2
    } else if suit == 'C' {
        3
    } else {
        4
    }
}

impl Card {
    /// A card of the 52-card deck: one of the four suits, rank 1 to 13.
    pub open spec fn valid(self) -> bool {
        (is_red(self.suit) || is_black(self.suit)) && ACE <= self.number <= KING
    }

    /// This card turned face up.
    pub open spec fn shown(self) -> Card {
        Card { suit: self.suit, number: self.number, up: true }
    }

    /// This card turned face down.
    pub open spec fn hidden(self) -> Card {
        Card { suit: self.suit, number: self.number, up: false }
    }

    /// What identifies a card in the deck, whichever way it lies.
    pub open spec fn id(self) -> (char, u8) {
        (self.suit, self.number)
    }

    /// One card is red and the other black.
    pub open spec fn alternates(self, other: Card) -> bool {
        (is_red(self.suit) && is_black(other.suit)) || (is_black(self.suit) && is_red(
            other.suit,
        ))
    }

    /// Both cards are red or both are black.
    pub open spec fn same_colour(self, other: Card) -> bool {
        (is_red(self.suit) && is_red(other.suit)) || (is_black(self.suit) && is_black(
            other.suit,
        ))
    }

    /// `self` may lie directly on `below` in a tableau pile: opposite colour
    /// and one rank lower.
    pub open spec fn stacks_on(self, below: Card) -> bool {
        self.alternates(below) && below.number == self.number + 1
    }
}

/// A face-down card of the given suit and rank.
pub fn card(suit: &char, number: u8) -> (c: Card)
    ensures
        c == (Card { suit: *suit, number: number, up: false }),
{
    Card { suit: *suit, number: number, up: false }
}

/// A copy of `card`.
pub fn card_clone(card: &Card) -> (c: Card)
    ensures
        c == *card,
{
    Card { suit: card.suit, number: card.number, up: card.up }
}

/// A face-up copy of `card`.
pub fn turn_up(card: &Card) -> (c: Card)
    ensures
        c == card.shown(),
{
    Card { suit: card.suit, number: card.number, up: true }
}

/// A face-down copy of `card`.
pub fn turn_down(card: &Card) -> (c: Card)
    ensures
        c == card.hidden(),
{
    Card { suit: card.suit, number: card.number, up: false }
}

/// The index (0 to 3) of the foundation that collects the card's suit, or 4
/// where the card has none of the four suits.
pub fn foundation_index(card: &Card) -> (f: usize)
    ensures
        f == foundation_of(card.suit),
        f <= 4,
        f < 4 ==> card.suit == foundation_suit(f as int),
        f == 4 ==> !is_red(card.suit) && !is_black(card.suit),
{
    if card.suit == 'H' {
        0
    } else if card.suit == 'S' {
        1
    } else if card.suit == 'D' {
        2
    } else if card.suit == 'C' {
        3
    } else {
        4
    }
}

/// Whether `card` has the suit of the foundation with zone number `dest`
/// (7 hearts, 8 spades, 9 diamonds, 10 clubs). No card matches another zone.
pub fn suit_match(dest: usize, card: &Card) -> (r: bool)
    ensures
        r == (7 <= dest <= 10 && card.suit == foundation_suit(dest - 7)),
{
    if dest == 7 {
        card.suit == 'H'
    } else if dest == 8 {
        card.suit == 'S'
    } else if dest == 9 {
        card.suit == 'D'
    } else if dest == 10 {
        card.suit == 'C'
    } else {
        false
    }
}

/// Whether one of the two cards is red and the other black.
pub fn suit_alternates(a: &Card, b: &Card) -> (r: bool)
    ensures
        r == a.alternates(*b),
{
    if a.suit == 'H' || a.suit == 'D' {
        b.suit == 'C' || b.suit == 'S'
    } else if a.suit == 'C' || a.suit == 'S' {
        b.suit == 'H' || b.suit == 'D'
    } else {
        false
    }
}

/// Whether `card` is the next card of a foundation that holds `base` cards:
/// its rank is one more than that count.
pub fn number_match_asc(base: usize, card: &Card) -> (r: bool)
    ensures
        r == (card.number == base + 1),
{
    card.number >= 1 && (card.number - 1) as usize == base
}

/// Whether `new` may follow `dest` in a tableau pile by rank: one below the
/// card it lands on, or a king where there is no card.
pub fn number_match_desc(dest: Option<&Card>, new: &Card) -> (r: bool)
    ensures
        r == match dest {
            None => new.number == KING,
            Some(c) => c.number == new.number + 1,
        },
{
    match dest {
        None => new.number == KING,
        Some(c) => c.number >= 1 && c.number - 1 == new.number,
    }
}

} // verus!
