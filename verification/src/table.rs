//! The mathematical model of the table: where every card lies, which moves
//! the rules allow, and what each operation does to the table.

use vstd::prelude::*;
use vstd::multiset::Multiset;
use crate::card::{Card, KING, foundation_suit};

verus! {

/// Number of tableau piles. Zones 0 to 6 are the piles.
pub const PILES: usize = 7;

/// Number of foundations. Zones 7 to 10 are the foundations of hearts,
/// spades, diamonds and clubs.
pub const FOUNDATIONS: usize = 4;

/// Zone number of the first foundation.
pub const FOUNDATION_ZONE: usize = 7;

/// Zone number of the waste, which can only be the source of a move.
pub const WASTE_ZONE: usize = 11;

/// Number of cards that a deal lays out on the tableau.
pub const DEALT: usize = 28;

/// Why a move was refused.
#[derive(Debug, Clone, Copy, PartialEq, Eq, Structural)]
pub enum MoveError {
    /// The source pile has fewer face-up cards on top than the move asks for,
    /// or the move asks for no card at all.
    InsufficientCards,
    /// The waste is the source and holds no card.
    EmptyWaste,
    /// More than one card was to go to a foundation.
    InvalidFoundationDepth,
    /// The card is not the next card of that foundation's suit.
    FoundationRuleViolation,
    /// A king was to go onto a pile that is not empty.
    KingOnOccupied,
    /// The card does not continue the destination pile: the pile is empty, or
    /// its top card has the same colour or is not one rank higher.
    TableauRuleViolation,
    /// A zone number names no zone, or a zone that cannot play that part.
    InvalidZone,
}

/// Where every card lies. Each sequence runs from the bottom of its stack to
/// the top, so the last card is the one in play.
#[verifier::ext_equal]
pub struct Table {
    /// The seven tableau piles.
    pub piles: Seq<Seq<Card>>,
    /// The stock, from which cards are drawn.
    pub stock: Seq<Card>,
    /// The waste, onto which they are drawn.
    pub waste: Seq<Card>,
    /// The four foundations, in the order hearts, spades, diamonds, clubs.
    pub foundations: Seq<Seq<Card>>,
}

/// `pile` with its top card, if it has one, turned face up.
pub open spec fn show_top(pile: Seq<Card>) -> Seq<Card> {
    if pile.len() == 0 {
        pile
    } else {
        pile.update(pile.len() - 1, pile.last().shown())
    }
}

/// The top `depth` cards of `pile` can be lifted: there is at least one, the
/// pile holds that many, and all of them lie face up.
pub open spec fn run_available(pile: Seq<Card>, depth: int) -> bool {
    &&& 1 <= depth <= pile.len()
    &&& forall|k: int| pile.len() - depth <= k < pile.len() ==> (#[trigger] pile[k]).up
}

/// `c` is the next card of foundation `f`, which holds `found`: it has the
/// foundation's suit and the rank after the cards already there.
pub open spec fn foundation_accepts(found: Seq<Card>, f: int, c: Card) -> bool {
    c.suit == foundation_suit(f) && c.number == found.len() + 1
}

/// Why `c` may not land on the pile `dest`, or `None` where it may.
///
/// A king needs an empty pile. Any other card needs a pile whose top card has
/// the other colour and the next higher rank.
pub open spec fn tableau_error(dest: Seq<Card>, c: Card) -> Option<MoveError> {
    if c.number == KING {
        if dest.len() == 0 {
            None
        } else {
            Some(MoveError::KingOnOccupied)
        }
    } else if dest.len() > 0 && c.stacks_on(dest.last()) {
        None
    } else {
        Some(MoveError::TableauRuleViolation)
    }
}

/// The zone can be the source of a move: a pile or the waste.
pub open spec fn is_source(zone: int) -> bool {
    0 <= zone < PILES || zone == WASTE_ZONE
}

/// The zone can be the destination of a move: a pile or a foundation.
pub open spec fn is_destination(zone: int) -> bool {
    0 <= zone < FOUNDATION_ZONE + FOUNDATIONS
}

/// The zone is a foundation.
pub open spec fn is_foundation(zone: int) -> bool {
    FOUNDATION_ZONE <= zone < FOUNDATION_ZONE + FOUNDATIONS
}

impl Table {
    /// The table has its seven piles and four foundations.
    pub open spec fn shaped(self) -> bool {
        self.piles.len() == PILES && self.foundations.len() == FOUNDATIONS
    }

    /// Why the move of `depth` cards from zone `src` to zone `dest` is
    /// refused, or `None` where the rules allow it.
    ///
    /// From the waste only the top card moves, whatever `depth` says.
    pub open spec fn move_error(self, src: int, depth: int, dest: int) -> Option<MoveError> {
        if !is_source(src) || !is_destination(dest) {
            Some(MoveError::InvalidZone)
        } else if src == WASTE_ZONE {
            if self.waste.len() == 0 {
                Some(MoveError::EmptyWaste)
            } else if is_foundation(dest) {
                let f = dest - FOUNDATION_ZONE;
                if foundation_accepts(self.foundations[f], f, self.waste.last()) {
                    None
                } else {
                    Some(MoveError::FoundationRuleViolation)
                }
            } else {
                tableau_error(self.piles[dest], self.waste.last())
            }
        } else {
            let pile = self.piles[src];
            if !run_available(pile, depth) {
                Some(MoveError::InsufficientCards)
            } else if is_foundation(dest) {
                let f = dest - FOUNDATION_ZONE;
                if depth != 1 {
                    Some(MoveError::InvalidFoundationDepth)
                } else if foundation_accepts(self.foundations[f], f, pile.last()) {
                    None
                } else {
                    Some(MoveError::FoundationRuleViolation)
                }
            } else {
                tableau_error(self.piles[dest], pile[pile.len() - depth])
            }
        }
    }

    /// The rules allow the move.
    pub open spec fn legal(self, src: int, depth: int, dest: int) -> bool {
        self.move_error(src, depth, dest) is None
    }

    /// The table after the legal move of `depth` cards from `src` to `dest`.
    ///
    /// The cards keep their order. A card that reaches a pile from the waste
    /// is face up, and so is the card that the move leaves on top of the
    /// source pile.
    pub open spec fn after_move(self, src: int, depth: int, dest: int) -> Table {
        if src == WASTE_ZONE {
            let c = self.waste.last();
            if is_foundation(dest) {
                let f = dest - FOUNDATION_ZONE;
                Table {
                    piles: self.piles,
                    stock: self.stock,
                    waste: self.waste.drop_last(),
                    foundations: self.foundations.update(f, self.foundations[f].push(c)),
                }
            } else {
                Table {
                    piles: self.piles.update(dest, self.piles[dest].push(c.shown())),
                    stock: self.stock,
                    waste: self.waste.drop_last(),
                    foundations: self.foundations,
                }
            }
        } else {
            let pile = self.piles[src];
            if is_foundation(dest) {
                let f = dest - FOUNDATION_ZONE;
                Table {
                    piles: self.piles.update(src, show_top(pile.drop_last())),
                    stock: self.stock,
                    waste: self.waste,
                    foundations: self.foundations.update(f, self.foundations[f].push(pile.last())),
                }
            } else {
                let cut = pile.len() - depth;
                let lifted = self.piles.update(src, pile.take(cut));
                let landed = lifted.update(dest, lifted[dest] + pile.skip(cut));
                Table {
                    piles: landed.update(src, show_top(landed[src])),
                    stock: self.stock,
                    waste: self.waste,
                    foundations: self.foundations,
                }
            }
        }
    }

    /// A draw finds the stock empty and turns the waste over instead.
    pub open spec fn draw_cycles(self) -> bool {
        self.stock.len() == 0
    }

    /// How many cards a draw takes from the stock: three, or what is left.
    pub open spec fn draw_count(self) -> int {
        if self.stock.len() < 3 {
            self.stock.len() as int
        } else {
            3
        }
    }

    /// The table after a draw.
    ///
    /// With cards in the stock, up to three go from its top to the waste one
    /// by one and face up, so the last of them ends on top of the waste. With
    /// an empty stock the waste is turned over: it becomes the stock, face
    /// down and in reverse, so that the cards come out again in their
    /// earlier order.
    pub open spec fn after_draw(self) -> Table {
        if self.draw_cycles() {
            Table {
                piles: self.piles,
                stock: Seq::new(
                    self.waste.len(),
                    |k: int| self.waste[self.waste.len() - 1 - k].hidden(),
                ),
                waste: Seq::empty(),
                foundations: self.foundations,
            }
        } else {
            let n = self.draw_count();
            Table {
                piles: self.piles,
                stock: self.stock.take(self.stock.len() - n),
                waste: self.waste + Seq::new(
                    n as nat,
                    |k: int| self.stock[self.stock.len() - 1 - k].shown(),
                ),
                foundations: self.foundations,
            }
        }
    }

    /// The game is won: every foundation has a king on top.
    pub open spec fn won(self) -> bool {
        forall|f: int|
            0 <= f < FOUNDATIONS ==> (#[trigger] self.foundations[f]).len() > 0
                && self.foundations[f].last().number == KING
    }
}

/// Every card of `s` is a card of the deck.
pub open spec fn all_valid(s: Seq<Card>) -> bool {
    forall|k: int| 0 <= k < s.len() ==> (#[trigger] s[k]).valid()
}

/// Every card of `s` lies face up.
pub open spec fn all_up(s: Seq<Card>) -> bool {
    forall|k: int| 0 <= k < s.len() ==> (#[trigger] s[k]).up
}

/// Every card of `s` lies face down.
pub open spec fn all_down(s: Seq<Card>) -> bool {
    forall|k: int| 0 <= k < s.len() ==> !(#[trigger] s[k]).up
}

/// No face-down card of `pile` lies above a face-up card: the face-up cards
/// are the top of the pile.
pub open spec fn faces_ordered(pile: Seq<Card>) -> bool {
    forall|i: int, j: int|
        #![trigger pile[i], pile[j]]
        0 <= i <= j < pile.len() && pile[i].up ==> pile[j].up
}

/// Where the card at `i` lies face up, the card above it continues the run:
/// other colour, one rank lower.
pub open spec fn linked(pile: Seq<Card>, i: int) -> bool {
    pile[i].up ==> pile[i + 1].stacks_on(pile[i])
}

/// A tableau pile as play can leave it: cards of the deck, the face-up cards
/// on top and forming one run, and the top card face up.
pub open spec fn pile_built(pile: Seq<Card>) -> bool {
    &&& all_valid(pile)
    &&& faces_ordered(pile)
    &&& pile.len() > 0 ==> pile.last().up
    &&& forall|i: int| 0 <= i < pile.len() - 1 ==> #[trigger] linked(pile, i)
}

/// The foundation holds the cards of its suit from the ace upwards: its card
/// at place `k`, counted from 0, has rank `k + 1`.
pub open spec fn foundation_ascending(found: Seq<Card>, f: int) -> bool {
    forall|k: int|
        0 <= k < found.len() ==> (#[trigger] found[k]).suit == foundation_suit(f) && found[k].number
            == k + 1
}

/// A foundation as play can leave it: ascending from the ace, at most up to
/// the king, every card face up.
pub open spec fn foundation_built(found: Seq<Card>, f: int) -> bool {
    &&& foundation_ascending(found, f)
    &&& all_up(found)
    &&& found.len() <= KING
}

impl Table {
    /// In no pile does a face-down card lie above a face-up card.
    pub open spec fn faces_in_order(self) -> bool {
        &&& self.shaped()
        &&& forall|p: int| 0 <= p < PILES ==> faces_ordered(#[trigger] self.piles[p])
    }

    /// Every foundation holds its suit in ascending order from the ace.
    pub open spec fn foundations_ascending(self) -> bool {
        &&& self.shaped()
        &&& forall|f: int|
            0 <= f < FOUNDATIONS ==> foundation_ascending(#[trigger] self.foundations[f], f)
    }

    /// The table is one that play can reach from a deal: every pile and every
    /// foundation is built by the rules, the stock lies face down and the
    /// waste face up, and every card is a card of the deck.
    pub open spec fn well_formed(self) -> bool {
        &&& self.shaped()
        &&& forall|p: int| 0 <= p < PILES ==> pile_built(#[trigger] self.piles[p])
        &&& forall|f: int|
            0 <= f < FOUNDATIONS ==> foundation_built(#[trigger] self.foundations[f], f)
        &&& all_valid(self.stock)
        &&& all_down(self.stock)
        &&& all_valid(self.waste)
        &&& all_up(self.waste)
    }
}

/// The cards of `s` as a multiset, each by suit and rank, whichever way it
/// lies.
pub open spec fn ids(s: Seq<Card>) -> Multiset<(char, u8)> {
    s.map_values(|c: Card| c.id()).to_multiset()
}

impl Table {
    /// All cards on the table as a multiset: those of the seven piles, the
    /// stock, the waste and the four foundations together.
    pub open spec fn cards(self) -> Multiset<(char, u8)> {
        ids(self.piles[0]).add(ids(self.piles[1])).add(ids(self.piles[2])).add(
            ids(self.piles[3]),
        ).add(ids(self.piles[4])).add(ids(self.piles[5])).add(ids(self.piles[6])).add(
            ids(self.stock),
        ).add(ids(self.waste)).add(ids(self.foundations[0])).add(ids(self.foundations[1])).add(
            ids(self.foundations[2]),
        ).add(ids(self.foundations[3]))
    }
}

/// One thing a player can ask of the table.
pub enum Step {
    /// To move `depth` cards from zone `src` to zone `dest`.
    Move { src: int, depth: int, dest: int },
    /// To draw from the stock.
    Draw,
}

impl Table {
    /// The table after one step: a legal move is carried out, a move that the
    /// rules refuse changes nothing, a draw is always carried out.
    pub open spec fn step(self, s: Step) -> Table {
        match s {
            Step::Move { src, depth, dest } => if self.legal(src, depth, dest) {
                self.after_move(src, depth, dest)
            } else {
                self
            },
            Step::Draw => self.after_draw(),
        }
    }

    /// The table after the steps of `steps`, taken in their order.
    pub open spec fn play(self, steps: Seq<Step>) -> Table
        decreases steps.len(),
    {
        if steps.len() == 0 {
            self
        } else {
            self.play(steps.drop_last()).step(steps.last())
        }
    }
}

/// Number of cards in a full deck.
pub const DECK: usize = 52;

/// The suits in the order in which a fresh deck holds them: hearts,
/// diamonds, clubs, spades.
pub open spec fn deck_suit(k: int) -> char {
    if k == 0 {
        'H'
    } else if k == 1 {
        'D'
    } else if k == 2 {
        'C'
    } else {
        'S'
    }
}

/// A fresh deck: the 52 cards face down, suit after suit, each suit from the
/// ace to the king.
pub open spec fn fresh_deck() -> Seq<Card> {
    Seq::new(
        DECK as nat,
        |k: int| Card { suit: deck_suit(k / 13), number: (k % 13 + 1) as u8, up: false },
    )
}

/// The order in which `picks` arrange `cards`: the number `picks[0]`, taken
/// modulo the count of cards, names the place of the first card; the next
/// number picks among the cards that are left, counted anew, and so on.
pub open spec fn arranged(cards: Seq<Card>, picks: Seq<usize>) -> Seq<Card>
    decreases cards.len(),
{
    if cards.len() == 0 {
        Seq::empty()
    } else {
        let place = picks[0] as int % cards.len() as int;
        seq![cards[place]] + arranged(cards.remove(place), picks.drop_first())
    }
}

/// Number of cards that a deal lays out before it comes to pile `i`: pile 0
/// takes one card, pile 1 two, and so on.
pub open spec fn dealt_before(i: int) -> int
    decreases i,
{
    if i <= 0 {
        0
    } else {
        dealt_before(i - 1) + i
    }
}

/// Pile `i` of a fresh deal: `i` face-down cards under one face-up card,
/// taken from the end of the deck after the cards of the piles before it.
pub open spec fn dealt_pile(deck: Seq<Card>, i: int) -> Seq<Card> {
    Seq::new(
        (i + 1) as nat,
        |j: int|
            {
                let c = deck[deck.len() - 1 - (dealt_before(i) + j)];
                if j == i {
                    c.shown()
                } else {
                    c.hidden()
                }
            },
    )
}

/// The table that a deal of `deck` lays out: the last 28 cards go to the
/// piles, the others stay as the stock, face down and in the deck's order;
/// waste and foundations are empty.
pub open spec fn dealt(deck: Seq<Card>) -> Table {
    Table {
        piles: Seq::new(PILES as nat, |i: int| dealt_pile(deck, i)),
        stock: Seq::new((deck.len() - DEALT) as nat, |k: int| deck[k].hidden()),
        waste: Seq::empty(),
        foundations: Seq::new(FOUNDATIONS as nat, |f: int| Seq::empty()),
    }
}

} // verus!
