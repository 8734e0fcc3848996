//! The automatic player's choice of a move, as a function of what it sees.
//!
//! The player looks for a move in six classes and takes the first one it
//! finds: the waste card to a foundation, a pile's top card to a foundation,
//! a run from pile to pile, the waste card to a pile, a run moved aside to
//! uncover the card that a foundation needs, and at last a draw.

use vstd::prelude::*;
use crate::card::{Card, foundation_of};
use crate::search::first_index;
use crate::table::{FOUNDATIONS, FOUNDATION_ZONE, PILES, Table, WASTE_ZONE, is_foundation};

verus! {

/// What the automatic player knows: the table and its own three notes.
pub struct Agent {
    /// The table.
    pub table: Table,
    /// The highest rank that goes to a foundation while the player holds
    /// back.
    pub found_level: u8,
    /// A move was made since the stock was last turned over.
    pub played: bool,
    /// The player holds back: it sends no card above `found_level` to a
    /// foundation.
    pub restrained: bool,
}

/// A move by its source zone, its depth and its destination zone.
pub type Move = (int, int, int);

/// Number of face-up cards that lie on top of `pile` without a face-down
/// card between them.
pub open spec fn run_depth(pile: Seq<Card>) -> int
    decreases pile.len(),
{
    if pile.len() > 0 && pile.last().up {
        1 + run_depth(pile.drop_last())
    } else {
        0
    }
}

/// The two cards are as good as each other on the tableau: same rank, same
/// colour.
pub open spec fn same_place(a: Card, b: Card) -> bool {
    a.number == b.number && a.same_colour(b)
}

/// Every foundation holds a card and has reached the rank `level`.
pub open spec fn foundations_reach(t: Table, level: int) -> bool {
    forall|f: int|
        0 <= f < FOUNDATIONS ==> (#[trigger] t.foundations[f]).len() > 0
            && t.foundations[f].last().number >= level
}

impl Agent {
    /// A card of this rank may go to a foundation now: always when the
    /// player does not hold back, else up to `found_level`.
    pub open spec fn may_found(self, rank: u8) -> bool {
        !self.restrained || rank <= self.found_level
    }

    /// The zone of the foundation that collects the suit of `c`.
    pub open spec fn home(c: Card) -> int {
        FOUNDATION_ZONE + foundation_of(c.suit)
    }

    /// The waste card may go to its foundation, by the rules and by the
    /// player's restraint.
    pub open spec fn waste_founds(self) -> bool {
        let t = self.table;
        &&& t.waste.len() > 0
        &&& self.may_found(t.waste.last().number)
        &&& t.legal(WASTE_ZONE as int, 1, Self::home(t.waste.last()))
    }

    /// The top card of pile `i` may go to its foundation, by the rules and by
    /// the player's restraint.
    pub open spec fn pile_founds(self, i: int) -> bool {
        let pile = self.table.piles[i];
        &&& pile.len() > 0
        &&& self.may_found(pile.last().number)
        &&& self.table.legal(i, 1, Self::home(pile.last()))
    }

    /// The test that `pile_founds` makes of a pile.
    pub open spec fn pile_founds_test(self) -> spec_fn(int) -> bool {
        |i: int| self.pile_founds(i)
    }

    /// The first pile whose top card may go to its foundation, or 7.
    pub open spec fn founding_pile(self) -> int {
        first_index(0, PILES as int, self.pile_founds_test())
    }

    /// The face-up run of pile `i` may go onto pile `j`, and the move is more
    /// than carrying a whole pile to an empty place.
    pub open spec fn restacks(t: Table, i: int, j: int) -> bool {
        let pile = t.piles[i];
        &&& pile.len() > 0
        &&& t.legal(i, run_depth(pile), j)
        &&& !(t.piles[j].len() == 0 && run_depth(pile) == pile.len())
    }

    /// The test that `restacks` makes of a destination for pile `i`.
    pub open spec fn restacks_test(t: Table, i: int) -> spec_fn(int) -> bool {
        |j: int| Self::restacks(t, i, j)
    }

    /// The first pile that takes the run of pile `i`, or 7.
    pub open spec fn restack_target(t: Table, i: int) -> int {
        first_index(0, PILES as int, Self::restacks_test(t, i))
    }

    /// The test whether the run of a pile can go anywhere.
    pub open spec fn restack_source_test(t: Table) -> spec_fn(int) -> bool {
        |i: int| Self::restack_target(t, i) < PILES
    }

    /// The first pile whose run can go onto another pile, or 7.
    pub open spec fn restack_source(t: Table) -> int {
        first_index(0, PILES as int, Self::restack_source_test(t))
    }

    /// The test whether the waste card may go onto a pile.
    pub open spec fn waste_lands_test(t: Table) -> spec_fn(int) -> bool {
        |j: int| t.legal(WASTE_ZONE as int, 1, j)
    }

    /// The first pile that takes the waste card, or 7.
    pub open spec fn waste_target(t: Table) -> int {
        first_index(0, PILES as int, Self::waste_lands_test(t))
    }

    /// The card that foundation `f` needs next, lying as its top card lies.
    pub open spec fn needed(t: Table, f: int) -> Card {
        let top = t.foundations[f].last();
        Card { suit: top.suit, number: (top.number + 1) as u8, up: top.up }
    }

    /// The test whether a pile's top card is as good as `c`, so that what
    /// lies on `c` can lie on it.
    pub open spec fn stand_in_test(t: Table, c: Card) -> spec_fn(int) -> bool {
        |j: int| t.piles[j].len() > 0 && same_place(t.piles[j].last(), c)
    }

    /// The first pile whose top card is as good as `c`, or 7.
    pub open spec fn stand_in(t: Table, c: Card) -> int {
        first_index(0, PILES as int, Self::stand_in_test(t, c))
    }

    /// The card at place `k` of pile `i` is the one that foundation `f`
    /// needs, lies face up under other cards, and those cards have somewhere
    /// to go.
    pub open spec fn buried_at(t: Table, f: int, i: int, k: int) -> bool {
        let c = t.piles[i][k];
        let want = Self::needed(t, f);
        &&& c.up && want.up && c.number == want.number && c.suit == want.suit
        &&& k != t.piles[i].len() - 1
        &&& Self::stand_in(t, c) < PILES
    }

    /// The test that `buried_at` makes of a place in pile `i`.
    pub open spec fn buried_test(t: Table, f: int, i: int) -> spec_fn(int) -> bool {
        |k: int| Self::buried_at(t, f, i, k)
    }

    /// The first place in pile `i` where the card for foundation `f` lies
    /// buried, or the pile's length.
    pub open spec fn buried_place(t: Table, f: int, i: int) -> int {
        first_index(0, t.piles[i].len() as int, Self::buried_test(t, f, i))
    }

    /// The test whether a pile buries the card for foundation `f`.
    pub open spec fn buries_test(t: Table, f: int) -> spec_fn(int) -> bool {
        |i: int| Self::buried_place(t, f, i) < t.piles[i].len()
    }

    /// The first pile that buries the card for foundation `f`, or 7.
    pub open spec fn burying_pile(t: Table, f: int) -> int {
        first_index(0, PILES as int, Self::buries_test(t, f))
    }

    /// Foundation `f` has begun, the card it needs may go to it as far as the
    /// player's restraint goes, and that card can be dug out.
    pub open spec fn digs_for(self, f: int) -> bool {
        let t = self.table;
        &&& t.foundations[f].len() > 0
        &&& self.may_found(Self::needed(t, f).number)
        &&& Self::burying_pile(t, f) < PILES
    }

    /// The test that `digs_for` makes of a foundation.
    pub open spec fn digs_test(self) -> spec_fn(int) -> bool {
        |f: int| self.digs_for(f)
    }

    /// The first foundation whose next card can be dug out, or 4.
    pub open spec fn dig_foundation(self) -> int {
        first_index(0, FOUNDATIONS as int, self.digs_test())
    }

    /// The move that uncovers, by one layer, the card that the first such
    /// foundation needs: the cards on it go to the first pile whose top card
    /// is as good as it.
    pub open spec fn dig_move(self) -> Move {
        let t = self.table;
        let f = self.dig_foundation();
        let i = Self::burying_pile(t, f);
        let k = Self::buried_place(t, f, i);
        (i, t.piles[i].len() - k - 1, Self::stand_in(t, t.piles[i][k]))
    }

    /// The first class of move: the waste card to its foundation.
    pub open spec fn waste_to_foundation(self) -> Option<Move> {
        if self.waste_founds() {
            Some((WASTE_ZONE as int, 1, Self::home(self.table.waste.last())))
        } else {
            None
        }
    }

    /// The second class: the top card of the first pile that can give it to
    /// its foundation.
    pub open spec fn pile_to_foundation(self) -> Option<Move> {
        let i = self.founding_pile();
        if i < PILES {
            Some((i, 1, Self::home(self.table.piles[i].last())))
        } else {
            None
        }
    }

    /// The third class: the whole face-up run of the first pile whose run
    /// can go onto another pile, to the first pile that takes it.
    pub open spec fn pile_to_pile(self) -> Option<Move> {
        let t = self.table;
        let i = Self::restack_source(t);
        if i < PILES {
            Some((i, run_depth(t.piles[i]), Self::restack_target(t, i)))
        } else {
            None
        }
    }

    /// The fourth class: the waste card to the first pile that takes it.
    pub open spec fn waste_to_pile(self) -> Option<Move> {
        let t = self.table;
        if t.waste.len() > 0 && Self::waste_target(t) < PILES {
            Some((WASTE_ZONE as int, 1, Self::waste_target(t)))
        } else {
            None
        }
    }

    /// The fifth class: the move that uncovers, by one layer, the card that
    /// a foundation needs.
    pub open spec fn dig(self) -> Option<Move> {
        if self.dig_foundation() < FOUNDATIONS {
            Some(self.dig_move())
        } else {
            None
        }
    }

    /// The move that the player makes, or `None` where it can only draw.
    ///
    /// The classes are tried in their order and, within a class, sources
    /// before destinations, each from the lowest number up.
    pub open spec fn choice(self) -> Option<Move> {
        if self.waste_to_foundation() is Some {
            self.waste_to_foundation()
        } else if self.pile_to_foundation() is Some {
            self.pile_to_foundation()
        } else if self.pile_to_pile() is Some {
            self.pile_to_pile()
        } else if self.waste_to_pile() is Some {
            self.waste_to_pile()
        } else {
            self.dig()
        }
    }

    /// The player after the move `m`: the move is carried out and noted, and
    /// a card sent to a foundation raises `found_level` by one where every
    /// foundation has then reached it.
    pub open spec fn after_move(self, m: Move) -> Agent {
        let table = self.table.after_move(m.0, m.1, m.2);
        Agent {
            table: table,
            found_level: if is_foundation(m.2) && foundations_reach(
                table,
                self.found_level as int,
            ) {
                (self.found_level + 1) as u8
            } else {
                self.found_level
            },
            played: true,
            restrained: self.restrained,
        }
    }

    /// The player after a draw. Where the draw turned the waste over, a
    /// player that held back stops doing so, and one that did not goes back
    /// to it if it has played since the last time; either begins a new
    /// round. Otherwise the notes stay.
    pub open spec fn after_draw(self) -> Agent {
        let table = self.table.after_draw();
        if !self.table.draw_cycles() || (!self.restrained && !self.played) {
            Agent { table: table, ..self }
        } else {
            Agent {
                table: table,
                found_level: self.found_level,
                played: false,
                restrained: !self.restrained,
            }
        }
    }

    /// A draw gets the player on: it does unless it turned the waste over for
    /// a player that neither held back nor had played since the last time.
    pub open spec fn draw_progresses(self) -> bool {
        !self.table.draw_cycles() || self.restrained || self.played
    }

    /// The player after its turn: after the move of its choice, or after a
    /// draw.
    pub open spec fn after_turn(self) -> Agent {
        match self.choice() {
            Some(m) => self.after_move(m),
            None => self.after_draw(),
        }
    }

    /// The turn gets the player on: it made a move, or a draw that gets it
    /// on.
    pub open spec fn turn_progresses(self) -> bool {
        self.choice() is Some || self.draw_progresses()
    }
}

} // verus!
