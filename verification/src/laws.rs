//! What holds of every game: the laws that the rules obey, each proved from
//! the model of the table.

use vstd::prelude::*;
use vstd::multiset::{Multiset, lemma_multiset_empty_len};
use vstd::seq_lib::{
    lemma_multiset_commutative, to_multiset_build, to_multiset_contains, to_multiset_len,
    to_multiset_remove,
};
use crate::card::{Card, KING, foundation_suit};
use crate::table::{
    DEALT, DECK, FOUNDATIONS, FOUNDATION_ZONE, PILES, Step, Table, WASTE_ZONE, all_valid, dealt,
    dealt_before, dealt_pile, faces_ordered, foundation_ascending, foundation_built, fresh_deck,
    ids, is_foundation, linked, pile_built, run_available, show_top, tableau_error,
};

verus! {

/// A legal move leaves no face-down card above a face-up card, if there was
/// none before.
pub proof fn law_move_keeps_faces_in_order(t: Table, src: int, depth: int, dest: int)
    requires
        t.faces_in_order(),
        t.legal(src, depth, dest),
    ensures
        t.after_move(src, depth, dest).faces_in_order(),
{
    let after = t.after_move(src, depth, dest);
    assert forall|p: int| 0 <= p < PILES implies faces_ordered(#[trigger] after.piles[p]) by {
        assert(faces_ordered(t.piles[p]));
        if src != WASTE_ZONE {
            assert(faces_ordered(t.piles[src]));
        }
        if !is_foundation(dest) {
            assert(faces_ordered(t.piles[dest]));
        }
    }
}

/// A draw leaves the piles as they are.
pub proof fn law_draw_keeps_faces_in_order(t: Table)
    requires
        t.faces_in_order(),
    ensures
        t.after_draw().faces_in_order(),
{
}

/// A legal move leaves every foundation ascending from its ace, and changes
/// a foundation only by putting the next card of its suit on top.
pub proof fn law_move_keeps_foundations_ascending(t: Table, src: int, depth: int, dest: int)
    requires
        t.foundations_ascending(),
        t.legal(src, depth, dest),
    ensures
        t.after_move(src, depth, dest).foundations_ascending(),
        forall|f: int|
            0 <= f < FOUNDATIONS ==> {
                let before = t.foundations[f];
                let after = #[trigger] t.after_move(src, depth, dest).foundations[f];
                if dest == FOUNDATION_ZONE + f {
                    after.len() == before.len() + 1 && after.drop_last() == before
                        && after.last().number == after.len()
                } else {
                    after == before
                }
            },
{
    let moved = t.after_move(src, depth, dest);
    assert forall|f: int| 0 <= f < FOUNDATIONS implies {
        let before = t.foundations[f];
        let after = #[trigger] moved.foundations[f];
        &&& foundation_ascending(after, f)
        &&& if dest == FOUNDATION_ZONE + f {
            after.len() == before.len() + 1 && after.drop_last() == before && after.last().number
                == after.len()
        } else {
            after == before
        }
    } by {
        assert(foundation_ascending(t.foundations[f], f));
        if dest == FOUNDATION_ZONE + f {
            assert(moved.foundations[f].drop_last() =~= t.foundations[f]);
        }
    }
}

/// A legal move changes a foundation only by putting one card on top of it:
/// the next card of the foundation's suit, ranked one above the count of
/// cards that were there. Every other foundation stays as it is.
pub proof fn law_move_grows_one_foundation(t: Table, src: int, depth: int, dest: int)
    requires
        t.shaped(),
        t.legal(src, depth, dest),
    ensures
        forall|f: int|
            0 <= f < FOUNDATIONS ==> {
                let before = t.foundations[f];
                let after = #[trigger] t.after_move(src, depth, dest).foundations[f];
                if dest == FOUNDATION_ZONE + f {
                    &&& after.drop_last() == before
                    &&& after.len() == before.len() + 1
                    &&& after.last().number == after.len()
                    &&& after.last().suit == foundation_suit(f)
                } else {
                    after == before
                }
            },
{
    let moved = t.after_move(src, depth, dest);
    assert forall|f: int| 0 <= f < FOUNDATIONS implies {
        let before = t.foundations[f];
        let after = #[trigger] moved.foundations[f];
        if dest == FOUNDATION_ZONE + f {
            &&& after.drop_last() == before
            &&& after.len() == before.len() + 1
            &&& after.last().number == after.len()
            &&& after.last().suit == foundation_suit(f)
        } else {
            after == before
        }
    } by {
        if dest == FOUNDATION_ZONE + f {
            assert(moved.foundations[f].drop_last() =~= t.foundations[f]);
        }
    }
}

/// A legal move from a pile leaves the pile's new top card, if there is one,
/// face up.
pub proof fn law_move_shows_source_top(t: Table, src: int, depth: int, dest: int)
    requires
        t.shaped(),
        t.legal(src, depth, dest),
        0 <= src < PILES,
    ensures
        t.after_move(src, depth, dest).piles[src].len() > 0 ==> t.after_move(
            src,
            depth,
            dest,
        ).piles[src].last().up,
{
    let pile = t.piles[src];
    if src == dest {
        let cut = pile.len() - depth;
        assert(pile.take(cut) + pile.skip(cut) =~= pile);
        assert(pile.last().up);
    }
}

/// A draw leaves the foundations as they are.
pub proof fn law_draw_keeps_foundations(t: Table)
    ensures
        t.after_draw().foundations == t.foundations,
{
}

/// A legal move takes a well-formed table to a well-formed table.
pub proof fn law_move_keeps_well_formed(t: Table, src: int, depth: int, dest: int)
    requires
        t.well_formed(),
        t.legal(src, depth, dest),
    ensures
        t.after_move(src, depth, dest).well_formed(),
{
    let after = t.after_move(src, depth, dest);
    assert forall|f: int| 0 <= f < FOUNDATIONS implies foundation_built(
        #[trigger] after.foundations[f],
        f,
    ) by {
        assert(foundation_built(t.foundations[f], f));
        if src != WASTE_ZONE {
            assert(pile_built(t.piles[src]));
        }
    }
    assert forall|p: int| 0 <= p < PILES implies pile_built(#[trigger] after.piles[p]) by {
        assert(pile_built(t.piles[p]));
        if src == WASTE_ZONE {
            if p == dest {
                lemma_push_keeps_pile_built(t.piles[p], t.waste.last().shown());
            }
        } else {
            let pile = t.piles[src];
            assert(pile_built(pile));
            if is_foundation(dest) {
                if p == src {
                    lemma_take_keeps_pile_built(pile, pile.len() - 1);
                    assert(pile.drop_last() =~= pile.take(pile.len() - 1));
                }
            } else {
                let cut = pile.len() - depth;
                assert(pile_built(t.piles[dest]));
                lemma_take_keeps_pile_built(pile, cut);
                if src == dest {
                    assert(pile.take(cut) + pile.skip(cut) =~= pile);
                    assert(show_top(pile) =~= pile);
                } else if p == dest {
                    lemma_run_keeps_pile_built(t.piles[dest], pile, cut);
                }
            }
        }
    }
}

/// A draw takes a well-formed table to a well-formed table.
pub proof fn law_draw_keeps_well_formed(t: Table)
    requires
        t.well_formed(),
    ensures
        t.after_draw().well_formed(),
{
}

/// A built pile stays built when a face-up card that continues it lands on
/// it.
proof fn lemma_push_keeps_pile_built(pile: Seq<Card>, c: Card)
    requires
        pile_built(pile),
        c.valid(),
        c.up,
        tableau_error(pile, c) is None,
    ensures
        pile_built(pile.push(c)),
{
    let grown = pile.push(c);
    assert forall|i: int| 0 <= i < grown.len() - 1 implies #[trigger] linked(grown, i) by {
        if i < pile.len() - 1 {
            assert(linked(pile, i));
        }
    }
}

/// What is left of a built pile when cards are lifted from it is built again
/// once its top card is turned face up.
proof fn lemma_take_keeps_pile_built(pile: Seq<Card>, cut: int)
    requires
        pile_built(pile),
        0 <= cut <= pile.len(),
    ensures
        pile_built(show_top(pile.take(cut))),
{
    let rest = show_top(pile.take(cut));
    assert forall|i: int| 0 <= i < rest.len() - 1 implies #[trigger] linked(rest, i) by {
        assert(linked(pile, i));
    }
}

/// A built pile stays built when the face-up run above `cut` of another
/// built pile lands on it and continues it.
proof fn lemma_run_keeps_pile_built(dest: Seq<Card>, pile: Seq<Card>, cut: int)
    requires
        pile_built(dest),
        pile_built(pile),
        0 <= cut < pile.len(),
        run_available(pile, pile.len() - cut),
        tableau_error(dest, pile[cut]) is None,
    ensures
        pile_built(dest + pile.skip(cut)),
{
    let grown = dest + pile.skip(cut);
    assert forall|i: int| 0 <= i < grown.len() - 1 implies #[trigger] linked(grown, i) by {
        if i < dest.len() - 1 {
            assert(linked(dest, i));
        } else if i >= dest.len() {
            assert(linked(pile, cut + (i - dest.len())));
        }
    }
    assert forall|i: int, j: int|
        #![trigger grown[i], grown[j]]
        0 <= i <= j < grown.len() && grown[i].up implies grown[j].up by {
        if j >= dest.len() {
            assert(pile[cut + (j - dest.len())].up);
        }
    }
}

/// An empty stack holds no card.
pub proof fn lemma_ids_empty()
    ensures
        ids(Seq::<Card>::empty()) == Multiset::<(char, u8)>::empty(),
{
    let none = Seq::<Card>::empty().map_values(|c: Card| c.id());
    to_multiset_len(none);
    lemma_multiset_empty_len(none.to_multiset());
}

/// Two stacks that hold the same cards place by place, whichever way each
/// card lies, hold the same multiset of cards.
pub proof fn lemma_ids_same(a: Seq<Card>, b: Seq<Card>)
    requires
        a.len() == b.len(),
        forall|k: int| 0 <= k < a.len() ==> (#[trigger] a[k]).id() == b[k].id(),
    ensures
        ids(a) == ids(b),
{
    assert(a.map_values(|c: Card| c.id()) =~= b.map_values(|c: Card| c.id()));
}

/// The cards of two stacks put together are the cards of both.
pub proof fn lemma_ids_concat(a: Seq<Card>, b: Seq<Card>)
    ensures
        ids(a + b) == ids(a).add(ids(b)),
{
    let f = |c: Card| c.id();
    assert((a + b).map_values(f) =~= a.map_values(f) + b.map_values(f));
    lemma_multiset_commutative(a.map_values(f), b.map_values(f));
}

/// A stack turned over holds the same cards.
pub proof fn lemma_ids_reversed(a: Seq<Card>, b: Seq<Card>)
    requires
        a.len() == b.len(),
        forall|k: int| 0 <= k < a.len() ==> (#[trigger] b[k]).id() == a[a.len() - 1 - k].id(),
    ensures
        ids(a) == ids(b),
{
    let f = |c: Card| c.id();
    assert(b.map_values(f) =~= a.map_values(f).reverse());
    a.map_values(f).lemma_reverse_to_multiset();
}

/// Replacing one pile changes the cards of the tableau by the cards of that
/// pile.
proof fn lemma_cards_of_replaced_pile(t: Table, p: int, pile: Seq<Card>)
    requires
        t.shaped(),
        0 <= p < PILES,
    ensures
        (Table { piles: t.piles.update(p, pile), ..t }).cards().add(ids(t.piles[p]))
            == t.cards().add(ids(pile)),
{
    let u = Table { piles: t.piles.update(p, pile), ..t };
    assert(u.cards().add(ids(t.piles[p])) =~= t.cards().add(ids(pile)));
}

/// Replacing one foundation changes the cards of the table by the cards of
/// that foundation.
proof fn lemma_cards_of_replaced_foundation(t: Table, f: int, found: Seq<Card>)
    requires
        t.shaped(),
        0 <= f < FOUNDATIONS,
    ensures
        (Table { foundations: t.foundations.update(f, found), ..t }).cards().add(
            ids(t.foundations[f]),
        ) == t.cards().add(ids(found)),
{
    let u = Table { foundations: t.foundations.update(f, found), ..t };
    assert(u.cards().add(ids(t.foundations[f])) =~= t.cards().add(ids(found)));
}

/// A legal move neither adds a card to the table nor takes one away: the
/// multiset of all cards stays the same.
pub proof fn law_move_conserves_cards(t: Table, src: int, depth: int, dest: int)
    requires
        t.shaped(),
        t.legal(src, depth, dest),
    ensures
        t.after_move(src, depth, dest).cards() == t.cards(),
{
    let after = t.after_move(src, depth, dest);
    if src == WASTE_ZONE {
        let c = t.waste.last();
        let rest = Table { waste: t.waste.drop_last(), ..t };
        assert(t.waste =~= t.waste.drop_last() + seq![c]);
        lemma_ids_concat(t.waste.drop_last(), seq![c]);
        assert(rest.cards().add(ids(seq![c])) =~= t.cards());
        if is_foundation(dest) {
            let f = dest - FOUNDATION_ZONE;
            let found = t.foundations[f];
            lemma_cards_of_replaced_foundation(rest, f, found.push(c));
            assert(found.push(c) =~= found + seq![c]);
            lemma_ids_concat(found, seq![c]);
            assert(after =~~= (Table {
                foundations: rest.foundations.update(f, found.push(c)),
                ..rest
            }));
            assert(after.cards() =~= t.cards());
        } else {
            let pile = t.piles[dest];
            lemma_cards_of_replaced_pile(rest, dest, pile.push(c.shown()));
            assert(pile.push(c.shown()) =~= pile + seq![c.shown()]);
            lemma_ids_concat(pile, seq![c.shown()]);
            lemma_ids_same(seq![c], seq![c.shown()]);
            assert(after =~~= (Table {
                piles: rest.piles.update(dest, pile.push(c.shown())),
                ..rest
            }));
            assert(after.cards() =~= t.cards());
        }
    } else {
        let pile = t.piles[src];
        if is_foundation(dest) {
            let f = dest - FOUNDATION_ZONE;
            let found = t.foundations[f];
            let c = pile.last();
            let left = show_top(pile.drop_last());
            let lifted = Table { piles: t.piles.update(src, left), ..t };
            lemma_cards_of_replaced_pile(t, src, left);
            lemma_ids_same(left, pile.drop_last());
            assert(pile =~= pile.drop_last() + seq![c]);
            lemma_ids_concat(pile.drop_last(), seq![c]);
            lemma_cards_of_replaced_foundation(lifted, f, found.push(c));
            assert(found.push(c) =~= found + seq![c]);
            lemma_ids_concat(found, seq![c]);
            assert(after =~~= (Table {
                foundations: lifted.foundations.update(f, found.push(c)),
                ..lifted
            }));
            assert(after.cards() =~= t.cards());
        } else {
            let cut = pile.len() - depth;
            let run = pile.skip(cut);
            let t1 = Table { piles: t.piles.update(src, pile.take(cut)), ..t };
            let t2 = Table { piles: t1.piles.update(dest, t1.piles[dest] + run), ..t1 };
            let t3 = Table { piles: t2.piles.update(src, show_top(t2.piles[src])), ..t2 };
            assert(after =~~= t3);
            lemma_cards_of_replaced_pile(t, src, pile.take(cut));
            assert(pile =~= pile.take(cut) + run);
            lemma_ids_concat(pile.take(cut), run);
            lemma_cards_of_replaced_pile(t1, dest, t1.piles[dest] + run);
            lemma_ids_concat(t1.piles[dest], run);
            lemma_cards_of_replaced_pile(t2, src, show_top(t2.piles[src]));
            lemma_ids_same(show_top(t2.piles[src]), t2.piles[src]);
            assert(t1.cards().add(ids(run)) =~= t.cards());
            assert(t2.cards() =~= t1.cards().add(ids(run)));
            assert(t3.cards() =~= t2.cards());
        }
    }
}

/// A draw neither adds a card to the table nor takes one away.
pub proof fn law_draw_conserves_cards(t: Table)
    requires
        t.shaped(),
    ensures
        t.after_draw().cards() == t.cards(),
{
    let after = t.after_draw();
    if t.draw_cycles() {
        lemma_ids_reversed(t.waste, after.stock);
        assert(t.stock =~= Seq::<Card>::empty());
        assert(ids(t.stock) =~= ids(after.waste));
        assert(after.cards() =~= t.cards());
    } else {
        let n = t.draw_count();
        let cut = t.stock.len() - n;
        let top = t.stock.skip(cut);
        let drawn = Seq::new(n as nat, |k: int| t.stock[t.stock.len() - 1 - k].shown());
        lemma_ids_reversed(top, drawn);
        assert(t.stock =~= t.stock.take(cut) + top);
        lemma_ids_concat(t.stock.take(cut), top);
        lemma_ids_concat(t.waste, drawn);
        assert(after.cards() =~= t.cards());
    }
}

/// Whatever the players do, in any number of steps, the multiset of all
/// cards on the table stays what it was: no card is lost, none is doubled,
/// none appears from nowhere.
pub proof fn law_play_conserves_cards(t: Table, steps: Seq<Step>)
    requires
        t.shaped(),
    ensures
        t.play(steps).shaped(),
        t.play(steps).cards() == t.cards(),
    decreases steps.len(),
{
    if steps.len() > 0 {
        law_play_conserves_cards(t, steps.drop_last());
        let before = t.play(steps.drop_last());
        match steps.last() {
            Step::Move { src, depth, dest } => {
                if before.legal(src, depth, dest) {
                    law_move_conserves_cards(before, src, depth, dest);
                }
            },
            Step::Draw => {
                law_draw_conserves_cards(before);
            },
        }
    }
}

/// Through any number of steps, no pile comes to hold a face-down card above
/// a face-up card, if none did at the start.
pub proof fn law_play_keeps_faces_in_order(t: Table, steps: Seq<Step>)
    requires
        t.faces_in_order(),
    ensures
        t.play(steps).faces_in_order(),
    decreases steps.len(),
{
    if steps.len() > 0 {
        law_play_keeps_faces_in_order(t, steps.drop_last());
        let before = t.play(steps.drop_last());
        match steps.last() {
            Step::Move { src, depth, dest } => {
                if before.legal(src, depth, dest) {
                    law_move_keeps_faces_in_order(before, src, depth, dest);
                }
            },
            Step::Draw => {
                law_draw_keeps_faces_in_order(before);
            },
        }
    }
}

/// Through any number of steps, every foundation holds the ranks 1, 2, 3 and
/// so on of its suit in this order, if it did at the start, and each of them
/// has grown without ever changing a card that it held.
pub proof fn law_play_keeps_foundations_ascending(t: Table, steps: Seq<Step>)
    requires
        t.foundations_ascending(),
    ensures
        t.play(steps).foundations_ascending(),
        forall|f: int|
            0 <= f < FOUNDATIONS ==> t.foundations[f].is_prefix_of(
                #[trigger] t.play(steps).foundations[f],
            ),
    decreases steps.len(),
{
    if steps.len() > 0 {
        law_play_keeps_foundations_ascending(t, steps.drop_last());
        let before = t.play(steps.drop_last());
        let after = t.play(steps);
        match steps.last() {
            Step::Move { src, depth, dest } => {
                if before.legal(src, depth, dest) {
                    law_move_keeps_foundations_ascending(before, src, depth, dest);
                }
            },
            Step::Draw => {
                law_draw_keeps_foundations(before);
            },
        }
        assert forall|f: int| 0 <= f < FOUNDATIONS implies t.foundations[f].is_prefix_of(
            #[trigger] after.foundations[f],
        ) by {
            assert(t.foundations[f].is_prefix_of(before.foundations[f]));
            assert(before.foundations[f].is_prefix_of(after.foundations[f])) by {
                if after.foundations[f] != before.foundations[f] {
                    assert(after.foundations[f].drop_last() == before.foundations[f]);
                }
            }
        }
    } else {
        assert forall|f: int| 0 <= f < FOUNDATIONS implies t.foundations[f].is_prefix_of(
            #[trigger] t.play(steps).foundations[f],
        ) by {}
    }
}

/// Through any number of steps, a well-formed table stays well formed.
pub proof fn law_play_keeps_well_formed(t: Table, steps: Seq<Step>)
    requires
        t.well_formed(),
    ensures
        t.play(steps).well_formed(),
    decreases steps.len(),
{
    if steps.len() > 0 {
        law_play_keeps_well_formed(t, steps.drop_last());
        let before = t.play(steps.drop_last());
        match steps.last() {
            Step::Move { src, depth, dest } => {
                if before.legal(src, depth, dest) {
                    law_move_keeps_well_formed(before, src, depth, dest);
                }
            },
            Step::Draw => {
                law_draw_keeps_well_formed(before);
            },
        }
    }
}

/// Where the foundations ascend from their aces, the game is won exactly
/// when each of the four holds thirteen cards with the king on top.
pub proof fn law_won_is_four_full_foundations(t: Table)
    requires
        t.foundations_ascending(),
    ensures
        t.won() <==> forall|f: int|
            0 <= f < FOUNDATIONS ==> (#[trigger] t.foundations[f]).len() == 13
                && t.foundations[f].last().number == KING,
{
    assert forall|f: int| 0 <= f < FOUNDATIONS && (#[trigger] t.foundations[f]).len() > 0
        implies t.foundations[f].last().number == t.foundations[f].len() by {
        assert(foundation_ascending(t.foundations[f], f));
    }
}

/// A deal of cards of the deck lays out a well-formed table.
pub proof fn law_deal_is_well_formed(deck: Seq<Card>)
    requires
        deck.len() >= DEALT,
        all_valid(deck),
    ensures
        dealt(deck).well_formed(),
{
    reveal_with_fuel(dealt_before, 8);
    let t = dealt(deck);
    assert forall|p: int| 0 <= p < PILES implies pile_built(#[trigger] t.piles[p]) by {
        lemma_dealt_before_bounds(p);
        assert forall|i: int| 0 <= i < t.piles[p].len() - 1 implies #[trigger] linked(
            t.piles[p],
            i,
        ) by {}
    }
}

/// Pile `p` of a deal takes its cards from among the 28 that are dealt.
proof fn lemma_dealt_before_bounds(p: int)
    requires
        0 <= p < PILES,
    ensures
        0 <= dealt_before(p),
        dealt_before(p) + p + 1 == dealt_before(p + 1),
        dealt_before(p + 1) <= DEALT,
{
    reveal_with_fuel(dealt_before, 8);
}

/// The cards of the first `m` piles of a deal.
spec fn dealt_cards(deck: Seq<Card>, m: int) -> Multiset<(char, u8)>
    decreases m,
{
    if m <= 0 {
        Multiset::empty()
    } else {
        dealt_cards(deck, m - 1).add(ids(dealt_pile(deck, m - 1)))
    }
}

/// The first `m` piles of a deal hold the cards that the deal took from the
/// end of the deck for them.
proof fn lemma_dealt_cards(deck: Seq<Card>, m: int)
    requires
        deck.len() >= DEALT,
        0 <= m <= PILES,
    ensures
        0 <= dealt_before(m) <= DEALT,
        dealt_cards(deck, m) == ids(deck.skip(deck.len() - dealt_before(m))),
    decreases m,
{
    if m == 0 {
        assert(deck.skip(deck.len() as int) =~= Seq::<Card>::empty());
        lemma_ids_empty();
    } else {
        lemma_dealt_cards(deck, m - 1);
        lemma_dealt_before_bounds(m - 1);
        let hi = deck.len() - dealt_before(m - 1);
        let lo = deck.len() - dealt_before(m);
        let slice = deck.subrange(lo, hi);
        lemma_ids_reversed(slice, dealt_pile(deck, m - 1));
        assert(deck.skip(lo) =~= slice + deck.skip(hi));
        lemma_ids_concat(slice, deck.skip(hi));
        assert(dealt_cards(deck, m) =~= ids(deck.skip(lo)));
    }
}

/// A deal puts every card of the deck on the table and no other.
pub proof fn law_deal_conserves_cards(deck: Seq<Card>)
    requires
        deck.len() >= DEALT,
    ensures
        dealt(deck).cards() == ids(deck),
{
    let t = dealt(deck);
    let cut = deck.len() - DEALT;
    lemma_dealt_cards(deck, PILES as int);
    reveal_with_fuel(dealt_before, 8);
    reveal_with_fuel(dealt_cards, 8);
    lemma_ids_same(t.stock, deck.take(cut));
    assert(deck =~= deck.take(cut) + deck.skip(cut));
    lemma_ids_concat(deck.take(cut), deck.skip(cut));
    lemma_ids_empty();
    assert(t.waste =~= Seq::<Card>::empty());
    assert forall|f: int| 0 <= f < FOUNDATIONS implies #[trigger] t.foundations[f]
        =~= Seq::<Card>::empty() by {}
    assert(t.foundations[0] == Seq::<Card>::empty());
    assert(t.foundations[1] == Seq::<Card>::empty());
    assert(t.foundations[2] == Seq::<Card>::empty());
    assert(t.foundations[3] == Seq::<Card>::empty());
    assert(t.cards() =~= ids(deck));
}

/// Two orders of the same cards hold the same cards by suit and rank.
pub proof fn lemma_ids_of_permutation(a: Seq<Card>, b: Seq<Card>)
    requires
        a.to_multiset() == b.to_multiset(),
    ensures
        a.len() == b.len(),
        ids(a) == ids(b),
    decreases a.len(),
{
    to_multiset_len(a);
    to_multiset_len(b);
    if a.len() == 0 {
        assert(a =~= b);
    } else {
        let x = a.last();
        let front = a.drop_last();
        assert(a =~= front.push(x));
        to_multiset_build(front, x);
        to_multiset_contains(a, x);
        to_multiset_contains(b, x);
        assert(a.contains(x));
        let j = choose|j: int| 0 <= j < b.len() && b[j] == x;
        let others = b.remove(j);
        to_multiset_remove(b, j);
        assert(front.to_multiset() =~= others.to_multiset());
        lemma_ids_of_permutation(front, others);
        assert(a =~= front + seq![x]);
        lemma_ids_concat(front, seq![x]);
        assert(b =~= b.take(j) + seq![x] + b.skip(j + 1));
        assert(others =~= b.take(j) + b.skip(j + 1));
        lemma_ids_concat(b.take(j) + seq![x], b.skip(j + 1));
        lemma_ids_concat(b.take(j), seq![x]);
        lemma_ids_concat(b.take(j), b.skip(j + 1));
        assert(ids(b) =~= ids(others).add(ids(seq![x])));
    }
}

/// Every order of cards of the deck consists of cards of the deck.
pub proof fn lemma_permutation_all_valid(a: Seq<Card>, b: Seq<Card>)
    requires
        a.to_multiset() == b.to_multiset(),
        all_valid(a),
    ensures
        all_valid(b),
{
    assert forall|k: int| 0 <= k < b.len() implies (#[trigger] b[k]).valid() by {
        to_multiset_contains(a, b[k]);
        to_multiset_contains(b, b[k]);
        assert(b.contains(b[k]));
        let j = choose|j: int| 0 <= j < a.len() && a[j] == b[k];
        assert(a[j].valid());
    }
}

/// A fresh deck consists of cards of the deck.
pub proof fn lemma_fresh_deck_valid()
    ensures
        fresh_deck().len() == DECK,
        all_valid(fresh_deck()),
{
}

/// The deal of any order of the fresh deck is well formed and puts exactly
/// the 52 cards of the deck on the table.
pub proof fn law_deal_of_shuffled_deck(deck: Seq<Card>)
    requires
        deck.to_multiset() == fresh_deck().to_multiset(),
    ensures
        dealt(deck).well_formed(),
        dealt(deck).cards() == ids(fresh_deck()),
{
    lemma_fresh_deck_valid();
    lemma_ids_of_permutation(fresh_deck(), deck);
    lemma_permutation_all_valid(fresh_deck(), deck);
    law_deal_is_well_formed(deck);
    law_deal_conserves_cards(deck);
}

/// A fresh deck holds every card of the deck exactly once and nothing else:
/// 52 cards, no two of them alike.
pub proof fn law_fresh_deck_holds_each_card_once()
    ensures
        ids(fresh_deck()).len() == DECK,
        forall|suit: char, number: u8|
            #![trigger ids(fresh_deck()).count((suit, number))]
            ids(fresh_deck()).count((suit, number)) == if (Card {
                suit,
                number,
                up: false,
            }).valid() {
                1nat
            } else {
                0nat
            },
{
    let names = fresh_deck().map_values(|c: Card| c.id());
    assert(names.no_duplicates());
    names.lemma_multiset_has_no_duplicates();
    to_multiset_len(names);
    assert forall|suit: char, number: u8|
        #![trigger ids(fresh_deck()).count((suit, number))]
        ids(fresh_deck()).count((suit, number)) == if (Card { suit, number, up: false }).valid() {
            1nat
        } else {
            0nat
        } by {
        to_multiset_contains(names, (suit, number));
        if (Card { suit, number, up: false }).valid() {
            let s: int = if suit == 'H' {
                0
            } else if suit == 'D' {
                1
            } else if suit == 'C' {
                2
            } else {
                3
            };
            let k = 13 * s + number - 1;
            assert(names[k] == (suit, number));
        } else if names.contains((suit, number)) {
            let k = choose|k: int| 0 <= k < names.len() && names[k] == (suit, number);
            assert(fresh_deck()[k].valid());
        }
    }
}

} // verus!
