//! The state of a game and the operations that change it.

use vstd::prelude::*;
use std::time::Instant;
use vstd::multiset::lemma_multiset_empty_len;
use vstd::seq_lib::{to_multiset_build, to_multiset_contains, to_multiset_len, to_multiset_remove};
use crate::card::{
    Card, KING, card, foundation_suit, number_match_asc, number_match_desc, suit_alternates,
    suit_match, turn_down, turn_up,
};
use crate::clock::now;
use crate::laws::{
    law_deal_conserves_cards, law_deal_is_well_formed, law_deal_of_shuffled_deck,
    law_draw_conserves_cards, law_draw_keeps_well_formed, law_move_conserves_cards,
    law_move_grows_one_foundation, law_move_keeps_faces_in_order,
    law_move_keeps_foundations_ascending, law_move_keeps_well_formed, law_move_shows_source_top,
};
use crate::random::random_number;
use crate::table::{
    DEALT, FOUNDATIONS, FOUNDATION_ZONE, MoveError, PILES, Table, WASTE_ZONE, all_down, all_up,
    all_valid, arranged, dealt, dealt_before, dealt_pile, deck_suit, foundation_built,
    fresh_deck, ids, is_foundation, linked, pile_built, run_available, show_top, tableau_error,
};

verus! {

/// One game of solitaire together with the running tally of a session.
#[derive(Debug)]
pub struct Game {
    /// The seven tableau piles, each from its bottom card to its top card.
    pub piles: [Vec<Card>; 7],
    /// The stock. Cards are drawn from its end.
    pub side_deck: Vec<Card>,
    /// The waste. Its last card is the one in play.
    pub hand: Vec<Card>,
    /// The foundations of hearts, spades, diamonds and clubs.
    pub foundations: [Vec<Card>; 4],
    /// Points of the session.
    pub score: isize,
    /// Games dealt in the session.
    pub games: usize,
    /// Games won in the session.
    pub wins: usize,
    /// Moves carried out in the session.
    pub moves: usize,
    /// When the session began.
    pub started: Instant,
}

impl View for Game {
    type V = Table;

    open spec fn view(&self) -> Table {
        Table {
            piles: Seq::new(PILES as nat, |i: int| self.piles@[i]@),
            stock: self.side_deck@,
            waste: self.hand@,
            foundations: Seq::new(FOUNDATIONS as nat, |f: int| self.foundations@[f]@),
        }
    }
}

impl Game {
    /// The two games agree in everything but the cards: score, counters and
    /// start of the session.
    pub open spec fn same_tally(self, other: Game) -> bool {
        &&& self.score == other.score
        &&& self.games == other.games
        &&& self.wins == other.wins
        &&& self.moves == other.moves
        &&& self.started == other.started
    }
}

/// A game with no card on the table and an empty tally, begun now.
pub fn game_init() -> (game: Game)
    ensures
        game@.shaped(),
        forall|i: int| 0 <= i < PILES ==> (#[trigger] game@.piles[i]).len() == 0,
        forall|f: int| 0 <= f < FOUNDATIONS ==> (#[trigger] game@.foundations[f]).len() == 0,
        game@.stock.len() == 0,
        game@.waste.len() == 0,
        game.score == 0,
        game.games == 0,
        game.wins == 0,
        game.moves == 0,
{
    Game {
        piles: [
            Vec::new(),
            Vec::new(),
            Vec::new(),
            Vec::new(),
            Vec::new(),
            Vec::new(),
            Vec::new(),
        ],
        side_deck: Vec::new(),
        hand: Vec::new(),
        foundations: [Vec::new(), Vec::new(), Vec::new(), Vec::new()],
        score: 0,
        games: 0,
        wins: 0,
        moves: 0,
        started: now(),
    }
}

/// Whether the top `depth` cards of `pile` can be lifted.
fn run_is_available(pile: &Vec<Card>, depth: usize) -> (r: bool)
    ensures
        r == run_available(pile@, depth as int),
{
    let len: usize = pile.len();
    if depth == 0 || depth > len {
        return false;
    }
    let mut k: usize = len - depth;
    while k < len
        invariant
            len == pile@.len(),
            len - depth <= k <= len,
            forall|j: int| len - depth <= j < k ==> (#[trigger] pile@[j]).up,
        decreases len - k,
    {
        if !pile[k].up {
            return false;
        }
        k += 1;
    }
    true
}

/// Why `card` may not land on the pile `dest`, if it may not.
fn tableau_check(dest: &Vec<Card>, card: &Card) -> (e: Option<MoveError>)
    ensures
        e == tableau_error(dest@, *card),
{
    let len: usize = dest.len();
    if card.number == KING {
        if len == 0 {
            None
        } else {
            Some(MoveError::KingOnOccupied)
        }
    } else if len == 0 {
        Some(MoveError::TableauRuleViolation)
    } else if !suit_alternates(card, &dest[len - 1]) {
        Some(MoveError::TableauRuleViolation)
    } else if !number_match_desc(Some(&dest[len - 1]), card) {
        Some(MoveError::TableauRuleViolation)
    } else {
        None
    }
}

/// Turns the top card of `pile` face up, if there is one.
fn show_top_card(pile: &mut Vec<Card>)
    ensures
        final(pile)@ == show_top(old(pile)@),
{
    let len: usize = pile.len();
    if len > 0 {
        pile[len - 1].up = true;
    }
}

/// Moves the top card of the waste to the foundation with zone number
/// `dest_pile`, if the rules allow it.
///
/// Fails with `InvalidZone` where `dest_pile` is no foundation, with
/// `EmptyWaste` where the waste holds no card, and with
/// `FoundationRuleViolation` where the card is not the next of that suit. A
/// refused move changes nothing.
pub fn move_hand_found(game: &mut Game, dest_pile: usize) -> (r: Result<(), MoveError>)
    ensures
        is_foundation(dest_pile as int) ==> r == outcome(
            old(game)@.move_error(WASTE_ZONE as int, 1, dest_pile as int),
        ),
        !is_foundation(dest_pile as int) ==> r == Err::<(), MoveError>(MoveError::InvalidZone),
        r is Ok ==> final(game)@ == old(game)@.after_move(WASTE_ZONE as int, 1, dest_pile as int)
            && final(game).same_tally(*old(game)),
        r is Err ==> *final(game) == *old(game),
{
    if dest_pile < FOUNDATION_ZONE || dest_pile >= FOUNDATION_ZONE + FOUNDATIONS {
        return Err(MoveError::InvalidZone);
    }
    let len: usize = game.hand.len();
    if len == 0 {
        return Err(MoveError::EmptyWaste);
    }
    let card: Card = game.hand[len - 1];
    let f: usize = dest_pile - FOUNDATION_ZONE;
    if !suit_match(dest_pile, &card) {
        return Err(MoveError::FoundationRuleViolation);
    }
    if !number_match_asc(game.foundations[f].len(), &card) {
        return Err(MoveError::FoundationRuleViolation);
    }
    game.hand.pop();
    game.foundations[f].push(card);
    proof {
        assert(game@ =~~= old(game)@.after_move(WASTE_ZONE as int, 1, dest_pile as int));
    }
    Ok(())
}

/// Moves the top card of the waste, face up, onto the tableau pile
/// `dest_pile`, if the rules allow it.
///
/// Fails with `InvalidZone` where `dest_pile` is no pile, with `EmptyWaste`
/// where the waste holds no card, with `KingOnOccupied` for a king and a pile
/// that is not empty, and with `TableauRuleViolation` for another card that
/// does not continue the pile. A refused move changes nothing.
pub fn move_hand_pile(game: &mut Game, dest_pile: usize) -> (r: Result<(), MoveError>)
    ensures
        dest_pile < PILES ==> r == outcome(
            old(game)@.move_error(WASTE_ZONE as int, 1, dest_pile as int),
        ),
        dest_pile >= PILES ==> r == Err::<(), MoveError>(MoveError::InvalidZone),
        r is Ok ==> final(game)@ == old(game)@.after_move(WASTE_ZONE as int, 1, dest_pile as int)
            && final(game).same_tally(*old(game)),
        r is Err ==> *final(game) == *old(game),
{
    if dest_pile >= PILES {
        return Err(MoveError::InvalidZone);
    }
    let len: usize = game.hand.len();
    if len == 0 {
        return Err(MoveError::EmptyWaste);
    }
    let card: Card = game.hand[len - 1];
    match tableau_check(&game.piles[dest_pile], &card) {
        Some(e) => {
            return Err(e);
        },
        None => {},
    }
    game.hand.pop();
    game.piles[dest_pile].push(turn_up(&card));
    proof {
        assert(game@ =~~= old(game)@.after_move(WASTE_ZONE as int, 1, dest_pile as int));
    }
    Ok(())
}

/// Moves the top card of the tableau pile `src_pile` to the foundation with
/// zone number `dest_pile`, if the rules allow it, and turns the card that
/// it uncovers face up.
///
/// Fails with `InvalidZone` where `src_pile` is no pile or `dest_pile` no
/// foundation, with `InsufficientCards` where the pile has not `src_depth`
/// face-up cards on top or `src_depth` is 0, with `InvalidFoundationDepth`
/// where `src_depth` is not 1, and with `FoundationRuleViolation` where the
/// card is not the next of that suit. A refused move changes nothing.
pub fn move_pile_found(game: &mut Game, src_pile: usize, src_depth: usize, dest_pile: usize) -> (r:
    Result<(), MoveError>)
    ensures
        src_pile < PILES && is_foundation(dest_pile as int) ==> r == outcome(
            old(game)@.move_error(src_pile as int, src_depth as int, dest_pile as int),
        ),
        !(src_pile < PILES && is_foundation(dest_pile as int)) ==> r == Err::<(), MoveError>(
            MoveError::InvalidZone,
        ),
        r is Ok ==> final(game)@ == old(game)@.after_move(
            src_pile as int,
            src_depth as int,
            dest_pile as int,
        ) && final(game).same_tally(*old(game)),
        r is Err ==> *final(game) == *old(game),
{
    if src_pile >= PILES || dest_pile < FOUNDATION_ZONE || dest_pile >= FOUNDATION_ZONE
        + FOUNDATIONS {
        return Err(MoveError::InvalidZone);
    }
    if !run_is_available(&game.piles[src_pile], src_depth) {
        return Err(MoveError::InsufficientCards);
    }
    if src_depth != 1 {
        return Err(MoveError::InvalidFoundationDepth);
    }
    let len: usize = game.piles[src_pile].len();
    let card: Card = game.piles[src_pile][len - 1];
    let f: usize = dest_pile - FOUNDATION_ZONE;
    if !suit_match(dest_pile, &card) {
        return Err(MoveError::FoundationRuleViolation);
    }
    if !number_match_asc(game.foundations[f].len(), &card) {
        return Err(MoveError::FoundationRuleViolation);
    }
    game.piles[src_pile].pop();
    game.foundations[f].push(card);
    show_top_card(&mut game.piles[src_pile]);
    proof {
        assert(game@ =~~= old(game)@.after_move(
            src_pile as int,
            src_depth as int,
            dest_pile as int,
        ));
    }
    Ok(())
}

/// Moves the top `src_depth` cards of the tableau pile `src_pile`, in their
/// order, onto the pile `dest_pile`, if the rules allow it, and turns the
/// card that they uncover face up.
///
/// Fails with `InvalidZone` where either number is no pile, with
/// `InsufficientCards` where the source has not `src_depth` face-up cards on
/// top or `src_depth` is 0, with `KingOnOccupied` where the lowest card moved
/// is a king and the destination is not empty, and with
/// `TableauRuleViolation` where another card does not continue the
/// destination. A refused move changes nothing.
pub fn move_pile_pile(game: &mut Game, src_pile: usize, src_depth: usize, dest_pile: usize) -> (r:
    Result<(), MoveError>)
    ensures
        src_pile < PILES && dest_pile < PILES ==> r == outcome(
            old(game)@.move_error(src_pile as int, src_depth as int, dest_pile as int),
        ),
        !(src_pile < PILES && dest_pile < PILES) ==> r == Err::<(), MoveError>(
            MoveError::InvalidZone,
        ),
        r is Ok ==> final(game)@ == old(game)@.after_move(
            src_pile as int,
            src_depth as int,
            dest_pile as int,
        ) && final(game).same_tally(*old(game)),
        r is Err ==> *final(game) == *old(game),
{
    if src_pile >= PILES || dest_pile >= PILES {
        return Err(MoveError::InvalidZone);
    }
    if !run_is_available(&game.piles[src_pile], src_depth) {
        return Err(MoveError::InsufficientCards);
    }
    let split_index: usize = game.piles[src_pile].len() - src_depth;
    let card: Card = game.piles[src_pile][split_index];
    match tableau_check(&game.piles[dest_pile], &card) {
        Some(e) => {
            return Err(e);
        },
        None => {},
    }
    let mut cards: Vec<Card> = game.piles[src_pile].split_off(split_index);
    game.piles[dest_pile].append(&mut cards);
    show_top_card(&mut game.piles[src_pile]);
    proof {
        assert(game@ =~~= old(game)@.after_move(
            src_pile as int,
            src_depth as int,
            dest_pile as int,
        ));
    }
    Ok(())
}

/// Why the rules refuse the move of `src_depth` cards from zone `src_pile`
/// to zone `dest_pile`, or `None` where they allow it. The game is only
/// looked at.
pub fn check_move(game: &Game, src_pile: usize, src_depth: usize, dest_pile: usize) -> (fault:
    Option<MoveError>)
    ensures
        fault == game@.move_error(src_pile as int, src_depth as int, dest_pile as int),
{
    if dest_pile >= FOUNDATION_ZONE + FOUNDATIONS || (src_pile >= PILES && src_pile != WASTE_ZONE) {
        return Some(MoveError::InvalidZone);
    }
    let card: Card = if src_pile == WASTE_ZONE {
        let len: usize = game.hand.len();
        if len == 0 {
            return Some(MoveError::EmptyWaste);
        }
        game.hand[len - 1]
    } else {
        if !run_is_available(&game.piles[src_pile], src_depth) {
            return Some(MoveError::InsufficientCards);
        }
        if dest_pile >= FOUNDATION_ZONE && src_depth != 1 {
            return Some(MoveError::InvalidFoundationDepth);
        }
        game.piles[src_pile][game.piles[src_pile].len() - src_depth]
    };
    if dest_pile >= FOUNDATION_ZONE {
        if suit_match(dest_pile, &card) && number_match_asc(
            game.foundations[dest_pile - FOUNDATION_ZONE].len(),
            &card,
        ) {
            None
        } else {
            Some(MoveError::FoundationRuleViolation)
        }
    } else {
        tableau_check(&game.piles[dest_pile], &card)
    }
}

/// Carries out the move of `src_depth` cards from zone `src_pile` to zone
/// `dest_pile`, if the rules allow it, and says why not otherwise.
///
/// Zones 0 to 6 are the tableau piles, 7 to 10 the foundations of hearts,
/// spades, diamonds and clubs, and 11 is the waste, which can only be a
/// source and always gives its top card alone. The move is judged before any
/// card is touched: a refused move changes nothing, and no move changes the
/// tally.
pub fn attempt_move(game: &mut Game, src_pile: usize, src_depth: usize, dest_pile: usize) -> (r:
    Result<(), MoveError>)
    ensures
        r == outcome(old(game)@.move_error(src_pile as int, src_depth as int, dest_pile as int)),
        r is Ok ==> final(game)@ == old(game)@.after_move(
            src_pile as int,
            src_depth as int,
            dest_pile as int,
        ) && final(game).same_tally(*old(game)),
        r is Err ==> *final(game) == *old(game),
        final(game)@.cards() == old(game)@.cards(),
        old(game)@.faces_in_order() ==> final(game)@.faces_in_order(),
        old(game)@.foundations_ascending() ==> final(game)@.foundations_ascending(),
        old(game)@.well_formed() ==> final(game)@.well_formed(),
        forall|f: int|
            0 <= f < FOUNDATIONS ==> {
                let before = old(game)@.foundations[f];
                let after = #[trigger] final(game)@.foundations[f];
                if r is Ok && dest_pile == FOUNDATION_ZONE + f {
                    &&& after.drop_last() == before
                    &&& after.len() == before.len() + 1
                    &&& after.last().number == after.len()
                    &&& after.last().suit == foundation_suit(f)
                } else {
                    after == before
                }
            },
        r is Ok && src_pile < PILES ==> {
            let left = final(game)@.piles[src_pile as int];
            left.len() > 0 ==> left.last().up
        },
{
    let r: Result<(), MoveError> = if dest_pile >= FOUNDATION_ZONE + FOUNDATIONS {
        Err(MoveError::InvalidZone)
    } else if src_pile == WASTE_ZONE {
        if dest_pile >= FOUNDATION_ZONE {
            move_hand_found(game, dest_pile)
        } else {
            move_hand_pile(game, dest_pile)
        }
    } else if src_pile >= PILES {
        Err(MoveError::InvalidZone)
    } else if dest_pile >= FOUNDATION_ZONE {
        move_pile_found(game, src_pile, src_depth, dest_pile)
    } else {
        move_pile_pile(game, src_pile, src_depth, dest_pile)
    };
    proof {
        let before = old(game)@;
        let (src, depth, dest) = (src_pile as int, src_depth as int, dest_pile as int);
        if r is Ok {
            law_move_conserves_cards(before, src, depth, dest);
            law_move_grows_one_foundation(before, src, depth, dest);
            if src_pile < PILES {
                law_move_shows_source_top(before, src, depth, dest);
            }
            if before.faces_in_order() {
                law_move_keeps_faces_in_order(before, src, depth, dest);
            }
            if before.foundations_ascending() {
                law_move_keeps_foundations_ascending(before, src, depth, dest);
            }
            if before.well_formed() {
                law_move_keeps_well_formed(before, src, depth, dest);
            }
        }
    }
    r
}

/// Points that a card on a foundation is worth.
pub const FOUNDATION_POINTS: isize = 5;

/// The tally has room to count a move to the zone `dest`: one more move,
/// and five more points where the zone is a foundation.
pub open spec fn can_count(game: Game, dest: int) -> bool {
    &&& game.moves < usize::MAX
    &&& is_foundation(dest) ==> game.score + FOUNDATION_POINTS <= isize::MAX
}

/// The tally has room to count one more move, wherever it goes.
pub open spec fn can_count_move(game: Game) -> bool {
    game.moves < usize::MAX && game.score + FOUNDATION_POINTS <= isize::MAX
}

/// Carries out a move as `attempt_move` does, counts it, and scores five
/// points where it put a card on a foundation. Returns whether the move was
/// carried out; a refused move changes nothing.
///
/// Only a move that the rules allow is counted, so only such a move asks for
/// room in the tally.
pub fn make_move(game: &mut Game, src_pile: usize, src_depth: usize, dest_pile: usize) -> (moved:
    bool)
    requires
        old(game)@.legal(src_pile as int, src_depth as int, dest_pile as int) ==> can_count(
            *old(game),
            dest_pile as int,
        ),
    ensures
        moved == old(game)@.legal(src_pile as int, src_depth as int, dest_pile as int),
        moved ==> final(game)@ == old(game)@.after_move(
            src_pile as int,
            src_depth as int,
            dest_pile as int,
        ),
        moved ==> final(game).moves == old(game).moves + 1,
        moved ==> final(game).score == old(game).score + if is_foundation(dest_pile as int) {
            FOUNDATION_POINTS as int
        } else {
            0
        },
        moved ==> final(game).games == old(game).games && final(game).wins == old(game).wins
            && final(game).started == old(game).started,
        !moved ==> *final(game) == *old(game),
        final(game)@.cards() == old(game)@.cards(),
        old(game)@.faces_in_order() ==> final(game)@.faces_in_order(),
        old(game)@.foundations_ascending() ==> final(game)@.foundations_ascending(),
        old(game)@.well_formed() ==> final(game)@.well_formed(),
        forall|f: int|
            0 <= f < FOUNDATIONS ==> {
                let before = old(game)@.foundations[f];
                let after = #[trigger] final(game)@.foundations[f];
                if moved && dest_pile == FOUNDATION_ZONE + f {
                    &&& after.drop_last() == before
                    &&& after.len() == before.len() + 1
                    &&& after.last().number == after.len()
                    &&& after.last().suit == foundation_suit(f)
                } else {
                    after == before
                }
            },
        moved && src_pile < PILES ==> {
            let left = final(game)@.piles[src_pile as int];
            left.len() > 0 ==> left.last().up
        },
{
    match attempt_move(game, src_pile, src_depth, dest_pile) {
        Ok(()) => {
            game.moves += 1;
            if dest_pile >= FOUNDATION_ZONE {
                game.score += FOUNDATION_POINTS;
            }
            true
        },
        Err(_) => false,
    }
}

/// Draws from the stock and returns whether the stock was found empty.
///
/// With cards in the stock, up to three go from its top to the waste, face
/// up, and the result is `false`. With an empty stock the waste is turned
/// over into the stock, face down and in reverse, and the result is `true`.
/// Nothing else changes.
pub fn draw(game: &mut Game) -> (cycled: bool)
    ensures
        cycled == old(game)@.draw_cycles(),
        final(game)@ == old(game)@.after_draw(),
        final(game).same_tally(*old(game)),
        final(game)@.cards() == old(game)@.cards(),
        old(game)@.well_formed() ==> final(game)@.well_formed(),
{
    proof {
        law_draw_conserves_cards(old(game)@);
        if old(game)@.well_formed() {
            law_draw_keeps_well_formed(old(game)@);
        }
    }
    if game.side_deck.len() == 0 {
        while game.hand.len() > 0
            invariant
                game.hand@ == old(game).hand@.take(game.hand@.len() as int),
                game.side_deck@.len() + game.hand@.len() == old(game).hand@.len(),
                game.side_deck@ == Seq::new(
                    game.side_deck@.len(),
                    |k: int| old(game).hand@[old(game).hand@.len() - 1 - k].hidden(),
                ),
                game.piles == old(game).piles,
                game.foundations == old(game).foundations,
                game.same_tally(*old(game)),
            decreases game.hand@.len(),
        {
            let len: usize = game.hand.len();
            let card: Card = game.hand[len - 1];
            game.hand.pop();
            game.side_deck.push(turn_down(&card));
        }
        proof {
            assert(game@ =~~= old(game)@.after_draw());
        }
        true
    } else {
        let ghost stock = old(game).side_deck@;
        let mut moved: usize = 0;
        while moved < 3 && game.side_deck.len() > 0
            invariant
                moved <= 3,
                moved <= stock.len(),
                stock == old(game).side_deck@,
                game.side_deck@ == stock.take(stock.len() - moved),
                game.hand@ == old(game).hand@ + Seq::new(
                    moved as nat,
                    |k: int| stock[stock.len() - 1 - k].shown(),
                ),
                game.piles == old(game).piles,
                game.foundations == old(game).foundations,
                game.same_tally(*old(game)),
            decreases 3 - moved,
        {
            let len: usize = game.side_deck.len();
            let card: Card = game.side_deck[len - 1];
            game.side_deck.pop();
            game.hand.push(turn_up(&card));
            moved += 1;
        }
        proof {
            assert(moved == old(game)@.draw_count());
            assert(game@ =~~= old(game)@.after_draw());
        }
        false
    }
}

/// Whether the game is won: every foundation has a king on top.
pub fn is_won(game: &Game) -> (won: bool)
    ensures
        won == game@.won(),
{
    let mut f: usize = 0;
    while f < FOUNDATIONS
        invariant
            f <= FOUNDATIONS,
            forall|g: int|
                0 <= g < f ==> (#[trigger] game@.foundations[g]).len() > 0
                    && game@.foundations[g].last().number == KING,
        decreases FOUNDATIONS - f,
    {
        let len: usize = game.foundations[f].len();
        if len == 0 || game.foundations[f][len - 1].number != KING {
            assert(!(game@.foundations[f as int].len() > 0 && game@.foundations[f as int].last().number
                == KING));
            return false;
        }
        f += 1;
    }
    true
}

/// Whether the game is won: every foundation has a king on top. The game is
/// only looked at, however often the question is asked; to count a win is
/// left to the one who asks.
pub fn game_won(game: &mut Game) -> (won: bool)
    ensures
        won == old(game)@.won(),
        *final(game) == *old(game),
{
    is_won(game)
}

/// What a move returns: success where the rules find no fault, else the fault.
pub open spec fn outcome(fault: Option<MoveError>) -> Result<(), MoveError> {
    match fault {
        None => Ok(()),
        Some(e) => Err(e),
    }
}

/// A fresh deck of 52 face-down cards: hearts, diamonds, clubs and spades,
/// each suit from the ace to the king.
pub fn deck() -> (d: Vec<Card>)
    ensures
        d@ == fresh_deck(),
{
    let suits: [char; 4] = ['H', 'D', 'C', 'S'];
    let mut d: Vec<Card> = Vec::new();
    let mut s: usize = 0;
    while s < 4
        invariant
            s <= 4,
            suits@ == seq!['H', 'D', 'C', 'S'],
            d@ == Seq::new(
                (13 * s) as nat,
                |k: int| Card { suit: deck_suit(k / 13), number: (k % 13 + 1) as u8, up: false },
            ),
        decreases 4 - s,
    {
        let mut i: u8 = 1;
        while i < 14
            invariant
                s < 4,
                1 <= i <= 14,
                suits@ == seq!['H', 'D', 'C', 'S'],
                d@ == Seq::new(
                    (13 * s + i - 1) as nat,
                    |k: int|
                        Card { suit: deck_suit(k / 13), number: (k % 13 + 1) as u8, up: false },
                ),
            decreases 14 - i,
        {
            d.push(card(&suits[s], i));
            i += 1;
        }
        s += 1;
    }
    d
}

/// Deals `deck` into `game`, which keeps its tally.
///
/// The cards come from the end of the deck: pile 0 gets one card, pile 1 two,
/// up to pile 6 with seven, each pile face down but for its last card. What
/// is left of the deck becomes the stock, face down; waste and foundations
/// are emptied. The 28 cards dealt to the piles leave `deck`.
pub fn deal(game: &mut Game, deck: &mut Vec<Card>)
    requires
        old(deck)@.len() >= DEALT,
    ensures
        final(game)@ == dealt(old(deck)@),
        final(deck)@ == old(deck)@.take(old(deck)@.len() - DEALT),
        final(game).same_tally(*old(game)),
        final(game)@.cards() == ids(old(deck)@),
        all_valid(old(deck)@) ==> final(game)@.well_formed(),
{
    proof {
        law_deal_conserves_cards(old(deck)@);
        if all_valid(old(deck)@) {
            law_deal_is_well_formed(old(deck)@);
        }
    }
    game.piles = [
        Vec::new(),
        Vec::new(),
        Vec::new(),
        Vec::new(),
        Vec::new(),
        Vec::new(),
        Vec::new(),
    ];
    game.foundations = [Vec::new(), Vec::new(), Vec::new(), Vec::new()];
    game.hand = Vec::new();
    game.side_deck = Vec::new();
    let ghost full = old(deck)@;
    proof {
        reveal_with_fuel(dealt_before, 8);
    }
    let mut i: usize = 0;
    while i < PILES
        invariant
            i <= PILES,
            full == old(deck)@,
            full.len() >= DEALT,
            deck@ == full.take(full.len() - dealt_before(i as int)),
            0 <= dealt_before(i as int) <= DEALT,
            dealt_before(PILES as int) == DEALT,
            forall|p: int| 0 <= p < i ==> (#[trigger] game.piles@[p])@ == dealt_pile(full, p),
            forall|p: int| i <= p < PILES ==> (#[trigger] game.piles@[p])@.len() == 0,
            forall|f: int| 0 <= f < FOUNDATIONS ==> (#[trigger] game.foundations@[f])@.len() == 0,
            game.hand@.len() == 0,
            game.side_deck@.len() == 0,
            game.same_tally(*old(game)),
        decreases PILES - i,
    {
        proof {
            lemma_dealt_before_grows(i as int, PILES as int);
        }
        let mut j: usize = 0;
        while j <= i
            invariant
                i < PILES,
                j <= i + 1,
                full.len() >= DEALT,
                0 <= dealt_before(i as int),
                dealt_before(i as int) + i + 1 <= DEALT,
                deck@ == full.take(full.len() - dealt_before(i as int) - j),
                game.piles@[i as int]@ == dealt_pile(full, i as int).take(j as int),
                forall|p: int| 0 <= p < i ==> (#[trigger] game.piles@[p])@ == dealt_pile(full, p),
                forall|p: int| i < p < PILES ==> (#[trigger] game.piles@[p])@.len() == 0,
                forall|f: int|
                    0 <= f < FOUNDATIONS ==> (#[trigger] game.foundations@[f])@.len() == 0,
                game.hand@.len() == 0,
                game.side_deck@.len() == 0,
                game.same_tally(*old(game)),
            decreases i + 1 - j,
        {
            let len: usize = deck.len();
            let top: Card = deck[len - 1];
            deck.pop();
            if j == i {
                game.piles[i].push(turn_up(&top));
            } else {
                game.piles[i].push(turn_down(&top));
            }
            j += 1;
        }
        i += 1;
    }
    let mut k: usize = 0;
    while k < deck.len()
        invariant
            k <= deck@.len(),
            full.len() >= DEALT,
            deck@ == full.take(full.len() - DEALT),
            game.side_deck@ == Seq::new(k as nat, |n: int| full[n].hidden()),
            forall|p: int| 0 <= p < PILES ==> (#[trigger] game.piles@[p])@ == dealt_pile(full, p),
            forall|f: int| 0 <= f < FOUNDATIONS ==> (#[trigger] game.foundations@[f])@.len() == 0,
            game.hand@.len() == 0,
            game.same_tally(*old(game)),
        decreases deck@.len() - k,
    {
        game.side_deck.push(turn_down(&deck[k]));
        k += 1;
    }
    proof {
        assert(game@ =~~= dealt(full));
    }
}

/// The count of cards dealt before a pile grows with the pile's number.
proof fn lemma_dealt_before_grows(i: int, j: int)
    requires
        0 <= i < j,
    ensures
        dealt_before(i) + i + 1 <= dealt_before(j),
    decreases j,
{
    if i + 1 < j {
        lemma_dealt_before_grows(i, j - 1);
    }
}

/// Takes the card at place `pick % n` out of the `n` cards of `rest` and
/// returns it; the cards behind it move up.
pub fn take_card(rest: &mut Vec<Card>, pick: usize) -> (c: Card)
    requires
        old(rest)@.len() > 0,
    ensures
        c == old(rest)@[pick as int % old(rest)@.len() as int],
        final(rest)@ == old(rest)@.remove(pick as int % old(rest)@.len() as int),
{
    let place: usize = pick % rest.len();
    rest.remove(place)
}

/// The cards of `deck` in the order that `picks` give them: each card is
/// taken from those not yet taken, at the place that the next number picks.
/// The result is a rearrangement of `deck` whatever the numbers are.
pub fn arrange(deck: &[Card], picks: &[usize]) -> (ordered: Vec<Card>)
    requires
        picks@.len() >= deck@.len(),
    ensures
        ordered@ == arranged(deck@, picks@),
        ordered@.to_multiset() == deck@.to_multiset(),
        ordered@.len() == deck@.len(),
{
    let mut rest: Vec<Card> = Vec::new();
    let mut k: usize = 0;
    while k < deck.len()
        invariant
            k <= deck@.len(),
            rest@ == deck@.take(k as int),
        decreases deck@.len() - k,
    {
        rest.push(deck[k]);
        k += 1;
    }
    assert(rest@ == deck@);
    let mut ordered: Vec<Card> = Vec::new();
    proof {
        assert(ordered@.to_multiset().add(rest@.to_multiset()) =~= deck@.to_multiset()) by {
            to_multiset_len(ordered@);
            lemma_multiset_empty_len(ordered@.to_multiset());
        }
        assert(picks@.skip(0) =~= picks@);
    }
    let mut n: usize = 0;
    while rest.len() > 0
        invariant
            n + rest@.len() == deck@.len(),
            picks@.len() >= deck@.len(),
            ordered@.len() == n,
            ordered@ + arranged(rest@, picks@.skip(n as int)) == arranged(deck@, picks@),
            ordered@.to_multiset().add(rest@.to_multiset()) == deck@.to_multiset(),
        decreases rest@.len(),
    {
        let ghost before = rest@;
        let ghost taken = ordered@;
        let pick: usize = picks[n];
        let c: Card = take_card(&mut rest, pick);
        ordered.push(c);
        proof {
            let place = pick as int % before.len() as int;
            to_multiset_remove(before, place);
            to_multiset_build(taken, c);
            to_multiset_contains(before, c);
            assert(before.contains(c));
            assert(ordered@.to_multiset().add(rest@.to_multiset()) =~= taken.to_multiset().add(
                before.to_multiset(),
            ));
            assert(picks@.skip(n as int).drop_first() =~= picks@.skip(n + 1));
            assert(picks@.skip(n as int)[0] == pick);
            assert(ordered@ + arranged(rest@, picks@.skip(n + 1)) =~= taken + arranged(
                before,
                picks@.skip(n as int),
            ));
        }
        n += 1;
    }
    proof {
        to_multiset_len(rest@);
        lemma_multiset_empty_len(rest@.to_multiset());
        assert(ordered@ + arranged(rest@, picks@.skip(n as int)) =~= ordered@);
    }
    ordered
}

/// The cards of `deck` in a random order: the order in which as many random
/// numbers as there are cards arrange them.
pub fn shuffle(deck: &[Card]) -> (shuffled: Vec<Card>)
    ensures
        exists|picks: Seq<usize>|
            picks.len() == deck@.len() && shuffled@ == #[trigger] arranged(deck@, picks),
        shuffled@.to_multiset() == deck@.to_multiset(),
        shuffled@.len() == deck@.len(),
{
    let mut picks: Vec<usize> = Vec::new();
    while picks.len() < deck.len()
        invariant
            picks@.len() <= deck@.len(),
        decreases deck@.len() - picks@.len(),
    {
        picks.push(random_number());
    }
    arrange(deck, picks.as_slice())
}

/// A new game dealt from `deck`, with an empty tally, begun now. The 28 cards
/// dealt to the piles leave `deck`.
pub fn new_game(deck: &mut Vec<Card>) -> (game: Game)
    requires
        old(deck)@.len() >= DEALT,
    ensures
        game@ == dealt(old(deck)@),
        final(deck)@ == old(deck)@.take(old(deck)@.len() - DEALT),
        game.score == 0,
        game.games == 0,
        game.wins == 0,
        game.moves == 0,
        game@.cards() == ids(old(deck)@),
        all_valid(old(deck)@) ==> game@.well_formed(),
{
    let mut game: Game = game_init();
    deal(&mut game, deck);
    game
}

/// Points that a new deal costs.
pub const DEAL_COST: isize = 52;

/// Begins a new game: deals a freshly shuffled deck, counts the game and
/// charges 52 points for it.
///
/// Which order the deck has is left to chance. Whatever it is, the table is
/// the deal of some order of the 52 cards, it is well formed, and it holds
/// exactly those cards.
pub fn game_restart(game: &mut Game)
    requires
        old(game).games < usize::MAX,
        old(game).score - DEAL_COST >= isize::MIN,
    ensures
        exists|d: Seq<Card>|
            d.to_multiset() == fresh_deck().to_multiset() && final(game)@ == #[trigger] dealt(d),
        final(game)@.well_formed(),
        final(game)@.cards() == ids(fresh_deck()),
        final(game).score == old(game).score - DEAL_COST,
        final(game).games == old(game).games + 1,
        final(game).wins == old(game).wins,
        final(game).moves == old(game).moves,
        final(game).started == old(game).started,
{
    let fresh: Vec<Card> = deck();
    let mut shuffled: Vec<Card> = shuffle(fresh.as_slice());
    let ghost order = shuffled@;
    proof {
        law_deal_of_shuffled_deck(order);
    }
    deal(game, &mut shuffled);
    game.score -= DEAL_COST;
    game.games += 1;
}

/// Whether `c` is a card of the deck: one of the four suits, rank 1 to 13.
pub fn is_valid_card(c: &Card) -> (r: bool)
    ensures
        r == c.valid(),
{
    (c.suit == 'H' || c.suit == 'D' || c.suit == 'C' || c.suit == 'S') && 1 <= c.number
        && c.number <= KING
}

/// Whether `cards` are cards of the deck that all lie face up, for `up`, or
/// all face down.
fn all_lie(cards: &Vec<Card>, up: bool) -> (r: bool)
    ensures
        r == (all_valid(cards@) && if up {
            all_up(cards@)
        } else {
            all_down(cards@)
        }),
{
    let mut k: usize = 0;
    while k < cards.len()
        invariant
            k <= cards@.len(),
            forall|n: int| 0 <= n < k ==> (#[trigger] cards@[n]).valid() && cards@[n].up == up,
        decreases cards@.len() - k,
    {
        if !is_valid_card(&cards[k]) || cards[k].up != up {
            return false;
        }
        k += 1;
    }
    true
}

/// Whether `pile` is a tableau pile as play can leave it.
fn is_pile_built(pile: &Vec<Card>) -> (r: bool)
    ensures
        r == pile_built(pile@),
{
    let len: usize = pile.len();
    let mut k: usize = 0;
    while k < len
        invariant
            k <= len,
            len == pile@.len(),
            forall|n: int| 0 <= n < k ==> (#[trigger] pile@[n]).valid(),
            forall|n: int| 0 <= n < k && n < len - 1 ==> #[trigger] linked(pile@, n),
            0 < k == len ==> pile@.last().up,
            forall|i: int, j: int|
                #![trigger pile@[i], pile@[j]]
                0 <= i <= j < len && i < k && j <= k && pile@[i].up ==> pile@[j].up,
        decreases len - k,
    {
        if !is_valid_card(&pile[k]) {
            return false;
        }
        if k + 1 < len {
            if pile[k].up {
                let above: Card = pile[k + 1];
                let below: Card = pile[k];
                if !above.up || !suit_alternates(&above, &below) || !number_match_desc(
                    Some(&below),
                    &above,
                ) {
                    proof {
                        if above.up {
                            assert(!linked(pile@, k as int));
                        } else {
                            assert(pile@[k as int].up && !pile@[k + 1].up);
                        }
                    }
                    return false;
                }
            }
        } else if !pile[k].up {
            return false;
        }
        k += 1;
    }
    true
}

/// Whether `found` is foundation `f` as play can leave it.
fn is_foundation_built(found: &Vec<Card>, f: usize) -> (r: bool)
    requires
        f < FOUNDATIONS,
    ensures
        r == foundation_built(found@, f as int),
{
    let len: usize = found.len();
    if len > 13 {
        return false;
    }
    let mut k: usize = 0;
    while k < len
        invariant
            k <= len,
            len == found@.len(),
            len <= 13,
            f < FOUNDATIONS,
            forall|n: int|
                0 <= n < k ==> (#[trigger] found@[n]).suit == foundation_suit(f as int)
                    && found@[n].number == n + 1 && found@[n].up,
        decreases len - k,
    {
        if !found[k].up || !suit_match(f + FOUNDATION_ZONE, &found[k]) || !number_match_asc(
            k,
            &found[k],
        ) {
            return false;
        }
        k += 1;
    }
    true
}

/// Whether the table of `game` is well formed: one that play can reach from
/// a deal. The automatic player asks for such a table.
pub fn is_well_formed(game: &Game) -> (r: bool)
    ensures
        r == game@.well_formed(),
{
    let mut p: usize = 0;
    while p < PILES
        invariant
            p <= PILES,
            forall|n: int| 0 <= n < p ==> pile_built(#[trigger] game@.piles[n]),
        decreases PILES - p,
    {
        if !is_pile_built(&game.piles[p]) {
            assert(!pile_built(game@.piles[p as int]));
            return false;
        }
        p += 1;
    }
    let mut f: usize = 0;
    while f < FOUNDATIONS
        invariant
            f <= FOUNDATIONS,
            forall|n: int| 0 <= n < f ==> foundation_built(#[trigger] game@.foundations[n], n),
        decreases FOUNDATIONS - f,
    {
        if !is_foundation_built(&game.foundations[f], f) {
            assert(!foundation_built(game@.foundations[f as int], f as int));
            return false;
        }
        f += 1;
    }
    all_lie(&game.side_deck, false) && all_lie(&game.hand, true)
}

} // verus!
