//! The automatic player: a game and the notes by which it picks its moves.

use vstd::prelude::*;
use crate::card::{Card, KING, card, foundation_index, number_match_desc, suit_alternates};
use crate::game::{FOUNDATION_POINTS, Game, can_count_move, draw, make_move};
use crate::strategy::{Agent, Move, foundations_reach, run_depth, same_place};
use crate::search::{lemma_first_index, lemma_first_index_is};
use crate::table::{
    FOUNDATIONS, FOUNDATION_ZONE, PILES, Table, WASTE_ZONE, foundation_built, is_foundation,
    linked, pile_built, run_available,
};

verus! {

/// The rank up to which a new player sends cards to the foundations while
/// it holds back.
pub const FIRST_FOUND_LEVEL: u8 = 2;

/// A game with the automatic player's notes.
pub struct Player {
    /// The game that the player plays.
    pub game: Game,
    /// The highest rank that goes to a foundation while the player holds
    /// back.
    pub found_level: u8,
    /// A move was made since the stock was last turned over.
    pub played_this_round: bool,
    /// The player holds back.
    pub restrained: bool,
}

impl View for Player {
    type V = Agent;

    open spec fn view(&self) -> Agent {
        Agent {
            table: self.game@,
            found_level: self.found_level,
            played: self.played_this_round,
            restrained: self.restrained,
        }
    }
}

impl Player {
    /// The player can take a turn: its table is well formed and its tally has
    /// room for one more move.
    pub open spec fn ready(self) -> bool {
        self.game@.well_formed() && can_count_move(self.game)
    }

    /// `after` is this player once it has made the move `m`: the rules
    /// allowed the move, table and notes are those after the move, and the
    /// move is counted, with five points where it reached a foundation.
    pub open spec fn made(self, after: Player, m: Move) -> bool {
        &&& self@.table.legal(m.0, m.1, m.2)
        &&& after@ == self@.after_move(m)
        &&& after.game@.well_formed()
        &&& after.game@.cards() == self.game@.cards()
        &&& after.game.moves == self.game.moves + 1
        &&& after.game.score == self.game.score + if is_foundation(m.2) {
            FOUNDATION_POINTS as int
        } else {
            0
        }
        &&& after.game.games == self.game.games
        &&& after.game.wins == self.game.wins
        &&& after.game.started == self.game.started
    }
}

/// A player for `game`, at the start of a round: it holds back, sends cards
/// up to rank 2 to the foundations, and has not played yet.
pub fn create_player(game: Game) -> (player: Player)
    ensures
        player.game == game,
        player.found_level == FIRST_FOUND_LEVEL,
        !player.played_this_round,
        player.restrained,
{
    Player {
        game: game,
        found_level: FIRST_FOUND_LEVEL,
        played_this_round: false,
        restrained: true,
    }
}

/// Puts the player's notes back to the start of a round, for a new deal. The
/// game stays as it is.
pub fn player_reset(player: &mut Player)
    ensures
        final(player).game == old(player).game,
        final(player).found_level == FIRST_FOUND_LEVEL,
        !final(player).played_this_round,
        final(player).restrained,
{
    player.found_level = FIRST_FOUND_LEVEL;
    player.played_this_round = false;
    player.restrained = true;
}

/// The card that follows the top card of `pile` in its suit, lying as that
/// card lies.
pub fn target_card(pile: &Vec<Card>) -> (c: Card)
    requires
        pile@.len() > 0,
        pile@.last().number < u8::MAX,
    ensures
        c == (Card {
            suit: pile@.last().suit,
            number: (pile@.last().number + 1) as u8,
            up: pile@.last().up,
        }),
{
    let top: Card = pile[pile.len() - 1];
    Card { suit: top.suit, number: top.number + 1, up: top.up }
}

/// Whether the two cards lie face up and have the same suit and rank.
pub fn card_match_exact(a: &Card, b: &Card) -> (r: bool)
    ensures
        r == (a.up && b.up && a.number == b.number && a.suit == b.suit),
{
    a.up && b.up && a.number == b.number && a.suit == b.suit
}

/// Whether the two cards have the same rank and the same colour.
pub fn card_match_functional(a: &Card, b: &Card) -> (r: bool)
    ensures
        r == same_place(*a, *b),
{
    if a.number == b.number {
        if a.suit == 'H' || a.suit == 'D' {
            b.suit == 'H' || b.suit == 'D'
        } else if a.suit == 'C' || a.suit == 'S' {
            b.suit == 'C' || b.suit == 'S'
        } else {
            false
        }
    } else {
        false
    }
}

/// The face-up run on top of `pile`: its lowest card and the number of its
/// cards. Where the top card lies face down, or there is none, the number is
/// 0 and the card a face-down card of no rank.
pub fn get_highest_card(pile: &Vec<Card>) -> (r: (Card, usize))
    ensures
        r.1 == run_depth(pile@),
        r.1 <= pile@.len(),
        r.1 > 0 ==> r.0 == pile@[pile@.len() - r.1],
        r.1 == 0 ==> r.0 == (Card { suit: 'D', number: 0, up: false }),
{
    let len: usize = pile.len();
    let mut highest: Card = card(&'D', 0);
    let mut depth: usize = 0;
    proof {
        assert(pile@.take(len as int) =~= pile@);
    }
    while depth < len && pile[len - depth - 1].up
        invariant
            len == pile@.len(),
            depth <= len,
            run_depth(pile@) == depth + run_depth(pile@.take(len - depth)),
            depth > 0 ==> highest == pile@[len - depth],
            depth == 0 ==> highest == (Card { suit: 'D', number: 0, up: false }),
        decreases len - depth,
    {
        proof {
            assert(pile@.take(len - depth).drop_last() =~= pile@.take(len - depth - 1));
        }
        highest = pile[len - depth - 1];
        depth += 1;
    }
    (highest, depth)
}

/// Whether `c` follows the top card of the foundation `found` by rank: an
/// ace where the foundation is empty.
fn follows_top(found: &Vec<Card>, c: &Card) -> (r: bool)
    ensures
        r == if found@.len() == 0 {
            c.number == 1
        } else {
            c.number == found@.last().number + 1
        },
{
    let len: usize = found.len();
    if len == 0 {
        c.number == 1
    } else {
        c.number >= 1 && found[len - 1].number == c.number - 1
    }
}

/// Whether every foundation holds a card and has reached the rank `level`.
fn foundations_have_reached(game: &Game, level: u8) -> (r: bool)
    ensures
        r == foundations_reach(game@, level as int),
{
    let mut f: usize = 0;
    while f < FOUNDATIONS
        invariant
            f <= FOUNDATIONS,
            forall|g: int|
                0 <= g < f ==> (#[trigger] game@.foundations[g]).len() > 0
                    && game@.foundations[g].last().number >= level,
        decreases FOUNDATIONS - f,
    {
        let len: usize = game.foundations[f].len();
        if len == 0 || game.foundations[f][len - 1].number < level {
            assert(!(game@.foundations[f as int].len() > 0 && game@.foundations[f as int].last().number
                >= level));
            return false;
        }
        f += 1;
    }
    true
}

/// Notes a move to a foundation: the player has played, and `found_level`
/// rises by one where every foundation has reached it.
fn note_founded(player: &mut Player)
    requires
        old(player).game@.well_formed(),
    ensures
        final(player).game == old(player).game,
        final(player).played_this_round,
        final(player).restrained == old(player).restrained,
        final(player).found_level == if foundations_reach(
            old(player).game@,
            old(player).found_level as int,
        ) {
            (old(player).found_level + 1) as u8
        } else {
            old(player).found_level
        },
{
    player.played_this_round = true;
    if foundations_have_reached(&player.game, player.found_level) {
        proof {
            let found = player.game@.foundations[0];
            assert(foundation_built(found, 0));
            assert(found.last().number == found.len());
        }
        player.found_level += 1;
    }
}

/// Sends the waste card to its foundation if the rules and the player's
/// restraint allow it, and returns whether it did.
pub fn play_hand_found(player: &mut Player) -> (moved: bool)
    requires
        old(player).ready(),
    ensures
        moved == old(player)@.waste_to_foundation() is Some,
        moved ==> old(player).made(*final(player), old(player)@.waste_to_foundation().unwrap()),
        !moved ==> *final(player) == *old(player),
{
    let len: usize = player.game.hand.len();
    if len == 0 {
        return false;
    }
    let top_card: Card = player.game.hand[len - 1];
    if player.restrained && top_card.number > player.found_level {
        return false;
    }
    let target_suit: usize = foundation_index(&top_card);
    if target_suit >= FOUNDATIONS {
        return false;
    }
    proof {
        let found = player.game@.foundations[target_suit as int];
        assert(foundation_built(found, target_suit as int));
        if found.len() > 0 {
            assert(found.last().number == found.len());
        }
    }
    if !follows_top(&player.game.foundations[target_suit], &top_card) {
        return false;
    }
    let moved: bool = make_move(&mut player.game, WASTE_ZONE, 1, target_suit + FOUNDATION_ZONE);
    assert(moved);
    note_founded(player);
    true
}

/// Sends the top card of the first pile that can give it to its foundation,
/// if there is one, and returns whether it did.
pub fn play_pile_found(player: &mut Player) -> (moved: bool)
    requires
        old(player).ready(),
    ensures
        moved == old(player)@.pile_to_foundation() is Some,
        moved ==> old(player).made(*final(player), old(player)@.pile_to_foundation().unwrap()),
        !moved ==> *final(player) == *old(player),
{
    let mut i: usize = 0;
    while i < PILES
        invariant
            i <= PILES,
            *player == *old(player),
            player.ready(),
            forall|k: int| 0 <= k < i ==> !#[trigger] player@.pile_founds(k),
        decreases PILES - i,
    {
        let len: usize = player.game.piles[i].len();
        if len > 0 {
            let lowest_card: Card = player.game.piles[i][len - 1];
            if !(player.restrained && lowest_card.number > player.found_level) {
                let target_suit: usize = foundation_index(&lowest_card);
                if target_suit < FOUNDATIONS {
                    proof {
                        let found = player.game@.foundations[target_suit as int];
                        assert(foundation_built(found, target_suit as int));
                        if found.len() > 0 {
                            assert(found.last().number == found.len());
                        }
                        assert(pile_built(player.game@.piles[i as int]));
                    }
                    if follows_top(&player.game.foundations[target_suit], &lowest_card) {
                        proof {
                            assert(player@.pile_founds(i as int));
                            lemma_first_index_is(
                                0,
                                PILES as int,
                                player@.pile_founds_test(),
                                i as int,
                            );
                        }
                        let moved: bool = make_move(
                            &mut player.game,
                            i,
                            1,
                            target_suit + FOUNDATION_ZONE,
                        );
                        assert(moved);
                        note_founded(player);
                        return true;
                    }
                }
            }
        }
        assert(!player@.pile_founds(i as int));
        i += 1;
    }
    proof {
        lemma_first_index_is(0, PILES as int, player@.pile_founds_test(), PILES as int);
    }
    false
}

/// Draws from the stock and returns whether that gets the player on.
///
/// A draw that takes cards from the stock always does. One that turns the
/// waste over ends a round: a player that held back plays the next round
/// without restraint; one that did not goes back to holding back if it has
/// played in the round, and else is stuck, which the result `false` says.
pub fn play_draw_hand(player: &mut Player) -> (progressed: bool)
    ensures
        final(player)@ == old(player)@.after_draw(),
        progressed == old(player)@.draw_progresses(),
        final(player).game.same_tally(old(player).game),
        final(player).game@.cards() == old(player).game@.cards(),
        old(player).game@.well_formed() ==> final(player).game@.well_formed(),
{
    let reset: bool = draw(&mut player.game);
    if reset {
        if player.restrained {
            player.played_this_round = false;
            player.restrained = false;
            true
        } else if !player.played_this_round {
            false
        } else {
            player.played_this_round = false;
            player.restrained = true;
            true
        }
    } else {
        true
    }
}

/// The cards that `run_depth` counts lie on top of the pile and face up.
proof fn lemma_run_depth(pile: Seq<Card>)
    ensures
        0 <= run_depth(pile) <= pile.len(),
        forall|k: int| pile.len() - run_depth(pile) <= k < pile.len() ==> (#[trigger] pile[k]).up,
        pile.len() > 0 && pile.last().up ==> run_depth(pile) >= 1,
    decreases pile.len(),
{
    if pile.len() > 0 && pile.last().up {
        lemma_run_depth(pile.drop_last());
        assert forall|k: int| pile.len() - run_depth(pile) <= k < pile.len() implies (
        #[trigger] pile[k]).up by {
            if k < pile.len() - 1 {
                assert(pile.drop_last()[k].up);
            }
        }
    }
}

/// The first pile that takes the face-up run of pile `i`, or 7.
fn find_restack_target(game: &Game, i: usize) -> (j: usize)
    requires
        game@.well_formed(),
        i < PILES,
    ensures
        j == Agent::restack_target(game@, i as int),
        j <= PILES,
        j < PILES ==> Agent::restacks(game@, i as int, j as int),
{
    let len: usize = game.piles[i].len();
    if len == 0 {
        proof {
            lemma_first_index_is(
                0,
                PILES as int,
                Agent::restacks_test(game@, i as int),
                PILES as int,
            );
        }
        return PILES;
    }
    let (highest_card, depth) = get_highest_card(&game.piles[i]);
    proof {
        assert(pile_built(game@.piles[i as int]));
        lemma_run_depth(game@.piles[i as int]);
    }
    let mut j: usize = 0;
    while j < PILES
        invariant
            j <= PILES,
            i < PILES,
            game@.well_formed(),
            len == game@.piles[i as int].len(),
            len > 0,
            depth == run_depth(game@.piles[i as int]),
            1 <= depth <= len,
            highest_card == game@.piles[i as int][len - depth],
            run_available(game@.piles[i as int], depth as int),
            forall|k: int| 0 <= k < j ==> !#[trigger] Agent::restacks(game@, i as int, k),
        decreases PILES - j,
    {
        let target_len: usize = game.piles[j].len();
        let fits: bool = if target_len == 0 {
            highest_card.number == KING && depth != len
        } else {
            suit_alternates(&game.piles[j][target_len - 1], &highest_card) && number_match_desc(
                Some(&game.piles[j][target_len - 1]),
                &highest_card,
            )
        };
        proof {
            assert(pile_built(game@.piles[j as int]));
            assert(fits == Agent::restacks(game@, i as int, j as int));
        }
        if fits {
            proof {
                lemma_first_index_is(
                    0,
                    PILES as int,
                    Agent::restacks_test(game@, i as int),
                    j as int,
                );
            }
            return j;
        }
        j += 1;
    }
    proof {
        lemma_first_index_is(0, PILES as int, Agent::restacks_test(game@, i as int), PILES as int);
    }
    PILES
}

/// Moves the face-up run of the first pile whose run can go onto another
/// pile to the first pile that takes it, if there is one, and returns
/// whether it did. A pile that is face up from its first card is not carried
/// to an empty place.
pub fn play_pile_pile(player: &mut Player) -> (moved: bool)
    requires
        old(player).ready(),
    ensures
        moved == old(player)@.pile_to_pile() is Some,
        moved ==> old(player).made(*final(player), old(player)@.pile_to_pile().unwrap()),
        !moved ==> *final(player) == *old(player),
{
    let mut i: usize = 0;
    while i < PILES
        invariant
            i <= PILES,
            *player == *old(player),
            player.ready(),
            forall|k: int|
                0 <= k < i ==> #[trigger] Agent::restack_target(player@.table, k) == PILES,
        decreases PILES - i,
    {
        let j: usize = find_restack_target(&player.game, i);
        if j < PILES {
            let (_, depth) = get_highest_card(&player.game.piles[i]);
            proof {
                lemma_first_index_is(
                    0,
                    PILES as int,
                    Agent::restack_source_test(player@.table),
                    i as int,
                );
            }
            let moved: bool = make_move(&mut player.game, i, depth, j);
            assert(moved);
            player.played_this_round = true;
            return true;
        }
        i += 1;
    }
    proof {
        lemma_first_index_is(
            0,
            PILES as int,
            Agent::restack_source_test(player@.table),
            PILES as int,
        );
    }
    false
}

/// Moves the waste card to the first pile that takes it, if there is one,
/// and returns whether it did.
pub fn play_hand_pile(player: &mut Player) -> (moved: bool)
    requires
        old(player).ready(),
    ensures
        moved == old(player)@.waste_to_pile() is Some,
        moved ==> old(player).made(*final(player), old(player)@.waste_to_pile().unwrap()),
        !moved ==> *final(player) == *old(player),
{
    let len: usize = player.game.hand.len();
    if len == 0 {
        return false;
    }
    let c: Card = player.game.hand[len - 1];
    let mut j: usize = 0;
    while j < PILES
        invariant
            j <= PILES,
            *player == *old(player),
            player.ready(),
            len == player.game@.waste.len(),
            len > 0,
            c == player.game@.waste.last(),
            forall|k: int| 0 <= k < j ==> !#[trigger] player@.table.legal(WASTE_ZONE as int, 1, k),
        decreases PILES - j,
    {
        let target_len: usize = player.game.piles[j].len();
        let fits: bool = if target_len == 0 {
            c.number == KING
        } else {
            suit_alternates(&player.game.piles[j][target_len - 1], &c) && number_match_desc(
                Some(&player.game.piles[j][target_len - 1]),
                &c,
            )
        };
        proof {
            assert(pile_built(player.game@.piles[j as int]));
            assert(fits == player@.table.legal(WASTE_ZONE as int, 1, j as int));
        }
        if fits {
            proof {
                lemma_first_index_is(
                    0,
                    PILES as int,
                    Agent::waste_lands_test(player@.table),
                    j as int,
                );
            }
            let moved: bool = make_move(&mut player.game, WASTE_ZONE, 1, j);
            assert(moved);
            player.played_this_round = true;
            return true;
        }
        j += 1;
    }
    proof {
        lemma_first_index_is(
            0,
            PILES as int,
            Agent::waste_lands_test(player@.table),
            PILES as int,
        );
    }
    false
}

/// The first pile whose top card has the rank and the colour of `c`, or 7.
fn find_stand_in(game: &Game, c: &Card) -> (j: usize)
    ensures
        j == Agent::stand_in(game@, *c),
        j <= PILES,
        j < PILES ==> game@.piles[j as int].len() > 0 && same_place(
            game@.piles[j as int].last(),
            *c,
        ),
{
    let mut j: usize = 0;
    while j < PILES
        invariant
            j <= PILES,
            forall|k: int|
                0 <= k < j ==> !(game@.piles[k].len() > 0 && same_place(
                    (#[trigger] game@.piles[k]).last(),
                    *c,
                )),
        decreases PILES - j,
    {
        let len: usize = game.piles[j].len();
        if len > 0 && card_match_functional(&game.piles[j][len - 1], c) {
            proof {
                lemma_first_index_is(0, PILES as int, Agent::stand_in_test(game@, *c), j as int);
            }
            return j;
        }
        j += 1;
    }
    proof {
        lemma_first_index_is(0, PILES as int, Agent::stand_in_test(game@, *c), PILES as int);
    }
    PILES
}

/// The first place in pile `i` where the card that foundation `f` needs lies
/// buried with somewhere for the cards on it to go, or the pile's length.
fn find_buried_place(game: &Game, f: usize, i: usize) -> (k: usize)
    requires
        f < FOUNDATIONS,
        i < PILES,
        game@.foundations[f as int].len() > 0,
        game@.foundations[f as int].last().number < u8::MAX,
    ensures
        k == Agent::buried_place(game@, f as int, i as int),
        k <= game@.piles[i as int].len(),
        k < game@.piles[i as int].len() ==> Agent::buried_at(game@, f as int, i as int, k as int),
{
    let target: Card = target_card(&game.foundations[f]);
    let len: usize = game.piles[i].len();
    let mut k: usize = 0;
    while k < len
        invariant
            k <= len,
            i < PILES,
            len == game@.piles[i as int].len(),
            target == Agent::needed(game@, f as int),
            forall|n: int|
                0 <= n < k ==> !#[trigger] Agent::buried_at(game@, f as int, i as int, n),
        decreases len - k,
    {
        let depth: usize = len - k - 1;
        if card_match_exact(&game.piles[i][k], &target) && depth != 0 {
            let j: usize = find_stand_in(game, &game.piles[i][k]);
            if j < PILES {
                proof {
                    lemma_first_index_is(
                        0,
                        len as int,
                        Agent::buried_test(game@, f as int, i as int),
                        k as int,
                    );
                }
                return k;
            }
        }
        k += 1;
    }
    proof {
        lemma_first_index_is(
            0,
            len as int,
            Agent::buried_test(game@, f as int, i as int),
            len as int,
        );
    }
    len
}

/// The first pile that buries the card that foundation `f` needs, or 7.
fn find_burying_pile(game: &Game, f: usize) -> (i: usize)
    requires
        f < FOUNDATIONS,
        game@.foundations[f as int].len() > 0,
        game@.foundations[f as int].last().number < u8::MAX,
    ensures
        i == Agent::burying_pile(game@, f as int),
        i <= PILES,
        i < PILES ==> Agent::buried_place(game@, f as int, i as int) < game@.piles[i as int].len(),
{
    let mut i: usize = 0;
    while i < PILES
        invariant
            i <= PILES,
            f < FOUNDATIONS,
            game@.foundations[f as int].len() > 0,
            game@.foundations[f as int].last().number < u8::MAX,
            forall|n: int|
                0 <= n < i ==> #[trigger] Agent::buried_place(game@, f as int, n)
                    == game@.piles[n].len(),
        decreases PILES - i,
    {
        let k: usize = find_buried_place(game, f, i);
        if k < game.piles[i].len() {
            proof {
                lemma_first_index_is(
                    0,
                    PILES as int,
                    Agent::buries_test(game@, f as int),
                    i as int,
                );
            }
            return i;
        }
        i += 1;
    }
    proof {
        lemma_first_index_is(0, PILES as int, Agent::buries_test(game@, f as int), PILES as int);
    }
    PILES
}

/// On a well-formed table, the cards that lie on a face-up card can go onto
/// any top card of that card's rank and colour.
proof fn lemma_dig_is_legal(t: Table, i: int, k: int, j: int)
    requires
        t.well_formed(),
        0 <= i < PILES,
        0 <= j < PILES,
        0 <= k < t.piles[i].len() - 1,
        t.piles[i][k].up,
        t.piles[j].len() > 0,
        same_place(t.piles[j].last(), t.piles[i][k]),
    ensures
        t.legal(i, t.piles[i].len() - k - 1, j),
{
    let pile = t.piles[i];
    assert(pile_built(pile));
    assert(pile_built(t.piles[j]));
    assert(linked(pile, k));
    assert(pile[k].valid());
    assert forall|n: int| k <= n < pile.len() implies (#[trigger] pile[n]).up by {
        assert(pile[k].up);
    }
}

/// Uncovers, by one layer, the card that a foundation needs next, and
/// returns whether it did.
///
/// The foundations are tried in their order, those that have begun and whose
/// next card the player's restraint lets through. For each the piles are
/// searched from the first, each from its bottom, for that card lying face
/// up under other cards, and then for a pile whose top card has its rank and
/// colour. The cards on it go there.
pub fn play_reveal_found(player: &mut Player) -> (moved: bool)
    requires
        old(player).ready(),
    ensures
        moved == old(player)@.dig() is Some,
        moved ==> old(player).made(*final(player), old(player)@.dig().unwrap()),
        !moved ==> *final(player) == *old(player),
{
    let mut f: usize = 0;
    while f < FOUNDATIONS
        invariant
            f <= FOUNDATIONS,
            *player == *old(player),
            player.ready(),
            forall|g: int| 0 <= g < f ==> !#[trigger] player@.digs_for(g),
        decreases FOUNDATIONS - f,
    {
        let found_len: usize = player.game.foundations[f].len();
        if found_len > 0 {
            proof {
                let found = player.game@.foundations[f as int];
                assert(foundation_built(found, f as int));
                assert(found.last().number == found.len());
            }
            let target: Card = target_card(&player.game.foundations[f]);
            if !(player.restrained && target.number > player.found_level) {
                let i: usize = find_burying_pile(&player.game, f);
                if i < PILES {
                    let k: usize = find_buried_place(&player.game, f, i);
                    let j: usize = find_stand_in(&player.game, &player.game.piles[i][k]);
                    let depth: usize = player.game.piles[i].len() - k - 1;
                    proof {
                        let t = player@.table;
                        lemma_first_index(0, PILES as int, Agent::buries_test(t, f as int));
                        assert(Agent::buried_at(t, f as int, i as int, k as int));
                        assert(player@.digs_for(f as int));
                        lemma_first_index_is(
                            0,
                            FOUNDATIONS as int,
                            player@.digs_test(),
                            f as int,
                        );
                        lemma_dig_is_legal(t, i as int, k as int, j as int);
                    }
                    let moved: bool = make_move(&mut player.game, i, depth, j);
                    assert(moved);
                    player.played_this_round = true;
                    return true;
                }
            }
        }
        assert(!player@.digs_for(f as int));
        f += 1;
    }
    proof {
        lemma_first_index_is(0, FOUNDATIONS as int, player@.digs_test(), FOUNDATIONS as int);
    }
    false
}

/// Takes the player's turn and returns whether that got it on.
///
/// The player makes the first move it finds, looking in this order: the
/// waste card to a foundation, a pile's top card to a foundation, a run from
/// pile to pile, the waste card to a pile, a run moved aside to uncover a
/// card that a foundation needs. Where it finds none it draws. The result is
/// `false` only for a player that is stuck: one that has gone through the
/// whole stock without restraint and without a move.
pub fn play_one_move(player: &mut Player) -> (progressed: bool)
    requires
        old(player).ready(),
    ensures
        final(player)@ == old(player)@.after_turn(),
        progressed == old(player)@.turn_progresses(),
        final(player).game@.well_formed(),
        final(player).game@.cards() == old(player).game@.cards(),
        match old(player)@.choice() {
            Some(m) => old(player).made(*final(player), m),
            None => final(player).game.same_tally(old(player).game),
        },
{
    if play_hand_found(player) {
        return true;
    }
    if play_pile_found(player) {
        return true;
    }
    if play_pile_pile(player) {
        return true;
    }
    if play_hand_pile(player) {
        return true;
    }
    if play_reveal_found(player) {
        return true;
    }
    play_draw_hand(player)
}

} // verus!
