use solitaire::card::Card;
use solitaire::game::{deal, deck, game_init, is_well_formed, is_won, Game};
use solitaire::player::{
    card_match_exact, card_match_functional, create_player, get_highest_card, play_draw_hand,
    play_hand_found, play_hand_pile, play_one_move, play_pile_found, play_pile_pile,
    play_reveal_found, player_reset, target_card, Player, FIRST_FOUND_LEVEL,
};

fn shown(suit: char, number: u8) -> Card {
    Card { suit, number, up: true }
}

fn hidden(suit: char, number: u8) -> Card {
    Card { suit, number, up: false }
}

fn suit_up_to(suit: char, top: u8) -> Vec<Card> {
    (1..=top).map(|n| shown(suit, n)).collect()
}

type Layout = (Vec<Vec<Card>>, Vec<Card>, Vec<Card>, Vec<Vec<Card>>);

fn layout(game: &Game) -> Layout {
    (game.piles.to_vec(), game.side_deck.clone(), game.hand.clone(), game.foundations.to_vec())
}

fn notes(player: &Player) -> (u8, bool, bool) {
    (player.found_level, player.played_this_round, player.restrained)
}

fn card_total(game: &Game) -> usize {
    game.piles.iter().map(|p| p.len()).sum::<usize>()
        + game.foundations.iter().map(|f| f.len()).sum::<usize>()
        + game.side_deck.len()
        + game.hand.len()
}

fn ready(player: &Player) -> bool {
    is_well_formed(&player.game)
        && player.game.moves < usize::MAX
        && player.game.score <= isize::MAX - 5
}

#[test]
fn a_new_player_holds_back() {
    let player = create_player(game_init());
    assert_eq!(FIRST_FOUND_LEVEL, 2);
    assert_eq!(notes(&player), (2, false, true));
    assert!(player.game.piles.iter().all(|p| p.is_empty()));
}

#[test]
fn reset_puts_the_notes_back_and_keeps_the_game() {
    let mut game = game_init();
    game.piles[3] = vec![shown('H', 9)];
    game.score = 12;
    let mut player = create_player(game);
    player.found_level = 7;
    player.played_this_round = true;
    player.restrained = false;
    let before = layout(&player.game);
    player_reset(&mut player);
    assert_eq!(notes(&player), (2, false, true));
    assert_eq!(layout(&player.game), before);
    assert_eq!(player.game.score, 12);
}

#[test]
fn target_card_is_the_next_of_the_suit() {
    assert_eq!(target_card(&vec![shown('H', 1), shown('H', 2)]), shown('H', 3));
    assert_eq!(target_card(&vec![hidden('S', 12)]), hidden('S', 13));
}

#[test]
fn exact_match_needs_both_cards_face_up() {
    assert!(card_match_exact(&shown('H', 4), &shown('H', 4)));
    assert!(!card_match_exact(&shown('H', 4), &hidden('H', 4)));
    assert!(!card_match_exact(&hidden('H', 4), &shown('H', 4)));
    assert!(!card_match_exact(&shown('H', 4), &shown('D', 4)));
    assert!(!card_match_exact(&shown('H', 4), &shown('H', 5)));
}

#[test]
fn functional_match_goes_by_rank_and_colour() {
    assert!(card_match_functional(&shown('H', 4), &shown('D', 4)));
    assert!(card_match_functional(&shown('H', 4), &hidden('H', 4)));
    assert!(card_match_functional(&shown('S', 9), &shown('C', 9)));
    assert!(!card_match_functional(&shown('S', 9), &shown('H', 9)));
    assert!(!card_match_functional(&shown('S', 9), &shown('C', 8)));
    assert!(!card_match_functional(&shown('X', 9), &shown('X', 9)));
}

#[test]
fn highest_card_is_the_base_of_the_face_up_run() {
    let pile = vec![hidden('C', 2), shown('H', 7), shown('S', 6), shown('D', 5)];
    assert_eq!(get_highest_card(&pile), (shown('H', 7), 3));
    assert_eq!(get_highest_card(&vec![shown('D', 5)]), (shown('D', 5), 1));
    assert_eq!(get_highest_card(&vec![]), (hidden('D', 0), 0));
    assert_eq!(get_highest_card(&vec![shown('H', 7), hidden('S', 6)]), (hidden('D', 0), 0));
    let broken = vec![shown('H', 7), hidden('S', 6), shown('D', 5)];
    assert_eq!(get_highest_card(&broken), (shown('D', 5), 1));
}

#[test]
fn an_ace_on_a_pile_goes_up_before_any_run_moves() {
    let mut game = game_init();
    game.piles[0] = vec![shown('S', 5)];
    game.piles[1] = vec![shown('H', 6)];
    game.piles[2] = vec![hidden('C', 9), shown('D', 1)];
    let mut player = create_player(game);
    assert!(ready(&player));
    assert!(play_one_move(&mut player));
    assert_eq!(player.game.foundations[2], vec![shown('D', 1)]);
    assert_eq!(player.game.piles[0], vec![shown('S', 5)]);
    assert_eq!(player.game.piles[1], vec![shown('H', 6)]);
    assert_eq!(player.game.piles[2], vec![shown('C', 9)]);
    assert_eq!(notes(&player), (2, true, true));
    assert_eq!((player.game.moves, player.game.score), (1, 5));
    assert!(play_one_move(&mut player));
    assert!(player.game.piles[0].is_empty());
    assert_eq!(player.game.piles[1], vec![shown('H', 6), shown('S', 5)]);
    assert_eq!((player.game.moves, player.game.score), (2, 5));
}

#[test]
fn the_waste_card_goes_up_before_a_pile_card() {
    let mut game = game_init();
    game.piles[0] = vec![shown('D', 1)];
    game.hand = vec![shown('S', 1)];
    let mut player = create_player(game);
    assert!(play_one_move(&mut player));
    assert_eq!(player.game.foundations[1], vec![shown('S', 1)]);
    assert_eq!(player.game.piles[0], vec![shown('D', 1)]);
    assert!(play_one_move(&mut player));
    assert_eq!(player.game.foundations[2], vec![shown('D', 1)]);
}

#[test]
fn restraint_keeps_high_cards_off_the_foundations() {
    let mut game = game_init();
    game.foundations[0] = suit_up_to('H', 2);
    game.hand = vec![shown('H', 3)];
    game.piles[4] = vec![shown('H', 3)];
    let mut player = create_player(game);
    let before = layout(&player.game);
    assert!(ready(&player));
    assert!(!play_hand_found(&mut player));
    assert!(!play_pile_found(&mut player));
    assert_eq!(layout(&player.game), before);
    assert_eq!(notes(&player), (2, false, true));
    player.restrained = false;
    assert!(play_hand_found(&mut player));
    assert_eq!(player.game.foundations[0], suit_up_to('H', 3));
    assert_eq!(notes(&player), (2, true, false));
    player.restrained = true;
    player.found_level = 3;
    player.game.foundations[0] = suit_up_to('H', 2);
    assert!(play_pile_found(&mut player));
    assert_eq!(player.game.foundations[0], suit_up_to('H', 3));
    assert!(player.game.piles[4].is_empty());
}

#[test]
fn a_card_that_does_not_follow_stays() {
    let mut game = game_init();
    game.hand = vec![shown('H', 2)];
    game.piles[0] = vec![shown('S', 2)];
    game.foundations[3] = suit_up_to('C', 1);
    let mut player = create_player(game);
    let before = layout(&player.game);
    assert!(!play_hand_found(&mut player));
    assert!(!play_pile_found(&mut player));
    assert_eq!(layout(&player.game), before);
    assert_eq!(notes(&player), (2, false, true));
    assert_eq!((player.game.moves, player.game.score), (0, 0));
}

#[test]
fn the_first_pile_that_can_gives_its_card() {
    let mut game = game_init();
    game.piles[1] = vec![shown('S', 7)];
    game.piles[3] = vec![shown('C', 1)];
    game.piles[5] = vec![shown('H', 1)];
    let mut player = create_player(game);
    assert!(play_pile_found(&mut player));
    assert_eq!(player.game.foundations[3], vec![shown('C', 1)]);
    assert_eq!(player.game.piles[5], vec![shown('H', 1)]);
    assert!(play_pile_found(&mut player));
    assert_eq!(player.game.foundations[0], vec![shown('H', 1)]);
    assert!(!play_pile_found(&mut player));
}

#[test]
fn the_safe_level_rises_when_every_foundation_has_reached_it() {
    let mut game = game_init();
    game.foundations[0] = suit_up_to('H', 2);
    game.foundations[1] = suit_up_to('S', 2);
    game.foundations[2] = suit_up_to('D', 2);
    game.foundations[3] = suit_up_to('C', 1);
    game.hand = vec![shown('C', 2)];
    let mut player = create_player(game);
    assert!(play_hand_found(&mut player));
    assert_eq!(player.game.foundations[3], suit_up_to('C', 2));
    assert_eq!(notes(&player), (3, true, true));
    player.game.piles[0] = vec![shown('H', 3)];
    assert!(play_pile_found(&mut player));
    assert_eq!(notes(&player), (3, true, true));
}

#[test]
fn the_safe_level_waits_for_the_slowest_foundation() {
    let mut game = game_init();
    for (f, s) in ['H', 'S', 'D', 'C'].iter().enumerate() {
        game.foundations[f] = suit_up_to(*s, 1);
    }
    game.piles[0] = vec![shown('H', 2)];
    let mut player = create_player(game);
    assert!(play_pile_found(&mut player));
    assert_eq!(player.game.foundations[0], suit_up_to('H', 2));
    assert_eq!(notes(&player), (2, true, true));
}

#[test]
fn the_safe_level_stays_while_a_foundation_is_empty() {
    let mut game = game_init();
    game.foundations[0] = suit_up_to('H', 5);
    game.foundations[1] = suit_up_to('S', 5);
    game.foundations[2] = suit_up_to('D', 5);
    game.hand = vec![shown('H', 6)];
    let mut player = create_player(game);
    player.restrained = false;
    assert!(play_hand_found(&mut player));
    assert_eq!(notes(&player), (2, true, false));
}

#[test]
fn a_run_goes_to_the_first_pile_that_takes_it() {
    let mut game = game_init();
    game.piles[0] = vec![shown('C', 9)];
    game.piles[1] = vec![hidden('H', 2), shown('D', 7), shown('S', 6)];
    game.piles[2] = vec![shown('S', 8)];
    game.piles[3] = vec![shown('C', 8)];
    let mut player = create_player(game);
    assert!(ready(&player));
    assert!(play_pile_pile(&mut player));
    assert_eq!(player.game.piles[1], vec![shown('H', 2)]);
    assert_eq!(player.game.piles[2], vec![shown('S', 8), shown('D', 7), shown('S', 6)]);
    assert_eq!(player.game.piles[3], vec![shown('C', 8)]);
    assert_eq!(notes(&player), (2, true, true));
    assert_eq!((player.game.moves, player.game.score), (1, 0));
}

#[test]
fn a_king_goes_to_an_empty_pile_only_from_on_top_of_other_cards() {
    let mut game = game_init();
    game.piles[0] = vec![shown('S', 13), shown('H', 12)];
    game.piles[2] = vec![hidden('D', 4), shown('C', 13)];
    let mut player = create_player(game);
    let before = layout(&player.game);
    assert!(play_pile_pile(&mut player));
    assert_eq!(player.game.piles[0], before.0[0]);
    assert_eq!(player.game.piles[1], vec![shown('C', 13)]);
    assert_eq!(player.game.piles[2], vec![shown('D', 4)]);
    assert!(!play_pile_pile(&mut player));
}

#[test]
fn no_run_moves_where_none_fits() {
    let mut game = game_init();
    game.piles[0] = vec![shown('S', 13)];
    game.piles[1] = vec![shown('H', 5)];
    game.piles[2] = vec![shown('D', 6)];
    game.piles[3] = vec![shown('D', 4), shown('S', 3)];
    let mut player = create_player(game);
    assert!(is_well_formed(&player.game));
    let before = layout(&player.game);
    assert!(!play_pile_pile(&mut player));
    assert_eq!(layout(&player.game), before);
    assert_eq!(notes(&player), (2, false, true));
}

#[test]
fn the_waste_card_goes_to_the_first_pile_that_takes_it() {
    let mut game = game_init();
    game.piles[0] = vec![shown('H', 9)];
    game.piles[2] = vec![shown('D', 5)];
    game.piles[4] = vec![shown('H', 5)];
    game.hand = vec![shown('D', 13), shown('S', 4)];
    let mut player = create_player(game);
    assert!(play_hand_pile(&mut player));
    assert_eq!(player.game.piles[2], vec![shown('D', 5), shown('S', 4)]);
    assert_eq!(player.game.piles[4], vec![shown('H', 5)]);
    assert_eq!(player.game.hand, vec![shown('D', 13)]);
    assert!(play_hand_pile(&mut player));
    assert_eq!(player.game.piles[1], vec![shown('D', 13)]);
    assert!(player.game.hand.is_empty());
    assert!(!play_hand_pile(&mut player));
    assert_eq!((player.game.moves, player.game.score), (2, 0));
}

#[test]
fn the_waste_card_stays_where_no_pile_takes_it() {
    let mut game = game_init();
    game.piles[0] = vec![shown('H', 9)];
    game.hand = vec![shown('D', 8)];
    let mut player = create_player(game);
    let before = layout(&player.game);
    assert!(!play_hand_pile(&mut player));
    assert_eq!(layout(&player.game), before);
}

#[test]
fn digging_moves_the_cards_off_the_needed_card() {
    let mut game = game_init();
    game.foundations[0] = suit_up_to('H', 3);
    game.piles[0] = vec![hidden('C', 9), shown('H', 4), shown('S', 3)];
    game.piles[1] = vec![shown('S', 7)];
    game.piles[2] = vec![shown('D', 4)];
    let mut player = create_player(game);
    assert!(ready(&player));
    let before = layout(&player.game);
    assert!(!play_reveal_found(&mut player));
    assert_eq!(layout(&player.game), before);
    player.restrained = false;
    assert!(play_reveal_found(&mut player));
    assert_eq!(player.game.piles[0], vec![hidden('C', 9), shown('H', 4)]);
    assert_eq!(player.game.piles[2], vec![shown('D', 4), shown('S', 3)]);
    assert_eq!(notes(&player), (2, true, false));
    assert_eq!((player.game.moves, player.game.score), (1, 0));
    assert!(!play_reveal_found(&mut player));
    assert!(play_one_move(&mut player));
    assert_eq!(player.game.foundations[0], suit_up_to('H', 4));
}

#[test]
fn digging_lets_cards_within_the_safe_level_through() {
    let mut game = game_init();
    game.foundations[1] = suit_up_to('S', 1);
    game.piles[3] = vec![shown('S', 2), shown('H', 1)];
    game.piles[5] = vec![shown('C', 2)];
    let mut player = create_player(game);
    assert!(play_reveal_found(&mut player));
    assert_eq!(player.game.piles[3], vec![shown('S', 2)]);
    assert_eq!(player.game.piles[5], vec![shown('C', 2), shown('H', 1)]);
}

#[test]
fn digging_needs_a_begun_foundation_and_a_place_to_go() {
    let mut game = game_init();
    game.piles[0] = vec![shown('H', 1), shown('S', 13)];
    game.piles[1] = vec![shown('D', 1)];
    game.foundations[3] = suit_up_to('C', 1);
    game.piles[2] = vec![shown('C', 2), shown('H', 1)];
    let mut player = create_player(game);
    player.game.piles[0] = vec![shown('D', 3), shown('C', 2)];
    player.game.piles[2] = vec![shown('S', 9)];
    assert!(is_well_formed(&player.game));
    let before = layout(&player.game);
    assert!(!play_reveal_found(&mut player));
    assert_eq!(layout(&player.game), before);
}

#[test]
fn a_plain_draw_always_gets_on() {
    let mut game = game_init();
    game.side_deck = vec![hidden('H', 9), hidden('S', 2)];
    let mut player = create_player(game);
    player.restrained = false;
    assert!(play_draw_hand(&mut player));
    assert_eq!(notes(&player), (2, false, false));
    assert_eq!(player.game.hand, vec![shown('S', 2), shown('H', 9)]);
    assert!(player.game.side_deck.is_empty());
}

#[test]
fn turning_the_waste_over_ends_the_restraint() {
    let mut game = game_init();
    game.hand = vec![shown('H', 9), shown('S', 2)];
    let mut player = create_player(game);
    player.played_this_round = true;
    assert!(play_draw_hand(&mut player));
    assert_eq!(notes(&player), (2, false, false));
    assert_eq!(player.game.side_deck, vec![hidden('S', 2), hidden('H', 9)]);
    assert!(player.game.hand.is_empty());
}

#[test]
fn turning_the_waste_over_after_a_free_round_with_moves_brings_restraint_back() {
    let mut game = game_init();
    game.hand = vec![shown('H', 9)];
    let mut player = create_player(game);
    player.restrained = false;
    player.played_this_round = true;
    assert!(play_draw_hand(&mut player));
    assert_eq!(notes(&player), (2, false, true));
}

#[test]
fn turning_the_waste_over_after_a_free_round_without_moves_is_the_end() {
    let mut game = game_init();
    game.hand = vec![shown('H', 9)];
    let mut player = create_player(game);
    player.restrained = false;
    assert!(!play_draw_hand(&mut player));
    assert_eq!(notes(&player), (2, false, false));
    assert_eq!(player.game.side_deck, vec![hidden('H', 9)]);
    assert!(player.game.hand.is_empty());
}

#[test]
fn a_player_without_a_move_draws() {
    let mut game = game_init();
    game.piles[0] = vec![shown('H', 9)];
    game.side_deck = vec![hidden('S', 3), hidden('D', 3), hidden('C', 3), hidden('H', 3)];
    let mut player = create_player(game);
    assert!(play_one_move(&mut player));
    assert_eq!(player.game.side_deck, vec![hidden('S', 3)]);
    assert_eq!(player.game.hand, vec![shown('H', 3), shown('C', 3), shown('D', 3)]);
    assert_eq!(notes(&player), (2, false, true));
    assert_eq!((player.game.moves, player.game.score), (0, 0));
}

#[test]
fn the_first_moves_of_the_unshuffled_deal() {
    let mut game = game_init();
    let mut d = deck();
    deal(&mut game, &mut d);
    let mut player = create_player(game);
    assert!(play_one_move(&mut player));
    assert_eq!(player.game.piles[1], vec![shown('S', 12)]);
    assert_eq!(player.game.piles[6].len(), 8);
    assert_eq!(player.game.piles[6][7], shown('S', 11));
    assert_eq!(player.game.piles[6][6], shown('D', 12));
    assert_eq!((player.game.moves, player.game.score), (1, 0));
}

#[test]
fn a_whole_game_keeps_the_table_in_order() {
    let mut game = game_init();
    let mut d = deck();
    deal(&mut game, &mut d);
    let mut player = create_player(game);
    let mut turns = 0;
    while turns < 5000 && !is_won(&player.game) {
        assert!(ready(&player));
        let moves = player.game.moves;
        let founded: usize = player.game.foundations.iter().map(|f| f.len()).sum();
        let progressed = play_one_move(&mut player);
        assert_eq!(card_total(&player.game), 52);
        assert!(player.game.moves == moves || player.game.moves == moves + 1);
        let now_founded: usize = player.game.foundations.iter().map(|f| f.len()).sum();
        assert!(now_founded == founded || now_founded == founded + 1);
        assert_eq!(player.game.score, 5 * now_founded as isize);
        for (f, s) in ['H', 'S', 'D', 'C'].iter().enumerate() {
            for (k, c) in player.game.foundations[f].iter().enumerate() {
                assert_eq!(*c, shown(*s, k as u8 + 1));
            }
        }
        for pile in player.game.piles.iter() {
            for k in 1..pile.len() {
                assert!(!pile[k - 1].up || pile[k].up);
            }
        }
        turns += 1;
        if !progressed {
            break;
        }
    }
    assert!(turns < 5000);
    assert!(is_well_formed(&player.game));
    assert!(turns > 10);
}
