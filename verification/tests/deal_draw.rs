use solitaire::card::Card;
use solitaire::game::{
    arrange, deal, deck, draw, game_init, game_restart, is_well_formed, new_game, shuffle,
    take_card, Game, DEAL_COST,
};

fn face_up(suit: char, number: u8) -> Card {
    Card { suit, number, up: true }
}

fn face_down(suit: char, number: u8) -> Card {
    Card { suit, number, up: false }
}

fn count_of(cards: &[Card], suit: char, number: u8) -> usize {
    cards.iter().filter(|c| c.suit == suit && c.number == number).count()
}

fn all_cards(game: &Game) -> Vec<Card> {
    let mut all: Vec<Card> = Vec::new();
    for pile in game.piles.iter() {
        all.extend(pile.iter().copied());
    }
    for found in game.foundations.iter() {
        all.extend(found.iter().copied());
    }
    all.extend(game.side_deck.iter().copied());
    all.extend(game.hand.iter().copied());
    all
}

fn holds_the_deck_once(cards: &[Card]) -> bool {
    cards.len() == 52
        && ['H', 'D', 'C', 'S']
            .iter()
            .all(|s| (1..=13).all(|n| count_of(cards, *s, n) == 1))
}

#[test]
fn fresh_deck_runs_through_the_suits() {
    let d = deck();
    assert_eq!(d.len(), 52);
    assert_eq!(d[0], face_down('H', 1));
    assert_eq!(d[12], face_down('H', 13));
    assert_eq!(d[13], face_down('D', 1));
    assert_eq!(d[25], face_down('D', 13));
    assert_eq!(d[26], face_down('C', 1));
    assert_eq!(d[39], face_down('S', 1));
    assert_eq!(d[51], face_down('S', 13));
    for (k, c) in d.iter().enumerate() {
        assert_eq!(c.suit, ['H', 'D', 'C', 'S'][k / 13]);
        assert_eq!(c.number as usize, k % 13 + 1);
        assert!(!c.up);
    }
    assert!(holds_the_deck_once(&d));
}

#[test]
fn deal_lays_out_seven_piles_and_a_stock() {
    let mut game = game_init();
    let mut d = deck();
    deal(&mut game, &mut d);
    for i in 0..7 {
        assert_eq!(game.piles[i].len(), i + 1);
        for (j, c) in game.piles[i].iter().enumerate() {
            assert_eq!(c.up, j == i);
        }
    }
    assert_eq!(game.side_deck.len(), 24);
    assert!(game.side_deck.iter().all(|c| !c.up));
    assert!(game.hand.is_empty());
    assert!(game.foundations.iter().all(|f| f.is_empty()));
    assert_eq!(d.len(), 24);
    assert!(is_well_formed(&game));
    assert!(holds_the_deck_once(&all_cards(&game)));
}

#[test]
fn deal_takes_the_cards_from_the_end_of_the_deck() {
    let mut game = game_init();
    let mut d = deck();
    deal(&mut game, &mut d);
    assert_eq!(game.piles[0], vec![face_up('S', 13)]);
    assert_eq!(game.piles[1], vec![face_down('S', 12), face_up('S', 11)]);
    assert_eq!(game.piles[2], vec![face_down('S', 10), face_down('S', 9), face_up('S', 8)]);
    assert_eq!(
        game.piles[4],
        vec![
            face_down('S', 3),
            face_down('S', 2),
            face_down('S', 1),
            face_down('C', 13),
            face_up('C', 12)
        ]
    );
    assert_eq!(game.piles[6][0], face_down('C', 5));
    assert_eq!(game.piles[6][5], face_down('D', 13));
    assert_eq!(game.piles[6][6], face_up('D', 12));
    assert_eq!(game.side_deck, deck()[..24].to_vec());
    assert_eq!(game.side_deck[23], face_down('D', 11));
    assert_eq!(d, deck()[..24].to_vec());
}

#[test]
fn deal_turns_the_cards_as_they_must_lie() {
    let mut game = game_init();
    let mut d: Vec<Card> = deck().iter().map(|c| Card { up: c.number % 2 == 0, ..*c }).collect();
    deal(&mut game, &mut d);
    for i in 0..7 {
        for (j, c) in game.piles[i].iter().enumerate() {
            assert_eq!(c.up, j == i);
        }
    }
    assert!(game.side_deck.iter().all(|c| !c.up));
    assert!(is_well_formed(&game));
}

#[test]
fn deal_clears_what_lay_on_the_table_and_keeps_the_tally() {
    let mut game = game_init();
    game.hand = vec![face_up('H', 3)];
    game.foundations[1] = vec![face_up('S', 1)];
    game.piles[6] = vec![face_up('D', 4); 9];
    game.side_deck = vec![face_down('C', 4); 30];
    game.score = 17;
    game.games = 2;
    game.wins = 1;
    game.moves = 40;
    let mut d = deck();
    d.truncate(30);
    deal(&mut game, &mut d);
    assert_eq!(d.len(), 2);
    assert_eq!(game.side_deck, vec![face_down('H', 1), face_down('H', 2)]);
    assert!(game.hand.is_empty());
    assert!(game.foundations.iter().all(|f| f.is_empty()));
    assert_eq!(game.piles[6].len(), 7);
    assert_eq!(game.piles[0], vec![face_up('C', 4)]);
    assert_eq!(game.piles[1], vec![face_down('C', 3), face_up('C', 2)]);
    assert_eq!((game.score, game.games, game.wins, game.moves), (17, 2, 1, 40));
}

#[test]
fn draw_moves_three_cards_and_then_turns_the_waste_over() {
    let mut game = game_init();
    let mut d = deck();
    deal(&mut game, &mut d);
    let stock = game.side_deck.clone();
    let piles = game.piles.clone();
    for round in 1..=8 {
        assert!(!draw(&mut game));
        assert_eq!(game.hand.len(), 3 * round);
        assert_eq!(game.side_deck.len(), 24 - 3 * round);
        assert_eq!(game.side_deck[..], stock[..24 - 3 * round]);
        for (k, c) in game.hand.iter().enumerate() {
            assert_eq!(*c, Card { up: true, ..stock[23 - k] });
        }
    }
    assert!(game.side_deck.is_empty());
    assert_eq!(game.hand[0], face_up('D', 11));
    assert_eq!(game.hand[23], face_up('H', 1));
    assert!(draw(&mut game));
    assert!(game.hand.is_empty());
    assert_eq!(game.side_deck, stock);
    assert_eq!(game.piles, piles);
    assert!(is_well_formed(&game));
    assert!(holds_the_deck_once(&all_cards(&game)));
}

#[test]
fn draw_takes_what_is_left_of_a_short_stock() {
    let mut game = game_init();
    game.side_deck =
        vec![face_down('H', 1), face_down('H', 2), face_down('H', 3), face_down('H', 4)];
    game.hand = vec![face_up('S', 9)];
    assert!(!draw(&mut game));
    assert_eq!(game.side_deck, vec![face_down('H', 1)]);
    assert_eq!(
        game.hand,
        vec![face_up('S', 9), face_up('H', 4), face_up('H', 3), face_up('H', 2)]
    );
    assert!(!draw(&mut game));
    assert!(game.side_deck.is_empty());
    assert_eq!(game.hand.len(), 5);
    assert_eq!(game.hand[4], face_up('H', 1));
    assert!(draw(&mut game));
    assert_eq!(
        game.side_deck,
        vec![
            face_down('H', 1),
            face_down('H', 2),
            face_down('H', 3),
            face_down('H', 4),
            face_down('S', 9)
        ]
    );
    assert!(game.hand.is_empty());
}

#[test]
fn draw_on_an_empty_table_only_reports_the_turn() {
    let mut game = game_init();
    assert!(draw(&mut game));
    assert!(game.side_deck.is_empty());
    assert!(game.hand.is_empty());
    assert_eq!((game.score, game.games, game.wins, game.moves), (0, 0, 0, 0));
}

#[test]
fn take_card_picks_by_remainder() {
    let mut rest = vec![face_down('H', 1), face_down('H', 2), face_down('H', 3)];
    assert_eq!(take_card(&mut rest, 7), face_down('H', 2));
    assert_eq!(rest, vec![face_down('H', 1), face_down('H', 3)]);
    assert_eq!(take_card(&mut rest, 4), face_down('H', 1));
    assert_eq!(rest, vec![face_down('H', 3)]);
    assert_eq!(take_card(&mut rest, usize::MAX), face_down('H', 3));
    assert!(rest.is_empty());
}

#[test]
fn shuffle_rearranges_the_deck() {
    let d = deck();
    for _ in 0..20 {
        let s = shuffle(&d);
        assert!(holds_the_deck_once(&s));
        assert!(s.iter().all(|c| !c.up));
    }
    assert!(shuffle(&[]).is_empty());
    let three = [face_up('H', 1), face_down('H', 1), face_up('C', 5)];
    let s = shuffle(&three);
    assert_eq!(s.len(), 3);
    for c in three.iter() {
        assert_eq!(s.iter().filter(|x| *x == c).count(), 1);
    }
}

#[test]
fn shuffle_does_not_always_give_the_same_order() {
    let d = deck();
    let first = shuffle(&d);
    let mut differs = false;
    for _ in 0..10 {
        if shuffle(&d) != first {
            differs = true;
        }
    }
    assert!(differs);
}

#[test]
fn game_restart_deals_the_whole_deck_and_charges_for_it() {
    let mut game = game_init();
    game.hand = vec![face_up('H', 3)];
    game.score = 10;
    game.wins = 4;
    game.moves = 9;
    assert_eq!(DEAL_COST, 52);
    game_restart(&mut game);
    assert_eq!((game.score, game.games, game.wins, game.moves), (-42, 1, 4, 9));
    assert!(is_well_formed(&game));
    assert!(holds_the_deck_once(&all_cards(&game)));
    assert_eq!(game.side_deck.len(), 24);
    assert!(game.hand.is_empty());
    for i in 0..7 {
        assert_eq!(game.piles[i].len(), i + 1);
    }
    game_restart(&mut game);
    assert_eq!((game.score, game.games), (-94, 2));
    assert!(holds_the_deck_once(&all_cards(&game)));
}

#[test]
fn a_new_game_is_empty() {
    let game = game_init();
    assert!(game.piles.iter().all(|p| p.is_empty()));
    assert!(game.foundations.iter().all(|f| f.is_empty()));
    assert!(game.side_deck.is_empty());
    assert!(game.hand.is_empty());
    assert_eq!((game.score, game.games, game.wins, game.moves), (0, 0, 0, 0));
    assert!(game.started.elapsed().as_secs() < 3600);
}

#[test]
fn arrange_takes_the_cards_that_the_numbers_pick() {
    let four = [face_down('H', 1), face_down('H', 2), face_down('H', 3), face_down('H', 4)];
    assert_eq!(
        arrange(&four, &[1, 5, 0, 9]),
        vec![face_down('H', 2), face_down('H', 4), face_down('H', 1), face_down('H', 3)]
    );
    assert_eq!(arrange(&four, &[0, 0, 0, 0]), four.to_vec());
    assert_eq!(
        arrange(&four, &[3, 2, 1, 0, 77]),
        vec![face_down('H', 4), face_down('H', 3), face_down('H', 2), face_down('H', 1)]
    );
    assert_eq!(
        arrange(&four, &[usize::MAX, 4, 7, 2]),
        vec![
            four[usize::MAX % 4],
            arrange(&four, &[usize::MAX, 4, 7, 2])[1],
            arrange(&four, &[usize::MAX, 4, 7, 2])[2],
            arrange(&four, &[usize::MAX, 4, 7, 2])[3]
        ]
    );
    assert!(arrange(&[], &[]).is_empty());
    assert!(holds_the_deck_once(&arrange(&deck(), &[17; 52])));
    assert_eq!(arrange(&deck(), &[17; 52])[0], face_down('D', 5));
}

#[test]
fn new_game_is_a_deal_with_an_empty_tally() {
    let mut d = deck();
    let game = new_game(&mut d);
    let mut other = game_init();
    let mut e = deck();
    deal(&mut other, &mut e);
    assert_eq!(game.piles, other.piles);
    assert_eq!(game.side_deck, other.side_deck);
    assert!(game.hand.is_empty());
    assert!(game.foundations.iter().all(|f| f.is_empty()));
    assert_eq!((game.score, game.games, game.wins, game.moves), (0, 0, 0, 0));
    assert_eq!(d.len(), 24);
    assert!(is_well_formed(&game));
}
