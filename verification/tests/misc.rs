use solitaire::keys::{
    depth_from_char, dest_index_from_char, src_index_from_char, DRAW_KEY, NO_KEY, RESTART_KEY,
};
use solitaire::stats::{elapsed_parts, per_second};

#[test]
fn source_keys() {
    let piles = ['1', '2', '3', '4', '5', '6', '7'];
    for (i, k) in piles.iter().enumerate() {
        assert_eq!(src_index_from_char(*k), i);
    }
    assert_eq!(src_index_from_char('q'), 11);
    assert_eq!(src_index_from_char('w'), 12);
    assert_eq!(src_index_from_char('r'), 13);
    assert_eq!(DRAW_KEY, 12);
    assert_eq!(RESTART_KEY, 13);
    assert_eq!(NO_KEY, 99);
    for k in ['0', '8', '9', 'h', 's', 'd', 'c', 'Q', ' ', 'x'] {
        assert_eq!(src_index_from_char(k), 99);
    }
}

#[test]
fn destination_keys() {
    let piles = ['1', '2', '3', '4', '5', '6', '7'];
    for (i, k) in piles.iter().enumerate() {
        assert_eq!(dest_index_from_char(*k), i);
    }
    assert_eq!(dest_index_from_char('h'), 7);
    assert_eq!(dest_index_from_char('s'), 8);
    assert_eq!(dest_index_from_char('d'), 9);
    assert_eq!(dest_index_from_char('c'), 10);
    for k in ['0', '8', '9', 'q', 'w', 'r', 'H', ' ', 'x'] {
        assert_eq!(dest_index_from_char(k), 99);
    }
}

#[test]
fn depth_keys() {
    let digits = ['1', '2', '3', '4', '5', '6', '7', '8', '9'];
    for (i, k) in digits.iter().enumerate() {
        assert_eq!(depth_from_char(*k), i + 1);
    }
    for k in ['0', 'q', 'h', ' ', ':', '/'] {
        assert_eq!(depth_from_char(k), 99);
    }
}

#[test]
fn elapsed_time_in_hours_minutes_seconds() {
    assert_eq!(elapsed_parts(0), (0, 0, 0));
    assert_eq!(elapsed_parts(59), (0, 0, 59));
    assert_eq!(elapsed_parts(60), (0, 1, 0));
    assert_eq!(elapsed_parts(3599), (0, 59, 59));
    assert_eq!(elapsed_parts(3600), (1, 0, 0));
    assert_eq!(elapsed_parts(3661), (1, 1, 1));
    assert_eq!(elapsed_parts(900), (0, 15, 0));
    assert_eq!(elapsed_parts(360_000 + 125), (100, 2, 5));
}

#[test]
fn rate_counts_the_second_that_has_begun() {
    assert_eq!(per_second(10, 0), 10);
    assert_eq!(per_second(10, 1), 5);
    assert_eq!(per_second(10, 4), 2);
    assert_eq!(per_second(10, 10), 0);
    assert_eq!(per_second(0, 7), 0);
    assert_eq!(per_second(1000, 899), 1);
}
