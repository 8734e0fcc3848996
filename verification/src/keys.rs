//! The keys by which a person names zones and depths.

use vstd::prelude::*;

verus! {

/// What the key functions return for a key that means nothing.
pub const NO_KEY: usize = 99;

/// What `src_index_from_char` returns for the key that asks for a draw.
pub const DRAW_KEY: usize = 12;

/// What `src_index_from_char` returns for the key that asks for a new game.
pub const RESTART_KEY: usize = 13;

/// The number that the digit key `ch` stands for, `'1'` to `'9'`, or 0 for
/// another key.
pub open spec fn digit_key(ch: char) -> int {
    if '1' <= ch && ch <= '9' {
        ch as int - '0' as int
    } else {
        0
    }
}

/// The source that a key names: `'1'` to `'7'` the piles 0 to 6, `'q'` the
/// waste, `'w'` a draw, `'r'` a new game; 99 for any other key.
pub fn src_index_from_char(ch: char) -> (zone: usize)
    ensures
        zone == if 1 <= digit_key(ch) <= 7 {
            digit_key(ch) - 1
        } else if ch == 'q' {
            11
        } else if ch == 'w' {
            DRAW_KEY as int
        } else if ch == 'r' {
            RESTART_KEY as int
        } else {
            NO_KEY as int
        },
{
    match ch {
        '1' => 0,
        '2' => 1,
        '3' => 2,
        '4' => 3,
        '5' => 4,
        '6' => 5,
        '7' => 6,
        'q' => 11,
        'w' => DRAW_KEY,
        'r' => RESTART_KEY,
        _ => NO_KEY,
    }
}

/// The destination that a key names: `'1'` to `'7'` the piles 0 to 6, `'h'`,
/// `'s'`, `'d'` and `'c'` the foundations 7 to 10; 99 for any other key.
pub fn dest_index_from_char(ch: char) -> (zone: usize)
    ensures
        zone == if 1 <= digit_key(ch) <= 7 {
            digit_key(ch) - 1
        } else if ch == 'h' {
            7
        } else if ch == 's' {
            8
        } else if ch == 'd' {
            9
        } else if ch == 'c' {
            10
        } else {
            NO_KEY as int
        },
{
    match ch {
        '1' => 0,
        '2' => 1,
        '3' => 2,
        '4' => 3,
        '5' => 4,
        '6' => 5,
        '7' => 6,
        'h' => 7,
        's' => 8,
        'd' => 9,
        'c' => 10,
        _ => NO_KEY,
    }
}

/// The depth that a key names: `'1'` to `'9'` the depths 1 to 9; 99 for any
/// other key.
pub fn depth_from_char(ch: char) -> (depth: usize)
    ensures
        depth == if 1 <= digit_key(ch) <= 9 {
            digit_key(ch)
        } else {
            NO_KEY as int
        },
{
    match ch {
        '1' => 1,
        '2' => 2,
        '3' => 3,
        '4' => 4,
        '5' => 5,
        '6' => 6,
        '7' => 7,
        '8' => 8,
        '9' => 9,
        _ => NO_KEY,
    }
}

} // verus!
