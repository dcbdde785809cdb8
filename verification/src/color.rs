//! The letter-color model: the four colors, their total order, and the
//! "best color wins" merge rule used for the keyboard display.
//!
//! Colors are carried as the single characters the game prints:
//! 'G' (exact position), 'Y' (present elsewhere), 'R' (absent),
//! 'X' (no data yet), ordered 'X' < 'R' < 'Y' < 'G'.

use vstd::prelude::*;

verus! {

/// The four color characters.
pub open spec fn is_color(c: char) -> bool {
    c == 'G' || c == 'Y' || c == 'R' || c == 'X'
}

/// The colors a scored guess position can take (no-data never appears
/// in a score vector).
pub open spec fn is_score_color(c: char) -> bool {
    c == 'G' || c == 'Y' || c == 'R'
}

/// Rank of a color in the total order 'X' < 'R' < 'Y' < 'G'.
pub open spec fn color_rank(c: char) -> int
    recommends
        is_color(c),
{
    if c == 'G' {
        3
    } else if c == 'Y' {
        2
    } else if c == 'R' {
        1
    } else {
        0
    }
}

/// What `get_color_rank` returns: the rank of the four colors, and
/// nothing for any other character.
pub open spec fn spec_get_color_rank(c: char) -> Option<i32> {
    if c == 'G' {
        Some(3i32)
    } else if c == 'Y' {
        Some(2i32)
    } else if c == 'R' {
        Some(1i32)
    } else if c == 'X' {
        Some(0i32)
    } else {
        None
    }
}

/// Rank lookup for a color character; `None` for anything that is not
/// a color.
pub fn get_color_rank(val: char) -> (r: Option<i32>)
    ensures
        r == spec_get_color_rank(val),
        r is Some <==> is_color(val),
        r is Some ==> r->Some_0 == color_rank(val),
{
    match val {
        'G' => Some(3),
        'Y' => Some(2),
        'R' => Some(1),
        'X' => Some(0),
        _ => None,
    }
}

/// The keyboard merge rule: keep the better-ranked color.
pub open spec fn spec_merge_color(old_color: char, new_color: char) -> char {
    if color_rank(new_color) > color_rank(old_color) {
        new_color
    } else {
        old_color
    }
}

/// Merge a newly observed color into a previously recorded one; the
/// recorded color never goes down in rank.
pub fn merge_color(old_color: char, new_color: char) -> (r: char)
    requires
        is_color(old_color),
        is_color(new_color),
    ensures
        r == spec_merge_color(old_color, new_color),
        is_color(r),
        color_rank(r) >= color_rank(old_color),
        color_rank(r) >= color_rank(new_color),
{
    let old_rank = match get_color_rank(old_color) {
        Some(k) => k,
        None => 0,
    };
    let new_rank = match get_color_rank(new_color) {
        Some(k) => k,
        None => 0,
    };
    if new_rank > old_rank {
        new_color
    } else {
        old_color
    }
}

} // verus!
