//! The classic rule set: points per clear, lines needed per level, and how many
//! ticks the piece waits between steps at each level.
use vstd::prelude::*;

verus! {

/// Points for clearing `n` rows at once at level 0; more than four cannot
/// happen with four-cell pieces and scores nothing.
pub open spec fn base_points(n: int) -> int {
    if n == 1 {
        100
    } else if n == 2 {
        300
    } else if n == 3 {
        500
    } else if n == 4 {
        800
    } else {
        0
    }
}

/// Points awarded for clearing `n` rows at once at `level`.
pub open spec fn points_for(n: int, level: int) -> int {
    base_points(n) * (level + 1)
}

pub fn score_for_lines(n_lines_cleared: u32, level: u16) -> (points: u64)
    ensures
        points == points_for(n_lines_cleared as int, level as int),
{
    let base_points: u64 = match n_lines_cleared {
        0 => 0,
        1 => 100,
        2 => 300,
        3 => 500,
        4 => 800,
        _ => 0,
    };
    assert(base_points * (level + 1) <= 800 * 65536) by (nonlinear_arith)
        requires
            base_points <= 800,
            level < 65536,
    ;
    base_points * (level as u64 + 1)
}

/// Total lines that must have been cleared to leave `level`:
/// 10 at level 0, then 10 * level more for each level after it.
pub open spec fn lines_needed(level: int) -> int
    decreases level,
{
    if level < 1 {
        10
    } else {
        10 * level + lines_needed(level - 1)
    }
}

/// The threshold in closed form.
pub proof fn lemma_lines_needed_closed_form(level: int)
    requires
        level >= 0,
    ensures
        lines_needed(level) == 10 + 5 * level * (level + 1),
    decreases level,
{
    if level >= 1 {
        lemma_lines_needed_closed_form(level - 1);
        assert(lines_needed(level - 1) == 10 + 5 * (level - 1) * level);
        assert(10 * level + 10 + 5 * (level - 1) * level == 10 + 5 * level * (level + 1))
            by (nonlinear_arith);
        assert(lines_needed(level) == 10 * level + lines_needed(level - 1));
    } else {
        assert(5 * level * (level + 1) == 0) by (nonlinear_arith)
            requires
                level == 0,
        ;
    }
}

/// A threshold that fits in 32 bits belongs to a level below 65535.
pub proof fn lemma_lines_needed_bounds_level(level: int)
    requires
        level >= 0,
        lines_needed(level) <= u32::MAX,
    ensures
        level < 65535,
{
    lemma_lines_needed_closed_form(level);
    if level >= 65535 {
        assert(5 * level * (level + 1) >= 5 * 65535 * 65536) by (nonlinear_arith)
            requires
                level >= 65535,
        ;
    }
}

pub fn lines_needed_for_level(level: u16) -> (n: u64)
    ensures
        n == lines_needed(level as int),
{
    proof {
        lemma_lines_needed_closed_form(level as int);
        assert(5 * level * (level + 1) <= 5 * 65535 * 65536) by (nonlinear_arith)
            requires
                level <= 65535,
        ;
    }
    let l = level as u64;
    10 + 5 * l * (l + 1)
}

/// Ticks the active piece waits between two gravity steps at `level`.
pub open spec fn wait_ticks(level: int) -> int {
    if level <= 8 {
        48 - 5 * level
    } else if level == 9 {
        6
    } else if level <= 12 {
        5
    } else if level <= 15 {
        4
    } else if level <= 18 {
        3
    } else if level <= 28 {
        2
    } else {
        1
    }
}

pub fn wait_ticks_for_level(level: u16) -> (ticks: u32)
    ensures
        ticks == wait_ticks(level as int),
{
    match level {
        0..=8 => 48 - 5 * level as u32,
        9 => 6,
        10..=12 => 5,
        13..=15 => 4,
        16..=18 => 3,
        19..=28 => 2,
        _ => 1,
    }
}

} // verus!
