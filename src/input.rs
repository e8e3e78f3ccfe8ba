//! The command words the engine accepts: arrow keys and rotation directions.
use vstd::prelude::*;
use vstd::string::*;

verus! {

/// Compares two strings character by character.
pub fn same_text(a: &str, b: &str) -> (r: bool)
    ensures
        r == (a@ == b@),
{
    let n = a.unicode_len();
    if n != b.unicode_len() {
        return false;
    }
    let mut i: usize = 0;
    while i < n
        invariant
            n == a@.len(),
            n == b@.len(),
            i <= n,
            forall|k: int| 0 <= k < i ==> a@[k] == b@[k],
        decreases n - i,
    {
        if a.get_char(i) != b.get_char(i) {
            return false;
        }
        i += 1;
    }
    assert(a@ =~= b@);
    true
}

/// A quarter-turn direction.
#[derive(Clone, Copy, Debug, PartialEq, Eq, Structural)]
pub enum Rotation {
    Clockwise,
    CounterClockwise,
}

/// The rotation a direction word names: `"clockwise"` or `"counter-clockwise"`.
pub open spec fn rotation_named(direction: Seq<char>) -> Option<Rotation> {
    if direction == "clockwise"@ {
        Some(Rotation::Clockwise)
    } else if direction == "counter-clockwise"@ {
        Some(Rotation::CounterClockwise)
    } else {
        None
    }
}

pub fn parse_rotation(direction: &str) -> (r: Option<Rotation>)
    ensures
        r == rotation_named(direction@),
{
    if same_text(direction, "clockwise") {
        Some(Rotation::Clockwise)
    } else if same_text(direction, "counter-clockwise") {
        Some(Rotation::CounterClockwise)
    } else {
        None
    }
}

/// A unit step of the active piece.
#[derive(Clone, Copy, Debug, PartialEq, Eq, Structural)]
pub enum Arrow {
    Down,
    Left,
    Right,
}

/// The arrow an arrow-key name stands for: `"ArrowDown"`, `"ArrowLeft"` or `"ArrowRight"`.
pub open spec fn arrow_named(key: Seq<char>) -> Option<Arrow> {
    if key == "ArrowDown"@ {
        Some(Arrow::Down)
    } else if key == "ArrowLeft"@ {
        Some(Arrow::Left)
    } else if key == "ArrowRight"@ {
        Some(Arrow::Right)
    } else {
        None
    }
}

pub fn parse_arrow(key: &str) -> (r: Option<Arrow>)
    ensures
        r == arrow_named(key@),
{
    if same_text(key, "ArrowDown") {
        Some(Arrow::Down)
    } else if same_text(key, "ArrowLeft") {
        Some(Arrow::Left)
    } else if same_text(key, "ArrowRight") {
        Some(Arrow::Right)
    } else {
        None
    }
}

/// The `(row, column)` step of an arrow; no arrow means no step.
pub open spec fn arrow_step(a: Option<Arrow>) -> (i32, i32) {
    match a {
        Some(Arrow::Down) => (1i32, 0i32),
        Some(Arrow::Left) => (0i32, -1i32),
        Some(Arrow::Right) => (0i32, 1i32),
        None => (0i32, 0i32),
    }
}

pub fn step_of(a: Option<Arrow>) -> (r: (i32, i32))
    ensures
        r == arrow_step(a),
{
    match a {
        Some(Arrow::Down) => (1, 0),
        Some(Arrow::Left) => (0, -1),
        Some(Arrow::Right) => (0, 1),
        None => (0, 0),
    }
}

} // verus!
