use vstd::prelude::*;

verus! {

/// A grid cell, with `x` first.
pub type Position = (i32, i32);

/// Whether `p` lies on the board: both coordinates between 0 and the
/// corresponding bound, all inclusive.
pub open spec fn in_bounds(p: Position, width: i32, height: i32) -> bool {
    0 <= p.0 <= width && 0 <= p.1 <= height
}

pub open spec fn abs_val(x: int) -> int {
    if x < 0 {
        -x
    } else {
        x
    }
}

/// Manhattan distance between two cells.
pub open spec fn manhattan(a: Position, b: Position) -> int {
    abs_val(a.0 - b.0) + abs_val(a.1 - b.1)
}

pub open spec fn signum(x: int) -> int {
    if x > 0 {
        1
    } else if x < 0 {
        -1
    } else {
        0
    }
}

/// Clamps `x` into `[0, hi]`.
pub open spec fn clamp_to(x: int, hi: int) -> int {
    if x < 0 {
        0
    } else if x > hi {
        hi
    } else {
        x
    }
}

/// One step from `cur` toward `target`: a signed unit step per axis
/// (diagonals allowed), each coordinate clamped to the board.
pub open spec fn step_toward(cur: Position, target: Position, width: i32, height: i32) -> Position {
    (
        clamp_to(cur.0 + signum(target.0 - cur.0), width as int) as i32,
        clamp_to(cur.1 + signum(target.1 - cur.1), height as int) as i32,
    )
}

/// Strict lexicographic order on cells, `x` major.
pub open spec fn lex_lt(a: Position, b: Position) -> bool {
    a.0 < b.0 || (a.0 == b.0 && a.1 < b.1)
}

/// Whether `p` is one of the eight neighbors of `cur`.
pub open spec fn adjacent8(cur: Position, p: Position) -> bool {
    p != cur && abs_val(p.0 - cur.0) <= 1 && abs_val(p.1 - cur.1) <= 1
}

/// Equality of two cells.
pub fn same_cell(a: Position, b: Position) -> (r: bool)
    ensures
        r == (a == b),
{
    a.0 == b.0 && a.1 == b.1
}

/// Whether `v` holds the cell `p`.
pub fn contains_cell(v: &Vec<Position>, p: Position) -> (r: bool)
    ensures
        r == v@.contains(p),
{
    let mut i: usize = 0;
    while i < v.len()
        invariant
            0 <= i <= v@.len(),
            forall|j: int| 0 <= j < i ==> #[trigger] v@[j] != p,
        decreases v@.len() - i,
    {
        if same_cell(v[i], p) {
            return true;
        }
        i = i + 1;
    }
    false
}

/// Exact Manhattan distance, computed without overflow.
pub fn manhattan_dist(a: Position, b: Position) -> (d: i64)
    ensures
        d == manhattan(a, b),
{
    let dx: i64 = (a.0 as i64) - (b.0 as i64);
    let dy: i64 = (a.1 as i64) - (b.1 as i64);
    let adx: i64 = if dx < 0 { -dx } else { dx };
    let ady: i64 = if dy < 0 { -dy } else { dy };
    adx + ady
}

/// Executable counterpart of [`step_toward`].
pub fn step_toward_cell(cur: Position, target: Position, width: i32, height: i32) -> (p: Position)
    requires
        width >= 0,
        height >= 0,
    ensures
        p == step_toward(cur, target, width, height),
        in_bounds(p, width, height),
{
    let dx: i64 = (target.0 as i64) - (cur.0 as i64);
    let dy: i64 = (target.1 as i64) - (cur.1 as i64);
    let sx: i64 = if dx > 0 { 1 } else if dx < 0 { -1 } else { 0 };
    let sy: i64 = if dy > 0 { 1 } else if dy < 0 { -1 } else { 0 };
    let nx: i64 = cur.0 as i64 + sx;
    let ny: i64 = cur.1 as i64 + sy;
    let cx: i64 = if nx < 0 { 0 } else if nx > width as i64 { width as i64 } else { nx };
    let cy: i64 = if ny < 0 { 0 } else if ny > height as i64 { height as i64 } else { ny };
    (cx as i32, cy as i32)
}

} // verus!
