use vstd::prelude::*;

verus! {

/// A 2D coordinate on the grid: an immutable value type with structural
/// equality.
#[derive(Clone, Copy, PartialEq, Eq, Structural, Debug)]
pub struct Position {
    pub x: usize,
    pub y: usize,
}

impl Position {
    pub fn new(x: usize, y: usize) -> (r: Position)
        ensures
            r == (Position { x, y }),
    {
        Position { x, y }
    }
}

/// Attaches a `Position` to an entity.
#[derive(Clone, Copy, PartialEq, Eq, Structural, Debug)]
pub struct PositionComponent {
    pub position: Position,
}

impl PositionComponent {
    pub fn new(position: Position) -> (r: PositionComponent)
        ensures
            r.position == position,
    {
        PositionComponent { position }
    }
}

/// `r` is the square root of `s`, rounded down to an integer.
pub open spec fn is_floor_sqrt(s: int, r: int) -> bool {
    &&& 0 <= r
    &&& r * r <= s
    &&& s < (r + 1) * (r + 1)
}

/// The absolute difference of two coordinates.
pub open spec fn abs_diff(a: int, b: int) -> int {
    if a >= b {
        a - b
    } else {
        b - a
    }
}

/// The distance from the origin to `position`, rounded down.
pub fn get_length(position: Position) -> (r: usize)
    requires
        position.x * position.x + position.y * position.y <= usize::MAX,
    ensures
        is_floor_sqrt(position.x * position.x + position.y * position.y, r as int),
{
    let s: u128 = (position.x as u128) * (position.x as u128) + (position.y as u128) * (position.y
        as u128);
    let mut r: u128 = 0;
    loop
        invariant
            s <= usize::MAX,
            r * r <= s,
            r <= s,
            r <= 0x1_0000_0000,
        ensures
            r * r <= s,
            s < (r + 1) * (r + 1),
            r <= s,
        decreases s - r,
    {
        proof {
            assert(r <= 0x1_0000_0000 ==> (r + 1) * (r + 1)
                <= 0x1_0000_0001_0000_0002_0000_0001) by (nonlinear_arith);
        }
        let next: u128 = (r + 1) * (r + 1);
        if next > s {
            break ;
        }
        r = r + 1;
        proof {
            assert(r * r <= s && 1 <= r ==> r <= s) by (nonlinear_arith);
            assert(r * r <= s && s < 0x1_0000_0000_0000_0000 ==> r <= 0x1_0000_0000)
                by (nonlinear_arith);
            assert(s < 0x1_0000_0000_0000_0000);
        }
    }
    r as usize
}

/// The componentwise absolute difference of two positions.
pub fn abs_substract_positions(position1: Position, position2: Position) -> (r: Position)
    ensures
        r.x == abs_diff(position1.x as int, position2.x as int),
        r.y == abs_diff(position1.y as int, position2.y as int),
{
    let x = if position1.x >= position2.x {
        position1.x - position2.x
    } else {
        position2.x - position1.x
    };
    let y = if position1.y >= position2.y {
        position1.y - position2.y
    } else {
        position2.y - position1.y
    };
    Position::new(x, y)
}

/// The Euclidean distance between two positions, rounded down.
pub fn get_distance(position1: Position, position2: Position) -> (r: usize)
    requires
        abs_diff(position1.x as int, position2.x as int) * abs_diff(
            position1.x as int,
            position2.x as int,
        ) + abs_diff(position1.y as int, position2.y as int) * abs_diff(
            position1.y as int,
            position2.y as int,
        ) <= usize::MAX,
    ensures
        is_floor_sqrt(
            abs_diff(position1.x as int, position2.x as int) * abs_diff(
                position1.x as int,
                position2.x as int,
            ) + abs_diff(position1.y as int, position2.y as int) * abs_diff(
                position1.y as int,
                position2.y as int,
            ),
            r as int,
        ),
{
    get_length(abs_substract_positions(position1, position2))
}

} // verus!
