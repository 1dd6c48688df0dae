//! Grid positions and the four cardinal movement directions.

use vstd::prelude::*;

verus! {

/// Coordinates of every actor and map cell stay well inside this bound, so
/// squared distances and neighbour arithmetic never overflow an `i64`.
pub const COORD_LIMIT: i32 = 0x10000;

/// An integer (x, y) grid coordinate. The y axis grows downwards, as on a
/// terminal screen.
#[derive(Clone, Copy, PartialEq, Eq, Structural, Debug)]
pub struct Pos {
    pub x: i32,
    pub y: i32,
}

/// One of the four cardinal directions a player move can take.
#[derive(Clone, Copy, PartialEq, Eq, Structural, Debug)]
pub enum Dir {
    North,
    South,
    East,
    West,
}

impl Dir {
    /// The unit step this direction stands for; north is (0, -1).
    pub open spec fn delta_spec(self) -> (int, int) {
        match self {
            Dir::North => (0, -1),
            Dir::South => (0, 1),
            Dir::East => (1, 0),
            Dir::West => (-1, 0),
        }
    }

    /// The unit step this direction stands for, as executable values.
    pub fn delta(self) -> (d: (i32, i32))
        ensures
            d.0 as int == self.delta_spec().0,
            d.1 as int == self.delta_spec().1,
    {
        match self {
            Dir::North => (0, -1),
            Dir::South => (0, 1),
            Dir::East => (1, 0),
            Dir::West => (-1, 0),
        }
    }
}

/// A value bounded in magnitude has a bounded, non-negative square.
pub proof fn lemma_square_bound(v: int, b: int)
    requires
        -b < v < b,
    ensures
        0 <= v * v < b * b,
{
    if v >= 0 {
        assert(v * v <= v * b < b * b) by (nonlinear_arith)
            requires 0 <= v < b;
    } else {
        assert(v * v == (-v) * (-v)) by (nonlinear_arith);
        assert((-v) * (-v) <= (-v) * b < b * b) by (nonlinear_arith)
            requires 0 < -v < b;
    }
    assert(0 <= v * v) by (nonlinear_arith);
}

impl Pos {
    /// Whether both coordinates lie strictly inside the global limit.
    pub open spec fn in_range(self) -> bool {
        -COORD_LIMIT < self.x < COORD_LIMIT && -COORD_LIMIT < self.y < COORD_LIMIT
    }

    /// The position one step from `self` in direction `d`.
    pub open spec fn stepped_spec(self, d: Dir) -> Pos {
        Pos {
            x: (self.x + d.delta_spec().0) as i32,
            y: (self.y + d.delta_spec().1) as i32,
        }
    }

    pub fn stepped(self, d: Dir) -> (p: Pos)
        requires
            self.in_range(),
        ensures
            p == self.stepped_spec(d),
            p.x == self.x + d.delta_spec().0,
            p.y == self.y + d.delta_spec().1,
    {
        let (dx, dy) = d.delta();
        Pos { x: self.x + dx, y: self.y + dy }
    }

    /// Squared Euclidean distance between two positions.
    pub open spec fn dist2_spec(self, other: Pos) -> int {
        let dx = other.x - self.x;
        let dy = other.y - self.y;
        dx * dx + dy * dy
    }

    /// Squared Euclidean distance; all branch tests of the enemy behaviour
    /// compare this against squared thresholds, so no square root is taken.
    pub fn dist2(self, other: Pos) -> (d: i64)
        requires
            self.in_range(),
            other.in_range(),
        ensures
            d == self.dist2_spec(other),
            d >= 0,
    {
        let dx: i64 = other.x as i64 - self.x as i64;
        let dy: i64 = other.y as i64 - self.y as i64;
        proof {
            lemma_square_bound(dx as int, 2 * COORD_LIMIT as int);
            lemma_square_bound(dy as int, 2 * COORD_LIMIT as int);
        }
        dx * dx + dy * dy
    }
}

} // verus!
