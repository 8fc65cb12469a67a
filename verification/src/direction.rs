//! Directions on the grid and the mirror reflection rule.

use vstd::prelude::*;

verus! {

/// One of the four unit steps on the grid, as a (row, column) delta:
/// `Up` is (-1, 0), `Down` is (1, 0), `Left` is (0, -1), `Right` is (0, 1).
#[derive(Clone, Copy, PartialEq, Eq, Structural, Debug)]
pub enum Direction {
    Up,
    Down,
    Left,
    Right,
}

/// The two diagonal orientations a mirror can take: `Forward` is `/`,
/// `Backward` is `\`.
#[derive(Clone, Copy, PartialEq, Eq, Structural, Debug)]
pub enum Orientation {
    Forward,
    Backward,
}

impl Direction {
    /// Row component of the unit vector.
    pub open spec fn drow(self) -> int {
        match self {
            Direction::Up => -1,
            Direction::Down => 1,
            Direction::Left => 0,
            Direction::Right => 0,
        }
    }

    /// Column component of the unit vector.
    pub open spec fn dcol(self) -> int {
        match self {
            Direction::Up => 0,
            Direction::Down => 0,
            Direction::Left => -1,
            Direction::Right => 1,
        }
    }

    /// The direction pointing the opposite way.
    pub open spec fn spec_opposite(self) -> Direction {
        match self {
            Direction::Up => Direction::Down,
            Direction::Down => Direction::Up,
            Direction::Left => Direction::Right,
            Direction::Right => Direction::Left,
        }
    }

    /// The direction pointing the opposite way.
    pub fn opposite(self) -> (r: Direction)
        ensures
            r == self.spec_opposite(),
    {
        match self {
            Direction::Up => Direction::Down,
            Direction::Down => Direction::Up,
            Direction::Left => Direction::Right,
            Direction::Right => Direction::Left,
        }
    }

    /// The cell one step from `(row, col)` in this direction.
    /// The caller keeps coordinates at least 1 and leaves headroom above,
    /// so the step can neither underflow nor overflow.
    pub fn step(self, row: u16, col: u16) -> (rc: (u16, u16))
        requires
            1 <= row < 0xFFFF,
            1 <= col < 0xFFFF,
        ensures
            rc.0 as int == row + self.drow(),
            rc.1 as int == col + self.dcol(),
    {
        match self {
            Direction::Up => (row - 1, col),
            Direction::Down => (row + 1, col),
            Direction::Left => (row, col - 1),
            Direction::Right => (row, col + 1),
        }
    }
}

/// Where a beam travelling in direction `d` heads after striking a mirror
/// of orientation `o`. On the unit vector (dr, dc), a `/` mirror yields
/// (-dc, -dr) and a `\` mirror yields (dc, dr): a deterministic 90-degree
/// turn either way.
pub open spec fn spec_reflect(d: Direction, o: Orientation) -> Direction {
    match o {
        Orientation::Forward => match d {
            Direction::Up => Direction::Right,
            Direction::Down => Direction::Left,
            Direction::Left => Direction::Down,
            Direction::Right => Direction::Up,
        },
        Orientation::Backward => match d {
            Direction::Up => Direction::Left,
            Direction::Down => Direction::Right,
            Direction::Left => Direction::Up,
            Direction::Right => Direction::Down,
        },
    }
}

/// The reflected direction really is the vector rule applied to `d`:
/// `/` negates and swaps the components, `\` just swaps them.
pub proof fn lemma_reflect_is_vector_rule(d: Direction, o: Orientation)
    ensures
        o is Forward ==> spec_reflect(d, o).drow() == -d.dcol()
            && spec_reflect(d, o).dcol() == -d.drow(),
        o is Backward ==> spec_reflect(d, o).drow() == d.dcol()
            && spec_reflect(d, o).dcol() == d.drow(),
{
}

/// Reflecting twice is fully determined by the pair of orientations:
/// two mirrors of the same orientation restore the original direction,
/// two mirrors of different orientations reverse it.
pub proof fn lemma_double_reflect(d: Direction, o1: Orientation, o2: Orientation)
    ensures
        spec_reflect(spec_reflect(d, o1), o2) == (if o1 == o2 {
            d
        } else {
            d.spec_opposite()
        }),
{
}

/// Exec form of the reflection rule.
pub fn reflect(d: Direction, o: Orientation) -> (r: Direction)
    ensures
        r == spec_reflect(d, o),
{
    match o {
        Orientation::Forward => match d {
            Direction::Up => Direction::Right,
            Direction::Down => Direction::Left,
            Direction::Left => Direction::Down,
            Direction::Right => Direction::Up,
        },
        Orientation::Backward => match d {
            Direction::Up => Direction::Left,
            Direction::Down => Direction::Right,
            Direction::Left => Direction::Up,
            Direction::Right => Direction::Down,
        },
    }
}

} // verus!
