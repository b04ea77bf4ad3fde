//! Cells, directions and the one-step movement rule on a bounded board.

use vstd::prelude::*;

verus! {

/// A direction of travel on the board; `Up` decreases `y`, `Left` decreases `x`.
#[derive(Clone, Copy, Debug, PartialEq, Eq, Structural)]
pub enum Direction {
    Up,
    Down,
    Left,
    Right,
}

/// A cell of the board, 0-indexed by column `x` and row `y`.
#[derive(Clone, Copy, Debug, PartialEq, Eq, Structural)]
pub struct Point {
    pub x: usize,
    pub y: usize,
}

impl Direction {
    pub open spec fn opposite_spec(self) -> Direction {
        match self {
            Direction::Up => Direction::Down,
            Direction::Down => Direction::Up,
            Direction::Left => Direction::Right,
            Direction::Right => Direction::Left,
        }
    }

    /// The direction that points the other way.
    pub fn opposite(self) -> (r: Direction)
        ensures
            r == self.opposite_spec(),
    {
        match self {
            Direction::Up => Direction::Down,
            Direction::Down => Direction::Up,
            Direction::Left => Direction::Right,
            Direction::Right => Direction::Left,
        }
    }
}

/// Whether `p` lies on a board of `width` columns and `height` rows.
pub open spec fn in_bounds(p: Point, width: nat, height: nat) -> bool {
    p.x < width && p.y < height
}

/// The cell one step from `p` towards `d`, or `None` where that step would
/// leave the board `[0, width) x [0, height)`.
pub open spec fn shifted(p: Point, d: Direction, width: nat, height: nat) -> Option<Point> {
    match d {
        Direction::Up => if p.y == 0 {
            None
        } else {
            Some(Point { x: p.x, y: (p.y - 1) as usize })
        },
        Direction::Down => if p.y + 1 >= height {
            None
        } else {
            Some(Point { x: p.x, y: (p.y + 1) as usize })
        },
        Direction::Left => if p.x == 0 {
            None
        } else {
            Some(Point { x: (p.x - 1) as usize, y: p.y })
        },
        Direction::Right => if p.x + 1 >= width {
            None
        } else {
            Some(Point { x: (p.x + 1) as usize, y: p.y })
        },
    }
}

/// Moves `p` one step towards `d`. The bounds are tested first, so no
/// coordinate outside the board is ever formed.
pub fn shift(p: Point, d: Direction, width: usize, height: usize) -> (r: Option<Point>)
    ensures
        r == shifted(p, d, width as nat, height as nat),
{
    match d {
        Direction::Up => if p.y == 0 {
            None
        } else {
            Some(Point { x: p.x, y: p.y - 1 })
        },
        Direction::Down => if height == 0 || p.y >= height - 1 {
            None
        } else {
            Some(Point { x: p.x, y: p.y + 1 })
        },
        Direction::Left => if p.x == 0 {
            None
        } else {
            Some(Point { x: p.x - 1, y: p.y })
        },
        Direction::Right => if width == 0 || p.x >= width - 1 {
            None
        } else {
            Some(Point { x: p.x + 1, y: p.y })
        },
    }
}

/// Whether `p` is one of `cells`.
pub fn occupies(cells: &Vec<Point>, p: Point) -> (r: bool)
    ensures
        r == cells@.contains(p),
{
    let mut i: usize = 0;
    while i < cells.len()
        invariant
            0 <= i <= cells@.len(),
            forall|j: int| 0 <= j < i ==> cells@[j] != p,
        decreases cells@.len() - i,
    {
        if cells[i] == p {
            assert(cells@[i as int] == p);
            return true;
        }
        i = i + 1;
    }
    false
}

} // verus!
