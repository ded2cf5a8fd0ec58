use crate::dir::Dir;
use vstd::prelude::*;

verus! {

/// A point on a 2D grid; `y` grows southwards and `x` eastwards.
#[derive(Debug, Copy, Clone, Eq, PartialEq, Structural, Hash)]
pub struct Point {
    /// The position along the x-axis.
    pub x: i32,
    /// The position along the y-axis.
    pub y: i32,
}

/// How far one step in `d` moves along the x-axis.
pub open spec fn step_x(d: Dir) -> int {
    match d {
        Dir::East | Dir::NorthEast | Dir::SouthEast => 1,
        Dir::West | Dir::NorthWest | Dir::SouthWest => -1,
        _ => 0,
    }
}

/// How far one step in `d` moves along the y-axis.
pub open spec fn step_y(d: Dir) -> int {
    match d {
        Dir::South | Dir::SouthEast | Dir::SouthWest => 1,
        Dir::North | Dir::NorthEast | Dir::NorthWest => -1,
        _ => 0,
    }
}

/// The absolute value of `a`.
pub open spec fn abs(a: int) -> int {
    if a < 0 {
        -a
    } else {
        a
    }
}

/// `a` fits in an `i32`.
pub open spec fn fits_i32(a: int) -> bool {
    i32::MIN <= a <= i32::MAX
}

impl Point {
    /// Takes one step in direction `dir`; `NoDirection` stays in place.
    pub fn walk(self, dir: Dir) -> (r: Self)
        requires
            fits_i32(self.x + step_x(dir)),
            fits_i32(self.y + step_y(dir)),
        ensures
            r.x == self.x + step_x(dir),
            r.y == self.y + step_y(dir),
    {
        match dir {
            Dir::NoDirection => Point { x: self.x, y: self.y },
            Dir::North => Point { x: self.x, y: self.y - 1 },
            Dir::South => Point { x: self.x, y: self.y + 1 },
            Dir::East => Point { x: self.x + 1, y: self.y },
            Dir::West => Point { x: self.x - 1, y: self.y },
            Dir::NorthEast => Point { x: self.x + 1, y: self.y - 1 },
            Dir::NorthWest => Point { x: self.x - 1, y: self.y - 1 },
            Dir::SouthEast => Point { x: self.x + 1, y: self.y + 1 },
            Dir::SouthWest => Point { x: self.x - 1, y: self.y + 1 },
        }
    }

    /// The manhattan distance `|dx| + |dy|` between this point and `other`.
    pub fn manhattan_distance(&self, other: Self) -> (r: i32)
        requires
            fits_i32(abs(self.x - other.x) + abs(self.y - other.y)),
        ensures
            r == abs(self.x - other.x) + abs(self.y - other.y),
    {
        let dx: i64 = self.x as i64 - other.x as i64;
        let dy: i64 = self.y as i64 - other.y as i64;
        let ax: i64 = if dx < 0 {
            -dx
        } else {
            dx
        };
        let ay: i64 = if dy < 0 {
            -dy
        } else {
            dy
        };
        (ax + ay) as i32
    }

    /// The sum of two points, coordinate by coordinate.
    pub fn add(self, other: Self) -> (r: Self)
        requires
            fits_i32(self.x + other.x),
            fits_i32(self.y + other.y),
        ensures
            r.x == self.x + other.x,
            r.y == self.y + other.y,
    {
        Point { x: self.x + other.x, y: self.y + other.y }
    }

    /// The difference of two points, coordinate by coordinate.
    pub fn sub(self, other: Self) -> (r: Self)
        requires
            fits_i32(self.x - other.x),
            fits_i32(self.y - other.y),
        ensures
            r.x == self.x - other.x,
            r.y == self.y - other.y,
    {
        Point { x: self.x - other.x, y: self.y - other.y }
    }

    /// The point with both coordinates multiplied by `k`.
    pub fn mul(self, k: i32) -> (r: Self)
        requires
            fits_i32(self.x * k),
            fits_i32(self.y * k),
        ensures
            r.x == self.x * k,
            r.y == self.y * k,
    {
        Point { x: self.x * k, y: self.y * k }
    }
}

} // verus!
