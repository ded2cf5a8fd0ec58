use vstd::prelude::*;

verus! {

/// The eight compass directions, plus `NoDirection`.
#[derive(Hash, Eq, PartialEq, Structural, Copy, Clone, Debug)]
pub enum Dir {
    /// No direction; ends the sequence of directions that an iteration walks.
    NoDirection,
    North,
    South,
    East,
    West,
    NorthEast,
    NorthWest,
    SouthEast,
    SouthWest,
}

/// The four cardinal directions, clockwise from north.
pub const CARDINALS: [Dir; 4] = [Dir::North, Dir::East, Dir::South, Dir::West];

/// The clockwise rotation by 45 degrees; `NoDirection` stays where it is.
pub open spec fn spec_turn_right(d: Dir) -> Dir {
    match d {
        Dir::NoDirection => Dir::NoDirection,
        Dir::North => Dir::NorthEast,
        Dir::NorthEast => Dir::East,
        Dir::East => Dir::SouthEast,
        Dir::SouthEast => Dir::South,
        Dir::South => Dir::SouthWest,
        Dir::SouthWest => Dir::West,
        Dir::West => Dir::NorthWest,
        Dir::NorthWest => Dir::North,
    }
}

/// The counter-clockwise rotation by 45 degrees; `NoDirection` stays where it is.
pub open spec fn spec_turn_left(d: Dir) -> Dir {
    match d {
        Dir::NoDirection => Dir::NoDirection,
        Dir::North => Dir::NorthWest,
        Dir::NorthWest => Dir::West,
        Dir::West => Dir::SouthWest,
        Dir::SouthWest => Dir::South,
        Dir::South => Dir::SouthEast,
        Dir::SouthEast => Dir::East,
        Dir::East => Dir::NorthEast,
        Dir::NorthEast => Dir::North,
    }
}

/// North, south, east or west.
pub open spec fn spec_is_cardinal(d: Dir) -> bool {
    d == Dir::North || d == Dir::South || d == Dir::East || d == Dir::West
}

/// A quarter turn: a cardinal direction or `NoDirection`.
pub open spec fn quarter_turnable(d: Dir) -> bool {
    d == Dir::NoDirection || spec_is_cardinal(d)
}

impl Dir {
    /// Returns the direction after turning 45 degrees to the right.
    pub fn turn_right(self) -> (r: Self)
        ensures
            r == spec_turn_right(self),
    {
        match self {
            Dir::NoDirection => self,
            Dir::North => Dir::NorthEast,
            Dir::South => Dir::SouthWest,
            Dir::East => Dir::SouthEast,
            Dir::West => Dir::NorthWest,
            Dir::NorthEast => Dir::East,
            Dir::NorthWest => Dir::North,
            Dir::SouthEast => Dir::South,
            Dir::SouthWest => Dir::West,
        }
    }

    /// Returns the direction after turning 45 degrees to the left.
    pub fn turn_left(self) -> (r: Self)
        ensures
            r == spec_turn_left(self),
    {
        match self {
            Dir::NoDirection => self,
            Dir::North => Dir::NorthWest,
            Dir::South => Dir::SouthEast,
            Dir::East => Dir::NorthEast,
            Dir::West => Dir::SouthWest,
            Dir::NorthEast => Dir::North,
            Dir::NorthWest => Dir::West,
            Dir::SouthEast => Dir::East,
            Dir::SouthWest => Dir::South,
        }
    }

    /// Returns the direction after turning 90 degrees to the left.
    ///
    /// Only defined for the cardinal directions and `NoDirection`.
    pub fn turn_cardinal_left(self) -> (r: Self)
        requires
            quarter_turnable(self),
        ensures
            r == spec_turn_left(spec_turn_left(self)),
            quarter_turnable(r),
    {
        match self {
            Dir::North => Dir::West,
            Dir::South => Dir::East,
            Dir::East => Dir::North,
            Dir::West => Dir::South,
            _ => self,
        }
    }

    /// Returns the direction after turning 90 degrees to the right.
    ///
    /// Only defined for the cardinal directions and `NoDirection`.
    pub fn turn_cardinal_right(self) -> (r: Self)
        requires
            quarter_turnable(self),
        ensures
            r == spec_turn_right(spec_turn_right(self)),
            quarter_turnable(r),
    {
        match self {
            Dir::North => Dir::East,
            Dir::South => Dir::West,
            Dir::East => Dir::South,
            Dir::West => Dir::North,
            _ => self,
        }
    }

    /// Returns true for north, south, east and west.
    pub fn is_cardinal(&self) -> (r: bool)
        ensures
            r == spec_is_cardinal(*self),
    {
        match *self {
            Dir::North | Dir::South | Dir::East | Dir::West => true,
            _ => false,
        }
    }

    /// The direction's name, as it is written for people.
    pub fn name(&self) -> (r: &'static str)
        ensures
            *self == Dir::NoDirection ==> r@ == "No direction"@,
            *self == Dir::North ==> r@ == "North"@,
            *self == Dir::South ==> r@ == "South"@,
            *self == Dir::East ==> r@ == "East"@,
            *self == Dir::West ==> r@ == "West"@,
            *self == Dir::NorthEast ==> r@ == "North-East"@,
            *self == Dir::NorthWest ==> r@ == "North-West"@,
            *self == Dir::SouthEast ==> r@ == "South-East"@,
            *self == Dir::SouthWest ==> r@ == "South-West"@,
    {
        match *self {
            Dir::NoDirection => "No direction",
            Dir::North => "North",
            Dir::South => "South",
            Dir::East => "East",
            Dir::West => "West",
            Dir::NorthEast => "North-East",
            Dir::NorthWest => "North-West",
            Dir::SouthEast => "South-East",
            Dir::SouthWest => "South-West",
        }
    }
}

} // verus!
