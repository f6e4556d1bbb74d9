//! The value types shared by the whole crate.

use vstd::prelude::*;

verus! {

/// A cell of the grid.
#[derive(Clone, Copy, Debug, PartialEq, Eq, Structural, PartialOrd, Ord, Hash)]
pub struct Point {
    pub x: i32,
    pub y: i32,
}

/// What can occupy a cell of a region.
#[derive(Clone, Copy, Debug, PartialEq, Eq, Structural)]
pub enum MapElement {
    Asteroid,
    FuelPod,
}

/// Why an operation was refused.
#[derive(Clone, Copy, Debug, PartialEq, Eq, Structural)]
pub enum Error {
    /// A configured parameter is unusable: the region size is not positive.
    ConfigurationError,
    /// A direction ordinal outside `0..=7`.
    UnknownDirection,
}

/// The eight compass directions, in ordinal order: from north by way of
/// east, south and west round to north-west.
#[derive(Clone, Copy, Debug, PartialEq, Eq, Structural)]
pub enum Direction {
    N,
    NE,
    E,
    SE,
    S,
    SW,
    W,
    NW,
}

impl Direction {
    /// The ordinal of the direction, `0` for north up to `7` for north-west.
    pub open spec fn spec_ordinal(self) -> int {
        match self {
            Direction::N => 0,
            Direction::NE => 1,
            Direction::E => 2,
            Direction::SE => 3,
            Direction::S => 4,
            Direction::SW => 5,
            Direction::W => 6,
            Direction::NW => 7,
        }
    }

    /// The horizontal part of the unit step.
    pub open spec fn spec_dx(self) -> int {
        match self {
            Direction::N | Direction::S => 0,
            Direction::NE | Direction::E | Direction::SE => 1,
            Direction::SW | Direction::W | Direction::NW => -1,
        }
    }

    /// The vertical part of the unit step.
    pub open spec fn spec_dy(self) -> int {
        match self {
            Direction::E | Direction::W => 0,
            Direction::N | Direction::NE | Direction::NW => 1,
            Direction::SE | Direction::S | Direction::SW => -1,
        }
    }

    /// The direction with the given ordinal, if there is one.
    pub open spec fn spec_from_ordinal(ordinal: int) -> Option<Direction> {
        if ordinal == 0 {
            Some(Direction::N)
        } else if ordinal == 1 {
            Some(Direction::NE)
        } else if ordinal == 2 {
            Some(Direction::E)
        } else if ordinal == 3 {
            Some(Direction::SE)
        } else if ordinal == 4 {
            Some(Direction::S)
        } else if ordinal == 5 {
            Some(Direction::SW)
        } else if ordinal == 6 {
            Some(Direction::W)
        } else if ordinal == 7 {
            Some(Direction::NW)
        } else {
            None
        }
    }

    /// Reads a direction from its ordinal; anything outside `0..=7` is
    /// `Error::UnknownDirection`.
    pub fn from_ordinal(ordinal: u32) -> (r: Result<Direction, Error>)
        ensures
            r == match Self::spec_from_ordinal(ordinal as int) {
                Some(d) => Ok::<Direction, Error>(d),
                None => Err::<Direction, Error>(Error::UnknownDirection),
            },
            r is Ok <==> ordinal <= 7,
            r matches Ok(d) ==> d.spec_ordinal() == ordinal,
    {
        match ordinal {
            0 => Ok(Direction::N),
            1 => Ok(Direction::NE),
            2 => Ok(Direction::E),
            3 => Ok(Direction::SE),
            4 => Ok(Direction::S),
            5 => Ok(Direction::SW),
            6 => Ok(Direction::W),
            7 => Ok(Direction::NW),
            _ => Err(Error::UnknownDirection),
        }
    }

    /// The ordinal of the direction.
    pub fn ordinal(self) -> (r: u32)
        ensures
            r == self.spec_ordinal(),
    {
        match self {
            Direction::N => 0,
            Direction::NE => 1,
            Direction::E => 2,
            Direction::SE => 3,
            Direction::S => 4,
            Direction::SW => 5,
            Direction::W => 6,
            Direction::NW => 7,
        }
    }

    /// The unit step `(dx, dy)` of the direction.
    pub fn step(self) -> (r: (i32, i32))
        ensures
            r.0 == self.spec_dx(),
            r.1 == self.spec_dy(),
    {
        match self {
            Direction::N => (0, 1),
            Direction::NE => (1, 1),
            Direction::E => (1, 0),
            Direction::SE => (1, -1),
            Direction::S => (0, -1),
            Direction::SW => (-1, -1),
            Direction::W => (-1, 0),
            Direction::NW => (-1, 1),
        }
    }
}

} // verus!
