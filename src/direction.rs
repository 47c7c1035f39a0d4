use crate::error::AppError;
use crate::text::{chars_of, direction_named, direction_of};
use vstd::prelude::*;

verus! {

/// One of the four compass directions a road can leave a city by.
#[derive(Debug, PartialEq, Eq, Structural, Hash, Clone, Copy)]
pub enum Direction {
    North,
    South,
    East,
    West,
}

/// The direction pointing the other way.
pub open spec fn opposite(d: Direction) -> Direction {
    match d {
        Direction::North => Direction::South,
        Direction::South => Direction::North,
        Direction::East => Direction::West,
        Direction::West => Direction::East,
    }
}

impl Direction {
    pub fn get_opposite(&self) -> (r: Direction)
        ensures
            r == opposite(*self),
    {
        match self {
            Direction::North => Direction::South,
            Direction::South => Direction::North,
            Direction::East => Direction::West,
            Direction::West => Direction::East,
        }
    }

    /// Reads a direction's name, in any case.
    pub fn parse(s: &str) -> (r: Result<Direction, AppError>)
        ensures
            direction_named(s@) is Some ==> r == Ok::<Direction, AppError>(direction_named(s@)->0),
            direction_named(s@) is None ==> r == Err::<Direction, AppError>(AppError::WrongDirection),
    {
        let w = chars_of(s);
        match direction_of(&w) {
            Some(d) => Ok(d),
            None => Err(AppError::WrongDirection),
        }
    }
}

impl std::str::FromStr for Direction {
    type Err = AppError;

    fn from_str(s: &str) -> (r: Result<Direction, AppError>)
        ensures
            direction_named(s@) is Some ==> r == Ok::<Direction, AppError>(direction_named(s@)->0),
            direction_named(s@) is None ==> r == Err::<Direction, AppError>(AppError::WrongDirection),
    {
        Direction::parse(s)
    }
}

/// Turning around twice faces the same way as before.
pub proof fn lemma_opposite_involution(d: Direction)
    ensures
        opposite(opposite(d)) == d,
{
}

} // verus!
