use vstd::prelude::*;

verus! {

/// A quarter-turn rotation around the vertical axis.
#[derive(Debug, Clone, Copy, PartialEq, Eq, Structural)]
pub enum Rotation {
    R0,
    R90,
    R180,
    R270,
}

/// A direction between adjacent cells. The six axis-aligned directions carry
/// propagation edges; the four diagonal horizontal directions only serve the
/// orientation bookkeeping of corner tiles.
#[derive(Debug, Clone, Copy, PartialEq, Eq, Hash, Structural)]
pub enum Direction {
    East,
    West,
    North,
    South,
    Up,
    Down,
    NorthEast,
    NorthWest,
    SouthEast,
    SouthWest,
}

/// A direction turned counterclockwise by one quarter turn; the vertical
/// directions are fixed by a rotation around the vertical axis.
pub open spec fn spec_rotated_quarter(d: Direction) -> Direction {
    match d {
        Direction::East => Direction::North,
        Direction::North => Direction::West,
        Direction::West => Direction::South,
        Direction::South => Direction::East,
        Direction::NorthEast => Direction::NorthWest,
        Direction::NorthWest => Direction::SouthWest,
        Direction::SouthWest => Direction::SouthEast,
        Direction::SouthEast => Direction::NorthEast,
        Direction::Up => Direction::Up,
        Direction::Down => Direction::Down,
    }
}

/// A direction rotated around the vertical axis, as iterated quarter turns.
pub open spec fn spec_rotated_z(d: Direction, r: Rotation) -> Direction {
    match r {
        Rotation::R0 => d,
        Rotation::R90 => spec_rotated_quarter(d),
        Rotation::R180 => spec_rotated_quarter(spec_rotated_quarter(d)),
        Rotation::R270 => spec_rotated_quarter(spec_rotated_quarter(spec_rotated_quarter(d))),
    }
}

pub open spec fn spec_is_horizontal(d: Direction) -> bool {
    d == Direction::East || d == Direction::West || d == Direction::North || d == Direction::South
}

pub open spec fn spec_is_vertical(d: Direction) -> bool {
    d == Direction::Up || d == Direction::Down
}

/// The six directions along which cells are adjacent and constraints
/// propagate.
pub open spec fn spec_is_axis(d: Direction) -> bool {
    spec_is_horizontal(d) || spec_is_vertical(d)
}

/// Two horizontal axis directions at a right angle to one another.
pub open spec fn spec_is_perpendicular(d: Direction, other: Direction) -> bool {
    match d {
        Direction::East | Direction::West => other == Direction::North || other
            == Direction::South,
        Direction::North | Direction::South => other == Direction::East || other
            == Direction::West,
        _ => false,
    }
}

impl Direction {
    /// This direction rotated around the vertical axis by the given rotation.
    pub fn rotated_z(&self, rotation: &Rotation) -> (r: Direction)
        ensures
            r == spec_rotated_z(*self, *rotation),
    {
        match rotation {
            Rotation::R0 => *self,
            Rotation::R90 => self.rotated_quarter(),
            Rotation::R180 => self.rotated_quarter().rotated_quarter(),
            Rotation::R270 => self.rotated_quarter().rotated_quarter().rotated_quarter(),
        }
    }

    fn rotated_quarter(&self) -> (r: Direction)
        ensures
            r == spec_rotated_quarter(*self),
    {
        match self {
            Direction::East => Direction::North,
            Direction::North => Direction::West,
            Direction::West => Direction::South,
            Direction::South => Direction::East,
            Direction::NorthEast => Direction::NorthWest,
            Direction::NorthWest => Direction::SouthWest,
            Direction::SouthWest => Direction::SouthEast,
            Direction::SouthEast => Direction::NorthEast,
            Direction::Up => Direction::Up,
            Direction::Down => Direction::Down,
        }
    }

    /// Whether the two directions are horizontal and at a right angle.
    pub fn is_perpendicular(&self, other: Direction) -> (r: bool)
        ensures
            r == spec_is_perpendicular(*self, other),
    {
        match self {
            Direction::East | Direction::West => match other {
                Direction::North | Direction::South => true,
                _ => false,
            },
            Direction::North | Direction::South => match other {
                Direction::East | Direction::West => true,
                _ => false,
            },
            _ => false,
        }
    }

    pub fn is_horizontal(&self) -> (r: bool)
        ensures
            r == spec_is_horizontal(*self),
    {
        match self {
            Direction::East | Direction::West | Direction::North | Direction::South => true,
            _ => false,
        }
    }

    pub fn is_vertical(&self) -> (r: bool)
        ensures
            r == spec_is_vertical(*self),
    {
        match self {
            Direction::Up | Direction::Down => true,
            _ => false,
        }
    }
}

/// Rotating a direction by a quarter turn four times in a row returns it to
/// itself, so the four rotations of a direction are closed under further
/// rotation.
pub proof fn lemma_rotation_closure(d: Direction)
    ensures
        spec_rotated_quarter(
            spec_rotated_quarter(spec_rotated_quarter(spec_rotated_quarter(d))),
        ) == d,
        spec_rotated_z(d, Rotation::R0) == d,
{
}

/// Rotations compose: rotating by one quarter turn after any rotation lands
/// on the next rotation's result, wrapping from the last back to the first.
pub proof fn lemma_rotation_step(d: Direction)
    ensures
        spec_rotated_quarter(spec_rotated_z(d, Rotation::R0)) == spec_rotated_z(d, Rotation::R90),
        spec_rotated_quarter(spec_rotated_z(d, Rotation::R90)) == spec_rotated_z(
            d,
            Rotation::R180,
        ),
        spec_rotated_quarter(spec_rotated_z(d, Rotation::R180)) == spec_rotated_z(
            d,
            Rotation::R270,
        ),
        spec_rotated_quarter(spec_rotated_z(d, Rotation::R270)) == d,
{
}

} // verus!
