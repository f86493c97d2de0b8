//! Grid coordinates and the small vector algebra the snake uses.

use vstd::prelude::*;
use vstd::std_specs::cmp::PartialEqSpecImpl;
use vstd::std_specs::ops::{AddSpecImpl, NegSpecImpl, RemSpecImpl};

verus! {

/// A cell of the grid, or a displacement between two cells.
///
/// Directions are positions too: the six axis-aligned unit vectors.
#[derive(Clone, Copy, Debug, Eq)]
pub struct Position(pub [i32; 3]);

/// Whether `value` is representable as an `i32`.
pub open spec fn fits_i32(value: int) -> bool {
    i32::MIN <= value <= i32::MAX
}

impl Position {
    /// Component `axis` as a mathematical integer.
    pub open spec fn at(self, axis: int) -> int {
        self.0[axis] as int
    }

    /// One of the six axis-aligned unit vectors.
    pub open spec fn is_axis(self) -> bool {
        ||| (self.at(0) == 1 || self.at(0) == -1) && self.at(1) == 0 && self.at(2) == 0
        ||| self.at(0) == 0 && (self.at(1) == 1 || self.at(1) == -1) && self.at(2) == 0
        ||| self.at(0) == 0 && self.at(1) == 0 && (self.at(2) == 1 || self.at(2) == -1)
    }

    /// Two positions are equal exactly when their three components are.
    pub proof fn lemma_componentwise(self, other: Position)
        ensures
            self == other <==> self.at(0) == other.at(0) && self.at(1) == other.at(1) && self.at(2)
                == other.at(2),
    {
        assert(self.0 =~= other.0 <==> self == other);
    }
}

impl PartialEq for Position {
    fn eq(&self, other: &Self) -> (equal: bool) {
        self.0[0] == other.0[0] && self.0[1] == other.0[1] && self.0[2] == other.0[2]
    }
}

impl PartialEqSpecImpl for Position {
    open spec fn obeys_eq_spec() -> bool {
        true
    }

    open spec fn eq_spec(&self, other: &Self) -> bool {
        self.0[0] == other.0[0] && self.0[1] == other.0[1] && self.0[2] == other.0[2]
    }
}

impl core::ops::Add for Position {
    type Output = Position;

    /// Componentwise sum.
    fn add(self, other: Self) -> (sum: Position) {
        Position([self.0[0] + other.0[0], self.0[1] + other.0[1], self.0[2] + other.0[2]])
    }
}

impl AddSpecImpl for Position {
    open spec fn obeys_add_spec() -> bool {
        true
    }

    open spec fn add_req(self, other: Position) -> bool {
        &&& fits_i32(self.at(0) + other.at(0))
        &&& fits_i32(self.at(1) + other.at(1))
        &&& fits_i32(self.at(2) + other.at(2))
    }

    open spec fn add_spec(self, other: Position) -> Position {
        Position(
            [
                (self.0[0] + other.0[0]) as i32,
                (self.0[1] + other.0[1]) as i32,
                (self.0[2] + other.0[2]) as i32,
            ],
        )
    }
}

impl core::ops::Neg for Position {
    type Output = Position;

    /// Componentwise negation.
    fn neg(self) -> (negated: Position) {
        Position([-self.0[0], -self.0[1], -self.0[2]])
    }
}

impl NegSpecImpl for Position {
    open spec fn obeys_neg_spec() -> bool {
        true
    }

    open spec fn neg_req(self) -> bool {
        &&& self.at(0) != i32::MIN
        &&& self.at(1) != i32::MIN
        &&& self.at(2) != i32::MIN
    }

    open spec fn neg_spec(self) -> Position {
        Position([(-self.0[0]) as i32, (-self.0[1]) as i32, (-self.0[2]) as i32])
    }
}

impl core::ops::Index<usize> for Position {
    type Output = i32;

    /// Component `axis`.
    fn index(&self, axis: usize) -> (component: &i32)
        ensures
            *component == self.at(axis as int),
    {
        &self.0[axis]
    }
}

impl vstd::std_specs::core::IndexSpecImpl<usize> for Position {
    open spec fn index_req(&self, axis: &usize) -> bool {
        *axis < 3
    }
}

impl core::ops::Rem<[i32; 3]> for Position {
    type Output = Position;

    /// Componentwise Euclidean remainder: wraps a position onto a grid.
    fn rem(self, size: [i32; 3]) -> (wrapped: Position) {
        Position(
            [
                self.0[0].checked_rem_euclid(size[0]).unwrap(),
                self.0[1].checked_rem_euclid(size[1]).unwrap(),
                self.0[2].checked_rem_euclid(size[2]).unwrap(),
            ],
        )
    }
}

impl RemSpecImpl<[i32; 3]> for Position {
    open spec fn obeys_rem_spec() -> bool {
        true
    }

    open spec fn rem_req(self, size: [i32; 3]) -> bool {
        &&& size[0] != 0 && !(self.at(0) == i32::MIN && size[0] == -1)
        &&& size[1] != 0 && !(self.at(1) == i32::MIN && size[1] == -1)
        &&& size[2] != 0 && !(self.at(2) == i32::MIN && size[2] == -1)
    }

    open spec fn rem_spec(self, size: [i32; 3]) -> Position {
        Position(
            [
                (self.0[0] % size[0]) as i32,
                (self.0[1] % size[1]) as i32,
                (self.0[2] % size[2]) as i32,
            ],
        )
    }
}

} // verus!
