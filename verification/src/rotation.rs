//! Orientations: three angles, one about each world axis.
//!
//! A `Rotation3` turns a point about the first axis, then about the second,
//! then about the third; the order is fixed. Its angles are raw fixed-point
//! radians and are not reduced to one turn. The view of a `Rotation3` is an
//! `Angles`, the same three angles as unbounded integers.

use vstd::prelude::*;
use crate::fixed::fits_i64;

verus! {

/// One of the three world axes, as the axis of a rotation.
#[derive(Debug, Clone, Copy, PartialEq, Eq, Structural)]
pub enum Rotation {
    X,
    Y,
    Z,
}

/// Three unbounded angles: what a `Rotation3` stands for.
pub struct Angles {
    pub x: int,
    pub y: int,
    pub z: int,
}

impl Angles {
    /// Whether each angle can be held in an `i64`.
    pub open spec fn fits(self) -> bool {
        fits_i64(self.x) && fits_i64(self.y) && fits_i64(self.z)
    }

    /// The angles that turn by `angle` about `axis` and not at all about the
    /// two other axes.
    pub open spec fn about(angle: int, axis: Rotation) -> Angles {
        match axis {
            Rotation::X => Angles { x: angle, y: 0, z: 0 },
            Rotation::Y => Angles { x: 0, y: angle, z: 0 },
            Rotation::Z => Angles { x: 0, y: 0, z: angle },
        }
    }

    /// The sum, angle by angle.
    pub open spec fn add(self, rhs: Angles) -> Angles {
        Angles { x: self.x + rhs.x, y: self.y + rhs.y, z: self.z + rhs.z }
    }

    /// The difference, angle by angle.
    pub open spec fn sub(self, rhs: Angles) -> Angles {
        Angles { x: self.x - rhs.x, y: self.y - rhs.y, z: self.z - rhs.z }
    }

    /// The opposite angles.
    pub open spec fn revert(self) -> Angles {
        Angles { x: -self.x, y: -self.y, z: -self.z }
    }

    /// Whether the rotation turns about one axis at most.
    pub open spec fn single_axis(self) -> bool {
        ||| self.y == 0 && self.z == 0
        ||| self.x == 0 && self.z == 0
        ||| self.x == 0 && self.y == 0
    }
}

/// An orientation: the angles of the turns about the first, the second and the
/// third axis, applied in this order.
#[derive(Debug, Clone, Copy, PartialEq, Eq, Structural)]
pub struct Rotation3 {
    pub rot_x: i64,
    pub rot_y: i64,
    pub rot_z: i64,
}

impl View for Rotation3 {
    type V = Angles;

    open spec fn view(&self) -> Angles {
        Angles { x: self.rot_x as int, y: self.rot_y as int, z: self.rot_z as int }
    }
}

impl Rotation3 {
    /// The orientation with the three angles given.
    pub fn new(rot_x: i64, rot_y: i64, rot_z: i64) -> (r: Rotation3)
        ensures
            r.rot_x == rot_x,
            r.rot_y == rot_y,
            r.rot_z == rot_z,
    {
        Rotation3 { rot_x, rot_y, rot_z }
    }

    /// The orientation that turns by `angle` about `axis` alone.
    pub fn new_axis(angle: i64, axis: Rotation) -> (r: Rotation3)
        ensures
            r@ == Angles::about(angle as int, axis),
            r@.single_axis(),
    {
        match axis {
            Rotation::X => Self::new(angle, 0, 0),
            Rotation::Y => Self::new(0, angle, 0),
            Rotation::Z => Self::new(0, 0, angle),
        }
    }

    /// The opposite orientation, angle by angle.
    pub fn revert(&self) -> (r: Rotation3)
        requires
            self@.revert().fits(),
        ensures
            r@ == self@.revert(),
    {
        Rotation3::new(-self.rot_x, -self.rot_y, -self.rot_z)
    }

    /// The sum of two orientations, angle by angle.
    pub fn add(&self, rhs: &Rotation3) -> (r: Rotation3)
        requires
            self@.add(rhs@).fits(),
        ensures
            r@ == self@.add(rhs@),
    {
        Rotation3::new(self.rot_x + rhs.rot_x, self.rot_y + rhs.rot_y, self.rot_z + rhs.rot_z)
    }

    /// The difference of two orientations, angle by angle.
    pub fn sub(&self, rhs: &Rotation3) -> (r: Rotation3)
        requires
            self@.sub(rhs@).fits(),
        ensures
            r@ == self@.sub(rhs@),
    {
        Rotation3::new(self.rot_x - rhs.rot_x, self.rot_y - rhs.rot_y, self.rot_z - rhs.rot_z)
    }

    /// Adds `rhs` to `self`, angle by angle.
    pub fn add_assign(&mut self, rhs: Rotation3)
        requires
            old(self)@.add(rhs@).fits(),
        ensures
            final(self)@ == old(self)@.add(rhs@),
    {
        *self = self.add(&rhs);
    }

    /// Takes `rhs` from `self`, angle by angle.
    pub fn sub_assign(&mut self, rhs: Rotation3)
        requires
            old(self)@.sub(rhs@).fits(),
        ensures
            final(self)@ == old(self)@.sub(rhs@),
    {
        *self = self.sub(&rhs);
    }
}

/// Reverting an orientation twice gives it back, and an orientation plus its
/// reverse is the orientation that does not turn.
pub proof fn lemma_revert_is_inverse(r: Angles)
    ensures
        r.revert().revert() == r,
        r.add(r.revert()) == (Angles { x: 0, y: 0, z: 0 }),
        r.single_axis() ==> r.revert().single_axis(),
{
}

} // verus!
