//! The camera: where the viewer stands and how the view is turned.
//!
//! The camera is a value that the caller owns. A command of the viewer gives
//! the next camera; a command that would take the viewer out of the world, or
//! an angle out of the range that can be reverted, leaves the camera as it is.

use vstd::prelude::*;
use crate::fixed::UNIT;
use crate::point::Point3D;
use crate::point::Vec3;
use crate::point::lemma_rotate_size;
use crate::rotation::Angles;
use crate::rotation::Rotation;
use crate::rotation::Rotation3;

verus! {

/// How many units one step of the viewer covers.
pub const STEP: i32 = 20;

/// The angle of one turn of the view, five degrees, in raw radians.
pub const ANGLE_STEP: i64 = 5719;

/// What the viewer can ask for.
#[derive(Debug, Clone, Copy, PartialEq, Eq, Structural)]
pub enum Command {
    /// One step along the direction of view.
    Forward,
    /// One step against the direction of view.
    Back,
    /// One step to the right of the direction of view.
    Right,
    /// One step to the left of the direction of view.
    Left,
    /// One step up the second axis of the world.
    Up,
    /// One step down the second axis of the world.
    Down,
    /// One turn about the first axis, towards larger angles.
    PitchUp,
    /// One turn about the first axis, towards smaller angles.
    PitchDown,
    /// One turn about the second axis, towards larger angles.
    YawUp,
    /// One turn about the second axis, towards smaller angles.
    YawDown,
    /// The end of the session.
    Quit,
}

/// The world axis `axis` as the viewer has it: turned about the origin by the
/// reverse of the orientation `rot`.
pub open spec fn direction(axis: Vec3, rot: Angles) -> Vec3 {
    axis.rotate(Vec3 { x: 0, y: 0, z: 0 }, rot.revert())
}

/// The first axis of the world, of length one.
pub open spec fn axis_x() -> Vec3 {
    Vec3 { x: UNIT as int, y: 0, z: 0 }
}

/// The second axis of the world, of length one.
pub open spec fn axis_y() -> Vec3 {
    Vec3 { x: 0, y: UNIT as int, z: 0 }
}

/// The third axis of the world, of length one.
pub open spec fn axis_z() -> Vec3 {
    Vec3 { x: 0, y: 0, z: UNIT as int }
}

/// Whether a camera can have the orientation `rot`: each angle and its
/// opposite fit in 64 bits.
pub open spec fn can_turn_to(rot: Angles) -> bool {
    rot.fits() && rot.revert().fits()
}

/// The position after a move by `step` from `position`: the sum where it lies
/// in the world, else `position`.
pub open spec fn moved(position: Vec3, step: Vec3) -> Vec3 {
    if position.add(step).in_world() {
        position.add(step)
    } else {
        position
    }
}

/// The orientation after a turn by `delta` from `rot`: the sum where a camera
/// can have it, else `rot`.
pub open spec fn turned(rot: Angles, delta: Angles) -> Angles {
    if can_turn_to(rot.add(delta)) {
        rot.add(delta)
    } else {
        rot
    }
}

/// The position that `command` leads to from `position` under the orientation
/// `rot`.
pub open spec fn next_position(position: Vec3, rot: Angles, command: Command) -> Vec3 {
    match command {
        Command::Forward => moved(position, direction(axis_z(), rot).times(STEP as int)),
        Command::Back => moved(position, direction(axis_z(), rot).times(-STEP)),
        Command::Right => moved(position, direction(axis_x(), rot).times(STEP as int)),
        Command::Left => moved(position, direction(axis_x(), rot).times(-STEP)),
        Command::Up => moved(position, axis_y().times(STEP as int)),
        Command::Down => moved(position, axis_y().times(-STEP)),
        _ => position,
    }
}

/// The orientation that `command` leads to from `rot`.
pub open spec fn next_rotation(rot: Angles, command: Command) -> Angles {
    match command {
        Command::PitchUp => turned(rot, Angles::about(ANGLE_STEP as int, Rotation::X)),
        Command::PitchDown => turned(rot, Angles::about(-ANGLE_STEP, Rotation::X)),
        Command::YawUp => turned(rot, Angles::about(ANGLE_STEP as int, Rotation::Y)),
        Command::YawDown => turned(rot, Angles::about(-ANGLE_STEP, Rotation::Y)),
        _ => rot,
    }
}

/// The viewer: a position in the world and an orientation.
#[derive(Debug, Clone, Copy)]
pub struct Camera {
    position: Point3D,
    rotation: Rotation3,
}

impl Camera {
    #[verifier::type_invariant]
    spec fn valid(self) -> bool {
        self.position@.in_world() && can_turn_to(self.rotation@)
    }

    /// Where the viewer stands.
    pub closed spec fn place(self) -> Vec3 {
        self.position@
    }

    /// How the view is turned.
    pub closed spec fn angles(self) -> Angles {
        self.rotation@
    }

    /// The camera that stands at `position` under the orientation `rotation`,
    /// or nothing where `position` lies out of the world or an angle of
    /// `rotation` has no opposite in 64 bits.
    pub fn new(position: Point3D, rotation: Rotation3) -> (camera: Option<Camera>)
        ensures
            camera is Some <==> position@.in_world() && can_turn_to(rotation@),
            camera matches Some(c) ==> c.place() == position@ && c.angles() == rotation@,
    {
        if position.in_world() && rotation.rot_x > i64::MIN && rotation.rot_y > i64::MIN
            && rotation.rot_z > i64::MIN {
            Some(Camera { position, rotation })
        } else {
            None
        }
    }

    /// Where the viewer stands.
    pub fn position(&self) -> (p: Point3D)
        ensures
            p@ == self.place(),
            p@.in_world(),
    {
        proof {
            use_type_invariant(self);
        }
        self.position
    }

    /// How the view is turned.
    pub fn rotation(&self) -> (r: Rotation3)
        ensures
            r@ == self.angles(),
            can_turn_to(r@),
    {
        proof {
            use_type_invariant(self);
        }
        self.rotation
    }

    /// The direction of view: the third axis of the world as the viewer has it.
    pub fn forward(&self) -> (d: Point3D)
        ensures
            d@ == direction(axis_z(), self.angles()),
            d@.within(29 * UNIT),
    {
        self.turn_axis(Point3D::unit_z())
    }

    /// The direction to the right of the view: the first axis of the world as
    /// the viewer has it.
    pub fn right(&self) -> (d: Point3D)
        ensures
            d@ == direction(axis_x(), self.angles()),
            d@.within(29 * UNIT),
    {
        self.turn_axis(Point3D::unit_x())
    }

    /// A world axis as the viewer has it.
    fn turn_axis(&self, axis: Point3D) -> (d: Point3D)
        requires
            axis@.within(UNIT as int),
        ensures
            d@ == direction(axis@, self.angles()),
            d@.within(29 * UNIT),
    {
        proof {
            use_type_invariant(self);
            lemma_rotate_size(
                axis@,
                Vec3 { x: 0, y: 0, z: 0 },
                self.rotation@.revert(),
                UNIT as int,
            );
        }
        let rot_revert = self.rotation.revert();
        axis.rotate(&Point3D::zero(), &rot_revert)
    }

    /// Moves the viewer by `step` where that keeps it in the world.
    fn shift(&mut self, step: Point3D)
        requires
            step@.within(580 * UNIT),
        ensures
            final(self).place() == moved(old(self).place(), step@),
            final(self).angles() == old(self).angles(),
    {
        proof {
            use_type_invariant(&*self);
        }
        let target = self.position.add(&step);
        if target.in_world() {
            self.position = target;
        }
    }

    /// Turns the view by `delta` where the camera can have the new orientation.
    fn swing(&mut self, delta: Rotation3)
        requires
            delta@.fits(),
            delta@.revert().fits(),
        ensures
            final(self).angles() == turned(old(self).angles(), delta@),
            final(self).place() == old(self).place(),
    {
        proof {
            use_type_invariant(&*self);
        }
        let x = self.rotation.rot_x.checked_add(delta.rot_x);
        let y = self.rotation.rot_y.checked_add(delta.rot_y);
        let z = self.rotation.rot_z.checked_add(delta.rot_z);
        match (x, y, z) {
            (Some(x), Some(y), Some(z)) => {
                if x > i64::MIN && y > i64::MIN && z > i64::MIN {
                    self.rotation = Rotation3::new(x, y, z);
                }
            },
            _ => {},
        }
    }

    /// Carries out `command` and says whether the session goes on: it ends
    /// with `Quit` only. A step that would leave the world and a turn that
    /// would leave the range of the angles change nothing.
    pub fn apply(&mut self, command: Command) -> (go_on: bool)
        ensures
            go_on == (command != Command::Quit),
            final(self).place() == next_position(old(self).place(), old(self).angles(), command),
            final(self).angles() == next_rotation(old(self).angles(), command),
    {
        match command {
            Command::Forward => {
                let d = self.forward();
                proof {
                    lemma_times_size(d@, 29 * UNIT, STEP as int);
                }
                self.shift(d.times(STEP));
            },
            Command::Back => {
                let d = self.forward();
                proof {
                    lemma_times_size(d@, 29 * UNIT, -STEP);
                }
                self.shift(d.times(-STEP));
            },
            Command::Right => {
                let d = self.right();
                proof {
                    lemma_times_size(d@, 29 * UNIT, STEP as int);
                }
                self.shift(d.times(STEP));
            },
            Command::Left => {
                let d = self.right();
                proof {
                    lemma_times_size(d@, 29 * UNIT, -STEP);
                }
                self.shift(d.times(-STEP));
            },
            Command::Up => {
                let d = Point3D::unit_y();
                proof {
                    lemma_times_size(d@, 29 * UNIT, STEP as int);
                }
                self.shift(d.times(STEP));
            },
            Command::Down => {
                let d = Point3D::unit_y();
                proof {
                    lemma_times_size(d@, 29 * UNIT, -STEP);
                }
                self.shift(d.times(-STEP));
            },
            Command::PitchUp => {
                self.swing(Rotation3::new_axis(ANGLE_STEP, Rotation::X));
            },
            Command::PitchDown => {
                self.swing(Rotation3::new_axis(-ANGLE_STEP, Rotation::X));
            },
            Command::YawUp => {
                self.swing(Rotation3::new_axis(ANGLE_STEP, Rotation::Y));
            },
            Command::YawDown => {
                self.swing(Rotation3::new_axis(-ANGLE_STEP, Rotation::Y));
            },
            Command::Quit => {},
        }
        !matches!(command, Command::Quit)
    }
}

/// A vector within `limit`, taken `n` times, is within the size of `n` times
/// the limit.
pub proof fn lemma_times_size(v: Vec3, limit: int, n: int)
    requires
        0 <= limit,
        v.within(limit),
    ensures
        v.times(n).within(crate::fixed::magnitude(n) * limit),
{
    let m = crate::fixed::magnitude(n);
    crate::point::lemma_product_within(v.x, n, limit, m);
    crate::point::lemma_product_within(v.y, n, limit, m);
    crate::point::lemma_product_within(v.z, n, limit, m);
    assert(limit * m == m * limit) by (nonlinear_arith);
}

/// A command leaves the viewer in the world and the orientation within the
/// range that can be reverted.
pub proof fn lemma_camera_stays_valid(position: Vec3, rot: Angles, command: Command)
    requires
        position.in_world(),
        can_turn_to(rot),
    ensures
        next_position(position, rot, command).in_world(),
        can_turn_to(next_rotation(rot, command)),
{
}

} // verus!
