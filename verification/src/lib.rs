//! The core of a small software renderer on fixed-point numbers.
//!
//! Points of a three-dimensional world are turned, grouped into four-cornered
//! faces and projected onto a screen; the faces of a frame are put in
//! back-to-front order, the ones that show their back are left out, and the
//! rest is shaded. Windows, input and drawing belong to the caller, who hands
//! in commands and gets filled polygons back.

use vstd::prelude::*;

pub mod camera;
pub mod color;
pub mod cube;
pub mod fixed;
pub mod point;
pub mod rotation;
pub mod scene;
pub mod screen;
pub mod square;
pub mod trig;
pub mod tuple;

pub use crate::camera::Camera;
pub use crate::camera::Command;
pub use crate::color::Color;
pub use crate::cube::Cube;
pub use crate::fixed::UNIT;
pub use crate::point::Point2D;
pub use crate::point::Point3D;
pub use crate::rotation::Rotation;
pub use crate::rotation::Rotation3;
pub use crate::scene::Polygon;
pub use crate::screen::Screen;
pub use crate::square::Square;
pub use crate::square::SquareIter;
pub use crate::tuple::Tuple;

verus! {

} // verus!
