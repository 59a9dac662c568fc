//! A minimal software 3D wireframe renderer core.
//!
//! The pipeline transforms the vertices of a small polygonal mesh by 4x4
//! homogeneous matrices, projects them to integer screen coordinates by a
//! perspective divide, and rasterizes polygon edges into a packed pixel
//! buffer with an integer Bresenham line algorithm.
//!
//! All arithmetic is exact fixed-point integer arithmetic: a coordinate or
//! matrix entry scaled by [`FP_ONE`] stands for the real value
//! `entry / FP_ONE`. The host that drives the render loop converts its
//! trigonometric values into this representation.

mod gfx;
mod math;
mod simple_object;

pub use gfx::{Screen, COORD_LIMIT};
pub use math::{Matrix, Point2D, Point3D, FP_ONE, MAX_MAG};
pub use simple_object::{Polygon, SimpleObject, FOCAL_LIMIT};
