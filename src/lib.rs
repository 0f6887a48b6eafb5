use vstd::prelude::*;

pub mod brush;
pub mod curve;
pub mod geom;
pub mod gpu;
pub mod num;
pub mod path;
pub mod rect;
pub mod split;
pub mod stroke;

pub use crate::brush::{Brush, Color, GradientStop};
pub use crate::geom::{Extent, Offset, Vec2};
pub use crate::gpu::GpuData;
pub use crate::curve::{Aabb, Curve, Segment};
pub use crate::path::{CurveCap, CurveJoin, PathBuilder, PathElement, PathSplitter};
pub use crate::rect::Rect;
pub use crate::split::Param;

verus! {

} // verus!
