use vstd::prelude::*;
use crate::geom::Vec2;

verus! {

/// Red, green, blue and alpha, eight bits each.
pub type Color = [u8; 4];

/// A color pinned to a position.
#[derive(Clone, Copy, Debug)]
pub struct GradientStop {
    pub position: Vec2,
    pub color: Color,
}

/// How a shape is filled.
#[derive(Clone, Copy, Debug)]
pub enum Brush {
    Color(Color),
    LinearGradient { stop0: GradientStop, stop1: GradientStop },
}

} // verus!
