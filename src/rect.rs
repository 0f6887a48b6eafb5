use vstd::prelude::*;
use crate::geom::{Extent, Offset, Vec2};
use crate::num::{floor_div, floor_div_i128};
use vstd::arithmetic::div_mod::lemma_div_multiples_vanish;

verus! {

/// A local axis-aligned rectangle, paired with the rectangle of curve space that it
/// stands for.
#[derive(Clone, Copy, Debug, PartialEq, Eq, Structural)]
pub struct Rect {
    pub offset_local: Offset,
    pub extent_local: Extent,
    pub offset_curve: Offset,
    pub extent_curve: Extent,
}

impl Rect {
    /// Whether both far corners (`offset + extent`) can be written in coordinates.
    pub open spec fn corners_fit(self) -> bool {
        &&& i32::MIN <= self.offset_local.x + self.extent_local.x <= i32::MAX
        &&& i32::MIN <= self.offset_local.y + self.extent_local.y <= i32::MAX
        &&& i32::MIN <= self.offset_curve.x + self.extent_curve.x <= i32::MAX
        &&& i32::MIN <= self.offset_curve.y + self.extent_curve.y <= i32::MAX
    }

    /// The curve-space x coordinate of local x coordinate `x`.
    pub open spec fn curve_x(self, x: int) -> int {
        map_axis(x, self.offset_local.x as int, self.extent_local.x as int, self.offset_curve.x as int, self.extent_curve.x as int)
    }

    /// The curve-space y coordinate of local y coordinate `y`.
    pub open spec fn curve_y(self, y: int) -> int {
        map_axis(y, self.offset_local.y as int, self.extent_local.y as int, self.offset_curve.y as int, self.extent_curve.y as int)
    }

    /// Whether the curve-space image of `p` can be written in coordinates.
    pub open spec fn maps_within(self, p: Vec2) -> bool {
        &&& in_range(self.curve_x(p.x as int))
        &&& in_range(self.curve_y(p.y as int))
    }

    /// The rectangle grown by `b` on every side, with curve space mapped through this
    /// rectangle's own mapping.
    pub open spec fn extruded(self, b: int) -> Rect {
        let lx = self.offset_local.x - b;
        let ly = self.offset_local.y - b;
        let cx = self.curve_x(lx);
        let cy = self.curve_y(ly);
        Rect {
            offset_local: Vec2 { x: lx as i32, y: ly as i32 },
            extent_local: Vec2 { x: (self.extent_local.x + 2 * b) as i32, y: (self.extent_local.y + 2 * b) as i32 },
            offset_curve: Vec2 { x: cx as i32, y: cy as i32 },
            extent_curve: Vec2 {
                x: (self.curve_x(self.offset_local.x + self.extent_local.x + b) - cx) as i32,
                y: (self.curve_y(self.offset_local.y + self.extent_local.y + b) - cy) as i32,
            },
        }
    }

    /// Whether every value that `extrude(b)` computes can be written in coordinates.
    pub open spec fn extrude_fits(self, b: int) -> bool {
        let lx = self.offset_local.x - b;
        let ly = self.offset_local.y - b;
        let fx = self.offset_local.x + self.extent_local.x + b;
        let fy = self.offset_local.y + self.extent_local.y + b;
        &&& in_range(lx) && in_range(ly)
        &&& in_range(self.extent_local.x + 2 * b) && in_range(self.extent_local.y + 2 * b)
        &&& in_range(fx) && in_range(fy)
        &&& in_range(self.curve_x(lx)) && in_range(self.curve_y(ly))
        &&& in_range(self.curve_x(fx)) && in_range(self.curve_y(fy))
        &&& in_range(self.curve_x(fx) - self.curve_x(lx))
        &&& in_range(self.curve_y(fy) - self.curve_y(ly))
    }

    /// Maps a local point into curve space, one axis at a time; an axis of zero local
    /// extent maps every point to the curve offset.
    pub fn local_to_curve(&self, local: Vec2) -> (r: Vec2)
        requires
            self.maps_within(local),
        ensures
            r.x == self.curve_x(local.x as int),
            r.y == self.curve_y(local.y as int),
    {
        let x = map_axis_exec(local.x, self.offset_local.x, self.extent_local.x, self.offset_curve.x, self.extent_curve.x);
        let y = map_axis_exec(local.y, self.offset_local.y, self.extent_local.y, self.offset_curve.y, self.extent_curve.y);
        Vec2 { x, y }
    }

    /// Grows the local rectangle by `border` on every side and moves the curve
    /// rectangle to the images of the new corners under this rectangle's mapping.
    pub fn extrude(&self, border: i32) -> (r: Rect)
        requires
            self.extrude_fits(border as int),
        ensures
            r == self.extruded(border as int),
    {
        let offset_local = Vec2 { x: self.offset_local.x - border, y: self.offset_local.y - border };
        let extent_local = Vec2 {
            x: (self.extent_local.x as i64 + 2 * border as i64) as i32,
            y: (self.extent_local.y as i64 + 2 * border as i64) as i32,
        };
        let offset_curve = self.local_to_curve(offset_local);
        let far = self.local_to_curve(Vec2 {
            x: offset_local.x + extent_local.x,
            y: offset_local.y + extent_local.y,
        });
        let extent_curve = Vec2 { x: far.x - offset_curve.x, y: far.y - offset_curve.y };
        Rect { offset_local, extent_local, offset_curve, extent_curve }
    }
}

pub open spec fn in_range(v: int) -> bool {
    i32::MIN <= v <= i32::MAX
}

/// Linear interpolation along one axis, rounded down.
pub open spec fn map_axis(v: int, off_l: int, ext_l: int, off_c: int, ext_c: int) -> int {
    if ext_l != 0 {
        off_c + floor_div((v - off_l) * ext_c, ext_l)
    } else {
        off_c
    }
}

fn map_axis_exec(v: i32, off_l: i32, ext_l: i32, off_c: i32, ext_c: i32) -> (r: i32)
    requires
        in_range(map_axis(v as int, off_l as int, ext_l as int, off_c as int, ext_c as int)),
    ensures
        r == map_axis(v as int, off_l as int, ext_l as int, off_c as int, ext_c as int),
{
    if ext_l == 0 {
        return off_c;
    }
    let d: i128 = v as i128 - off_l as i128;
    proof {
        assert(-0x1_0000_0000 * 0x8000_0000 <= d * ext_c <= 0x1_0000_0000 * 0x8000_0000) by (nonlinear_arith)
            requires
                -0x1_0000_0000 <= d <= 0x1_0000_0000,
                -0x8000_0000 <= ext_c <= 0x7fff_ffff;
    }
    let num: i128 = d * ext_c as i128;
    let q: i128 = if ext_l > 0 {
        floor_div_i128(num, ext_l as i128)
    } else {
        floor_div_i128(-num, -(ext_l as i128))
    };
    (off_c as i128 + q) as i32
}

/// With equal local and curve rectangles, a local axis of nonzero extent maps
/// every coordinate to itself.
pub proof fn lemma_map_identity(v: int, off: int, ext: int)
    requires
        ext != 0,
    ensures
        map_axis(v, off, ext, off, ext) == v,
{
    if ext > 0 {
        lemma_div_multiples_vanish(v - off, ext);
        assert((v - off) * ext == ext * (v - off)) by (nonlinear_arith);
    } else {
        lemma_div_multiples_vanish(v - off, -ext);
        assert(-((v - off) * ext) == (-ext) * (v - off)) by (nonlinear_arith);
    }
}

/// When the local and curve rectangles are the same and neither axis is flat,
/// `local_to_curve` maps every point to itself.
pub proof fn lemma_local_to_curve_identity(r: Rect, p: Vec2)
    requires
        r.offset_local == r.offset_curve,
        r.extent_local == r.extent_curve,
        r.extent_local.x != 0,
        r.extent_local.y != 0,
    ensures
        r.curve_x(p.x as int) == p.x,
        r.curve_y(p.y as int) == p.y,
{
    lemma_map_identity(p.x as int, r.offset_local.x as int, r.extent_local.x as int);
    lemma_map_identity(p.y as int, r.offset_local.y as int, r.extent_local.y as int);
}

proof fn lemma_map_corners(off_l: int, ext_l: int, off_c: int, ext_c: int)
    requires
        ext_l != 0 || ext_c == 0,
    ensures
        map_axis(off_l, off_l, ext_l, off_c, ext_c) == off_c,
        map_axis(off_l + ext_l, off_l, ext_l, off_c, ext_c) == off_c + ext_c,
{
    if ext_l > 0 {
        lemma_div_multiples_vanish(ext_c, ext_l);
        assert(ext_l * ext_c == ext_c * ext_l) by (nonlinear_arith);
    } else if ext_l < 0 {
        lemma_div_multiples_vanish(ext_c, -ext_l);
        assert(-(ext_l * ext_c) == (-ext_l) * ext_c) by (nonlinear_arith);
    }
}

/// Extruding by zero returns the same rectangle, provided that an axis of zero
/// local extent also has zero curve extent.
pub proof fn lemma_extrude_zero(r: Rect)
    requires
        r.extent_local.x != 0 || r.extent_curve.x == 0,
        r.extent_local.y != 0 || r.extent_curve.y == 0,
    ensures
        r.extruded(0) == r,
{
    lemma_map_corners(r.offset_local.x as int, r.extent_local.x as int, r.offset_curve.x as int, r.extent_curve.x as int);
    lemma_map_corners(r.offset_local.y as int, r.extent_local.y as int, r.offset_curve.y as int, r.extent_curve.y as int);
}

} // verus!
