use vstd::prelude::*;
use crate::brush::{Brush, Color, GradientStop};
use crate::geom::Vec2;
use crate::curve::Curve;
use crate::rect::Rect;

verus! {

// The buffer layout is shared with the shader that reads it: one tag per primitive
// and one trailing fill tag; each coordinate is one 32-bit word in two's complement
// (x, then y); each color is one word of four bytes, red in the lowest bits.

pub const PRIMITIVE_LINE: u32 = 0x1;
pub const PRIMITIVE_QUADRATIC: u32 = 0x2;
pub const PRIMITIVE_CIRCLE: u32 = 0x3;
pub const PRIMITIVE_ARC: u32 = 0x4;
pub const PRIMITIVE_RECT: u32 = 0x5;
pub const PRIMITIVE_FILL_COLOR: u32 = 0x10;
pub const PRIMITIVE_FILL_LINEAR_GRADIENT: u32 = 0x11;

/// The 32-bit word that holds `v` in two's complement, for `v` in the `i32` range.
pub open spec fn word(v: int) -> u32 {
    (v as i32) as u32
}

/// Four bytes in one word, the first in the lowest bits.
pub open spec fn unorm8x4(x: u8, y: u8, z: u8, w: u8) -> u32 {
    (x + 0x100 * y + 0x10000 * z + 0x1000000 * w) as u32
}

pub open spec fn point_words(p: Vec2) -> Seq<u32> {
    seq![word(p.x as int), word(p.y as int)]
}

/// A point as its offset from `center`, wrapped to 32 bits per coordinate.
pub open spec fn relative_words(p: Vec2, center: Vec2) -> Seq<u32> {
    seq![(p.x - center.x) as u32, (p.y - center.y) as u32]
}

/// The words that hold one curve's geometry.
pub open spec fn curve_words(c: Curve) -> Seq<u32> {
    match c {
        Curve::Line { p0, p1 } => point_words(p0) + point_words(p1),
        Curve::Quad { p0, p1, p2 } => point_words(p0) + point_words(p1) + point_words(p2),
        Curve::Circle { center, radius } => point_words(center).push(word(radius as int)),
        Curve::Arc { center, p0, p1 } => point_words(center) + relative_words(p0, center)
            + relative_words(p1, center),
        Curve::Rect { p0, p1 } => point_words(p0) + point_words(p1),
    }
}

pub open spec fn curve_tag(c: Curve) -> u32 {
    match c {
        Curve::Line { .. } => PRIMITIVE_LINE,
        Curve::Quad { .. } => PRIMITIVE_QUADRATIC,
        Curve::Circle { .. } => PRIMITIVE_CIRCLE,
        Curve::Arc { .. } => PRIMITIVE_ARC,
        Curve::Rect { .. } => PRIMITIVE_RECT,
    }
}

/// The words of all curves, in order.
pub open spec fn curves_words(cs: Seq<Curve>) -> Seq<u32>
    decreases cs.len(),
{
    if cs.len() == 0 {
        Seq::empty()
    } else {
        curves_words(cs.drop_last()) + curve_words(cs.last())
    }
}

pub open spec fn curves_tags(cs: Seq<Curve>) -> Seq<u32> {
    cs.map_values(|c: Curve| curve_tag(c))
}

pub open spec fn color_word(c: Color) -> u32 {
    unorm8x4(c@[0], c@[1], c@[2], c@[3])
}

pub open spec fn stop_words(s: GradientStop) -> Seq<u32> {
    point_words(s.position).push(color_word(s.color))
}

/// The words that hold the fill style's parameters.
pub open spec fn brush_words(b: Brush) -> Seq<u32> {
    match b {
        Brush::Color(c) => seq![color_word(c)],
        Brush::LinearGradient { stop0, stop1 } => stop_words(stop0) + stop_words(stop1),
    }
}

pub open spec fn brush_tag(b: Brush) -> u32 {
    match b {
        Brush::Color(_) => PRIMITIVE_FILL_COLOR,
        Brush::LinearGradient { .. } => PRIMITIVE_FILL_LINEAR_GRADIENT,
    }
}

/// One vertex of the bounding quad: local position, then curve position.
pub open spec fn corner(lx: i32, ly: i32, cx: i32, cy: i32) -> Seq<i32> {
    seq![lx, ly, cx, cy]
}

/// The six vertices of the two triangles that cover the rectangle: bottom-left,
/// top-left, top-right, then bottom-right, bottom-left, top-right.
pub open spec fn quad_of(r: Rect) -> Seq<i32> {
    let lx0 = r.offset_local.x;
    let ly0 = r.offset_local.y;
    let lx1 = (r.offset_local.x + r.extent_local.x) as i32;
    let ly1 = (r.offset_local.y + r.extent_local.y) as i32;
    let cx0 = r.offset_curve.x;
    let cy0 = r.offset_curve.y;
    let cx1 = (r.offset_curve.x + r.extent_curve.x) as i32;
    let cy1 = (r.offset_curve.y + r.extent_curve.y) as i32;
    corner(lx0, ly0, cx0, cy0) + corner(lx0, ly1, cx0, cy1) + corner(lx1, ly1, cx1, cy1)
        + corner(lx1, ly0, cx1, cy0) + corner(lx0, ly0, cx0, cy0) + corner(lx1, ly1, cx1, cy1)
}

/// The back-reference from each of the six quad vertices to its primitives.
pub open spec fn ranges_of(vertex_start: u32, primitive_start: u32, primitive_end: u32) -> Seq<u32> {
    let t = seq![vertex_start, primitive_start, primitive_end];
    t + t + t + t + t + t
}

/// The four buffers as sequences.
pub struct GpuBuffers {
    pub vertices: Seq<u32>,
    pub primitives: Seq<u32>,
    pub bbox: Seq<i32>,
    pub curve_ranges: Seq<u32>,
}

/// Whether one more `extend` with `path_len` curves keeps the back-references
/// within 32 bits.
pub open spec fn extend_fits(g: GpuBuffers, path_len: int) -> bool {
    &&& g.vertices.len() <= u32::MAX
    &&& g.primitives.len() + path_len + 1 <= u32::MAX
}

/// The buffers after one `extend`.
pub open spec fn extended(g: GpuBuffers, path: Seq<Curve>, rect: Rect, brush: Brush) -> GpuBuffers {
    GpuBuffers {
        vertices: g.vertices + curves_words(path) + brush_words(brush),
        primitives: g.primitives + curves_tags(path) + seq![brush_tag(brush)],
        bbox: g.bbox + quad_of(rect),
        curve_ranges: g.curve_ranges + ranges_of(
            g.vertices.len() as u32,
            g.primitives.len() as u32,
            (g.primitives.len() + path.len() + 1) as u32,
        ),
    }
}

/// Packs four bytes into one word, the first in the lowest bits.
pub fn pack_unorm8x4(x: u8, y: u8, z: u8, w: u8) -> (r: u32)
    ensures
        r == unorm8x4(x, y, z, w),
{
    let r = x as u32 | (y as u32) << 8u32 | (z as u32) << 16u32 | (w as u32) << 24u32;
    proof {
        let (a, b, c, d) = (x as u32, y as u32, z as u32, w as u32);
        assert(a | b << 8u32 | c << 16u32 | d << 24u32 == a + 0x100 * b + 0x10000 * c + 0x1000000 * d)
            by (bit_vector)
            requires
                a < 0x100,
                b < 0x100,
                c < 0x100,
                d < 0x100,
        ;
    }
    r
}

fn push_point(v: &mut Vec<u32>, p: Vec2)
    ensures
        final(v)@ == old(v)@ + point_words(p),
{
    v.push(p.x as u32);
    v.push(p.y as u32);
    assert(final(v)@ =~= old(v)@ + point_words(p));
}

fn push_relative(v: &mut Vec<u32>, p: Vec2, center: Vec2)
    ensures
        final(v)@ == old(v)@ + relative_words(p, center),
{
    v.push((p.x as i64 - center.x as i64) as u32);
    v.push((p.y as i64 - center.y as i64) as u32);
    assert(final(v)@ =~= old(v)@ + relative_words(p, center));
}

fn push_curve(v: &mut Vec<u32>, c: &Curve)
    ensures
        final(v)@ == old(v)@ + curve_words(*c),
{
    match *c {
        Curve::Line { p0, p1 } => {
            push_point(v, p0);
            push_point(v, p1);
        },
        Curve::Quad { p0, p1, p2 } => {
            push_point(v, p0);
            push_point(v, p1);
            push_point(v, p2);
            assert(final(v)@ =~= old(v)@ + curve_words(*c));
        },
        Curve::Circle { center, radius } => {
            push_point(v, center);
            v.push(radius as u32);
            assert(final(v)@ =~= old(v)@ + curve_words(*c));
        },
        Curve::Arc { center, p0, p1 } => {
            push_point(v, center);
            push_relative(v, p0, center);
            push_relative(v, p1, center);
            assert(final(v)@ =~= old(v)@ + curve_words(*c));
        },
        Curve::Rect { p0, p1 } => {
            push_point(v, p0);
            push_point(v, p1);
        },
    }
}

fn curve_tag_of(c: &Curve) -> (r: u32)
    ensures
        r == curve_tag(*c),
{
    match *c {
        Curve::Line { .. } => PRIMITIVE_LINE,
        Curve::Quad { .. } => PRIMITIVE_QUADRATIC,
        Curve::Circle { .. } => PRIMITIVE_CIRCLE,
        Curve::Arc { .. } => PRIMITIVE_ARC,
        Curve::Rect { .. } => PRIMITIVE_RECT,
    }
}

fn push_corner(v: &mut Vec<i32>, lx: i32, ly: i32, cx: i32, cy: i32)
    ensures
        final(v)@ == old(v)@ + corner(lx, ly, cx, cy),
{
    v.push(lx);
    v.push(ly);
    v.push(cx);
    v.push(cy);
    assert(final(v)@ =~= old(v)@ + corner(lx, ly, cx, cy));
}

fn push_ranges(v: &mut Vec<u32>, vertex_start: u32, primitive_start: u32, primitive_end: u32)
    ensures
        final(v)@ == old(v)@ + ranges_of(vertex_start, primitive_start, primitive_end),
{
    let ghost start = v@;
    let mut k: usize = 0;
    while k < 6
        invariant
            k <= 6,
            v@ == start + ranges_part(vertex_start, primitive_start, primitive_end, k as nat),
        decreases 6 - k,
    {
        v.push(vertex_start);
        v.push(primitive_start);
        v.push(primitive_end);
        k = k + 1;
        assert(v@ =~= start + ranges_part(vertex_start, primitive_start, primitive_end, k as nat));
    }
    reveal_with_fuel(ranges_part, 7);
    assert(ranges_part(vertex_start, primitive_start, primitive_end, 6) =~= ranges_of(
        vertex_start,
        primitive_start,
        primitive_end,
    ));
}

/// The first `k` vertices' back-references.
pub open spec fn ranges_part(vertex_start: u32, primitive_start: u32, primitive_end: u32, k: nat) -> Seq<u32>
    decreases k,
{
    if k == 0 {
        Seq::empty()
    } else {
        ranges_part(vertex_start, primitive_start, primitive_end, (k - 1) as nat) + seq![
            vertex_start,
            primitive_start,
            primitive_end,
        ]
    }
}

/// What a GPU rasterizer consumes: packed curve data, primitive tags, bounding quads
/// and the quads' back-references to their primitives.
#[derive(Clone)]
pub struct GpuData {
    pub vertices: Vec<u32>,
    pub primitives: Vec<u32>,
    pub bbox: Vec<i32>,
    pub curve_ranges: Vec<u32>,
}

impl View for GpuData {
    type V = GpuBuffers;

    open spec fn view(&self) -> GpuBuffers {
        GpuBuffers {
            vertices: self.vertices@,
            primitives: self.primitives@,
            bbox: self.bbox@,
            curve_ranges: self.curve_ranges@,
        }
    }
}

impl GpuData {
    pub fn new() -> (r: GpuData)
        ensures
            r@ == empty_buffers(),
    {
        GpuData { vertices: Vec::new(), primitives: Vec::new(), bbox: Vec::new(), curve_ranges: Vec::new() }
    }

    /// Appends one shape: its bounding quad, its curves and its fill style.
    pub fn extend(&mut self, path: &[Curve], rect: Rect, brush: &Brush)
        requires
            rect.corners_fit(),
            extend_fits(old(self)@, path@.len() as int),
        ensures
            final(self)@ == extended(old(self)@, path@, rect, *brush),
    {
        let primitive_start = self.primitives.len() as u32;
        let vertex_start = self.vertices.len() as u32;

        let min_local = rect.offset_local;
        let max_local = Vec2 {
            x: rect.offset_local.x + rect.extent_local.x,
            y: rect.offset_local.y + rect.extent_local.y,
        };
        let min_curve = rect.offset_curve;
        let max_curve = Vec2 {
            x: rect.offset_curve.x + rect.extent_curve.x,
            y: rect.offset_curve.y + rect.extent_curve.y,
        };

        push_corner(&mut self.bbox, min_local.x, min_local.y, min_curve.x, min_curve.y);
        push_corner(&mut self.bbox, min_local.x, max_local.y, min_curve.x, max_curve.y);
        push_corner(&mut self.bbox, max_local.x, max_local.y, max_curve.x, max_curve.y);
        push_corner(&mut self.bbox, max_local.x, min_local.y, max_curve.x, min_curve.y);
        push_corner(&mut self.bbox, min_local.x, min_local.y, min_curve.x, min_curve.y);
        push_corner(&mut self.bbox, max_local.x, max_local.y, max_curve.x, max_curve.y);

        let mut i: usize = 0;
        while i < path.len()
            invariant
                i <= path@.len(),
                self.vertices@ == old(self).vertices@ + curves_words(path@.subrange(0, i as int)),
                self.primitives@ == old(self).primitives@ + curves_tags(path@.subrange(0, i as int)),
                self.bbox@ == old(self).bbox@ + quad_of(rect),
                self.curve_ranges@ == old(self).curve_ranges@,
            decreases path@.len() - i,
        {
            let ghost before = path@.subrange(0, i as int);
            push_curve(&mut self.vertices, &path[i]);
            let tag = curve_tag_of(&path[i]);
            self.primitives.push(tag);
            proof {
                let now = path@.subrange(0, i + 1);
                assert(now.drop_last() == before);
                assert(curves_tags(now) =~= curves_tags(before).push(tag));
                assert(self.vertices@ =~= old(self).vertices@ + curves_words(now));
            }
            i = i + 1;
        }
        proof {
            assert(path@.subrange(0, path@.len() as int) == path@);
        }

        match *brush {
            Brush::Color(c) => {
                self.primitives.push(PRIMITIVE_FILL_COLOR);
                let w = pack_unorm8x4(c[0], c[1], c[2], c[3]);
                self.vertices.push(w);
            },
            Brush::LinearGradient { stop0, stop1 } => {
                self.primitives.push(PRIMITIVE_FILL_LINEAR_GRADIENT);
                push_point(&mut self.vertices, stop0.position);
                let w0 = pack_unorm8x4(stop0.color[0], stop0.color[1], stop0.color[2], stop0.color[3]);
                self.vertices.push(w0);
                push_point(&mut self.vertices, stop1.position);
                let w1 = pack_unorm8x4(stop1.color[0], stop1.color[1], stop1.color[2], stop1.color[3]);
                self.vertices.push(w1);
            },
        }

        let primitive_end = self.primitives.len() as u32;
        push_ranges(&mut self.curve_ranges, vertex_start, primitive_start, primitive_end);
        proof {
            assert(self.vertices@ =~= extended(old(self)@, path@, rect, *brush).vertices);
            assert(self.primitives@ =~= extended(old(self)@, path@, rect, *brush).primitives);
            assert(self.bbox@ =~= extended(old(self)@, path@, rect, *brush).bbox);
        }
    }
}

pub open spec fn empty_buffers() -> GpuBuffers {
    GpuBuffers { vertices: Seq::empty(), primitives: Seq::empty(), bbox: Seq::empty(), curve_ranges: Seq::empty() }
}

/// A shape without curves, with a solid color, adds one quad (24 values), six
/// back-references (18 values), the fill tag and the one color word, whatever the
/// rectangle.
pub proof fn lemma_extend_without_curves(g: GpuBuffers, rect: Rect, c: Color)
    ensures
        extended(g, Seq::empty(), rect, Brush::Color(c)).bbox.len() == g.bbox.len() + 24,
        extended(g, Seq::empty(), rect, Brush::Color(c)).curve_ranges.len() == g.curve_ranges.len() + 18,
        extended(g, Seq::empty(), rect, Brush::Color(c)).primitives == g.primitives.push(PRIMITIVE_FILL_COLOR),
        extended(g, Seq::empty(), rect, Brush::Color(c)).vertices == g.vertices.push(color_word(c)),
{
    let e = extended(g, Seq::empty(), rect, Brush::Color(c));
    assert(curves_tags(Seq::empty()) =~= Seq::<u32>::empty());
    assert(e.primitives =~= g.primitives.push(PRIMITIVE_FILL_COLOR));
    assert(e.vertices =~= g.vertices.push(color_word(c)));
}

/// The arguments of one `extend` call.
pub struct ExtendCall {
    pub path: Seq<Curve>,
    pub rect: Rect,
    pub brush: Brush,
}

/// The buffers after the calls, in order.
pub open spec fn extend_all(g: GpuBuffers, calls: Seq<ExtendCall>) -> GpuBuffers
    decreases calls.len(),
{
    if calls.len() == 0 {
        g
    } else {
        let c = calls.last();
        extended(extend_all(g, calls.drop_last()), c.path, c.rect, c.brush)
    }
}

/// Whether every call keeps the back-references within 32 bits.
pub open spec fn calls_fit(g: GpuBuffers, calls: Seq<ExtendCall>) -> bool {
    forall|k: int|
        0 <= k < calls.len() ==> extend_fits(
            #[trigger] extend_all(g, calls.take(k)),
            calls[k].path.len() as int,
        )
}

proof fn lemma_lengths_grow(g: GpuBuffers, calls: Seq<ExtendCall>, j: int, k: int)
    requires
        0 <= j <= k <= calls.len(),
    ensures
        extend_all(g, calls.take(j)).vertices.len() <= extend_all(g, calls.take(k)).vertices.len(),
        extend_all(g, calls.take(j)).primitives.len() <= extend_all(g, calls.take(k)).primitives.len(),
        extend_all(g, calls.take(j)).curve_ranges.len() <= extend_all(g, calls.take(k)).curve_ranges.len(),
    decreases k - j,
{
    if j < k {
        lemma_lengths_grow(g, calls, j, k - 1);
        assert(calls.take(k).drop_last() == calls.take(k - 1));
    }
}

/// The back-reference that call `k` of `calls` wrote for quad vertex `v`, on fresh
/// buffers: vertex start, primitive start, primitive end.
pub open spec fn range_entry(calls: Seq<ExtendCall>, k: int, v: int) -> (int, int, int) {
    let r = extend_all(empty_buffers(), calls).curve_ranges;
    (r[18 * k + 3 * v] as int, r[18 * k + 3 * v + 1] as int, r[18 * k + 3 * v + 2] as int)
}

/// The vertex and primitive counts after the first `k` calls on fresh buffers.
pub open spec fn counts_after(calls: Seq<ExtendCall>, k: int) -> (int, int) {
    let b = extend_all(empty_buffers(), calls.take(k));
    (b.vertices.len() as int, b.primitives.len() as int)
}

/// After `n` calls on fresh buffers there are `18 * n` back-reference values, and
/// call `k` wrote, for each of its six vertices, the vertex and primitive counts
/// as they stood before it and the primitive count after it; so the starts never
/// decrease from one call to the next.
pub proof fn lemma_extend_ranges(calls: Seq<ExtendCall>)
    requires
        calls_fit(empty_buffers(), calls),
    ensures
        extend_all(empty_buffers(), calls).curve_ranges.len() == 18 * calls.len(),
        forall|k: int, v: int|
            0 <= k < calls.len() && 0 <= v < 6 ==> #[trigger] range_entry(calls, k, v) == (
                counts_after(calls, k).0,
                counts_after(calls, k).1,
                counts_after(calls, k + 1).1,
            ),
        forall|j: int, k: int|
            0 <= j <= k < calls.len() ==> {
                &&& (#[trigger] range_entry(calls, j, 0)).0 <= (#[trigger] range_entry(calls, k, 0)).0
                &&& range_entry(calls, j, 0).1 <= range_entry(calls, k, 0).1
            },
    decreases calls.len(),
{
    let g = empty_buffers();
    let n = calls.len() as int;
    if n > 0 {
        let prev = calls.drop_last();
        assert forall|k: int| 0 <= k < prev.len() implies extend_fits(
            #[trigger] extend_all(g, prev.take(k)),
            prev[k].path.len() as int,
        ) by {
            assert(prev.take(k) == calls.take(k));
            assert(extend_fits(extend_all(g, calls.take(k)), calls[k].path.len() as int));
        }
        lemma_extend_ranges(prev);
        assert(calls.take(n - 1) == prev);
        assert(calls.take(n) == calls);
        assert(extend_fits(extend_all(g, calls.take(n - 1)), calls[n - 1].path.len() as int));
        let r = extend_all(g, calls).curve_ranges;
        let pr = extend_all(g, prev).curve_ranges;
        assert forall|k: int, v: int| 0 <= k < n && 0 <= v < 6 implies #[trigger] range_entry(calls, k, v)
            == (counts_after(calls, k).0, counts_after(calls, k).1, counts_after(calls, k + 1).1) by {
            if k < n - 1 {
                assert(prev.take(k) == calls.take(k));
                assert(prev.take(k + 1) == calls.take(k + 1));
                assert(range_entry(prev, k, v) == range_entry(calls, k, v));
            } else {
                let b = extend_all(g, prev);
                let t = ranges_of(
                    b.vertices.len() as u32,
                    b.primitives.len() as u32,
                    (b.primitives.len() + calls.last().path.len() + 1) as u32,
                );
                assert(r == pr + t);
                assert(r[18 * k + 3 * v] == t[3 * v]);
                assert(r[18 * k + 3 * v + 1] == t[3 * v + 1]);
                assert(r[18 * k + 3 * v + 2] == t[3 * v + 2]);
                assert(curves_tags(calls.last().path).len() == calls.last().path.len());
            }
        }
        assert forall|j: int, k: int| 0 <= j <= k < n implies {
            &&& (#[trigger] range_entry(calls, j, 0)).0 <= (#[trigger] range_entry(calls, k, 0)).0
            &&& range_entry(calls, j, 0).1 <= range_entry(calls, k, 0).1
        } by {
            lemma_lengths_grow(g, calls, j, k);
        }
    }
}

proof fn lemma_lengths_grow_strictly(g: GpuBuffers, calls: Seq<ExtendCall>, j: int, k: int)
    requires
        0 <= j < k <= calls.len(),
    ensures
        extend_all(g, calls.take(j)).vertices.len() < extend_all(g, calls.take(k)).vertices.len(),
        extend_all(g, calls.take(j)).primitives.len() < extend_all(g, calls.take(k)).primitives.len(),
{
    lemma_lengths_grow(g, calls, j, k - 1);
    assert(calls.take(k).drop_last() == calls.take(k - 1));
    let c = calls.take(k).last();
    assert(brush_words(c.brush).len() >= 1);
}

proof fn lemma_bbox_len(g: GpuBuffers, calls: Seq<ExtendCall>)
    ensures
        extend_all(g, calls).bbox.len() == g.bbox.len() + 24 * calls.len(),
    decreases calls.len(),
{
    if calls.len() > 0 {
        lemma_bbox_len(g, calls.drop_last());
    }
}

/// After `n` calls on fresh buffers there are `24 * n` bounding-quad values, and
/// the back-references grow strictly from call to call: every call starts at more
/// vertex words and more primitives than the one before, its primitive range is
/// not empty (it holds at least the fill tag), and it starts where the call before
/// ended.
pub proof fn lemma_extend_growth(calls: Seq<ExtendCall>)
    requires
        calls_fit(empty_buffers(), calls),
    ensures
        extend_all(empty_buffers(), calls).bbox.len() == 24 * calls.len(),
        forall|k: int| 0 <= k < calls.len() ==> (#[trigger] range_entry(calls, k, 0)).1 < range_entry(calls, k, 0).2,
        forall|j: int, k: int|
            0 <= j < k < calls.len() ==> {
                &&& (#[trigger] range_entry(calls, j, 0)).0 < (#[trigger] range_entry(calls, k, 0)).0
                &&& range_entry(calls, j, 0).1 < range_entry(calls, k, 0).1
                &&& k == j + 1 ==> range_entry(calls, k, 0).1 == range_entry(calls, j, 0).2
            },
{
    let g = empty_buffers();
    lemma_bbox_len(g, calls);
    lemma_extend_ranges(calls);
    assert forall|k: int| 0 <= k < calls.len() implies (#[trigger] range_entry(calls, k, 0)).1 < range_entry(
        calls,
        k,
        0,
    ).2 by {
        lemma_lengths_grow_strictly(g, calls, k, k + 1);
    }
    assert forall|j: int, k: int| 0 <= j < k < calls.len() implies {
        &&& (#[trigger] range_entry(calls, j, 0)).0 < (#[trigger] range_entry(calls, k, 0)).0
        &&& range_entry(calls, j, 0).1 < range_entry(calls, k, 0).1
        &&& k == j + 1 ==> range_entry(calls, k, 0).1 == range_entry(calls, j, 0).2
    } by {
        lemma_lengths_grow_strictly(g, calls, j, k);
    }
}

} // verus!
