use vstd::prelude::*;
use crate::geom::{max_i, max_i32, min_i, min_i32, vec2, Vec2};
use crate::split::{
    between, lemma_lerp_between, lemma_quad_between, lemma_split_at_turn, lemma_split_before_turn,
    lemma_split_monotone_axis, lemma_turn_bounds, lerp_at, lerp_i32, quad_at, quad_i32, turn_of, Param,
    PARAM_DEN_MAX,
};
use vstd::arithmetic::div_mod::lemma_div_multiples_vanish;

verus! {

/// A list of curves that belong together, such as one glyph's outline.
pub type Segment = Vec<Curve>;

/// A drawing primitive.
#[derive(Clone, Copy, Debug, PartialEq, Eq, Structural)]
pub enum Curve {
    Line { p0: Vec2, p1: Vec2 },
    Quad { p0: Vec2, p1: Vec2, p2: Vec2 },
    Circle { center: Vec2, radius: i32 },
    /// A circular arc about `center` from `p0` to `p1`.
    Arc { center: Vec2, p0: Vec2, p1: Vec2 },
    /// An axis-aligned rectangle with corners `p0` and `p1`.
    Rect { p0: Vec2, p1: Vec2 },
}

/// An axis-aligned box; `min > max` on an axis stands for an empty box.
#[derive(Clone, Copy, Debug, PartialEq, Eq, Structural)]
pub struct Aabb {
    pub min: Vec2,
    pub max: Vec2,
}

pub open spec fn in_i32(v: int) -> bool {
    i32::MIN <= v <= i32::MAX
}

/// The box spanned by two points.
pub open spec fn span2(a: Vec2, b: Vec2) -> Aabb {
    Aabb {
        min: vec2(min_i(a.x as int, b.x as int), min_i(a.y as int, b.y as int)),
        max: vec2(max_i(a.x as int, b.x as int), max_i(a.y as int, b.y as int)),
    }
}

/// The box spanned by three points.
pub open spec fn span3(a: Vec2, b: Vec2, c: Vec2) -> Aabb {
    Aabb {
        min: vec2(
            min_i(min_i(a.x as int, b.x as int), c.x as int),
            min_i(min_i(a.y as int, b.y as int), c.y as int),
        ),
        max: vec2(
            max_i(max_i(a.x as int, b.x as int), c.x as int),
            max_i(max_i(a.y as int, b.y as int), c.y as int),
        ),
    }
}

/// The seed of `Aabb::from_curves`: inverted on both axes, so that it is empty.
pub open spec fn empty_box() -> Aabb {
    Aabb { min: vec2(i32::MAX as int, i32::MAX as int), max: vec2(i32::MIN as int, i32::MIN as int) }
}

pub open spec fn zero_box() -> Aabb {
    Aabb { min: vec2(0, 0), max: vec2(0, 0) }
}

/// The smallest box that holds both boxes.
pub open spec fn union_box(a: Aabb, b: Aabb) -> Aabb {
    Aabb {
        min: vec2(min_i(a.min.x as int, b.min.x as int), min_i(a.min.y as int, b.min.y as int)),
        max: vec2(max_i(a.max.x as int, b.max.x as int), max_i(a.max.y as int, b.max.y as int)),
    }
}

/// Whether `center +- radius` stays within the coordinate range.
pub open spec fn circle_fits(center: Vec2, radius: int) -> bool {
    &&& i32::MIN <= center.x - radius <= i32::MAX
    &&& i32::MIN <= center.x + radius <= i32::MAX
    &&& i32::MIN <= center.y - radius <= i32::MAX
    &&& i32::MIN <= center.y + radius <= i32::MAX
}

impl Curve {
    /// Whether the curve's box can be written in coordinates.
    pub open spec fn box_fits(self) -> bool {
        match self {
            Curve::Circle { center, radius } => circle_fits(center, radius as int),
            _ => true,
        }
    }

    /// The curve's box: the endpoints of a line or an arc (an arc's sweep may reach
    /// beyond it), the control points of a quadratic, the corners of a rectangle,
    /// and `center +- radius` for a circle.
    pub open spec fn box_of(self) -> Aabb {
        match self {
            Curve::Line { p0, p1 } => span2(p0, p1),
            Curve::Quad { p0, p1, p2 } => span3(p0, p1, p2),
            Curve::Circle { center, radius } => Aabb {
                min: vec2(center.x - radius, center.y - radius),
                max: vec2(center.x + radius, center.y + radius),
            },
            Curve::Arc { center, p0, p1 } => span2(p0, p1),
            Curve::Rect { p0, p1 } => span2(p0, p1),
        }
    }
}

pub open spec fn all_boxes_fit(curves: Seq<Curve>) -> bool {
    forall|i: int| 0 <= i < curves.len() ==> (#[trigger] curves[i]).box_fits()
}

/// The union of the curves' boxes, folded from the empty box.
pub open spec fn boxes_of(curves: Seq<Curve>) -> Aabb
    decreases curves.len(),
{
    if curves.len() == 0 {
        empty_box()
    } else {
        union_box(boxes_of(curves.drop_last()), curves.last().box_of())
    }
}

/// The union of the segments' boxes, folded from the zero box.
pub open spec fn segment_boxes_of(segments: Seq<Seq<Curve>>) -> Aabb
    decreases segments.len(),
{
    if segments.len() == 0 {
        zero_box()
    } else {
        union_box(segment_boxes_of(segments.drop_last()), boxes_of(segments.last()))
    }
}

impl Aabb {
    pub fn zero() -> (r: Aabb)
        ensures
            r == zero_box(),
    {
        Aabb { min: Vec2 { x: 0, y: 0 }, max: Vec2 { x: 0, y: 0 } }
    }

    pub fn union(&self, other: &Aabb) -> (r: Aabb)
        ensures
            r == union_box(*self, *other),
    {
        Aabb {
            min: Vec2 { x: min_i32(self.min.x, other.min.x), y: min_i32(self.min.y, other.min.y) },
            max: Vec2 { x: max_i32(self.max.x, other.max.x), y: max_i32(self.max.y, other.max.y) },
        }
    }

    /// The union of the curves' boxes; empty (inverted) when there are no curves.
    pub fn from_curves(curves: &[Curve]) -> (r: Aabb)
        requires
            all_boxes_fit(curves@),
        ensures
            r == boxes_of(curves@),
    {
        let mut acc = Aabb {
            min: Vec2 { x: i32::MAX, y: i32::MAX },
            max: Vec2 { x: i32::MIN, y: i32::MIN },
        };
        let mut i: usize = 0;
        while i < curves.len()
            invariant
                i <= curves@.len(),
                all_boxes_fit(curves@),
                acc == boxes_of(curves@.subrange(0, i as int)),
            decreases curves@.len() - i,
        {
            let b = curves[i].aabb();
            acc = acc.union(&b);
            proof {
                assert(curves@.subrange(0, i + 1).drop_last() == curves@.subrange(0, i as int));
            }
            i = i + 1;
        }
        proof {
            assert(curves@.subrange(0, curves@.len() as int) == curves@);
        }
        acc
    }

    /// The union of the segments' boxes, folded from the zero box: unlike
    /// `from_curves`, no segments give the zero box.
    pub fn from_segments(segments: &[Segment]) -> (r: Aabb)
        requires
            forall|k: int| 0 <= k < segments@.len() ==> all_boxes_fit((#[trigger] segments@[k])@),
        ensures
            r == segment_boxes_of(segments@.map_values(|s: Segment| s@)),
    {
        let ghost segs = segments@.map_values(|s: Segment| s@);
        let mut acc = Aabb::zero();
        let mut i: usize = 0;
        while i < segments.len()
            invariant
                i <= segments@.len(),
                segs == segments@.map_values(|s: Segment| s@),
                forall|k: int| 0 <= k < segments@.len() ==> all_boxes_fit((#[trigger] segments@[k])@),
                acc == segment_boxes_of(segs.subrange(0, i as int)),
            decreases segments@.len() - i,
        {
            let b = Aabb::from_curves(segments[i].as_slice());
            acc = acc.union(&b);
            proof {
                assert(segs.subrange(0, i + 1).drop_last() == segs.subrange(0, i as int));
            }
            i = i + 1;
        }
        proof {
            assert(segs.subrange(0, segments@.len() as int) == segs);
        }
        acc
    }
}

impl Curve {
    /// The curve's bounding box (see `box_of`).
    pub fn aabb(&self) -> (r: Aabb)
        requires
            self.box_fits(),
        ensures
            r == self.box_of(),
    {
        match *self {
            Curve::Line { p0, p1 } => span_of(p0, p1),
            Curve::Quad { p0, p1, p2 } => Aabb {
                min: Vec2 { x: min_i32(min_i32(p0.x, p1.x), p2.x), y: min_i32(min_i32(p0.y, p1.y), p2.y) },
                max: Vec2 { x: max_i32(max_i32(p0.x, p1.x), p2.x), y: max_i32(max_i32(p0.y, p1.y), p2.y) },
            },
            Curve::Circle { center, radius } => Aabb {
                min: Vec2 { x: center.x - radius, y: center.y - radius },
                max: Vec2 { x: center.x + radius, y: center.y + radius },
            },
            Curve::Arc { center: _, p0, p1 } => span_of(p0, p1),
            Curve::Rect { p0, p1 } => span_of(p0, p1),
        }
    }
}

fn span_of(a: Vec2, b: Vec2) -> (r: Aabb)
    ensures
        r == span2(a, b),
{
    Aabb {
        min: Vec2 { x: min_i32(a.x, b.x), y: min_i32(a.y, b.y) },
        max: Vec2 { x: max_i32(a.x, b.x), y: max_i32(a.y, b.y) },
    }
}

impl Curve {
    /// The point at parameter `t`, rounded down; none for a circle, an arc or a
    /// rectangle, which have no parametrization here.
    pub open spec fn point_at(self, t: Param) -> Option<Vec2> {
        let (n, d) = (t.num as int, t.den as int);
        match self {
            Curve::Line { p0, p1 } => Some(
                vec2(lerp_at(p0.x as int, p1.x as int, n, d), lerp_at(p0.y as int, p1.y as int, n, d)),
            ),
            Curve::Quad { p0, p1, p2 } => Some(
                vec2(
                    quad_at(p0.x as int, p1.x as int, p2.x as int, n, d),
                    quad_at(p0.y as int, p1.y as int, p2.y as int, n, d),
                ),
            ),
            _ => None,
        }
    }

    /// Whether the point at parameter `t` can be written in coordinates.
    pub open spec fn eval_fits(self, t: Param) -> bool {
        let (n, d) = (t.num as int, t.den as int);
        match self {
            Curve::Line { p0, p1 } => in_i32(lerp_at(p0.x as int, p1.x as int, n, d)) && in_i32(
                lerp_at(p0.y as int, p1.y as int, n, d),
            ),
            Curve::Quad { p0, p1, p2 } => in_i32(quad_at(p0.x as int, p1.x as int, p2.x as int, n, d))
                && in_i32(quad_at(p0.y as int, p1.y as int, p2.y as int, n, d)),
            _ => true,
        }
    }

    /// Where the curve starts.
    pub open spec fn start(self) -> Vec2 {
        match self {
            Curve::Line { p0, .. } => p0,
            Curve::Quad { p0, .. } => p0,
            Curve::Circle { center, .. } => center,
            Curve::Arc { p0, .. } => p0,
            Curve::Rect { p0, .. } => p0,
        }
    }

    /// Where the curve ends.
    pub open spec fn end(self) -> Vec2 {
        match self {
            Curve::Line { p1, .. } => p1,
            Curve::Quad { p2, .. } => p2,
            Curve::Circle { center, .. } => center,
            Curve::Arc { p1, .. } => p1,
            Curve::Rect { p1, .. } => p1,
        }
    }

    /// A quadratic is monotonic when its control point lies between its end points
    /// on each axis; every other curve counts as monotonic.
    pub open spec fn is_monotone(self) -> bool {
        match self {
            Curve::Quad { p0, p1, p2 } => between(p0.x as int, p1.x as int, p2.x as int)
                && between(p0.y as int, p1.y as int, p2.y as int),
            _ => true,
        }
    }

    /// The number of axes on which a quadratic turns back.
    pub open spec fn turns(self) -> nat {
        match self {
            Curve::Quad { p0, p1, p2 } => (if turn_of(p0.x as int, p1.x as int, p2.x as int) is Some {
                1nat
            } else {
                0nat
            }) + (if turn_of(p0.y as int, p1.y as int, p2.y as int) is Some {
                1nat
            } else {
                0nat
            }),
            _ => 0,
        }
    }
}

/// De Casteljau subdivision of a quadratic at `n / d`, rounded down.
pub open spec fn split_quad(p0: Vec2, p1: Vec2, p2: Vec2, n: int, d: int) -> (Curve, Curve) {
    let q0 = vec2(lerp_at(p0.x as int, p1.x as int, n, d), lerp_at(p0.y as int, p1.y as int, n, d));
    let q1 = vec2(lerp_at(p1.x as int, p2.x as int, n, d), lerp_at(p1.y as int, p2.y as int, n, d));
    let m = vec2(
        quad_at(p0.x as int, p1.x as int, p2.x as int, n, d),
        quad_at(p0.y as int, p1.y as int, p2.y as int, n, d),
    );
    (Curve::Quad { p0, p1: q0, p2: m }, Curve::Quad { p0: m, p1: q1, p2 })
}

/// Whether parameter `t` comes no later than `u`.
pub open spec fn no_later(t: (int, int), u: (int, int)) -> bool {
    t.0 * u.1 <= u.0 * t.1
}

/// A quadratic split once where it turns back: two pieces where one axis turns,
/// the curve itself where none does.
pub open spec fn pieces_once(c: Curve) -> Seq<Curve> {
    match c {
        Curve::Quad { p0, p1, p2 } => {
            let tx = turn_of(p0.x as int, p1.x as int, p2.x as int);
            let ty = turn_of(p0.y as int, p1.y as int, p2.y as int);
            if tx is Some {
                let (n, d) = tx->0;
                seq![split_quad(p0, p1, p2, n, d).0, split_quad(p0, p1, p2, n, d).1]
            } else if ty is Some {
                let (n, d) = ty->0;
                seq![split_quad(p0, p1, p2, n, d).0, split_quad(p0, p1, p2, n, d).1]
            } else {
                seq![c]
            }
        },
        _ => seq![c],
    }
}

/// The monotonic pieces of a curve: a quadratic that turns back on both axes is
/// split at the earlier turn and the rest split again.
pub open spec fn monotone_pieces(c: Curve) -> Seq<Curve> {
    match c {
        Curve::Quad { p0, p1, p2 } => {
            let tx = turn_of(p0.x as int, p1.x as int, p2.x as int);
            let ty = turn_of(p0.y as int, p1.y as int, p2.y as int);
            if tx is Some && ty is Some {
                let t = if no_later(tx->0, ty->0) {
                    tx->0
                } else {
                    ty->0
                };
                let (first, rest) = split_quad(p0, p1, p2, t.0, t.1);
                seq![first] + pieces_once(rest)
            } else {
                pieces_once(c)
            }
        },
        _ => seq![c],
    }
}

/// Whether the curves run one into the next, from `from` to `to`.
pub open spec fn chained(s: Seq<Curve>, from: Vec2, to: Vec2) -> bool {
    &&& s.len() > 0
    &&& s[0].start() == from
    &&& s.last().end() == to
    &&& forall|i: int| 0 <= i < s.len() - 1 ==> (#[trigger] s[i]).end() == s[i + 1].start()
}

/// Whether every curve is a quadratic.
pub open spec fn all_quads(s: Seq<Curve>) -> bool {
    forall|i: int| 0 <= i < s.len() ==> (#[trigger] s[i]) is Quad
}

pub open spec fn all_monotone(s: Seq<Curve>) -> bool {
    forall|i: int| 0 <= i < s.len() ==> (#[trigger] s[i]).is_monotone()
}

/// The split pieces' coordinates are the rounded values, which lie within the
/// control points' range.
proof fn lemma_split_values(p0: Vec2, p1: Vec2, p2: Vec2, n: int, d: int)
    requires
        0 <= n <= d,
        d > 0,
    ensures
        ({
            let (a, b) = split_quad(p0, p1, p2, n, d);
            &&& a->Quad_p1.x == lerp_at(p0.x as int, p1.x as int, n, d)
            &&& a->Quad_p1.y == lerp_at(p0.y as int, p1.y as int, n, d)
            &&& b->Quad_p1.x == lerp_at(p1.x as int, p2.x as int, n, d)
            &&& b->Quad_p1.y == lerp_at(p1.y as int, p2.y as int, n, d)
            &&& a->Quad_p2.x == quad_at(p0.x as int, p1.x as int, p2.x as int, n, d)
            &&& a->Quad_p2.y == quad_at(p0.y as int, p1.y as int, p2.y as int, n, d)
        }),
{
    lemma_lerp_between(p0.x as int, p1.x as int, n, d);
    lemma_lerp_between(p0.y as int, p1.y as int, n, d);
    lemma_lerp_between(p1.x as int, p2.x as int, n, d);
    lemma_lerp_between(p1.y as int, p2.y as int, n, d);
    lemma_quad_between(p0.x as int, p1.x as int, p2.x as int, n, d);
    lemma_quad_between(p0.y as int, p1.y as int, p2.y as int, n, d);
}

/// One axis of a split at a turn: both pieces flat at the split point.
proof fn lemma_axis_at_turn(a: int, b: int, c: int)
    requires
        turn_of(a, b, c) is Some,
    ensures
        ({
            let (n, d) = turn_of(a, b, c)->0;
            &&& 0 < n < d
            &&& between(a, lerp_at(a, b, n, d), quad_at(a, b, c, n, d))
            &&& between(quad_at(a, b, c, n, d), lerp_at(b, c, n, d), c)
            &&& lerp_at(b, c, n, d) == quad_at(a, b, c, n, d)
        }),
{
    lemma_turn_bounds(a, b, c);
    let (n, d) = turn_of(a, b, c)->0;
    assert(n * (a - 2 * b + c) == d * (a - b)) by (nonlinear_arith)
        requires
            d * (a - b) == n * (a - 2 * b + c),
    ;
    lemma_split_at_turn(a, b, c, n, d);
}

/// Splitting once where at most one axis turns gives monotonic quadratics that
/// run from the curve's start to its end.
proof fn lemma_pieces_once(c: Curve)
    requires
        c is Quad,
        c.turns() <= 1,
    ensures
        all_monotone(pieces_once(c)),
        all_quads(pieces_once(c)),
        chained(pieces_once(c), c.start(), c.end()),
        pieces_once(c).len() <= 2,
{
    let (p0, p1, p2) = (c->Quad_p0, c->Quad_p1, c->Quad_p2);
    let tx = turn_of(p0.x as int, p1.x as int, p2.x as int);
    let ty = turn_of(p0.y as int, p1.y as int, p2.y as int);
    let s = pieces_once(c);
    if tx is Some {
        let (n, d) = tx->0;
        lemma_axis_at_turn(p0.x as int, p1.x as int, p2.x as int);
        lemma_split_monotone_axis(p0.y as int, p1.y as int, p2.y as int, n, d);
        lemma_split_values(p0, p1, p2, n, d);
        assert(s[0].is_monotone() && s[1].is_monotone());
    } else if ty is Some {
        let (n, d) = ty->0;
        lemma_axis_at_turn(p0.y as int, p1.y as int, p2.y as int);
        lemma_split_monotone_axis(p0.x as int, p1.x as int, p2.x as int, n, d);
        lemma_split_values(p0, p1, p2, n, d);
        assert(s[0].is_monotone() && s[1].is_monotone());
    }
}

/// The first piece of a split at the earlier of two turns is monotonic, and the
/// rest turns back on one axis at most.
proof fn lemma_first_split(p0: Vec2, p1: Vec2, p2: Vec2)
    requires
        turn_of(p0.x as int, p1.x as int, p2.x as int) is Some,
        turn_of(p0.y as int, p1.y as int, p2.y as int) is Some,
    ensures
        ({
            let tx = turn_of(p0.x as int, p1.x as int, p2.x as int)->0;
            let ty = turn_of(p0.y as int, p1.y as int, p2.y as int)->0;
            let t = if no_later(tx, ty) {
                tx
            } else {
                ty
            };
            let (first, rest) = split_quad(p0, p1, p2, t.0, t.1);
            &&& 0 < t.0 < t.1
            &&& first.is_monotone()
            &&& rest.turns() <= 1
        }),
{
    let tx = turn_of(p0.x as int, p1.x as int, p2.x as int)->0;
    let ty = turn_of(p0.y as int, p1.y as int, p2.y as int)->0;
    lemma_turn_bounds(p0.x as int, p1.x as int, p2.x as int);
    lemma_turn_bounds(p0.y as int, p1.y as int, p2.y as int);
    if no_later(tx, ty) {
        let (n, d) = tx;
        lemma_axis_at_turn(p0.x as int, p1.x as int, p2.x as int);
        lemma_split_before_turn(p0.y as int, p1.y as int, p2.y as int, n, d);
        lemma_split_values(p0, p1, p2, n, d);
        let rest = split_quad(p0, p1, p2, n, d).1;
        assert(turn_of(rest->Quad_p0.x as int, rest->Quad_p1.x as int, rest->Quad_p2.x as int) is None);
    } else {
        let (n, d) = ty;
        assert(n * tx.1 <= tx.0 * d) by (nonlinear_arith)
            requires
                !(tx.0 * d <= n * tx.1),
        ;
        lemma_axis_at_turn(p0.y as int, p1.y as int, p2.y as int);
        lemma_split_before_turn(p0.x as int, p1.x as int, p2.x as int, n, d);
        lemma_split_values(p0, p1, p2, n, d);
        let rest = split_quad(p0, p1, p2, n, d).1;
        assert(turn_of(rest->Quad_p0.y as int, rest->Quad_p1.y as int, rest->Quad_p2.y as int) is None);
    }
}

/// Monotonizing a quadratic gives one to three quadratics, each monotonic on both
/// axes, that run one into the next from the curve's start to its end.
pub proof fn lemma_monotone_pieces(c: Curve)
    requires
        c is Quad,
    ensures
        all_monotone(monotone_pieces(c)),
        all_quads(monotone_pieces(c)),
        chained(monotone_pieces(c), c.start(), c.end()),
        1 <= monotone_pieces(c).len() <= 3,
{
    let (p0, p1, p2) = (c->Quad_p0, c->Quad_p1, c->Quad_p2);
    let tx = turn_of(p0.x as int, p1.x as int, p2.x as int);
    let ty = turn_of(p0.y as int, p1.y as int, p2.y as int);
    if tx is Some && ty is Some {
        lemma_first_split(p0, p1, p2);
        let t = if no_later(tx->0, ty->0) {
            tx->0
        } else {
            ty->0
        };
        let (first, rest) = split_quad(p0, p1, p2, t.0, t.1);
        lemma_pieces_once(rest);
        let s = monotone_pieces(c);
        let tail = pieces_once(rest);
        assert(s == seq![first] + tail);
        assert forall|i: int| 0 <= i < s.len() implies (#[trigger] s[i]).is_monotone() by {
            if i > 0 {
                assert(s[i] == tail[i - 1]);
            }
        }
        assert forall|i: int| 0 <= i < s.len() implies (#[trigger] s[i]) is Quad by {
            if i > 0 {
                assert(s[i] == tail[i - 1]);
            }
        }
        assert forall|i: int| 0 <= i < s.len() - 1 implies (#[trigger] s[i]).end() == s[i + 1].start() by {
            if i > 0 {
                assert(s[i] == tail[i - 1]);
                assert(tail[i - 1].end() == tail[i].start());
            }
        }
    } else {
        lemma_pieces_once(c);
    }
}

/// Evaluating a line or a quadratic at parameter 0 gives its start, and at
/// parameter 1 (any denominator) its end.
pub proof fn lemma_eval_ends(c: Curve, d: i64)
    requires
        0 < d <= PARAM_DEN_MAX,
        c is Line || c is Quad,
    ensures
        c.point_at(Param { num: 0, den: d }) == Some(c.start()),
        c.point_at(Param { num: d, den: d }) == Some(c.end()),
{
    let di = d as int;
    assert(di * di > 0) by (nonlinear_arith)
        requires
            di > 0,
    ;
    assert forall|v: int| #[trigger] lerp_at(v, v, 0, di) == v && lerp_at(0, v, 0, di) == 0 by {
        lemma_div_multiples_vanish(v, di);
        lemma_div_multiples_vanish(0, di);
        assert((di - 0) * v + 0 * v == di * v) by (nonlinear_arith);
    }
    assert forall|a: int, b: int| #[trigger] lerp_at(a, b, 0, di) == a && lerp_at(a, b, di, di) == b by {
        lemma_div_multiples_vanish(a, di);
        lemma_div_multiples_vanish(b, di);
        assert((di - 0) * a + 0 * b == di * a) by (nonlinear_arith);
        assert((di - di) * a + di * b == di * b) by (nonlinear_arith);
    }
    assert forall|a: int, b: int, e: int|
        #[trigger] quad_at(a, b, e, 0, di) == a && quad_at(a, b, e, di, di) == e by {
        lemma_div_multiples_vanish(a, di * di);
        lemma_div_multiples_vanish(e, di * di);
        assert((di - 0) * (di - 0) * a + 2 * 0 * (di - 0) * b + 0 * 0 * e == (di * di) * a)
            by (nonlinear_arith);
        assert((di - di) * (di - di) * a + 2 * di * (di - di) * b + di * di * e == (di * di) * e)
            by (nonlinear_arith);
    }
    match c {
        Curve::Line { p0, p1 } => {
            assert(lerp_at(p0.x as int, p1.x as int, 0, di) == p0.x);
            assert(lerp_at(p0.y as int, p1.y as int, 0, di) == p0.y);
        },
        Curve::Quad { p0, p1, p2 } => {
            assert(quad_at(p0.x as int, p1.x as int, p2.x as int, 0, di) == p0.x);
            assert(quad_at(p0.y as int, p1.y as int, p2.y as int, 0, di) == p0.y);
        },
        _ => {},
    }
}

/// The turn of one axis, computed.
fn turn_exec(a: i32, b: i32, c: i32) -> (r: Option<(i64, i64)>)
    ensures
        match r {
            Some(t) => turn_of(a as int, b as int, c as int) == Some((t.0 as int, t.1 as int)),
            None => turn_of(a as int, b as int, c as int) is None,
        },
{
    let lo = min_i32(a, c);
    let hi = max_i32(a, c);
    if lo <= b && b <= hi {
        None
    } else {
        let e: i64 = a as i64 - 2 * b as i64 + c as i64;
        if e < 0 {
            Some((b as i64 - a as i64, -e))
        } else {
            Some((a as i64 - b as i64, e))
        }
    }
}

/// De Casteljau subdivision at `n / d`, computed.
fn split_quad_exec(p0: Vec2, p1: Vec2, p2: Vec2, n: i64, d: i64) -> (r: (Curve, Curve))
    requires
        0 <= n <= d,
        0 < d <= PARAM_DEN_MAX,
    ensures
        r == split_quad(p0, p1, p2, n as int, d as int),
{
    proof {
        lemma_split_values(p0, p1, p2, n as int, d as int);
        lemma_lerp_between(p0.x as int, p1.x as int, n as int, d as int);
        lemma_lerp_between(p0.y as int, p1.y as int, n as int, d as int);
        lemma_lerp_between(p1.x as int, p2.x as int, n as int, d as int);
        lemma_lerp_between(p1.y as int, p2.y as int, n as int, d as int);
        lemma_quad_between(p0.x as int, p1.x as int, p2.x as int, n as int, d as int);
        lemma_quad_between(p0.y as int, p1.y as int, p2.y as int, n as int, d as int);
    }
    let q0 = Vec2 { x: lerp_i32(p0.x, p1.x, n, d), y: lerp_i32(p0.y, p1.y, n, d) };
    let q1 = Vec2 { x: lerp_i32(p1.x, p2.x, n, d), y: lerp_i32(p1.y, p2.y, n, d) };
    let m = Vec2 { x: quad_i32(p0.x, p1.x, p2.x, n, d), y: quad_i32(p0.y, p1.y, p2.y, n, d) };
    (Curve::Quad { p0, p1: q0, p2: m }, Curve::Quad { p0: m, p1: q1, p2 })
}

impl Curve {
    /// The point at parameter `t`, rounded down to the coordinate grid; `None` for
    /// the curves that have no parametrization (circle, arc, rectangle).
    pub fn eval(&self, t: Param) -> (r: Option<Vec2>)
        requires
            t.wf(),
            self.eval_fits(t),
        ensures
            r == self.point_at(t),
    {
        match *self {
            Curve::Line { p0, p1 } => Some(
                Vec2 { x: lerp_i32(p0.x, p1.x, t.num, t.den), y: lerp_i32(p0.y, p1.y, t.num, t.den) },
            ),
            Curve::Quad { p0, p1, p2 } => Some(
                Vec2 {
                    x: quad_i32(p0.x, p1.x, p2.x, t.num, t.den),
                    y: quad_i32(p0.y, p1.y, p2.y, t.num, t.den),
                },
            ),
            _ => None,
        }
    }

    /// Splits a quadratic where it turns back on an axis, so that every piece is
    /// monotonic on both axes; other curves come back unchanged.
    pub fn monotonize(&self) -> (r: Vec<Curve>)
        ensures
            r@ == monotone_pieces(*self),
            all_monotone(r@),
            *self is Quad ==> all_quads(r@) && chained(r@, self.start(), self.end()),
        decreases self.turns(),
    {
        proof {
            if *self is Quad {
                lemma_monotone_pieces(*self);
            }
        }
        match *self {
            Curve::Quad { p0, p1, p2 } => {
                let tx = turn_exec(p0.x, p1.x, p2.x);
                let ty = turn_exec(p0.y, p1.y, p2.y);
                proof {
                    if tx is Some {
                        lemma_turn_bounds(p0.x as int, p1.x as int, p2.x as int);
                    }
                    if ty is Some {
                        lemma_turn_bounds(p0.y as int, p1.y as int, p2.y as int);
                    }
                }
                match (tx, ty) {
                    (Some(tx), Some(ty)) => {
                        proof {
                            let (a, b, c, d) = (tx.0 as int, ty.1 as int, ty.0 as int, tx.1 as int);
                            assert(0 <= a * b <= 0x8000_0000_0000_0000 * 0x8000_0000_0000_0000)
                                by (nonlinear_arith)
                                requires
                                    0 <= a <= 0x8000_0000_0000_0000,
                                    0 <= b <= 0x8000_0000_0000_0000,
                            ;
                            assert(0 <= c * d <= 0x8000_0000_0000_0000 * 0x8000_0000_0000_0000)
                                by (nonlinear_arith)
                                requires
                                    0 <= c <= 0x8000_0000_0000_0000,
                                    0 <= d <= 0x8000_0000_0000_0000,
                            ;
                        }
                        let earlier = (tx.0 as i128) * (ty.1 as i128) <= (ty.0 as i128) * (tx.1 as i128);
                        let t = if earlier {
                            tx
                        } else {
                            ty
                        };
                        let (first, rest) = split_quad_exec(p0, p1, p2, t.0, t.1);
                        proof {
                            lemma_first_split(p0, p1, p2);
                        }
                        let mut curves = vec![first];
                        let mut tail = rest.monotonize();
                        curves.append(&mut tail);
                        curves
                    },
                    (Some(t), None) => {
                        let (a, b) = split_quad_exec(p0, p1, p2, t.0, t.1);
                        vec![a, b]
                    },
                    (None, Some(t)) => {
                        let (a, b) = split_quad_exec(p0, p1, p2, t.0, t.1);
                        vec![a, b]
                    },
                    (None, None) => vec![*self],
                }
            },
            _ => vec![*self],
        }
    }

    /// The monotonic pieces of every curve, in order.
    pub fn monotize_path(curves: &[Curve]) -> (r: Vec<Curve>)
        ensures
            r@ == monotone_path(curves@),
            all_monotone(r@),
    {
        let mut out: Vec<Curve> = Vec::new();
        let mut i: usize = 0;
        while i < curves.len()
            invariant
                i <= curves@.len(),
                out@ == monotone_path(curves@.subrange(0, i as int)),
                all_monotone(out@),
            decreases curves@.len() - i,
        {
            let mut pieces = curves[i].monotonize();
            let ghost before = out@;
            out.append(&mut pieces);
            proof {
                assert(curves@.subrange(0, i + 1).drop_last() == curves@.subrange(0, i as int));
                assert forall|k: int| 0 <= k < out@.len() implies (#[trigger] out@[k]).is_monotone() by {
                    if k >= before.len() {
                        assert(out@[k] == monotone_pieces(curves@[i as int])[k - before.len()]);
                    }
                }
            }
            i = i + 1;
        }
        proof {
            assert(curves@.subrange(0, curves@.len() as int) == curves@);
        }
        out
    }
}

/// The monotonic pieces of every curve, in order.
pub open spec fn monotone_path(cs: Seq<Curve>) -> Seq<Curve>
    decreases cs.len(),
{
    if cs.len() == 0 {
        Seq::empty()
    } else {
        monotone_path(cs.drop_last()) + monotone_pieces(cs.last())
    }
}

} // verus!
