use vstd::prelude::*;
use crate::geom::Vec2;
use crate::num::{floor_div, floor_div_i128};
use crate::curve::Curve;
use crate::geom::vec2;
use crate::path::{CurveCap, CurveJoin, PathElement};
use vstd::arithmetic::div_mod::{lemma_div_is_ordered, lemma_div_multiples_vanish};

verus! {

/// Stroked paths keep their points strictly within `+-STROKE_LIMIT`, and the stroke
/// distance within it, so that every offset point can be written in coordinates.
pub const STROKE_LIMIT: i32 = 0x4000_0000;

/// The integer square root, rounded down.
pub open spec fn isqrt(v: nat) -> nat
    decreases v,
{
    if v == 0 {
        0
    } else {
        let r = 2 * isqrt(v / 4);
        if (r + 1) * (r + 1) <= v {
            (r + 1) as nat
        } else {
            r
        }
    }
}

pub proof fn lemma_isqrt(v: nat)
    ensures
        (isqrt(v) as int) * (isqrt(v) as int) <= v,
        v < (isqrt(v) as int + 1) * (isqrt(v) as int + 1),
    decreases v,
{
    if v > 0 {
        lemma_isqrt(v / 4);
        let r0 = isqrt(v / 4) as int;
        let r = 2 * r0;
        let q = (v / 4) as int;
        assert(4 * q <= v < 4 * q + 4);
        assert(r * r <= v && v < (r + 2) * (r + 2)) by (nonlinear_arith)
            requires
                r0 * r0 <= q < (r0 + 1) * (r0 + 1),
                4 * q <= v < 4 * q + 4,
                r == 2 * r0,
        ;
        if (r + 1) * (r + 1) <= v {
            assert(isqrt(v) == r + 1);
            assert(((r + 1) + 1) * ((r + 1) + 1) == (r + 2) * (r + 2));
            let s = isqrt(v) as int;
            assert(s * s <= v < (s + 1) * (s + 1));
        } else {
            assert(isqrt(v) == r);
            let s = isqrt(v) as int;
            assert(s * s <= v < (s + 1) * (s + 1));
        }
    } else {
        assert(isqrt(v) == 0);
    }
}

fn isqrt_exec(v: u128) -> (r: u128)
    requires
        v <= 0x4_0000_0000_0000_0000,
    ensures
        r == isqrt(v as nat),
        r <= 0x2_0000_0000,
    decreases v,
{
    proof {
        lemma_isqrt(v as nat);
        let s = isqrt(v as nat) as int;
        assert(s <= 0x2_0000_0000) by (nonlinear_arith)
            requires
                s * s <= v,
                v <= 0x4_0000_0000_0000_0000,
                s >= 0,
        ;
    }
    if v == 0 {
        0
    } else {
        let r0 = isqrt_exec(v / 4);
        let r = 2 * r0;
        proof {
            assert((r + 1) * (r + 1) <= 0x4_0000_0002 * 0x4_0000_0002) by (nonlinear_arith)
                requires
                    0 <= r <= 0x4_0000_0000,
            ;
        }
        if (r + 1) * (r + 1) <= v {
            r + 1
        } else {
            r
        }
    }
}

/// Whether a point lies strictly within the stroke limit.
pub open spec fn inside(p: Vec2) -> bool {
    -STROKE_LIMIT < p.x < STROKE_LIMIT && -STROKE_LIMIT < p.y < STROKE_LIMIT
}

/// Whether an offset lies within the stroke limit.
pub open spec fn small(o: Vec2) -> bool {
    -STROKE_LIMIT <= o.x <= STROKE_LIMIT && -STROKE_LIMIT <= o.y <= STROKE_LIMIT
}

/// The left-hand normal of `(dx, dy)` scaled to length `d`, rounded down; zero for
/// a zero direction (a segment whose ends coincide has no normal).
pub open spec fn offset_dir(dx: int, dy: int, d: int) -> Vec2 {
    let len = isqrt((dx * dx + dy * dy) as nat) as int;
    if len == 0 {
        vec2(0, 0)
    } else {
        vec2(floor_div(-dy * d, len), floor_div(dx * d, len))
    }
}

/// The offset of the segment from `a` to `b`, on its left, at distance `d`.
pub open spec fn line_offset(a: Vec2, b: Vec2, d: int) -> Vec2 {
    offset_dir(b.x - a.x, b.y - a.y, d)
}

pub open spec fn clamp(v: int) -> int {
    if v < -STROKE_LIMIT {
        -STROKE_LIMIT as int
    } else if v > STROKE_LIMIT {
        STROKE_LIMIT as int
    } else {
        v
    }
}

/// The offset of a quadratic's control point, from the offsets `o0` and `o2` of its
/// ends at distance `d`: `(o0 + o2) / (1 + dot(n0, n2))` for the unit normals `n0, n2`,
/// that is `(o0 + o2) d^2 / (d^2 + dot(o0, o2))`, rounded down and clamped to the stroke
/// limit; zero where `d^2 + dot(o0, o2)` is not positive (opposite normals, or a
/// zero distance), where the formula has no value.
pub open spec fn control_offset(o0: Vec2, o2: Vec2, d: int) -> Vec2 {
    let den = d * d + o0.x * o2.x + o0.y * o2.y;
    if den > 0 {
        vec2(clamp(floor_div((o0.x + o2.x) * (d * d), den)), clamp(floor_div((o0.y + o2.y) * (d * d), den)))
    } else {
        vec2(0, 0)
    }
}

pub open spec fn plus(p: Vec2, o: Vec2) -> Vec2 {
    vec2(p.x + o.x, p.y + o.y)
}

pub open spec fn minus(p: Vec2, o: Vec2) -> Vec2 {
    vec2(p.x - o.x, p.y - o.y)
}

pub open spec fn neg(o: Vec2) -> Vec2 {
    vec2(-o.x, -o.y)
}

pub open spec fn abs(v: int) -> int {
    if v >= 0 {
        v
    } else {
        -v
    }
}

/// The cardinal point at distance `|d|` nearest the outward direction `(ox, oy)`:
/// along x where `|ox| >= |oy|`, else along y, on the side that the direction
/// points to.
pub open spec fn cap_cardinal(ox: int, oy: int, d: int) -> Vec2 {
    let r = abs(d);
    if abs(ox) >= abs(oy) {
        if ox >= 0 {
            vec2(r, 0)
        } else {
            vec2(-r, 0)
        }
    } else if oy >= 0 {
        vec2(0, r)
    } else {
        vec2(0, -r)
    }
}

/// A round cap about `p` from `p + n` to `p - n` that bulges towards the outward
/// direction `(ox, oy)`: two arcs that meet at the cardinal point nearest that
/// direction. That point lies strictly inside the half-turn being swept, so
/// neither arc sweeps 180 degrees, and where `n` lies along an axis both arcs are
/// quarter circles.
pub open spec fn round_cap(p: Vec2, n: Vec2, ox: int, oy: int, d: int) -> Seq<Curve> {
    let c = plus(p, cap_cardinal(ox, oy, d));
    seq![Curve::Arc { center: p, p0: plus(p, n), p1: c }, Curve::Arc { center: p, p0: c, p1: minus(p, n) }]
}

/// The cardinal point of a round cap lies strictly on the outward side: for a
/// nonzero direction and distance, its dot product with the direction is positive.
pub proof fn lemma_cap_cardinal_outward(ox: int, oy: int, d: int)
    requires
        ox != 0 || oy != 0,
        d != 0,
        abs(d) <= STROKE_LIMIT,
    ensures
        cap_cardinal(ox, oy, d).x * ox + cap_cardinal(ox, oy, d).y * oy > 0,
{
    let r = abs(d);
    let c = cap_cardinal(ox, oy, d);
    assert(0 < r <= STROKE_LIMIT);
    if abs(ox) >= abs(oy) {
        assert(ox != 0);
        if ox > 0 {
            assert(c.x == r && c.y == 0);
            assert(c.x * ox + c.y * oy > 0) by (nonlinear_arith)
                requires
                    r > 0,
                    ox > 0,
                    c.x as int == r,
                    c.y as int == 0,
            ;
        } else {
            assert(c.x == -r && c.y == 0);
            assert(c.x * ox + c.y * oy > 0) by (nonlinear_arith)
                requires
                    r > 0,
                    ox < 0,
                    c.x as int == -r,
                    c.y as int == 0,
            ;
        }
    } else if oy >= 0 {
        assert(c.x == 0 && c.y == r);
        assert(c.x * ox + c.y * oy > 0) by (nonlinear_arith)
            requires
                r > 0,
                oy > 0,
                c.x as int == 0,
                c.y as int == r,
        ;
    } else {
        assert(c.x == 0 && c.y == -r);
        assert(c.x * ox + c.y * oy > 0) by (nonlinear_arith)
            requires
                r > 0,
                oy < 0,
                c.x as int == 0,
                c.y as int == -r,
        ;
    }
}

/// The cap at the start of an open subpath, whose first offset is `n` and first
/// direction of travel `t`; it bulges backwards, against `t`.
pub open spec fn start_cap(p: Vec2, n: Vec2, t: Vec2, d: int, cap: CurveCap) -> Seq<Curve> {
    match cap {
        CurveCap::Round => round_cap(p, neg(n), -t.x, -t.y, d),
        CurveCap::Butt => seq![Curve::Line { p0: minus(p, n), p1: plus(p, n) }],
    }
}

/// The cap at the end of an open subpath, whose last offset is `n` and last
/// direction of travel `t`; it bulges forwards, along `t`.
pub open spec fn end_cap(p: Vec2, n: Vec2, t: Vec2, d: int, cap: CurveCap) -> Seq<Curve> {
    match cap {
        CurveCap::Round => round_cap(p, n, t.x as int, t.y as int, d),
        CurveCap::Butt => seq![Curve::Line { p0: plus(p, n), p1: minus(p, n) }],
    }
}

/// The direction of travel from `a` to `b`.
pub open spec fn tangent(a: Vec2, b: Vec2) -> Vec2 {
    vec2(b.x - a.x, b.y - a.y)
}

/// A round join is a full circle at the joint; a bevel join adds nothing more.
pub open spec fn join_disc(p: Vec2, d: int, join: CurveJoin) -> Seq<Curve> {
    match join {
        CurveJoin::Round => seq![Curve::Circle { center: p, radius: d as i32 }],
        CurveJoin::Bevel => Seq::empty(),
    }
}

/// The joint at `p` from offset `n0` to offset `n`: a straight connector on each
/// side, then the join's disc.
pub open spec fn joint(p: Vec2, n0: Vec2, n: Vec2, d: int, join: CurveJoin) -> Seq<Curve> {
    seq![Curve::Line { p0: plus(p, n0), p1: plus(p, n) }, Curve::Line { p0: minus(p, n), p1: minus(p, n0) }]
        + join_disc(p, d, join)
}

/// Stroking a path: the curves so far, the current point, the last offset and
/// direction of travel, and the start point, first offset and first direction of
/// the open subpath, if any.
pub struct StrokeState {
    pub curves: Seq<Curve>,
    pub p0: Vec2,
    pub n0: Vec2,
    pub t0: Vec2,
    pub begin: Option<(Vec2, Vec2, Vec2)>,
}

/// The state after one drawn segment from `p0` with first offset `n` and first
/// direction `t`, ending at `p_end` with offset `n_end` and direction `t_end`: its
/// curves, after the joint to the segment before, or nothing more at the start
/// of a subpath.
pub open spec fn after_segment(
    s: StrokeState,
    body: Seq<Curve>,
    n: Vec2,
    t: Vec2,
    p_end: Vec2,
    n_end: Vec2,
    t_end: Vec2,
    d: int,
    join: CurveJoin,
) -> StrokeState {
    match s.begin {
        Some(_) => StrokeState {
            curves: s.curves + body + joint(s.p0, s.n0, n, d, join),
            p0: p_end,
            n0: n_end,
            t0: t_end,
            begin: s.begin,
        },
        None => StrokeState {
            curves: s.curves + body,
            p0: p_end,
            n0: n_end,
            t0: t_end,
            begin: Some((s.p0, n, t)),
        },
    }
}

/// The caps that close off an open subpath.
pub open spec fn close_off(s: StrokeState, d: int, caps: (CurveCap, CurveJoin, CurveCap)) -> Seq<Curve> {
    match s.begin {
        Some((p, n, t)) => start_cap(p, n, t, d, caps.0) + end_cap(s.p0, s.n0, s.t0, d, caps.2),
        None => Seq::empty(),
    }
}

/// The curves that close a subpath back to its start point `p1` with first
/// offset `n1`.
pub open spec fn closing(p0: Vec2, n0: Vec2, p1: Vec2, n1: Vec2, d: int, join: CurveJoin) -> Seq<Curve> {
    let n = line_offset(p0, p1, d);
    seq![
        Curve::Line { p0: plus(p0, n0), p1: plus(p0, n) },
        Curve::Line { p0: plus(p0, n), p1: plus(p1, n) },
        Curve::Line { p0: plus(p1, n), p1: plus(p1, n1) },
        Curve::Line { p0: minus(p0, n), p1: minus(p0, n0) },
        Curve::Line { p0: minus(p1, n), p1: minus(p0, n) },
        Curve::Line { p0: minus(p1, n1), p1: minus(p1, n) },
    ] + join_disc(p0, d, join) + join_disc(p1, d, join)
}

/// The state after one command.
pub open spec fn stroke_step(s: StrokeState, e: PathElement, d: int, caps: (CurveCap, CurveJoin, CurveCap)) -> StrokeState {
    match e {
        PathElement::LineTo(p1) => {
            let n = line_offset(s.p0, p1, d);
            let body = seq![
                Curve::Line { p0: plus(s.p0, n), p1: plus(p1, n) },
                Curve::Line { p0: minus(p1, n), p1: minus(s.p0, n) },
            ];
            after_segment(s, body, n, tangent(s.p0, p1), p1, n, tangent(s.p0, p1), d, caps.1)
        },
        PathElement::QuadTo(p1, p2) => {
            let n0 = line_offset(s.p0, p1, d);
            let n2 = line_offset(p1, p2, d);
            let n1 = control_offset(n0, n2, d);
            let body = seq![
                Curve::Quad { p0: plus(s.p0, n0), p1: plus(p1, n1), p2: plus(p2, n2) },
                Curve::Quad { p0: minus(p2, n2), p1: minus(p1, n1), p2: minus(s.p0, n0) },
            ];
            after_segment(s, body, n0, tangent(s.p0, p1), p2, n2, tangent(p1, p2), d, caps.1)
        },
        PathElement::MoveTo(p) => StrokeState {
            curves: s.curves + close_off(s, d, caps),
            p0: p,
            n0: s.n0,
            t0: s.t0,
            begin: None,
        },
        PathElement::Close => match s.begin {
            Some((p1, n1, _)) => StrokeState {
                curves: s.curves + closing(s.p0, s.n0, p1, n1, d, caps.1),
                begin: None,
                ..s
            },
            None => s,
        },
        PathElement::ArcTo(_, _) => s,
    }
}

pub open spec fn stroke_start() -> StrokeState {
    StrokeState { curves: Seq::empty(), p0: vec2(0, 0), n0: vec2(0, 0), t0: vec2(0, 0), begin: None }
}

/// The state after a whole command list.
pub open spec fn stroke_fold(es: Seq<PathElement>, d: int, caps: (CurveCap, CurveJoin, CurveCap)) -> StrokeState
    decreases es.len(),
{
    if es.len() == 0 {
        stroke_start()
    } else {
        stroke_step(stroke_fold(es.drop_last(), d, caps), es.last(), d, caps)
    }
}

/// The stroke outline of a path: every command's curves, then the caps of a
/// subpath that is still open.
pub open spec fn stroked(es: Seq<PathElement>, d: int, caps: (CurveCap, CurveJoin, CurveCap)) -> Seq<Curve> {
    let s = stroke_fold(es, d, caps);
    s.curves + close_off(s, d, caps)
}

/// Whether a path can be stroked: no arcs, every point strictly within the stroke
/// limit.
pub open spec fn strokable(es: Seq<PathElement>) -> bool {
    forall|i: int|
        0 <= i < es.len() ==> match #[trigger] es[i] {
            PathElement::MoveTo(p) => inside(p),
            PathElement::LineTo(p) => inside(p),
            PathElement::QuadTo(p1, p2) => inside(p1) && inside(p2),
            PathElement::ArcTo(_, _) => false,
            PathElement::Close => true,
        }
}

/// A rounded-down quotient `a * d / len` with `|a| <= len` stays within `|d|`.
proof fn lemma_scaled_bound(a: int, len: int, d: int)
    requires
        -len <= a <= len,
        len > 0,
        -STROKE_LIMIT <= d <= STROKE_LIMIT,
    ensures
        -STROKE_LIMIT <= floor_div(a * d, len) <= STROKE_LIMIT,
{
    let m = STROKE_LIMIT as int;
    assert(-(len * m) <= a * d <= len * m) by (nonlinear_arith)
        requires
            -len <= a <= len,
            len > 0,
            -m <= d <= m,
    ;
    lemma_div_is_ordered(-(len * m), a * d, len);
    lemma_div_is_ordered(a * d, len * m, len);
    lemma_div_multiples_vanish(m, len);
    lemma_div_multiples_vanish(-m, len);
    assert(len * (-m) == -(len * m)) by (nonlinear_arith);
}

fn offset_exec(a: Vec2, b: Vec2, d: i32) -> (r: Vec2)
    requires
        inside(a),
        inside(b),
        -STROKE_LIMIT <= d <= STROKE_LIMIT,
    ensures
        r == line_offset(a, b, d as int),
        small(r),
{
    let dx: i64 = b.x as i64 - a.x as i64;
    let dy: i64 = b.y as i64 - a.y as i64;
    proof {
        assert(0 <= dx * dx <= 0x8000_0000 * 0x8000_0000) by (nonlinear_arith)
            requires
                -0x8000_0000 <= dx <= 0x8000_0000,
        ;
        assert(0 <= dy * dy <= 0x8000_0000 * 0x8000_0000) by (nonlinear_arith)
            requires
                -0x8000_0000 <= dy <= 0x8000_0000,
        ;
    }
    let v: u128 = (dx as i128 * dx as i128 + dy as i128 * dy as i128) as u128;
    let len = isqrt_exec(v);
    if len == 0 {
        return Vec2 { x: 0, y: 0 };
    }
    proof {
        let l = len as int;
        lemma_isqrt(v as nat);
        assert(-l <= dx <= l && -l <= dy <= l) by (nonlinear_arith)
            requires
                v < (l + 1) * (l + 1),
                v == dx * dx + dy * dy,
                l > 0,
        ;
        lemma_scaled_bound(-dy as int, l, d as int);
        lemma_scaled_bound(dx as int, l, d as int);
        assert(-0x8000_0000 * 0x4000_0000 <= (-dy) * d <= 0x8000_0000 * 0x4000_0000) by (nonlinear_arith)
            requires
                -0x8000_0000 <= dy <= 0x8000_0000,
                -0x4000_0000 <= d <= 0x4000_0000,
        ;
        assert(-0x8000_0000 * 0x4000_0000 <= dx * d <= 0x8000_0000 * 0x4000_0000) by (nonlinear_arith)
            requires
                -0x8000_0000 <= dx <= 0x8000_0000,
                -0x4000_0000 <= d <= 0x4000_0000,
        ;
    }
    let x = floor_div_i128(-(dy as i128) * d as i128, len as i128);
    let y = floor_div_i128(dx as i128 * d as i128, len as i128);
    Vec2 { x: x as i32, y: y as i32 }
}

fn clamp_exec(v: i128) -> (r: i32)
    ensures
        r == clamp(v as int),
{
    if v < -(STROKE_LIMIT as i128) {
        -STROKE_LIMIT
    } else if v > STROKE_LIMIT as i128 {
        STROKE_LIMIT
    } else {
        v as i32
    }
}

fn control_offset_exec(o0: Vec2, o2: Vec2, d: i32) -> (r: Vec2)
    requires
        small(o0),
        small(o2),
        -STROKE_LIMIT <= d <= STROKE_LIMIT,
    ensures
        r == control_offset(o0, o2, d as int),
        small(r),
{
    proof {
        let m = 0x4000_0000int;
        assert(0 <= d * d <= m * m) by (nonlinear_arith)
            requires
                -m <= d <= m,
        ;
        assert(-(m * m) <= o0.x * o2.x <= m * m) by (nonlinear_arith)
            requires
                -m <= o0.x <= m,
                -m <= o2.x <= m,
        ;
        assert(-(m * m) <= o0.y * o2.y <= m * m) by (nonlinear_arith)
            requires
                -m <= o0.y <= m,
                -m <= o2.y <= m,
        ;
    }
    let dd: i128 = d as i128 * d as i128;
    let dot: i128 = o0.x as i128 * o2.x as i128 + o0.y as i128 * o2.y as i128;
    let den: i128 = dd + dot;
    if den <= 0 {
        return Vec2 { x: 0, y: 0 };
    }
    proof {
        let m = 0x4000_0000int;
        assert(-(2 * m) * (m * m) <= (o0.x + o2.x) * dd <= (2 * m) * (m * m)) by (nonlinear_arith)
            requires
                -(2 * m) <= o0.x + o2.x <= 2 * m,
                0 <= dd <= m * m,
        ;
        assert(-(2 * m) * (m * m) <= (o0.y + o2.y) * dd <= (2 * m) * (m * m)) by (nonlinear_arith)
            requires
                -(2 * m) <= o0.y + o2.y <= 2 * m,
                0 <= dd <= m * m,
        ;
    }
    let x = floor_div_i128((o0.x as i128 + o2.x as i128) * dd, den);
    let y = floor_div_i128((o0.y as i128 + o2.y as i128) * dd, den);
    Vec2 { x: clamp_exec(x), y: clamp_exec(y) }
}

fn plus_v(p: Vec2, o: Vec2) -> (r: Vec2)
    requires
        inside(p),
        small(o),
    ensures
        r == plus(p, o),
{
    Vec2 { x: p.x + o.x, y: p.y + o.y }
}

fn minus_v(p: Vec2, o: Vec2) -> (r: Vec2)
    requires
        inside(p),
        small(o),
    ensures
        r == minus(p, o),
{
    Vec2 { x: p.x - o.x, y: p.y - o.y }
}

fn cap_cardinal_exec(ox: i64, oy: i64, d: i32) -> (r: Vec2)
    requires
        -0x1_0000_0000 <= ox <= 0x1_0000_0000,
        -0x1_0000_0000 <= oy <= 0x1_0000_0000,
        -STROKE_LIMIT <= d <= STROKE_LIMIT,
    ensures
        r == cap_cardinal(ox as int, oy as int, d as int),
        small(r),
{
    let r: i32 = if d >= 0 {
        d
    } else {
        -d
    };
    let ax: i64 = if ox >= 0 {
        ox
    } else {
        -ox
    };
    let ay: i64 = if oy >= 0 {
        oy
    } else {
        -oy
    };
    if ax >= ay {
        if ox >= 0 {
            Vec2 { x: r, y: 0 }
        } else {
            Vec2 { x: -r, y: 0 }
        }
    } else if oy >= 0 {
        Vec2 { x: 0, y: r }
    } else {
        Vec2 { x: 0, y: -r }
    }
}

fn push_round_cap(curves: &mut Vec<Curve>, p: Vec2, n: Vec2, ox: i64, oy: i64, d: i32)
    requires
        inside(p),
        small(n),
        -0x1_0000_0000 <= ox <= 0x1_0000_0000,
        -0x1_0000_0000 <= oy <= 0x1_0000_0000,
        -STROKE_LIMIT <= d <= STROKE_LIMIT,
    ensures
        final(curves)@ == old(curves)@ + round_cap(p, n, ox as int, oy as int, d as int),
{
    let c = plus_v(p, cap_cardinal_exec(ox, oy, d));
    curves.push(Curve::Arc { center: p, p0: plus_v(p, n), p1: c });
    curves.push(Curve::Arc { center: p, p0: c, p1: minus_v(p, n) });
    assert(final(curves)@ =~= old(curves)@ + round_cap(p, n, ox as int, oy as int, d as int));
}

fn push_start_cap(curves: &mut Vec<Curve>, p: Vec2, n: Vec2, t: Vec2, d: i32, cap: CurveCap)
    requires
        inside(p),
        small(n),
        -STROKE_LIMIT <= d <= STROKE_LIMIT,
    ensures
        final(curves)@ == old(curves)@ + start_cap(p, n, t, d as int, cap),
{
    match cap {
        CurveCap::Round => push_round_cap(
            curves,
            p,
            Vec2 { x: -n.x, y: -n.y },
            -(t.x as i64),
            -(t.y as i64),
            d,
        ),
        CurveCap::Butt => {
            curves.push(Curve::Line { p0: minus_v(p, n), p1: plus_v(p, n) });
            assert(final(curves)@ =~= old(curves)@ + start_cap(p, n, t, d as int, cap));
        },
    }
}

fn push_end_cap(curves: &mut Vec<Curve>, p: Vec2, n: Vec2, t: Vec2, d: i32, cap: CurveCap)
    requires
        inside(p),
        small(n),
        -STROKE_LIMIT <= d <= STROKE_LIMIT,
    ensures
        final(curves)@ == old(curves)@ + end_cap(p, n, t, d as int, cap),
{
    match cap {
        CurveCap::Round => push_round_cap(curves, p, n, t.x as i64, t.y as i64, d),
        CurveCap::Butt => {
            curves.push(Curve::Line { p0: plus_v(p, n), p1: minus_v(p, n) });
            assert(final(curves)@ =~= old(curves)@ + end_cap(p, n, t, d as int, cap));
        },
    }
}

fn push_disc(curves: &mut Vec<Curve>, p: Vec2, d: i32, join: CurveJoin)
    ensures
        final(curves)@ == old(curves)@ + join_disc(p, d as int, join),
{
    if let CurveJoin::Round = join {
        curves.push(Curve::Circle { center: p, radius: d });
    }
    assert(final(curves)@ =~= old(curves)@ + join_disc(p, d as int, join));
}

fn push_joint(curves: &mut Vec<Curve>, p: Vec2, n0: Vec2, n: Vec2, d: i32, join: CurveJoin)
    requires
        inside(p),
        small(n0),
        small(n),
        -STROKE_LIMIT <= d <= STROKE_LIMIT,
    ensures
        final(curves)@ == old(curves)@ + joint(p, n0, n, d as int, join),
{
    curves.push(Curve::Line { p0: plus_v(p, n0), p1: plus_v(p, n) });
    curves.push(Curve::Line { p0: minus_v(p, n), p1: minus_v(p, n0) });
    push_disc(curves, p, d, join);
    assert(final(curves)@ =~= old(curves)@ + joint(p, n0, n, d as int, join));
}

fn push_closing(curves: &mut Vec<Curve>, p0: Vec2, n0: Vec2, p1: Vec2, n1: Vec2, d: i32, join: CurveJoin)
    requires
        inside(p0),
        inside(p1),
        small(n0),
        small(n1),
        -STROKE_LIMIT <= d <= STROKE_LIMIT,
    ensures
        final(curves)@ == old(curves)@ + closing(p0, n0, p1, n1, d as int, join),
{
    let n = offset_exec(p0, p1, d);
    curves.push(Curve::Line { p0: plus_v(p0, n0), p1: plus_v(p0, n) });
    curves.push(Curve::Line { p0: plus_v(p0, n), p1: plus_v(p1, n) });
    curves.push(Curve::Line { p0: plus_v(p1, n), p1: plus_v(p1, n1) });
    curves.push(Curve::Line { p0: minus_v(p0, n), p1: minus_v(p0, n0) });
    curves.push(Curve::Line { p0: minus_v(p1, n), p1: minus_v(p0, n) });
    curves.push(Curve::Line { p0: minus_v(p1, n1), p1: minus_v(p1, n) });
    let ghost mid = curves@;
    push_disc(curves, p0, d, join);
    push_disc(curves, p1, d, join);
    assert(mid =~= old(curves)@ + seq![
        Curve::Line { p0: plus(p0, n0), p1: plus(p0, n) },
        Curve::Line { p0: plus(p0, n), p1: plus(p1, n) },
        Curve::Line { p0: plus(p1, n), p1: plus(p1, n1) },
        Curve::Line { p0: minus(p0, n), p1: minus(p0, n0) },
        Curve::Line { p0: minus(p1, n), p1: minus(p0, n) },
        Curve::Line { p0: minus(p1, n1), p1: minus(p1, n) },
    ]);
    assert(final(curves)@ =~= old(curves)@ + closing(p0, n0, p1, n1, d as int, join));
}

/// Whether the stroke state's points and offsets stay within the stroke limit.
pub open spec fn state_bounded(p0: Vec2, n0: Vec2, begin: Option<(Vec2, Vec2, Vec2)>) -> bool {
    &&& inside(p0)
    &&& small(n0)
    &&& match begin {
        Some(b) => inside(b.0) && small(b.1),
        None => true,
    }
}

/// What a step returns beside the curves: current point, offset and direction,
/// and the open subpath's start.
pub type Pen = (Vec2, Vec2, Vec2, Option<(Vec2, Vec2, Vec2)>);

/// The state that a step returns, beside the curves.
pub open spec fn as_state(curves: Seq<Curve>, r: Pen) -> StrokeState {
    StrokeState { curves, p0: r.0, n0: r.1, t0: r.2, begin: r.3 }
}

fn tangent_v(a: Vec2, b: Vec2) -> (r: Vec2)
    requires
        inside(a),
        inside(b),
    ensures
        r == tangent(a, b),
{
    Vec2 { x: b.x - a.x, y: b.y - a.y }
}

fn line_step(
    curves: &mut Vec<Curve>,
    pen: Pen,
    p1: Vec2,
    distance: i32,
    caps: (CurveCap, CurveJoin, CurveCap),
) -> (r: Pen)
    requires
        state_bounded(pen.0, pen.1, pen.3),
        inside(p1),
        -STROKE_LIMIT <= distance <= STROKE_LIMIT,
    ensures
        as_state(final(curves)@, r) == stroke_step(
            as_state(old(curves)@, pen),
            PathElement::LineTo(p1),
            distance as int,
            caps,
        ),
        state_bounded(r.0, r.1, r.3),
{
    let ghost before = as_state(curves@, pen);
    let (p0, n0, _, begin) = pen;
    let n = offset_exec(p0, p1, distance);
    let t = tangent_v(p0, p1);
    curves.push(Curve::Line { p0: plus_v(p0, n), p1: plus_v(p1, n) });
    curves.push(Curve::Line { p0: minus_v(p1, n), p1: minus_v(p0, n) });
    let ghost body = seq![
        Curve::Line { p0: plus(p0, n), p1: plus(p1, n) },
        Curve::Line { p0: minus(p1, n), p1: minus(p0, n) },
    ];
    assert(curves@ =~= before.curves + body);
    let next = match begin {
        Some(_) => {
            push_joint(curves, p0, n0, n, distance, caps.1);
            begin
        },
        None => Some((p0, n, t)),
    };
    proof {
        let want = after_segment(before, body, n, t, p1, n, t, distance as int, caps.1);
        assert(curves@ =~= want.curves);
    }
    (p1, n, t, next)
}

fn quad_step(
    curves: &mut Vec<Curve>,
    pen: Pen,
    p1: Vec2,
    p2: Vec2,
    distance: i32,
    caps: (CurveCap, CurveJoin, CurveCap),
) -> (r: Pen)
    requires
        state_bounded(pen.0, pen.1, pen.3),
        inside(p1),
        inside(p2),
        -STROKE_LIMIT <= distance <= STROKE_LIMIT,
    ensures
        as_state(final(curves)@, r) == stroke_step(
            as_state(old(curves)@, pen),
            PathElement::QuadTo(p1, p2),
            distance as int,
            caps,
        ),
        state_bounded(r.0, r.1, r.3),
{
    let ghost before = as_state(curves@, pen);
    let (p0, n0, _, begin) = pen;
    let m0 = offset_exec(p0, p1, distance);
    let m2 = offset_exec(p1, p2, distance);
    let m1 = control_offset_exec(m0, m2, distance);
    let ts = tangent_v(p0, p1);
    let te = tangent_v(p1, p2);
    curves.push(Curve::Quad { p0: plus_v(p0, m0), p1: plus_v(p1, m1), p2: plus_v(p2, m2) });
    curves.push(Curve::Quad { p0: minus_v(p2, m2), p1: minus_v(p1, m1), p2: minus_v(p0, m0) });
    let ghost body = seq![
        Curve::Quad { p0: plus(p0, m0), p1: plus(p1, m1), p2: plus(p2, m2) },
        Curve::Quad { p0: minus(p2, m2), p1: minus(p1, m1), p2: minus(p0, m0) },
    ];
    assert(curves@ =~= before.curves + body);
    let next = match begin {
        Some(_) => {
            push_joint(curves, p0, n0, m0, distance, caps.1);
            begin
        },
        None => Some((p0, m0, ts)),
    };
    proof {
        let want = after_segment(before, body, m0, ts, p2, m2, te, distance as int, caps.1);
        assert(curves@ =~= want.curves);
    }
    (p2, m2, te, next)
}

fn push_close_off(curves: &mut Vec<Curve>, pen: Pen, distance: i32, caps: (CurveCap, CurveJoin, CurveCap))
    requires
        state_bounded(pen.0, pen.1, pen.3),
        -STROKE_LIMIT <= distance <= STROKE_LIMIT,
    ensures
        final(curves)@ == old(curves)@ + close_off(as_state(old(curves)@, pen), distance as int, caps),
{
    let (p0, n0, t0, begin) = pen;
    if let Some((bp, bn, bt)) = begin {
        push_start_cap(curves, bp, bn, bt, distance, caps.0);
        push_end_cap(curves, p0, n0, t0, distance, caps.2);
    }
    assert(final(curves)@ =~= old(curves)@ + close_off(as_state(old(curves)@, pen), distance as int, caps));
}

/// Expands the centerline `elements` into a fillable outline at `distance` on each
/// side, with the caps and the join of `caps` (start cap, join, end cap).
pub fn stroke_path(elements: &[PathElement], distance: i32, caps: (CurveCap, CurveJoin, CurveCap)) -> (r: Vec<Curve>)
    requires
        strokable(elements@),
        -STROKE_LIMIT <= distance <= STROKE_LIMIT,
    ensures
        r@ == stroked(elements@, distance as int, caps),
{
    let ghost d = distance as int;
    let mut curves: Vec<Curve> = Vec::new();
    let zero = Vec2 { x: 0, y: 0 };
    let mut pen: Pen = (zero, zero, zero, None);
    let mut i: usize = 0;
    while i < elements.len()
        invariant
            i <= elements@.len(),
            strokable(elements@),
            -STROKE_LIMIT <= distance <= STROKE_LIMIT,
            d == distance as int,
            stroke_fold(elements@.subrange(0, i as int), d, caps) == as_state(curves@, pen),
            state_bounded(pen.0, pen.1, pen.3),
        decreases elements@.len() - i,
    {
        let element = elements[i];
        proof {
            assert(elements@.subrange(0, i + 1).drop_last() == elements@.subrange(0, i as int));
            let e = elements@[i as int];
            assert(match e {
                PathElement::MoveTo(p) => inside(p),
                PathElement::LineTo(p) => inside(p),
                PathElement::QuadTo(p1, p2) => inside(p1) && inside(p2),
                PathElement::ArcTo(_, _) => false,
                PathElement::Close => true,
            });
        }
        let (p0, n0, t0, begin) = pen;
        pen = match element {
            PathElement::LineTo(p1) => line_step(&mut curves, pen, p1, distance, caps),
            PathElement::QuadTo(p1, p2) => quad_step(&mut curves, pen, p1, p2, distance, caps),
            PathElement::MoveTo(p) => {
                push_close_off(&mut curves, pen, distance, caps);
                (p, n0, t0, None)
            },
            PathElement::Close => {
                let ghost before = curves@;
                if let Some((bp, bn, _)) = begin {
                    push_closing(&mut curves, p0, n0, bp, bn, distance, caps.1);
                } else {
                    assert(curves@ == before);
                }
                (p0, n0, t0, None)
            },
            PathElement::ArcTo(_, _) => pen,
        };
        i = i + 1;
    }
    proof {
        assert(elements@.subrange(0, elements@.len() as int) == elements@);
    }
    push_close_off(&mut curves, pen, distance, caps);
    curves
}

} // verus!
