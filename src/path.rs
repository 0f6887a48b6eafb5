use vstd::prelude::*;
use crate::curve::{all_monotone, all_quads, chained, lemma_monotone_pieces, monotone_pieces, Curve};
use crate::geom::{vec2, Vec2};
use crate::stroke::{stroke_path, stroked, strokable, STROKE_LIMIT};

verus! {

/// How a stroke ends at the two ends of an open subpath.
#[derive(Clone, Copy, Debug, PartialEq, Eq, Structural)]
pub enum CurveCap {
    Butt,
    Round,
}

/// How a stroke joins two consecutive segments.
#[derive(Clone, Copy, Debug, PartialEq, Eq, Structural)]
pub enum CurveJoin {
    Bevel,
    Round,
}

/// One command of a path.
#[derive(Clone, Copy, Debug, PartialEq, Eq, Structural)]
pub enum PathElement {
    MoveTo(Vec2),
    LineTo(Vec2),
    /// A quadratic with control point and end point.
    QuadTo(Vec2, Vec2),
    /// An arc with center and end point.
    ArcTo(Vec2, Vec2),
    Close,
}

/// An append-only list of path commands.
pub struct PathBuilder {
    elements: Vec<PathElement>,
}

impl View for PathBuilder {
    type V = Seq<PathElement>;

    closed spec fn view(&self) -> Seq<PathElement> {
        self.elements@
    }
}

impl PathBuilder {
    pub fn new() -> (r: PathBuilder)
        ensures
            r@ == Seq::<PathElement>::empty(),
    {
        PathBuilder { elements: Vec::new() }
    }

    pub fn move_to(self, p: Vec2) -> (r: PathBuilder)
        ensures
            r@ == self@.push(PathElement::MoveTo(p)),
    {
        let mut b = self;
        b.elements.push(PathElement::MoveTo(p));
        b
    }

    pub fn line_to(self, p: Vec2) -> (r: PathBuilder)
        ensures
            r@ == self@.push(PathElement::LineTo(p)),
    {
        let mut b = self;
        b.elements.push(PathElement::LineTo(p));
        b
    }

    pub fn quad_to(self, p1: Vec2, p2: Vec2) -> (r: PathBuilder)
        ensures
            r@ == self@.push(PathElement::QuadTo(p1, p2)),
    {
        let mut b = self;
        b.elements.push(PathElement::QuadTo(p1, p2));
        b
    }

    pub fn arc_to(self, center: Vec2, p1: Vec2) -> (r: PathBuilder)
        ensures
            r@ == self@.push(PathElement::ArcTo(center, p1)),
    {
        let mut b = self;
        b.elements.push(PathElement::ArcTo(center, p1));
        b
    }

    pub fn close(self) -> (r: PathBuilder)
        ensures
            r@ == self@.push(PathElement::Close),
    {
        let mut b = self;
        b.elements.push(PathElement::Close);
        b
    }

    /// Expands the path into a fillable outline that lies `distance` to each side
    /// of the centerline, with the start cap, join and end cap of `caps`.
    pub fn stroke(self, distance: i32, caps: (CurveCap, CurveJoin, CurveCap)) -> (r: Vec<Curve>)
        requires
            strokable(self@),
            -STROKE_LIMIT <= distance <= STROKE_LIMIT,
        ensures
            r@ == stroked(self@, distance as int, caps),
    {
        stroke_path(self.elements.as_slice(), distance, caps)
    }

    /// Turns each drawing command into one curve from the current point.
    pub fn fill(self) -> (r: PathSplitter)
        ensures
            r@ == split_all(self@),
    {
        let mut splitter = PathSplitter::new();
        let mut i: usize = 0;
        while i < self.elements.len()
            invariant
                i <= self@.len(),
                splitter@ == split_all(self@.subrange(0, i as int)),
            decreases self@.len() - i,
        {
            let e = self.elements[i];
            splitter = match e {
                PathElement::MoveTo(p) => splitter.move_to(p),
                PathElement::LineTo(p) => splitter.line_to(p),
                PathElement::QuadTo(p1, p2) => splitter.quad_to(p1, p2),
                PathElement::ArcTo(center, p1) => splitter.arc_to(center, p1),
                PathElement::Close => splitter.close(),
            };
            proof {
                assert(self@.subrange(0, i + 1).drop_last() == self@.subrange(0, i as int));
            }
            i = i + 1;
        }
        proof {
            assert(self@.subrange(0, self@.len() as int) == self@);
        }
        splitter
    }
}

/// Whether the path has no arc command (arcs cannot be monotonized or stroked).
pub open spec fn no_arcs(es: Seq<PathElement>) -> bool {
    forall|i: int| 0 <= i < es.len() ==> !(#[trigger] es[i] is ArcTo)
}

/// The commands that draw the quadratics, each from the end of the one before.
pub open spec fn quad_commands(s: Seq<Curve>) -> Seq<PathElement> {
    s.map_values(|c: Curve| PathElement::QuadTo(c->Quad_p1, c->Quad_p2))
}

/// Monotonizing a path: the commands so far, the current point and the subpath's
/// first point.
pub struct MonoState {
    pub out: Seq<PathElement>,
    pub p0: Vec2,
    pub initial: Vec2,
}

/// The state after one command: a quadratic is replaced by its monotonic pieces,
/// every other command is kept.
pub open spec fn mono_step(s: MonoState, e: PathElement) -> MonoState {
    match e {
        PathElement::MoveTo(p) => MonoState { out: s.out.push(e), p0: p, initial: p },
        PathElement::LineTo(p) => MonoState { out: s.out.push(e), p0: p, ..s },
        PathElement::QuadTo(p1, p2) => MonoState {
            out: s.out + quad_commands(monotone_pieces(Curve::Quad { p0: s.p0, p1, p2 })),
            p0: p2,
            ..s
        },
        PathElement::ArcTo(_, _) => s,
        PathElement::Close => MonoState { out: s.out.push(e), p0: s.initial, ..s },
    }
}

/// The state after a whole command list, from the origin.
pub open spec fn mono_all(es: Seq<PathElement>) -> MonoState
    decreases es.len(),
{
    if es.len() == 0 {
        MonoState { out: Seq::empty(), p0: vec2(0, 0), initial: vec2(0, 0) }
    } else {
        mono_step(mono_all(es.drop_last()), es.last())
    }
}

impl PathBuilder {
    /// Replaces every quadratic by its monotonic pieces (see `Curve::monotonize`).
    pub fn monotonize(self) -> (r: PathBuilder)
        requires
            no_arcs(self@),
        ensures
            r@ == mono_all(self@).out,
            all_monotone(split_all(r@).curves),
    {
        proof {
            lemma_monotonized_path(self@);
        }
        let mut builder = PathBuilder::new();
        let mut p0 = Vec2 { x: 0, y: 0 };
        let mut initial = p0;
        let mut i: usize = 0;
        while i < self.elements.len()
            invariant
                i <= self@.len(),
                no_arcs(self@),
                mono_all(self@.subrange(0, i as int)) == (MonoState { out: builder@, p0, initial }),
            decreases self@.len() - i,
        {
            let element = self.elements[i];
            proof {
                assert(self@.subrange(0, i + 1).drop_last() == self@.subrange(0, i as int));
                assert(!(self@[i as int] is ArcTo));
            }
            match element {
                PathElement::LineTo(p) => {
                    builder.elements.push(PathElement::LineTo(p));
                    p0 = p;
                },
                PathElement::MoveTo(p) => {
                    builder.elements.push(PathElement::MoveTo(p));
                    p0 = p;
                    initial = p;
                },
                PathElement::Close => {
                    builder.elements.push(PathElement::Close);
                    p0 = initial;
                },
                PathElement::QuadTo(p1, p2) => {
                    let whole = Curve::Quad { p0, p1, p2 };
                    let curves = whole.monotonize();
                    let ghost before = builder@;
                    let mut j: usize = 0;
                    while j < curves.len()
                        invariant
                            j <= curves@.len(),
                            all_quads(curves@),
                            chained(curves@, whole.start(), whole.end()),
                            builder@ == before + quad_commands(curves@.subrange(0, j as int)),
                            j == 0 ==> p0 == whole.start(),
                            j > 0 ==> p0 == curves@[j - 1].end(),
                        decreases curves@.len() - j,
                    {
                        let curve = curves[j];
                        proof {
                            assert(curves@[j as int] is Quad);
                        }
                        if let Curve::Quad { p1: c1, p2: c2, .. } = curve {
                            builder.elements.push(PathElement::QuadTo(c1, c2));
                            p0 = c2;
                        }
                        proof {
                            assert(quad_commands(curves@.subrange(0, j + 1)) =~= quad_commands(
                                curves@.subrange(0, j as int),
                            ).push(PathElement::QuadTo(c1_of(curve), curve.end())));
                        }
                        j = j + 1;
                    }
                    proof {
                        assert(curves@.subrange(0, curves@.len() as int) == curves@);
                    }
                },
                PathElement::ArcTo(_, _) => {},
            }
            i = i + 1;
        }
        proof {
            assert(self@.subrange(0, self@.len() as int) == self@);
        }
        builder
    }
}

/// Drawing monotonic pieces that run on from the current point adds exactly
/// those pieces and leaves the current point at the last one's end.
proof fn lemma_split_quad_commands(prefix: Seq<PathElement>, pieces: Seq<Curve>)
    requires
        pieces.len() > 0,
        all_quads(pieces),
        chained(pieces, split_all(prefix).last, pieces.last().end()),
    ensures
        split_all(prefix + quad_commands(pieces)).curves == split_all(prefix).curves + pieces,
        split_all(prefix + quad_commands(pieces)).last == pieces.last().end(),
        split_all(prefix + quad_commands(pieces)).first == split_all(prefix).first,
    decreases pieces.len(),
{
    let whole = prefix + quad_commands(pieces);
    let init = pieces.drop_last();
    let c = pieces.last();
    assert(whole.drop_last() == prefix + quad_commands(init));
    assert(whole.last() == PathElement::QuadTo(c->Quad_p1, c->Quad_p2));
    assert(c is Quad);
    if pieces.len() == 1 {
        assert(quad_commands(init) =~= Seq::<PathElement>::empty());
        assert(prefix + quad_commands(init) == prefix);
        assert(pieces =~= seq![c]);
    } else {
        assert forall|i: int| 0 <= i < init.len() - 1 implies (#[trigger] init[i]).end() == init[i + 1].start() by {
            assert(pieces[i].end() == pieces[i + 1].start());
        }
        assert forall|i: int| 0 <= i < init.len() implies (#[trigger] init[i]) is Quad by {
            assert(pieces[i] is Quad);
        }
        lemma_split_quad_commands(prefix, init);
        assert(pieces[pieces.len() - 2].end() == pieces[pieces.len() - 1].start());
        assert(pieces =~= init.push(c));
    }
}

/// After a path is monotonized, filling it gives only monotonic curves: every
/// quadratic, drawn from the current point, lies within its end points' range
/// on both axes.
pub proof fn lemma_monotonized_path(es: Seq<PathElement>)
    requires
        no_arcs(es),
    ensures
        all_monotone(split_all(mono_all(es).out).curves),
        split_all(mono_all(es).out).last == mono_all(es).p0,
        split_all(mono_all(es).out).first == mono_all(es).initial,
    decreases es.len(),
{
    if es.len() > 0 {
        let prev = es.drop_last();
        assert forall|i: int| 0 <= i < prev.len() implies !(#[trigger] prev[i] is ArcTo) by {
            assert(prev[i] == es[i]);
        }
        lemma_monotonized_path(prev);
        let m = mono_all(prev);
        let sp = split_all(m.out);
        let e = es.last();
        assert(!(es[es.len() - 1] is ArcTo));
        match e {
            PathElement::QuadTo(p1, p2) => {
                let q = Curve::Quad { p0: m.p0, p1, p2 };
                lemma_monotone_pieces(q);
                let pieces = monotone_pieces(q);
                lemma_split_quad_commands(m.out, pieces);
                let after = split_all(m.out + quad_commands(pieces));
                assert(after.curves == sp.curves + pieces);
                assert forall|i: int| 0 <= i < after.curves.len() implies (#[trigger] after.curves[i]).is_monotone() by {
                    if i >= sp.curves.len() {
                        assert(after.curves[i] == pieces[i - sp.curves.len()]);
                    } else {
                        assert(after.curves[i] == sp.curves[i]);
                    }
                }
            },
            _ => {
                let out = m.out.push(e);
                assert(out.drop_last() == m.out);
                let after = split_all(out);
                assert forall|i: int| 0 <= i < after.curves.len() implies (#[trigger] after.curves[i]).is_monotone() by {
                    if i < sp.curves.len() {
                        assert(after.curves[i] == sp.curves[i]);
                    }
                }
            },
        }
    }
}

/// A quadratic's control point.
pub open spec fn c1_of(c: Curve) -> Vec2 {
    c->Quad_p1
}

/// What a `PathSplitter` holds: the curves so far, the subpath's first point and
/// the current point.
pub struct SplitState {
    pub curves: Seq<Curve>,
    pub first: Vec2,
    pub last: Vec2,
}

/// The state after one path command.
pub open spec fn split_step(s: SplitState, e: PathElement) -> SplitState {
    match e {
        PathElement::MoveTo(p) => SplitState { first: p, last: p, ..s },
        PathElement::LineTo(p) => SplitState {
            curves: s.curves.push(Curve::Line { p0: s.last, p1: p }),
            last: p,
            ..s
        },
        PathElement::QuadTo(p1, p2) => SplitState {
            curves: s.curves.push(Curve::Quad { p0: s.last, p1, p2 }),
            last: p2,
            ..s
        },
        PathElement::ArcTo(center, p1) => SplitState {
            curves: s.curves.push(Curve::Arc { center, p0: s.last, p1 }),
            last: p1,
            ..s
        },
        PathElement::Close => SplitState {
            curves: s.curves.push(Curve::Line { p0: s.last, p1: s.first }),
            last: s.first,
            ..s
        },
    }
}

pub open spec fn split_start() -> SplitState {
    SplitState { curves: Seq::empty(), first: vec2(0, 0), last: vec2(0, 0) }
}

/// The state after a whole command list, from the origin.
pub open spec fn split_all(es: Seq<PathElement>) -> SplitState
    decreases es.len(),
{
    if es.len() == 0 {
        split_start()
    } else {
        split_step(split_all(es.drop_last()), es.last())
    }
}

/// Turns path commands into curves, one per drawing command.
pub struct PathSplitter {
    curves: Vec<Curve>,
    first: Vec2,
    last: Vec2,
}

impl View for PathSplitter {
    type V = SplitState;

    closed spec fn view(&self) -> SplitState {
        SplitState { curves: self.curves@, first: self.first, last: self.last }
    }
}

impl PathSplitter {
    pub fn new() -> (r: PathSplitter)
        ensures
            r@ == split_start(),
    {
        PathSplitter { curves: Vec::new(), first: Vec2 { x: 0, y: 0 }, last: Vec2 { x: 0, y: 0 } }
    }

    pub fn move_to(self, p: Vec2) -> (r: PathSplitter)
        ensures
            r@ == split_step(self@, PathElement::MoveTo(p)),
    {
        let mut s = self;
        s.first = p;
        s.last = p;
        s
    }

    pub fn line_to(self, p: Vec2) -> (r: PathSplitter)
        ensures
            r@ == split_step(self@, PathElement::LineTo(p)),
    {
        let mut s = self;
        s.curves.push(Curve::Line { p0: s.last, p1: p });
        s.last = p;
        s
    }

    pub fn quad_to(self, p1: Vec2, p2: Vec2) -> (r: PathSplitter)
        ensures
            r@ == split_step(self@, PathElement::QuadTo(p1, p2)),
    {
        let mut s = self;
        s.curves.push(Curve::Quad { p0: s.last, p1, p2 });
        s.last = p2;
        s
    }

    fn arc_to(self, center: Vec2, p1: Vec2) -> (r: PathSplitter)
        ensures
            r@ == split_step(self@, PathElement::ArcTo(center, p1)),
    {
        let mut s = self;
        s.curves.push(Curve::Arc { center, p0: s.last, p1 });
        s.last = p1;
        s
    }

    pub fn close(self) -> (r: PathSplitter)
        ensures
            r@ == split_step(self@, PathElement::Close),
    {
        let mut s = self;
        s.curves.push(Curve::Line { p0: s.last, p1: s.first });
        s.last = s.first;
        s
    }

    pub fn finish(self) -> (r: Vec<Curve>)
        ensures
            r@ == self@.curves,
    {
        self.curves
    }
}

} // verus!
