use grr_2d::split::Param;
use grr_2d::{Aabb, Curve, PathBuilder, Rect, Vec2};

fn v(x: i32, y: i32) -> Vec2 {
    Vec2::new(x, y)
}

fn between(x: i32, y: i32, z: i32) -> bool {
    (x <= y && y <= z) || (z <= y && y <= x)
}

fn monotone(c: &Curve) -> bool {
    match *c {
        Curve::Quad { p0, p1, p2 } => between(p0.x, p1.x, p2.x) && between(p0.y, p1.y, p2.y),
        _ => true,
    }
}

fn ends(c: &Curve) -> (Vec2, Vec2) {
    match *c {
        Curve::Quad { p0, p2, .. } => (p0, p2),
        _ => panic!("not a quadratic"),
    }
}

fn check_pieces(c: Curve, pieces: &[Curve]) {
    let (start, end) = ends(&c);
    assert!(!pieces.is_empty());
    assert_eq!(ends(&pieces[0]).0, start);
    assert_eq!(ends(&pieces[pieces.len() - 1]).1, end);
    for i in 0..pieces.len() {
        assert!(monotone(&pieces[i]), "piece {} is not monotonic: {:?}", i, pieces[i]);
        if i + 1 < pieces.len() {
            assert_eq!(ends(&pieces[i]).1, ends(&pieces[i + 1]).0);
        }
    }
}

#[test]
fn monotonize_splits_at_y_turn() {
    let c = Curve::Quad { p0: v(0, 0), p1: v(10, 10), p2: v(20, 0) };
    let pieces = c.monotonize();
    assert_eq!(
        pieces,
        vec![
            Curve::Quad { p0: v(0, 0), p1: v(5, 5), p2: v(10, 5) },
            Curve::Quad { p0: v(10, 5), p1: v(15, 5), p2: v(20, 0) },
        ]
    );
    check_pieces(c, &pieces);
}

#[test]
fn monotonize_turn_on_both_axes_gives_three_pieces() {
    let c = Curve::Quad { p0: v(0, 0), p1: v(10, 10), p2: v(5, -5) };
    let pieces = c.monotonize();
    assert_eq!(pieces.len(), 3);
    assert_eq!(pieces[0], Curve::Quad { p0: v(0, 0), p1: v(4, 4), p2: v(5, 4) });
    check_pieces(c, &pieces);
}

#[test]
fn monotonize_keeps_monotonic_and_other_curves() {
    let q = Curve::Quad { p0: v(0, 0), p1: v(5, 3), p2: v(10, 10) };
    assert_eq!(q.monotonize(), vec![q]);
    let l = Curve::Line { p0: v(0, 0), p1: v(-3, 7) };
    assert_eq!(l.monotonize(), vec![l]);
    let c = Curve::Circle { center: v(1, 1), radius: 4 };
    assert_eq!(c.monotonize(), vec![c]);
}

#[test]
fn monotonize_many_quadratics_are_monotonic() {
    let pts = [-40, -7, 0, 3, 25, 60];
    for &ax in pts.iter() {
        for &bx in pts.iter() {
            for &cy in pts.iter() {
                for &by in pts.iter() {
                    let c = Curve::Quad { p0: v(ax, -ax), p1: v(bx, by), p2: v(-cy, cy) };
                    check_pieces(c, &c.monotonize());
                }
            }
        }
    }
}

#[test]
fn monotize_path_concatenates() {
    let a = Curve::Quad { p0: v(0, 0), p1: v(10, 10), p2: v(20, 0) };
    let b = Curve::Line { p0: v(20, 0), p1: v(30, 0) };
    let out = Curve::monotize_path(&[a, b]);
    assert_eq!(out.len(), 3);
    assert_eq!(out[2], b);
}

#[test]
fn eval_ends_of_line_and_quad() {
    let l = Curve::Line { p0: v(1, 2), p1: v(-9, 40) };
    let q = Curve::Quad { p0: v(3, -4), p1: v(100, 7), p2: v(-8, 11) };
    for den in [1i64, 3, 7, 1000] {
        assert_eq!(l.eval(Param { num: 0, den }), Some(v(1, 2)));
        assert_eq!(l.eval(Param { num: den, den }), Some(v(-9, 40)));
        assert_eq!(q.eval(Param { num: 0, den }), Some(v(3, -4)));
        assert_eq!(q.eval(Param { num: den, den }), Some(v(-8, 11)));
    }
}

#[test]
fn eval_midpoints() {
    let l = Curve::Line { p0: v(0, 0), p1: v(10, -5) };
    assert_eq!(l.eval(Param { num: 1, den: 2 }), Some(v(5, -3)));
    let q = Curve::Quad { p0: v(0, 0), p1: v(10, 10), p2: v(20, 0) };
    assert_eq!(q.eval(Param { num: 1, den: 2 }), Some(v(10, 5)));
}

#[test]
fn eval_outside_unit_interval() {
    let l = Curve::Line { p0: v(0, 0), p1: v(10, -5) };
    assert_eq!(l.eval(Param { num: 2, den: 1 }), Some(v(20, -10)));
    assert_eq!(l.eval(Param { num: -1, den: 2 }), Some(v(-5, 2)));
    let q = Curve::Quad { p0: v(0, 0), p1: v(10, 10), p2: v(20, 0) };
    assert_eq!(q.eval(Param { num: 2, den: 1 }), Some(v(40, -40)));
}

#[test]
fn eval_unsupported_curves() {
    let c = Curve::Circle { center: v(0, 0), radius: 3 };
    let a = Curve::Arc { center: v(0, 0), p0: v(3, 0), p1: v(0, 3) };
    assert_eq!(c.eval(Param { num: 1, den: 2 }), None);
    assert_eq!(a.eval(Param { num: 1, den: 2 }), None);
}

#[test]
fn aabb_of_circle() {
    let b = Aabb::from_curves(&[Curve::Circle { center: v(0, 0), radius: 5 }]);
    assert_eq!(b, Aabb { min: v(-5, -5), max: v(5, 5) });
}

#[test]
fn aabb_of_each_curve_kind() {
    let q = Curve::Quad { p0: v(0, 0), p1: v(10, -10), p2: v(20, 5) };
    assert_eq!(q.aabb(), Aabb { min: v(0, -10), max: v(20, 5) });
    let a = Curve::Arc { center: v(0, 0), p0: v(5, 0), p1: v(0, 5) };
    assert_eq!(a.aabb(), Aabb { min: v(0, 0), max: v(5, 5) });
    let l = Curve::Line { p0: v(3, 9), p1: v(-1, 2) };
    assert_eq!(l.aabb(), Aabb { min: v(-1, 2), max: v(3, 9) });
    let both = Aabb::from_curves(&[q, l]);
    assert_eq!(both, Aabb { min: v(-1, -10), max: v(20, 9) });
}

#[test]
fn aabb_empty_inputs_differ() {
    let none = Aabb::from_curves(&[]);
    assert_eq!(none, Aabb { min: v(i32::MAX, i32::MAX), max: v(i32::MIN, i32::MIN) });
    assert!(none.min.x > none.max.x);
    assert_eq!(Aabb::from_segments(&[]), Aabb::zero());
    assert_eq!(Aabb::from_segments(&[Vec::new()]), Aabb::zero());
}

#[test]
fn aabb_from_segments_includes_origin() {
    let seg = vec![Curve::Line { p0: v(5, 5), p1: v(10, 7) }];
    assert_eq!(Aabb::from_segments(&[seg]), Aabb { min: v(0, 0), max: v(10, 7) });
}

#[test]
fn aabb_union() {
    let a = Aabb { min: v(0, 3), max: v(4, 8) };
    let b = Aabb { min: v(-2, 5), max: v(1, 9) };
    assert_eq!(a.union(&b), Aabb { min: v(-2, 3), max: v(4, 9) });
}

fn rect(ol: Vec2, el: Vec2, oc: Vec2, ec: Vec2) -> Rect {
    Rect { offset_local: ol, extent_local: el, offset_curve: oc, extent_curve: ec }
}

#[test]
fn local_to_curve_identity() {
    let r = rect(v(3, 4), v(10, 20), v(3, 4), v(10, 20));
    for p in [v(7, -2), v(3, 4), v(13, 24), v(-100, 55)] {
        assert_eq!(r.local_to_curve(p), p);
    }
}

#[test]
fn local_to_curve_scales_and_guards_flat_axes() {
    let r = rect(v(0, 0), v(10, 0), v(100, 50), v(1000, 7));
    assert_eq!(r.local_to_curve(v(5, 9)), v(600, 50));
    let neg = rect(v(0, 0), v(-4, 4), v(0, 0), v(8, 8));
    assert_eq!(neg.local_to_curve(v(-2, 1)), v(4, 2));
}

#[test]
fn extrude_zero_is_identity() {
    let r = rect(v(3, 4), v(10, 20), v(-7, 9), v(33, 2));
    assert_eq!(r.extrude(0), r);
}

#[test]
fn extrude_grows_both_spaces() {
    let r = rect(v(0, 0), v(10, 10), v(0, 0), v(100, 100));
    let e = r.extrude(2);
    assert_eq!(e, rect(v(-2, -2), v(14, 14), v(-20, -20), v(140, 140)));
}

#[test]
fn fill_emits_one_curve_per_command() {
    let curves = PathBuilder::new()
        .move_to(v(0, 0))
        .line_to(v(10, 0))
        .quad_to(v(10, 10), v(0, 10))
        .close()
        .fill()
        .finish();
    assert_eq!(
        curves,
        vec![
            Curve::Line { p0: v(0, 0), p1: v(10, 0) },
            Curve::Quad { p0: v(10, 0), p1: v(10, 10), p2: v(0, 10) },
            Curve::Line { p0: v(0, 10), p1: v(0, 0) },
        ]
    );
}

#[test]
fn fill_arc_and_new_subpath() {
    let curves = PathBuilder::new()
        .move_to(v(5, 0))
        .arc_to(v(0, 0), v(0, 5))
        .move_to(v(20, 20))
        .line_to(v(30, 20))
        .fill()
        .finish();
    assert_eq!(
        curves,
        vec![
            Curve::Arc { center: v(0, 0), p0: v(5, 0), p1: v(0, 5) },
            Curve::Line { p0: v(20, 20), p1: v(30, 20) },
        ]
    );
}

#[test]
fn path_monotonize_splits_quadratics() {
    let curves = PathBuilder::new()
        .move_to(v(0, 0))
        .quad_to(v(10, 10), v(20, 0))
        .line_to(v(20, -5))
        .close()
        .monotonize()
        .fill()
        .finish();
    assert_eq!(
        curves,
        vec![
            Curve::Quad { p0: v(0, 0), p1: v(5, 5), p2: v(10, 5) },
            Curve::Quad { p0: v(10, 5), p1: v(15, 5), p2: v(20, 0) },
            Curve::Line { p0: v(20, 0), p1: v(20, -5) },
            Curve::Line { p0: v(20, -5), p1: v(0, 0) },
        ]
    );
}
