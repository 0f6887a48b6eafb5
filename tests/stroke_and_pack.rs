use grr_2d::gpu::{pack_unorm8x4, GpuData};
use grr_2d::{Brush, Curve, CurveCap, CurveJoin, GradientStop, PathBuilder, Rect, Vec2};

fn v(x: i32, y: i32) -> Vec2 {
    Vec2::new(x, y)
}

fn line(a: Vec2, b: Vec2) -> Curve {
    Curve::Line { p0: a, p1: b }
}

#[test]
fn stroke_single_line_with_butt_caps() {
    let curves = PathBuilder::new()
        .move_to(v(0, 0))
        .line_to(v(10, 0))
        .stroke(2, (CurveCap::Butt, CurveJoin::Bevel, CurveCap::Butt));
    assert_eq!(
        curves,
        vec![
            line(v(0, 2), v(10, 2)),
            line(v(10, -2), v(0, -2)),
            line(v(0, -2), v(0, 2)),
            line(v(10, 2), v(10, -2)),
        ]
    );
}

#[test]
fn stroke_round_join_adds_circle() {
    let curves = PathBuilder::new()
        .move_to(v(0, 0))
        .line_to(v(10, 0))
        .line_to(v(10, 10))
        .stroke(2, (CurveCap::Butt, CurveJoin::Round, CurveCap::Butt));
    assert_eq!(
        curves,
        vec![
            line(v(0, 2), v(10, 2)),
            line(v(10, -2), v(0, -2)),
            line(v(8, 0), v(8, 10)),
            line(v(12, 10), v(12, 0)),
            line(v(10, 2), v(8, 0)),
            line(v(12, 0), v(10, -2)),
            Curve::Circle { center: v(10, 0), radius: 2 },
            line(v(0, -2), v(0, 2)),
            line(v(8, 10), v(12, 10)),
        ]
    );
}

#[test]
fn stroke_round_caps_are_two_quarter_arcs() {
    let curves = PathBuilder::new()
        .move_to(v(0, 0))
        .line_to(v(10, 0))
        .stroke(2, (CurveCap::Round, CurveJoin::Bevel, CurveCap::Round));
    let c = v(0, 0);
    let e = v(10, 0);
    assert_eq!(
        curves,
        vec![
            line(v(0, 2), v(10, 2)),
            line(v(10, -2), v(0, -2)),
            Curve::Arc { center: c, p0: v(0, -2), p1: v(-2, 0) },
            Curve::Arc { center: c, p0: v(-2, 0), p1: v(0, 2) },
            Curve::Arc { center: e, p0: v(10, 2), p1: v(12, 0) },
            Curve::Arc { center: e, p0: v(12, 0), p1: v(10, -2) },
        ]
    );
}

#[test]
fn stroke_round_caps_with_negative_distance_bulge_outward() {
    let curves = PathBuilder::new()
        .move_to(v(0, 0))
        .line_to(v(10, 0))
        .stroke(-2, (CurveCap::Round, CurveJoin::Bevel, CurveCap::Round));
    let c = v(0, 0);
    let e = v(10, 0);
    assert_eq!(
        curves,
        vec![
            line(v(0, -2), v(10, -2)),
            line(v(10, 2), v(0, 2)),
            Curve::Arc { center: c, p0: v(0, 2), p1: v(-2, 0) },
            Curve::Arc { center: c, p0: v(-2, 0), p1: v(0, -2) },
            Curve::Arc { center: e, p0: v(10, -2), p1: v(12, 0) },
            Curve::Arc { center: e, p0: v(12, 0), p1: v(10, 2) },
        ]
    );
}

#[test]
fn stroke_round_caps_on_a_diagonal() {
    let curves = PathBuilder::new()
        .move_to(v(0, 0))
        .line_to(v(10, 10))
        .stroke(10, (CurveCap::Round, CurveJoin::Bevel, CurveCap::Round));
    assert_eq!(curves.len(), 6);
    assert_eq!(curves[0], line(v(-8, 7), v(2, 17)));
    assert_eq!(curves[3], Curve::Arc { center: v(0, 0), p0: v(-10, 0), p1: v(-8, 7) });
    assert_eq!(curves[4], Curve::Arc { center: v(10, 10), p0: v(2, 17), p1: v(20, 10) });
}

#[test]
fn stroke_closed_triangle_has_no_caps() {
    let curves = PathBuilder::new()
        .move_to(v(0, 0))
        .line_to(v(10, 0))
        .line_to(v(10, 10))
        .close()
        .stroke(2, (CurveCap::Round, CurveJoin::Bevel, CurveCap::Round));
    assert_eq!(curves.len(), 12);
    assert!(curves.iter().all(|c| matches!(c, Curve::Line { .. })));
}

#[test]
fn stroke_closed_round_join_adds_two_circles() {
    let curves = PathBuilder::new()
        .move_to(v(0, 0))
        .line_to(v(10, 0))
        .line_to(v(10, 10))
        .close()
        .stroke(2, (CurveCap::Butt, CurveJoin::Round, CurveCap::Butt));
    let circles = curves.iter().filter(|c| matches!(c, Curve::Circle { .. })).count();
    assert_eq!(circles, 3);
    assert_eq!(curves.len(), 15);
}

#[test]
fn stroke_quadratic_offsets_control_point() {
    let curves = PathBuilder::new()
        .move_to(v(0, 0))
        .quad_to(v(10, 0), v(10, 10))
        .stroke(2, (CurveCap::Butt, CurveJoin::Bevel, CurveCap::Butt));
    assert_eq!(
        curves,
        vec![
            Curve::Quad { p0: v(0, 2), p1: v(8, 2), p2: v(8, 10) },
            Curve::Quad { p0: v(12, 10), p1: v(12, -2), p2: v(0, -2) },
            line(v(0, -2), v(0, 2)),
            line(v(8, 10), v(12, 10)),
        ]
    );
}

#[test]
fn stroke_move_to_closes_off_previous_subpath() {
    let curves = PathBuilder::new()
        .move_to(v(0, 0))
        .line_to(v(10, 0))
        .move_to(v(0, 20))
        .line_to(v(0, 30))
        .stroke(1, (CurveCap::Butt, CurveJoin::Bevel, CurveCap::Butt));
    assert_eq!(curves.len(), 8);
    assert_eq!(curves[2], line(v(0, -1), v(0, 1)));
    assert_eq!(curves[3], line(v(10, 1), v(10, -1)));
}

#[test]
fn stroke_empty_path_is_empty() {
    let curves = PathBuilder::new().stroke(3, (CurveCap::Round, CurveJoin::Round, CurveCap::Round));
    assert!(curves.is_empty());
}

#[test]
fn stroke_zero_length_segment_has_zero_normal() {
    let curves = PathBuilder::new()
        .move_to(v(4, 4))
        .line_to(v(4, 4))
        .stroke(2, (CurveCap::Butt, CurveJoin::Bevel, CurveCap::Butt));
    assert_eq!(curves.len(), 4);
    assert!(curves.iter().all(|c| *c == line(v(4, 4), v(4, 4))));
}

#[test]
fn pack_unorm8x4_orders_bytes() {
    assert_eq!(pack_unorm8x4(1, 2, 3, 4), 0x0403_0201);
    assert_eq!(pack_unorm8x4(255, 0, 0, 255), 0xff00_00ff);
}

fn zero_rect() -> Rect {
    Rect { offset_local: v(0, 0), extent_local: v(0, 0), offset_curve: v(0, 0), extent_curve: v(0, 0) }
}

#[test]
fn extend_without_curves() {
    let mut g = GpuData::new();
    g.extend(&[], zero_rect(), &Brush::Color([1, 2, 3, 4]));
    assert_eq!(g.bbox, vec![0; 24]);
    assert_eq!(g.curve_ranges, [0u32, 0, 1].repeat(6));
    assert_eq!(g.primitives, vec![0x10]);
    assert_eq!(g.vertices, vec![0x0403_0201]);
}

#[test]
fn extend_bounding_quad_corners() {
    let mut g = GpuData::new();
    let r = Rect { offset_local: v(1, 2), extent_local: v(3, 4), offset_curve: v(10, 20), extent_curve: v(30, 40) };
    g.extend(&[], r, &Brush::Color([0, 0, 0, 0]));
    assert_eq!(
        g.bbox,
        vec![1, 2, 10, 20, 1, 6, 10, 60, 4, 6, 40, 60, 4, 2, 40, 20, 1, 2, 10, 20, 4, 6, 40, 60]
    );
}

#[test]
fn extend_packs_curves_and_gradient() {
    let mut g = GpuData::new();
    let curves = [
        Curve::Quad { p0: v(1, 2), p1: v(3, 4), p2: v(5, 6) },
        Curve::Circle { center: v(7, 8), radius: 9 },
        Curve::Arc { center: v(10, 10), p0: v(15, 10), p1: v(10, 5) },
        Curve::Rect { p0: v(-1, -2), p1: v(3, 4) },
    ];
    let brush = Brush::LinearGradient {
        stop0: GradientStop { position: v(0, 1), color: [1, 0, 0, 255] },
        stop1: GradientStop { position: v(2, 3), color: [0, 0, 1, 255] },
    };
    g.extend(&curves, zero_rect(), &brush);
    assert_eq!(g.primitives, vec![0x2, 0x3, 0x4, 0x5, 0x11]);
    assert_eq!(
        g.vertices,
        vec![
            1, 2, 3, 4, 5, 6,
            7, 8, 9,
            10, 10, 5, 0, 0, (-5i32) as u32,
            (-1i32) as u32, (-2i32) as u32, 3, 4,
            0, 1, 0xff00_0001, 2, 3, 0xff01_0000,
        ]
    );
    assert_eq!(g.curve_ranges, [0u32, 0, 5].repeat(6));
}

#[test]
fn extend_repeatedly_chains_ranges() {
    let mut g = GpuData::new();
    let red = Brush::Color([255, 0, 0, 255]);
    let grad = Brush::LinearGradient {
        stop0: GradientStop { position: v(0, 0), color: [0; 4] },
        stop1: GradientStop { position: v(1, 1), color: [255; 4] },
    };
    g.extend(&[Curve::Line { p0: v(0, 0), p1: v(1, 1) }], zero_rect(), &red);
    g.extend(
        &[Curve::Quad { p0: v(0, 0), p1: v(1, 1), p2: v(2, 0) }, Curve::Circle { center: v(0, 0), radius: 1 }],
        zero_rect(),
        &grad,
    );
    g.extend(&[], zero_rect(), &red);
    assert_eq!(g.curve_ranges.len(), 18 * 3);
    assert_eq!(g.bbox.len(), 24 * 3);
    let mut expected = [0u32, 0, 2].repeat(6);
    expected.extend([5u32, 2, 5].repeat(6));
    expected.extend([20u32, 5, 6].repeat(6));
    assert_eq!(g.curve_ranges, expected);
    assert_eq!(g.vertices.len(), 21);
    assert_eq!(g.primitives, vec![0x1, 0x10, 0x2, 0x3, 0x11, 0x10]);
}
