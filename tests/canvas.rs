use pigment_brush::canvas::{Canvas, Settings};
use pigment_brush::geometry::{Point, distance_sq};
use pigment_brush::pigment::{Rgb, mix};
use pigment_brush::recorder::StrokeRecorder;
use pigment_brush::render::{Primitive, Shape, render_scene};
use pigment_brush::stroke::{BrushPoint, BrushType, Jitter, ROTATION_FULL, Stroke};

fn pt(x: i32, y: i32) -> Point {
    Point { x, y }
}

fn rgb(r: u8, g: u8, b: u8) -> Rgb {
    Rgb { r, g, b }
}

fn settings(brush_type: BrushType, color: Rgb) -> Settings {
    let mut s = Settings::new();
    s.brush_type = brush_type;
    s.stroke_color = color;
    s
}

fn draw(c: &mut Canvas, s: &Settings, pts: &[Point]) {
    c.pointer_down(s, false);
    for p in pts {
        c.pointer_moved(*p, s, false);
    }
    c.pointer_up(false);
}

#[test]
fn move_synthesizes_fifty_jittered_points() {
    let mut r = StrokeRecorder::new();
    let mut j = Jitter::new(42);
    // 20 cells wide at a tenth of the width: a capture spacing of 2 cells.
    r.begin(rgb(0, 0, 0), 20, BrushType::Textured);
    r.move_to(pt(0, 0), 900, 100, &mut j);
    assert_eq!(r.stroke.points.len(), 1);
    assert_eq!(r.stroke.points[0].position, pt(0, 0));
    assert_eq!(r.stroke.points[0].pressure, 900);
    r.move_to(pt(100, 0), 900, 100, &mut j);
    assert_eq!(r.stroke.points.len(), 51);
    for (i, p) in r.stroke.points[1..].iter().enumerate() {
        assert_eq!(p.position, pt(2 * (i as i32 + 1), 0));
        assert!(p.pressure >= 720 && p.pressure <= 900);
        assert!(p.stamp_rotation < ROTATION_FULL);
    }
    let distinct: std::collections::HashSet<u32> = r.stroke.points.iter().map(|p| p.stamp_rotation).collect();
    assert!(distinct.len() > 40);
}

#[test]
fn small_moves_add_nothing_and_idle_moves_are_ignored() {
    let mut r = StrokeRecorder::new();
    let mut j = Jitter::new(7);
    r.move_to(pt(5, 5), 1000, 100, &mut j);
    assert_eq!(r.stroke.points.len(), 0);
    assert_eq!(j.state, 7);
    // 40 cells wide at a tenth of the width: a capture spacing of 4 cells.
    r.begin(rgb(0, 0, 0), 40, BrushType::Basic);
    r.move_to(pt(0, 0), 1000, 100, &mut j);
    r.move_to(pt(3, 0), 1000, 100, &mut j);
    assert_eq!(r.stroke.points.len(), 1);
    r.move_to(pt(4, 0), 1000, 100, &mut j);
    assert_eq!(r.stroke.points.len(), 2);
}

#[test]
fn capture_spacing_is_not_rounded() {
    // 25 cells wide at a tenth of the width: a capture spacing of 2.5 cells.
    let mut r = StrokeRecorder::new();
    let mut j = Jitter::new(3);
    r.begin(rgb(0, 0, 0), 25, BrushType::Basic);
    r.move_to(pt(0, 0), 1000, 100, &mut j);
    r.move_to(pt(2, 0), 1000, 100, &mut j);
    assert_eq!(r.stroke.points.len(), 1);
    r.move_to(pt(0, 3), 1000, 100, &mut j);
    // From (0, 0) to (0, 3) in steps of at most 2 cells.
    assert_eq!(r.stroke.points.len(), 3);
    assert_eq!(r.stroke.points[1].position, pt(0, 1));
    assert_eq!(r.stroke.points[2].position, pt(0, 3));
}

#[test]
fn capture_spacing_below_two_cells_still_adds_points() {
    // 16 cells wide at 5%: a capture spacing of 0.8 cells, stepped by 2.
    let mut r = StrokeRecorder::new();
    let mut j = Jitter::new(3);
    r.begin(rgb(0, 0, 0), 16, BrushType::Basic);
    r.move_to(pt(0, 0), 1000, 50, &mut j);
    r.move_to(pt(1, 0), 1000, 50, &mut j);
    assert_eq!(r.stroke.points.len(), 2);
    assert_eq!(r.stroke.points[1].position, pt(1, 0));
}

#[test]
fn jitter_is_deterministic_for_a_seed() {
    let mut a = Jitter::new(123);
    let mut b = Jitter::new(123);
    for _ in 0..10 {
        assert_eq!(a.next_u32(), b.next_u32());
    }
    let f = a.pressure_factor();
    assert!((800..=1000).contains(&f));
    assert!(a.rotation() < ROTATION_FULL);
}

#[test]
fn end_returns_only_strokes_with_points() {
    let mut r = StrokeRecorder::new();
    assert!(r.end().is_none());
    r.begin(rgb(1, 2, 3), 40, BrushType::Light);
    assert!(r.end().is_none());
    r.begin(rgb(1, 2, 3), 40, BrushType::Light);
    r.extend(BrushPoint { position: pt(1, 1), pressure: 500, stamp_rotation: 9 });
    let s = r.end().unwrap();
    assert_eq!(s.points.len(), 1);
    assert_eq!(s.color, rgb(1, 2, 3));
    assert!(!r.recording);
    assert!(r.stroke.points.is_empty());
}

#[test]
fn second_begin_discards_unfinished_stroke() {
    let mut r = StrokeRecorder::new();
    r.begin(rgb(1, 2, 3), 40, BrushType::Light);
    r.extend(BrushPoint { position: pt(1, 1), pressure: 500, stamp_rotation: 9 });
    r.begin(rgb(4, 5, 6), 40, BrushType::Basic);
    assert!(r.stroke.points.is_empty());
    assert_eq!(r.stroke.color, rgb(4, 5, 6));
}

#[test]
fn clear_empties_history_and_stroke_in_progress() {
    let mut c = Canvas::new(1);
    let s = settings(BrushType::Basic, rgb(9, 9, 9));
    draw(&mut c, &s, &[pt(0, 0), pt(100, 0)]);
    c.pointer_down(&s, false);
    c.pointer_moved(pt(0, 50), &s, false);
    assert_eq!(c.stroke_count(), 1);
    c.clear();
    assert_eq!(c.stroke_count(), 0);
    assert!(c.recorder.stroke.points.is_empty());
    assert!(c.render().is_empty());
}

#[test]
fn requests_clear_then_reset() {
    let mut c = Canvas::new(1);
    let mut s = settings(BrushType::Basic, rgb(9, 9, 9));
    draw(&mut c, &s, &[pt(0, 0), pt(100, 0)]);
    draw(&mut c, &s, &[pt(0, 500), pt(100, 500)]);
    s.undo_requested = true;
    c.apply_requests(&mut s);
    assert_eq!(c.stroke_count(), 1);
    assert!(!s.undo_requested);
    s.clear_requested = true;
    c.apply_requests(&mut s);
    assert_eq!(c.stroke_count(), 0);
    assert!(!s.clear_requested);
}

#[test]
fn busy_controls_block_pointer_input() {
    let mut c = Canvas::new(1);
    let s = settings(BrushType::Basic, rgb(9, 9, 9));
    c.pointer_down(&s, true);
    c.pointer_moved(pt(0, 0), &s, true);
    c.pointer_up(true);
    assert_eq!(c.stroke_count(), 0);
    assert!(c.recorder.stroke.points.is_empty());
}

#[test]
fn separate_basic_strokes_keep_their_colors() {
    let mut c = Canvas::new(5);
    let red = rgb(255, 39, 2);
    let blue = rgb(0, 33, 133);
    draw(&mut c, &settings(BrushType::Basic, red), &[pt(0, 0), pt(200, 0)]);
    draw(&mut c, &settings(BrushType::Basic, blue), &[pt(0, 1000), pt(200, 1000)]);
    let prims = c.render();
    assert!(!prims.is_empty());
    for p in &prims {
        match p.shape {
            Shape::Line { start, end } => {
                let expected = if start.y == 0 { red } else { blue };
                assert_eq!(p.color, expected);
                assert_eq!(p.opacity, 1000);
                assert_eq!(p.size, 200);
                assert!(distance_sq(start, end) <= 80 * 80);
                assert_eq!(start.y, end.y);
            }
            _ => panic!("basic strokes draw lines"),
        }
    }
    assert!(prims.iter().any(|p| p.color == red));
    assert!(prims.iter().any(|p| p.color == blue));
}

#[test]
fn overlapping_textured_strokes_mix_as_pigments() {
    let yellow = rgb(254, 236, 0);
    let blue = rgb(0, 33, 133);
    let a = Stroke {
        points: vec![BrushPoint { position: pt(0, 0), pressure: 800, stamp_rotation: 3 }],
        color: yellow,
        width: 80,
        brush_type: BrushType::Textured,
    };
    let b = Stroke {
        points: vec![BrushPoint { position: pt(10, 0), pressure: 600, stamp_rotation: 4 }],
        color: blue,
        width: 80,
        brush_type: BrushType::Textured,
    };
    let history = vec![a, b];
    let none = Stroke { points: vec![], color: yellow, width: 80, brush_type: BrushType::Basic };
    let prims = render_scene(&history, &none, false);
    assert_eq!(prims.len(), 2);
    assert_eq!(
        prims[0],
        Primitive {
            shape: Shape::Stamp { center: pt(0, 0), rotation: 3 },
            size: 80,
            color: mix(yellow, blue, 500, 500),
            opacity: 800,
        }
    );
    assert_eq!(prims[0].color, rgb(127, 166, 64));
    assert_eq!(prims[1].color, mix(blue, yellow, 500, 500));
    assert_eq!(prims[1].opacity, 600);
}

#[test]
fn distant_textured_strokes_do_not_mix() {
    let a = Stroke {
        points: vec![BrushPoint { position: pt(0, 0), pressure: 800, stamp_rotation: 3 }],
        color: rgb(254, 236, 0),
        width: 80,
        brush_type: BrushType::Textured,
    };
    let b = Stroke {
        points: vec![BrushPoint { position: pt(300, 0), pressure: 600, stamp_rotation: 4 }],
        color: rgb(0, 33, 133),
        width: 80,
        brush_type: BrushType::Textured,
    };
    let none = Stroke { points: vec![], color: rgb(0, 0, 0), width: 80, brush_type: BrushType::Basic };
    let prims = render_scene(&vec![a, b], &none, false);
    assert_eq!(prims[0].color, rgb(254, 236, 0));
    assert_eq!(prims[1].color, rgb(0, 33, 133));
}

#[test]
fn light_strokes_glow_at_half_pressure() {
    let mut c = Canvas::new(9);
    let mut s = settings(BrushType::Light, rgb(10, 20, 30));
    s.brush_pressure = 800;
    c.pointer_down(&s, false);
    c.pointer_moved(pt(0, 0), &s, false);
    let prims = c.render();
    assert_eq!(prims.len(), 1);
    assert_eq!(prims[0].shape, Shape::Glow { center: pt(0, 0) });
    assert_eq!(prims[0].opacity, 400);
    assert_eq!(prims[0].color, rgb(10, 20, 30));
}

#[test]
fn settings_are_clamped() {
    let mut s = Settings::new();
    s.stroke_width = 0;
    s.brush_pressure = 5000;
    s.brush_spacing = 1;
    assert_eq!(s.width(), 40);
    assert_eq!(s.pressure(), 1000);
    assert_eq!(s.spacing(), 50);
    s.stroke_width = 10_000;
    s.brush_spacing = 10_000;
    assert_eq!(s.width(), 800);
    assert_eq!(s.spacing(), 500);
    assert_eq!(Settings::new().spacing(), 100);
}

#[test]
fn canvas_ignores_moves_shorter_than_the_capture_spacing() {
    // 50 cells wide at a tenth of the width: a capture spacing of 5 cells.
    let mut c = Canvas::new(11);
    let mut s = settings(BrushType::Basic, rgb(1, 1, 1));
    s.stroke_width = 50;
    s.brush_spacing = 100;
    c.pointer_down(&s, false);
    c.pointer_moved(pt(0, 0), &s, false);
    c.pointer_moved(pt(4, 0), &s, false);
    c.pointer_moved(pt(3, 4), &s, false);
    assert_eq!(c.recorder.stroke.points.len(), 2);
    c.pointer_moved(pt(3, 10), &s, false);
    assert_eq!(c.recorder.stroke.points.len(), 4);
    assert_eq!(c.recorder.stroke.points[2].position, pt(3, 7));
    c.pointer_up(false);
    assert_eq!(c.stroke_count(), 1);
}

#[test]
fn smallest_settings_keep_captured_points_within_spacing() {
    // The narrowest width at the smallest spacing: 2 cells.
    let mut c = Canvas::new(4);
    let mut s = settings(BrushType::Textured, rgb(1, 1, 1));
    s.stroke_width = 0;
    s.brush_spacing = 0;
    c.pointer_down(&s, false);
    c.pointer_moved(pt(0, 0), &s, false);
    c.pointer_moved(pt(1, 0), &s, false);
    assert_eq!(c.recorder.stroke.points.len(), 1);
    c.pointer_moved(pt(37, -11), &s, false);
    let pts = &c.recorder.stroke.points;
    assert_eq!(pts.last().unwrap().position, pt(37, -11));
    for w in pts.windows(2) {
        assert!(distance_sq(w[0].position, w[1].position) * 1_000_000 <= 2000u128 * 2000);
    }
}
