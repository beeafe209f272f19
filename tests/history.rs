use pigment_brush::geometry::Point;
use pigment_brush::history::CanvasHistory;
use pigment_brush::pigment::Rgb;
use pigment_brush::stroke::{BrushPoint, BrushType, Stroke};

fn stroke(x: i32, color: Rgb) -> Stroke {
    Stroke {
        points: vec![BrushPoint { position: Point { x, y: 0 }, pressure: 1000, stamp_rotation: 0 }],
        color,
        width: 80,
        brush_type: BrushType::Basic,
    }
}

#[test]
fn undo_reverses_push() {
    let mut h = CanvasHistory::new();
    h.push(stroke(1, Rgb { r: 1, g: 2, b: 3 }));
    h.push(stroke(2, Rgb { r: 4, g: 5, b: 6 }));
    let before: Vec<(i32, Rgb)> = h.strokes().iter().map(|s| (s.points[0].position.x, s.color)).collect();
    h.push(stroke(3, Rgb { r: 7, g: 8, b: 9 }));
    assert_eq!(h.len(), 3);
    let popped = h.undo().unwrap();
    assert_eq!(popped.points[0].position.x, 3);
    let after: Vec<(i32, Rgb)> = h.strokes().iter().map(|s| (s.points[0].position.x, s.color)).collect();
    assert_eq!(before, after);
}

#[test]
fn undo_on_empty_history_does_nothing() {
    let mut h = CanvasHistory::new();
    assert!(h.undo().is_none());
    assert_eq!(h.len(), 0);
}

#[test]
fn clear_empties_history() {
    let mut h = CanvasHistory::new();
    h.push(stroke(1, Rgb { r: 1, g: 2, b: 3 }));
    h.push(stroke(2, Rgb { r: 1, g: 2, b: 3 }));
    h.clear();
    assert_eq!(h.len(), 0);
}
