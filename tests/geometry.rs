use pigment_brush::geometry::{Point, Segment, distance_sq, overlaps, resample};

fn pt(x: i32, y: i32) -> Point {
    Point { x, y }
}

fn seg(a: Point, b: Point) -> Segment {
    Segment { start: a, end: b }
}

#[test]
fn squared_distance() {
    assert_eq!(distance_sq(pt(0, 0), pt(3, 4)), 25);
    assert_eq!(distance_sq(pt(i32::MIN, i32::MIN), pt(i32::MAX, i32::MAX)), 2 * 0xffff_ffffu128 * 0xffff_ffff);
}

#[test]
fn overlap_is_endpoint_proximity_and_symmetric() {
    let a = seg(pt(0, 0), pt(100, 0));
    let near = seg(pt(104, 0), pt(200, 50));
    let at_threshold = seg(pt(105, 0), pt(200, 50));
    assert!(overlaps(a, near, 5));
    assert!(overlaps(near, a, 5));
    assert!(!overlaps(a, at_threshold, 5));
    assert!(!overlaps(at_threshold, a, 5));
    // Crossing in the middle, endpoints far apart: not an overlap.
    let crossing = seg(pt(50, -50), pt(50, 50));
    assert!(!overlaps(a, crossing, 5));
    assert!(!overlaps(crossing, a, 5));
    assert!(!overlaps(a, a, 0));
}

#[test]
fn resample_short_inputs_are_unchanged() {
    assert_eq!(resample(&vec![], 4), vec![]);
    assert_eq!(resample(&vec![pt(3, 4)], 4), vec![pt(3, 4)]);
}

#[test]
fn resample_straight_line() {
    let r = resample(&vec![pt(0, 0), pt(100, 0)], 2);
    assert_eq!(r.len(), 51);
    for (i, p) in r.iter().enumerate() {
        assert_eq!(*p, pt(2 * i as i32, 0));
    }
}

#[test]
fn resample_keeps_ends_and_spacing() {
    let pts = vec![pt(0, 0), pt(37, -11), pt(37, -11), pt(-20, 45), pt(-21, 45)];
    for s in [2u32, 3, 7, 50, 1000] {
        let r = resample(&pts, s);
        assert_eq!(r[0], pts[0]);
        assert_eq!(*r.last().unwrap(), *pts.last().unwrap());
        for w in r.windows(2) {
            assert!(distance_sq(w[0], w[1]) <= (s as u128) * (s as u128));
        }
    }
}

#[test]
fn resample_skips_zero_length_segments() {
    let r = resample(&vec![pt(5, 5), pt(5, 5), pt(5, 5)], 3);
    assert_eq!(r, vec![pt(5, 5)]);
}

#[test]
fn resample_diagonal_steps() {
    let r = resample(&vec![pt(0, 0), pt(10, 10)], 2);
    // Steps of one cell on each axis are the largest within 2.
    assert_eq!(r.len(), 11);
    assert_eq!(r[5], pt(5, 5));
}
