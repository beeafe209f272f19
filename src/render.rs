//! Turning strokes into drawable primitives, with pigment mixing where
//! textured strokes overlap other strokes.
use vstd::prelude::*;
use crate::geometry::{Point, Segment, overlaps, resample, resampled, segments_overlap};
use crate::history::strokes_view;
use crate::pigment::{Rgb, mix, mix_of};
use crate::stroke::{BrushPoint, BrushType, Stroke, StrokeView};

verus! {

/// Grid cells per display unit.
pub const UNIT: u32 = 40;

/// Spacing at which a basic stroke's points are resampled for drawing
/// (two display units).
pub const RENDER_STEP: u32 = 80;

/// Distance below which segments count as overlapping (five display units).
pub const OVERLAP_THRESHOLD: u32 = 200;

/// The weight, in thousandths, of each side of one mixing step.
pub const MIX_SHARE: u32 = 500;

/// Opacity is in thousandths: `OPACITY_FULL` is opaque.
pub const OPACITY_FULL: u32 = 1000;

/// The shape of a drawable primitive.
#[derive(Clone, Copy, Debug, PartialEq, Eq, Structural)]
pub enum Shape {
    /// A line between two points.
    Line { start: Point, end: Point },
    /// A textured stamp centered on a point, turned by `rotation` (in units
    /// of `1 / ROTATION_FULL` of a turn).
    Stamp { center: Point, rotation: u32 },
    /// A round glow centered on a point.
    Glow { center: Point },
}

/// One thing for a renderer to paint.
#[derive(Clone, Copy, Debug, PartialEq, Eq, Structural)]
pub struct Primitive {
    pub shape: Shape,
    /// Line weight, or stamp and glow diameter.
    pub size: u32,
    pub color: Rgb,
    /// In thousandths.
    pub opacity: u32,
}

pub open spec fn positions(pts: Seq<BrushPoint>) -> Seq<Point> {
    pts.map_values(|p: BrushPoint| p.position)
}

/// The lines of a basic stroke: one per consecutive pair of its resampled
/// points, in the stroke's own color.
pub open spec fn basic_lines(s: StrokeView) -> Seq<Primitive> {
    let r = resampled(positions(s.points), RENDER_STEP as int);
    if r.len() < 2 {
        seq![]
    } else {
        Seq::new(
            (r.len() - 1) as nat,
            |i: int|
                Primitive {
                    shape: Shape::Line { start: r[i], end: r[i + 1] },
                    size: s.width,
                    color: s.color,
                    opacity: OPACITY_FULL,
                },
        )
    }
}

/// The segment that ends at point `i`: from the point before it (from the
/// point itself for the first one).
pub open spec fn point_segment(pts: Seq<BrushPoint>, i: int) -> Segment {
    Segment { start: pts[if i == 0 { 0 } else { i - 1 }].position, end: pts[i].position }
}

/// Folds into `c` the color `oc` once for each of the first `n` segments of
/// `other` that overlaps `seg`.
pub open spec fn fold_segments(c: Rgb, seg: Segment, other: Seq<BrushPoint>, oc: Rgb, n: int) -> Rgb
    decreases n,
{
    if n <= 0 {
        c
    } else {
        let prev = fold_segments(c, seg, other, oc, n - 1);
        if segments_overlap(seg, point_segment(other, n - 1), OVERLAP_THRESHOLD as int) {
            mix_of(prev, oc, MIX_SHARE as int, MIX_SHARE as int)
        } else {
            prev
        }
    }
}

/// Folds into `c`, in order, the overlaps of `seg` with the first `n`
/// strokes of `all`, leaving out stroke `skip`.
pub open spec fn fold_strokes(c: Rgb, seg: Segment, all: Seq<StrokeView>, skip: int, n: int) -> Rgb
    decreases n,
{
    if n <= 0 {
        c
    } else {
        let prev = fold_strokes(c, seg, all, skip, n - 1);
        if n - 1 == skip {
            prev
        } else {
            fold_segments(prev, seg, all[n - 1].points, all[n - 1].color, all[n - 1].points.len() as int)
        }
    }
}

/// The color at point `i` of stroke `k`: the stroke's color with every
/// overlapping segment of every other stroke mixed in.
pub open spec fn mixed_point_color(all: Seq<StrokeView>, k: int, i: int) -> Rgb {
    fold_strokes(all[k].color, point_segment(all[k].points, i), all, k, all.len() as int)
}

/// The stamps of textured stroke `k`: one per point, opacity from pressure.
pub open spec fn stamps(all: Seq<StrokeView>, k: int) -> Seq<Primitive> {
    let s = all[k];
    Seq::new(
        s.points.len(),
        |i: int|
            Primitive {
                shape: Shape::Stamp { center: s.points[i].position, rotation: s.points[i].stamp_rotation },
                size: s.width,
                color: mixed_point_color(all, k, i),
                opacity: s.points[i].pressure,
            },
    )
}

/// The glows of a light stroke: one per point, at half the point's pressure.
pub open spec fn glows(s: StrokeView) -> Seq<Primitive> {
    Seq::new(
        s.points.len(),
        |i: int|
            Primitive {
                shape: Shape::Glow { center: s.points[i].position },
                size: s.width,
                color: s.color,
                opacity: (s.points[i].pressure / 2) as u32,
            },
    )
}

/// The primitives of stroke `k` of `all`.
pub open spec fn stroke_primitives(all: Seq<StrokeView>, k: int) -> Seq<Primitive> {
    match all[k].brush_type {
        BrushType::Basic => basic_lines(all[k]),
        BrushType::Textured => stamps(all, k),
        BrushType::Light => glows(all[k]),
    }
}

/// The primitives of the first `n` strokes, in order.
pub open spec fn frame(all: Seq<StrokeView>, n: int) -> Seq<Primitive>
    decreases n,
{
    if n <= 0 {
        seq![]
    } else {
        frame(all, n - 1) + stroke_primitives(all, n - 1)
    }
}

/// The strokes that a frame shows: the history, then the stroke in progress
/// if it is shown.
pub open spec fn scene(history: Seq<Stroke>, current: Stroke, with_current: bool) -> Seq<StrokeView> {
    strokes_view(history) + if with_current {
        seq![current@]
    } else {
        Seq::<StrokeView>::empty()
    }
}

fn pick<'a>(history: &'a Vec<Stroke>, current: &'a Stroke, with_current: bool, k: usize) -> (r: &'a Stroke)
    requires
        k < scene(history@, *current, with_current).len(),
    ensures
        r@ == scene(history@, *current, with_current)[k as int],
{
    if k < history.len() {
        &history[k]
    } else {
        current
    }
}

fn segment_at(pts: &Vec<BrushPoint>, i: usize) -> (s: Segment)
    requires
        i < pts@.len(),
    ensures
        s == point_segment(pts@, i as int),
{
    let j = if i == 0 {
        0
    } else {
        i - 1
    };
    Segment { start: pts[j].position, end: pts[i].position }
}

fn fold_segments_exec(c: Rgb, seg: Segment, other: &Stroke) -> (r: Rgb)
    ensures
        r == fold_segments(c, seg, other.points@, other.color, other.points@.len() as int),
{
    let mut acc = c;
    let mut i: usize = 0;
    while i < other.points.len()
        invariant
            i <= other.points@.len(),
            acc == fold_segments(c, seg, other.points@, other.color, i as int),
        decreases other.points.len() - i,
    {
        let o = segment_at(&other.points, i);
        if overlaps(seg, o, OVERLAP_THRESHOLD) {
            acc = mix(acc, other.color, MIX_SHARE, MIX_SHARE);
        }
        i = i + 1;
    }
    acc
}

fn mixed_color_exec(history: &Vec<Stroke>, current: &Stroke, with_current: bool, k: usize, i: usize) -> (r: Rgb)
    requires
        k < scene(history@, *current, with_current).len(),
        i < scene(history@, *current, with_current)[k as int].points.len(),
    ensures
        r == mixed_point_color(scene(history@, *current, with_current), k as int, i as int),
{
    let ghost all = scene(history@, *current, with_current);
    let s = pick(history, current, with_current, k);
    let seg = segment_at(&s.points, i);
    let n = history.len();
    let mut acc = s.color;
    let mut j: usize = 0;
    while j < n
        invariant
            n == history@.len(),
            all == scene(history@, *current, with_current),
            j <= n,
            k < all.len(),
            seg == point_segment(all[k as int].points, i as int),
            acc == fold_strokes(all[k as int].color, seg, all, k as int, j as int),
        decreases n - j,
    {
        if j != k {
            let o = pick(history, current, with_current, j);
            acc = fold_segments_exec(acc, seg, o);
        }
        j = j + 1;
    }
    if with_current && k != n {
        acc = fold_segments_exec(acc, seg, current);
    }
    acc
}

fn push_basic_lines(out: &mut Vec<Primitive>, s: &Stroke)
    ensures
        final(out)@ == old(out)@ + basic_lines(s@),
{
    let mut pts: Vec<Point> = Vec::new();
    let mut i: usize = 0;
    while i < s.points.len()
        invariant
            i <= s.points@.len(),
            pts@ == positions(s.points@).take(i as int),
        decreases s.points.len() - i,
    {
        pts.push(s.points[i].position);
        assert(positions(s.points@).take(i + 1) =~= positions(s.points@).take(i as int).push(
            s.points@[i as int].position,
        ));
        i = i + 1;
    }
    assert(positions(s.points@).take(s.points@.len() as int) =~= positions(s.points@));
    let r = resample(&pts, RENDER_STEP);
    let ghost start = out@;
    if r.len() < 2 {
        assert(out@ =~= start + basic_lines(s@));
        return ;
    }
    let mut j: usize = 0;
    while j + 1 < r.len()
        invariant
            r.len() >= 2,
            j + 1 <= r@.len(),
            r@ == resampled(positions(s.points@), RENDER_STEP as int),
            out@ == start + basic_lines(s@).take(j as int),
        decreases r.len() - j,
    {
        out.push(
            Primitive {
                shape: Shape::Line { start: r[j], end: r[j + 1] },
                size: s.width,
                color: s.color,
                opacity: OPACITY_FULL,
            },
        );
        assert(basic_lines(s@).take(j + 1) =~= basic_lines(s@).take(j as int).push(
            basic_lines(s@)[j as int],
        ));
        j = j + 1;
    }
    assert(basic_lines(s@).take(j as int) =~= basic_lines(s@));
}

fn push_glows(out: &mut Vec<Primitive>, s: &Stroke)
    ensures
        final(out)@ == old(out)@ + glows(s@),
{
    let ghost start = out@;
    let mut i: usize = 0;
    while i < s.points.len()
        invariant
            i <= s.points@.len(),
            out@ == start + glows(s@).take(i as int),
        decreases s.points.len() - i,
    {
        let p = s.points[i];
        out.push(
            Primitive {
                shape: Shape::Glow { center: p.position },
                size: s.width,
                color: s.color,
                opacity: p.pressure / 2,
            },
        );
        assert(glows(s@).take(i + 1) =~= glows(s@).take(i as int).push(glows(s@)[i as int]));
        i = i + 1;
    }
    assert(glows(s@).take(i as int) =~= glows(s@));
}

fn push_stamps(out: &mut Vec<Primitive>, history: &Vec<Stroke>, current: &Stroke, with_current: bool, k: usize)
    requires
        k < scene(history@, *current, with_current).len(),
    ensures
        final(out)@ == old(out)@ + stamps(scene(history@, *current, with_current), k as int),
{
    let ghost all = scene(history@, *current, with_current);
    let ghost start = out@;
    let s = pick(history, current, with_current, k);
    let mut i: usize = 0;
    while i < s.points.len()
        invariant
            all == scene(history@, *current, with_current),
                k < all.len(),
            s@ == all[k as int],
            i <= s.points@.len(),
            out@ == start + stamps(all, k as int).take(i as int),
        decreases s.points.len() - i,
    {
        let p = s.points[i];
        let color = mixed_color_exec(history, current, with_current, k, i);
        out.push(
            Primitive {
                shape: Shape::Stamp { center: p.position, rotation: p.stamp_rotation },
                size: s.width,
                color,
                opacity: p.pressure,
            },
        );
        assert(stamps(all, k as int).take(i + 1) =~= stamps(all, k as int).take(i as int).push(
            stamps(all, k as int)[i as int],
        ));
        i = i + 1;
    }
    assert(stamps(all, k as int).take(i as int) =~= stamps(all, k as int));
}

fn push_stroke(out: &mut Vec<Primitive>, history: &Vec<Stroke>, current: &Stroke, with_current: bool, k: usize)
    requires
        k < scene(history@, *current, with_current).len(),
    ensures
        final(out)@ == old(out)@ + stroke_primitives(scene(history@, *current, with_current), k as int),
{
    let s = pick(history, current, with_current, k);
    match s.brush_type {
        BrushType::Basic => push_basic_lines(out, s),
        BrushType::Textured => push_stamps(out, history, current, with_current, k),
        BrushType::Light => push_glows(out, s),
    }
}

/// The primitives of a frame: those of each history stroke in order, then
/// those of `current` when `with_current` holds. Basic strokes become lines
/// along their resampled points in their own color; textured strokes become
/// one stamp per point, whose color has every overlapping segment of the
/// other strokes mixed in, in order; light strokes become one glow per point
/// at half the point's pressure.
pub fn render_scene(history: &Vec<Stroke>, current: &Stroke, with_current: bool) -> (r: Vec<Primitive>)
    ensures
        r@ == frame(
            scene(history@, *current, with_current),
            scene(history@, *current, with_current).len() as int,
        ),
{
    let ghost all = scene(history@, *current, with_current);
    let n = history.len();
    let mut out: Vec<Primitive> = Vec::new();
    let mut k: usize = 0;
    while k < n
        invariant
            all == scene(history@, *current, with_current),
            n == history@.len(),
            k <= n,
            out@ == frame(all, k as int),
        decreases n - k,
    {
        push_stroke(&mut out, history, current, with_current, k);
        k = k + 1;
    }
    if with_current {
        push_stroke(&mut out, history, current, with_current, n);
    }
    out
}

/// A basic stroke is never mixed: its primitives are lines in its own color
/// and width at full opacity, the same as when it is drawn alone.
pub proof fn lemma_basic_stroke_unmixed(all: Seq<StrokeView>, k: int)
    requires
        0 <= k < all.len(),
        all[k].brush_type == BrushType::Basic,
    ensures
        stroke_primitives(all, k) == stroke_primitives(seq![all[k]], 0),
        forall|i: int|
            0 <= i < stroke_primitives(all, k).len() ==> {
                let p = #[trigger] stroke_primitives(all, k)[i];
                &&& p.color == all[k].color
                &&& p.size == all[k].width
                &&& p.opacity == OPACITY_FULL
            },
{
}

proof fn lemma_fold_segments_unmixed(c: Rgb, seg: Segment, other: Seq<BrushPoint>, oc: Rgb, n: int)
    requires
        n <= other.len(),
        forall|m: int|
            0 <= m < other.len() ==> !segments_overlap(
                seg,
                #[trigger] point_segment(other, m),
                OVERLAP_THRESHOLD as int,
            ),
    ensures
        fold_segments(c, seg, other, oc, n) == c,
    decreases n,
{
    if n > 0 {
        lemma_fold_segments_unmixed(c, seg, other, oc, n - 1);
    }
}

proof fn lemma_fold_strokes_unmixed(c: Rgb, seg: Segment, all: Seq<StrokeView>, skip: int, n: int)
    requires
        n <= all.len(),
        forall|j: int, m: int|
            0 <= j < all.len() && j != skip && 0 <= m < all[j].points.len() ==> !segments_overlap(
                seg,
                #[trigger] point_segment(all[j].points, m),
                OVERLAP_THRESHOLD as int,
            ),
    ensures
        fold_strokes(c, seg, all, skip, n) == c,
    decreases n,
{
    if n > 0 {
        lemma_fold_strokes_unmixed(c, seg, all, skip, n - 1);
        if n - 1 != skip {
            let j = n - 1;
            assert forall|m: int| 0 <= m < all[j].points.len() implies !segments_overlap(
                seg,
                #[trigger] point_segment(all[j].points, m),
                OVERLAP_THRESHOLD as int,
            ) by {}
            lemma_fold_segments_unmixed(c, seg, all[j].points, all[j].color, all[j].points.len() as int);
        }
    }
}

/// A point whose segment overlaps no segment of any other stroke keeps its
/// stroke's own color.
pub proof fn lemma_unmixed_without_overlap(all: Seq<StrokeView>, k: int, i: int)
    requires
        0 <= k < all.len(),
        forall|j: int, m: int|
            0 <= j < all.len() && j != k && 0 <= m < all[j].points.len() ==> !segments_overlap(
                point_segment(all[k].points, i),
                #[trigger] point_segment(all[j].points, m),
                OVERLAP_THRESHOLD as int,
            ),
    ensures
        mixed_point_color(all, k, i) == all[k].color,
{
    lemma_fold_strokes_unmixed(all[k].color, point_segment(all[k].points, i), all, k, all.len() as int);
}

/// The two ends of a line; a stamp or glow has its center for both.
pub open spec fn line_ends(p: Primitive) -> (Point, Point) {
    match p.shape {
        Shape::Line { start, end } => (start, end),
        Shape::Stamp { center, rotation: _ } => (center, center),
        Shape::Glow { center } => (center, center),
    }
}

/// The lines of a basic stroke with some point (`k`) away from its first
/// form a chain from its first point to its last, each line at most
/// `RENDER_STEP` long.
pub proof fn lemma_basic_lines_chain(s: StrokeView, k: int)
    requires
        0 <= k < s.points.len(),
        s.points[k].position != s.points[0].position,
    ensures
        basic_lines(s).len() >= 1,
        forall|i: int| 0 <= i < basic_lines(s).len() ==> (#[trigger] basic_lines(s)[i]).shape is Line,
        line_ends(basic_lines(s)[0]).0 == s.points[0].position,
        line_ends(basic_lines(s).last()).1 == s.points.last().position,
        forall|i: int|
            0 <= i < basic_lines(s).len() - 1 ==> line_ends(#[trigger] basic_lines(s)[i]).1 == line_ends(
                basic_lines(s)[i + 1],
            ).0,
        forall|i: int|
            0 <= i < basic_lines(s).len() ==> crate::geometry::dist_sq(
                line_ends(#[trigger] basic_lines(s)[i]).0,
                line_ends(basic_lines(s)[i]).1,
            ) <= RENDER_STEP * RENDER_STEP,
{
    let pts = positions(s.points);
    crate::geometry::lemma_resample_spacing(pts, RENDER_STEP as int);
    let r = resampled(pts, RENDER_STEP as int);
    assert(pts[0] == s.points[0].position);
    assert(pts.last() == s.points.last().position);
    assert(pts[k] != pts[0]);
    crate::geometry::lemma_resampled_moves(pts, RENDER_STEP as int, k);
}

proof fn lemma_fold_segments_single(c: Rgb, seg: Segment, other: Seq<BrushPoint>, oc: Rgb, m: int, n: int)
    requires
        0 <= m < other.len(),
        n <= other.len(),
        segments_overlap(seg, point_segment(other, m), OVERLAP_THRESHOLD as int),
        forall|m2: int|
            0 <= m2 < other.len() && m2 != m ==> !segments_overlap(
                seg,
                #[trigger] point_segment(other, m2),
                OVERLAP_THRESHOLD as int,
            ),
    ensures
        fold_segments(c, seg, other, oc, n) == if n > m {
            mix_of(c, oc, MIX_SHARE as int, MIX_SHARE as int)
        } else {
            c
        },
    decreases n,
{
    if n > 0 {
        lemma_fold_segments_single(c, seg, other, oc, m, n - 1);
    }
}

/// In a scene of two strokes, a point of stroke `k` whose segment overlaps
/// exactly one segment (`m`) of the other stroke gets the equal-weight pigment
/// mix of the two strokes' colors.
pub proof fn lemma_single_overlap_mix(all: Seq<StrokeView>, k: int, i: int, m: int)
    requires
        all.len() == 2,
        0 <= k < 2,
        0 <= i < all[k].points.len(),
        0 <= m < all[1 - k].points.len(),
        segments_overlap(
            point_segment(all[k].points, i),
            point_segment(all[1 - k].points, m),
            OVERLAP_THRESHOLD as int,
        ),
        forall|m2: int|
            0 <= m2 < all[1 - k].points.len() && m2 != m ==> !segments_overlap(
                point_segment(all[k].points, i),
                #[trigger] point_segment(all[1 - k].points, m2),
                OVERLAP_THRESHOLD as int,
            ),
    ensures
        mixed_point_color(all, k, i) == mix_of(
            all[k].color,
            all[1 - k].color,
            MIX_SHARE as int,
            MIX_SHARE as int,
        ),
{
    let o = 1 - k;
    let seg = point_segment(all[k].points, i);
    let c = all[k].color;
    lemma_fold_segments_single(c, seg, all[o].points, all[o].color, m, all[o].points.len() as int);
    if k == 0 {
        assert(fold_strokes(c, seg, all, k, 0) == c);
        assert(fold_strokes(c, seg, all, k, 1) == c);
    } else {
        assert(fold_strokes(c, seg, all, k, 0) == c);
        assert(fold_strokes(c, seg, all, k, 1) == fold_segments(
            c,
            seg,
            all[0].points,
            all[0].color,
            all[0].points.len() as int,
        ));
    }
}

/// When point `i` of one of two strokes and point `j` of the other overlap
/// each other's segments and nothing else, both get the same mixed color;
/// when the two strokes have the same color, that color is kept.
pub proof fn lemma_two_stroke_mix_commutes(all: Seq<StrokeView>, i: int, j: int)
    requires
        all.len() == 2,
        0 <= i < all[0].points.len(),
        0 <= j < all[1].points.len(),
        segments_overlap(
            point_segment(all[0].points, i),
            point_segment(all[1].points, j),
            OVERLAP_THRESHOLD as int,
        ),
        forall|m2: int|
            0 <= m2 < all[1].points.len() && m2 != j ==> !segments_overlap(
                point_segment(all[0].points, i),
                #[trigger] point_segment(all[1].points, m2),
                OVERLAP_THRESHOLD as int,
            ),
        forall|m2: int|
            0 <= m2 < all[0].points.len() && m2 != i ==> !segments_overlap(
                point_segment(all[1].points, j),
                #[trigger] point_segment(all[0].points, m2),
                OVERLAP_THRESHOLD as int,
            ),
    ensures
        mixed_point_color(all, 0, i) == mixed_point_color(all, 1, j),
        all[0].color == all[1].color ==> mixed_point_color(all, 0, i) == all[0].color,
{
    crate::geometry::lemma_overlaps_symmetric(
        point_segment(all[0].points, i),
        point_segment(all[1].points, j),
        OVERLAP_THRESHOLD as int,
    );
    lemma_single_overlap_mix(all, 0, i, j);
    lemma_single_overlap_mix(all, 1, j, i);
    crate::pigment::lemma_mix_commutes(all[0].color, all[1].color, MIX_SHARE as int);
    crate::pigment::lemma_self_mix(all[0].color, MIX_SHARE as int, MIX_SHARE as int);
}

} // verus!
