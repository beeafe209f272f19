//! Capture of pointer samples into the stroke in progress.
use vstd::prelude::*;
use crate::geometry::{Point, dist_sq, distance_sq, segment_points, resample};
use crate::pigment::Rgb;
use crate::stroke::{
    BrushPoint,
    BrushType,
    Jitter,
    Stroke,
    StrokeView,
    jitter_after,
    rotation_of,
    factor_of,
    scaled_pressure,
    scale_pressure,
    lemma_scaled_pressure_range,
    ROTATION_FULL,
};

verus! {

/// The points synthesized on the way to `seg`, with pressure `base` scaled
/// by a drawn factor and a drawn rotation; point `j` takes draws `2j + 1`
/// (rotation) and `2j + 2` (pressure) after state `s0`.
pub open spec fn jittered_points(seg: Seq<Point>, base: u32, s0: u64) -> Seq<BrushPoint> {
    Seq::new(
        seg.len(),
        |j: int|
            BrushPoint {
                position: seg[j],
                pressure: scaled_pressure(base, factor_of(jitter_after(s0, (2 * j + 2) as nat))),
                stamp_rotation: rotation_of(jitter_after(s0, (2 * j + 1) as nat)),
            },
    )
}

/// The least step between synthesized points, in grid cells: a diagonal step
/// of one cell on each axis must fit within it.
pub const SPACING_FLOOR: u32 = 2;

/// The capture spacing of a stroke `width` cells wide at `spacing`
/// thousandths of its width, in thousandths of a grid cell: exact, not
/// rounded.
pub open spec fn capture_reach(width: u32, spacing: u32) -> int {
    width * spacing
}

/// The step between synthesized points, in grid cells: the capture spacing
/// rounded down to whole cells, but at least `SPACING_FLOOR` (a spacing under
/// two cells cannot be kept between grid points on a diagonal), and at most
/// `u32::MAX`.
#[verifier::opaque]
pub open spec fn capture_step(width: u32, spacing: u32) -> u32 {
    let s = capture_reach(width, spacing) / 1000;
    if s < SPACING_FLOOR {
        SPACING_FLOOR
    } else if s > u32::MAX {
        u32::MAX
    } else {
        s as u32
    }
}

/// `pos` lies closer to `last` than the exact capture spacing.
#[verifier::opaque]
pub open spec fn within_reach(last: Point, pos: Point, width: u32, spacing: u32) -> bool {
    dist_sq(last, pos) * 1_000_000 < capture_reach(width, spacing) * capture_reach(width, spacing)
}

/// The points that a pointer move to `pos` adds to a stroke `width` cells
/// wide holding `points`, at a capture spacing of `spacing` thousandths of
/// the width: the first sample is taken as it is; a later one adds nothing
/// when closer than the capture spacing to the last point, else evenly
/// spaced points up to `pos`, at most `capture_step` apart.
pub open spec fn moved_points(
    points: Seq<BrushPoint>,
    pos: Point,
    base: u32,
    width: u32,
    spacing: u32,
    s0: u64,
) -> Seq<BrushPoint> {
    if points.len() == 0 {
        seq![BrushPoint { position: pos, pressure: base, stamp_rotation: rotation_of(jitter_after(s0, 1)) }]
    } else if within_reach(points.last().position, pos, width, spacing) {
        seq![]
    } else {
        jittered_points(
            segment_points(points.last().position, pos, capture_step(width, spacing) as int),
            base,
            s0,
        )
    }
}

/// How many values a pointer move draws from the jitter generator.
pub open spec fn moved_draws(
    points: Seq<BrushPoint>,
    pos: Point,
    base: u32,
    width: u32,
    spacing: u32,
    s0: u64,
) -> nat {
    if points.len() == 0 {
        1
    } else {
        2 * moved_points(points, pos, base, width, spacing, s0).len()
    }
}

#[verifier::opaque]
pub open spec fn within_step(d: int, width: u32, spacing: u32) -> bool {
    d * 1_000_000 <= capture_reach(width, spacing) * capture_reach(width, spacing)
}

proof fn lemma_step_within_reach(d: int, width: u32, spacing: u32)
    requires
        d <= capture_step(width, spacing) * capture_step(width, spacing),
        capture_reach(width, spacing) >= 1000 * SPACING_FLOOR,
    ensures
        within_step(d, width, spacing),
{
    reveal(within_step);
    reveal(capture_step);
    let reach = capture_reach(width, spacing);
    let step = capture_step(width, spacing) as int;
    assert(step * 1000 <= reach) by {
        vstd::arithmetic::div_mod::lemma_fundamental_div_mod(reach, 1000);
    }
    assert(d * 1_000_000 <= reach * reach) by (nonlinear_arith)
        requires
            d <= step * step,
            0 <= step,
            step * 1000 <= reach,
    ;
}

/// The squared distance from point `i` of `added` to the next one.
pub open spec fn gap_sq(added: Seq<BrushPoint>, i: int) -> int {
    dist_sq(added[i].position, added[i + 1].position)
}

/// Each of `added` lies within the exact capture spacing of the point before
/// it (of `last` for the first one).
pub open spec fn spaced_within_reach(last: Point, added: Seq<BrushPoint>, width: u32, spacing: u32) -> bool {
    &&& added.len() > 0 ==> within_step(dist_sq(last, added[0].position), width, spacing)
    &&& forall|i: int|
        0 <= i < added.len() - 1 ==> within_step(#[trigger] gap_sq(added, i), width, spacing)
}

proof fn lemma_jittered_positions(seg: Seq<Point>, base: u32, s0: u64)
    ensures
        jittered_points(seg, base, s0).len() == seg.len(),
        forall|j: int| 0 <= j < seg.len() ==> (#[trigger] jittered_points(seg, base, s0)[j]).position == seg[j],
{
}

proof fn lemma_step_floor(width: u32, spacing: u32)
    ensures
        capture_step(width, spacing) >= SPACING_FLOOR,
{
    reveal(capture_step);
}

/// Once a stroke has a point, a move adds points within the capture spacing
/// of each other, provided that spacing is at least `SPACING_FLOOR` cells;
/// the last added point is `pos`.
pub proof fn lemma_moved_spacing(
    points: Seq<BrushPoint>,
    pos: Point,
    base: u32,
    width: u32,
    spacing: u32,
    s0: u64,
)
    requires
        points.len() > 0,
        capture_reach(width, spacing) >= 1000 * SPACING_FLOOR,
    ensures
        spaced_within_reach(
            points.last().position,
            moved_points(points, pos, base, width, spacing, s0),
            width,
            spacing,
        ),
        moved_points(points, pos, base, width, spacing, s0).len() > 0 ==> moved_points(
            points,
            pos,
            base,
            width,
            spacing,
            s0,
        ).last().position == pos,
{
    let last = points.last().position;
    let added = moved_points(points, pos, base, width, spacing, s0);
    let step = capture_step(width, spacing);
    if within_reach(last, pos, width, spacing) {
        assert(added.len() == 0);
    } else {
        let seg = segment_points(last, pos, step as int);
        assert(added == jittered_points(seg, base, s0));
        lemma_jittered_positions(seg, base, s0);
        lemma_step_floor(width, spacing);
        crate::geometry::lemma_segment_points_spacing(last, pos, step as int);
        if added.len() > 0 {
            assert(dist_sq(last, seg[0]) <= step * step);
            lemma_step_within_reach(dist_sq(last, seg[0]), width, spacing);
        }
        assert forall|i: int| 0 <= i < added.len() - 1 implies within_step(
            #[trigger] gap_sq(added, i),
            width,
            spacing,
        ) by {
            assert(added[i].position == seg[i]);
            assert(added[i + 1].position == seg[i + 1]);
            assert(crate::geometry::segment_gap_sq(last, pos, step as int, i) <= step * step);
            lemma_step_within_reach(dist_sq(seg[i], seg[i + 1]), width, spacing);
        }
        if added.len() > 0 {
            assert(added.last().position == seg.last());
        }
    }
}

/// Every synthesized point has a pressure between 80% of the base and the
/// base, and a stamp rotation below a full turn.
pub proof fn lemma_jittered_ranges(seg: Seq<Point>, base: u32, s0: u64)
    ensures
        forall|j: int|
            0 <= j < seg.len() ==> {
                let p = #[trigger] jittered_points(seg, base, s0)[j];
                &&& base * 800 / 1000 <= p.pressure <= base
                &&& p.stamp_rotation < ROTATION_FULL
            },
{
    assert forall|j: int| 0 <= j < seg.len() implies {
        let p = #[trigger] jittered_points(seg, base, s0)[j];
        &&& base * 800 / 1000 <= p.pressure <= base
        &&& p.stamp_rotation < ROTATION_FULL
    } by {
        let f = factor_of(jitter_after(s0, (2 * j + 2) as nat));
        lemma_scaled_pressure_range(base, f);
    }
}

/// Records pointer samples: idle, or recording into the stroke in progress.
#[derive(Debug)]
pub struct StrokeRecorder {
    pub stroke: Stroke,
    pub recording: bool,
}

impl StrokeRecorder {
    /// An idle recorder with an empty stroke.
    pub fn new() -> (r: StrokeRecorder)
        ensures
            !r.recording,
            r.stroke@ == (StrokeView {
                points: Seq::empty(),
                color: Rgb { r: 0, g: 0, b: 0 },
                width: 1,
                brush_type: BrushType::Basic,
            }),
    {
        let r = StrokeRecorder {
            stroke: Stroke {
                points: Vec::new(),
                color: Rgb { r: 0, g: 0, b: 0 },
                width: 1,
                brush_type: BrushType::Basic,
            },
            recording: false,
        };
        assert(r.stroke.points@ =~= Seq::empty());
        r
    }

    /// Starts a new, empty stroke. A stroke still in progress is discarded.
    pub fn begin(&mut self, color: Rgb, width: u32, brush_type: BrushType)
        requires
            width > 0,
        ensures
            final(self).recording,
            final(self).stroke.points@.len() == 0,
            final(self).stroke.color == color,
            final(self).stroke.width == width,
            final(self).stroke.brush_type == brush_type,
    {
        self.stroke = Stroke { points: Vec::new(), color, width, brush_type };
        self.recording = true;
    }

    /// Appends a point to the stroke in progress; does nothing when idle.
    pub fn extend(&mut self, point: BrushPoint)
        ensures
            final(self).recording == old(self).recording,
            final(self).stroke.color == old(self).stroke.color,
            final(self).stroke.width == old(self).stroke.width,
            final(self).stroke.brush_type == old(self).stroke.brush_type,
            final(self).stroke.points@ == if old(self).recording {
                old(self).stroke.points@.push(point)
            } else {
                old(self).stroke.points@
            },
    {
        if self.recording {
            self.stroke.points.push(point);
        }
    }

    /// Finishes recording: returns the stroke if it has a point, and leaves
    /// the recorder idle with an empty stroke.
    pub fn end(&mut self) -> (r: Option<Stroke>)
        ensures
            !final(self).recording,
            final(self).stroke.points@.len() == 0,
            final(self).stroke.color == old(self).stroke.color,
            final(self).stroke.width == old(self).stroke.width,
            final(self).stroke.brush_type == old(self).stroke.brush_type,
            old(self).recording && old(self).stroke.points@.len() > 0 ==> r is Some && r->0@
                == old(self).stroke@,
            !(old(self).recording && old(self).stroke.points@.len() > 0) ==> r is None,
    {
        let was = self.recording;
        self.recording = false;
        let mut points: Vec<BrushPoint> = Vec::new();
        core::mem::swap(&mut points, &mut self.stroke.points);
        if was && points.len() > 0 {
            Some(Stroke {
                points,
                color: self.stroke.color,
                width: self.stroke.width,
                brush_type: self.stroke.brush_type,
            })
        } else {
            None
        }
    }

    /// Empties the stroke in progress and leaves the recorder idle.
    pub fn discard(&mut self)
        ensures
            !final(self).recording,
            final(self).stroke.points@.len() == 0,
            final(self).stroke.color == old(self).stroke.color,
            final(self).stroke.width == old(self).stroke.width,
            final(self).stroke.brush_type == old(self).stroke.brush_type,
    {
        self.recording = false;
        self.stroke.points = Vec::new();
    }

    /// Handles a pointer move to `pos` while recording, with a capture
    /// spacing of `spacing` thousandths of the stroke width: the first sample
    /// is added as it is, with pressure `base`; a later one that is at least
    /// the capture spacing away from the last point is reached by evenly
    /// spaced points (at most `capture_step` apart), each with pressure `base`
    /// scaled by a drawn factor between 0.8 and 1 and a drawn stamp rotation.
    /// Does nothing when idle.
    pub fn move_to(&mut self, pos: Point, base: u32, spacing: u32, jitter: &mut Jitter)
        ensures
            final(self).recording == old(self).recording,
            final(self).stroke.color == old(self).stroke.color,
            final(self).stroke.width == old(self).stroke.width,
            final(self).stroke.brush_type == old(self).stroke.brush_type,
            old(self).recording ==> final(self).stroke.points@ == old(self).stroke.points@
                + moved_points(old(self).stroke.points@, pos, base, old(self).stroke.width, spacing, old(jitter).state),
            old(self).recording ==> final(jitter).state == jitter_after(
                old(jitter).state,
                moved_draws(old(self).stroke.points@, pos, base, old(self).stroke.width, spacing, old(jitter).state),
            ),
            !old(self).recording ==> final(self).stroke.points@ == old(self).stroke.points@
                && final(jitter).state == old(jitter).state,
            old(self).recording && old(self).stroke.points@.len() > 0 && capture_reach(
                old(self).stroke.width,
                spacing,
            ) >= 1000 * SPACING_FLOOR ==> spaced_within_reach(
                old(self).stroke.points@.last().position,
                moved_points(
                    old(self).stroke.points@,
                    pos,
                    base,
                    old(self).stroke.width,
                    spacing,
                    old(jitter).state,
                ),
                old(self).stroke.width,
                spacing,
            ),
    {
        proof {
            reveal(capture_step);
            reveal(within_reach);
        }
        if !self.recording {
            return ;
        }
        let ghost s0 = jitter.state;
        let ghost start = self.stroke.points@;
        let width = self.stroke.width;
        let n = self.stroke.points.len();
        if n == 0 {
            let stamp_rotation = jitter.rotation();
            self.stroke.points.push(BrushPoint { position: pos, pressure: base, stamp_rotation });
            assert(jitter_after(s0, 1) == crate::stroke::jitter_step(s0)) by {
                assert(jitter_after(s0, 0) == s0);
            }
            assert(self.stroke.points@ =~= start + moved_points(start, pos, base, width, spacing, s0));
            return ;
        }
        let last = self.stroke.points[n - 1].position;
        proof {
            if capture_reach(width, spacing) >= 1000 * SPACING_FLOOR {
                lemma_moved_spacing(start, pos, base, width, spacing, s0);
            }
        }
        assert(width * spacing <= 0xffff_ffff * 0xffff_ffff) by (nonlinear_arith)
            requires
                width <= 0xffff_ffff,
                spacing <= 0xffff_ffff,
        ;
        let reach = (width as u64) * (spacing as u64);
        assert(reach * reach <= 0xffff_ffff_ffff_ffff * 0xffff_ffff_ffff_ffff) by (nonlinear_arith)
            requires
                reach <= 0xffff_ffff_ffff_ffff,
        ;
        let d = distance_sq(last, pos);
        if d * 1_000_000 < (reach as u128) * (reach as u128) {
            assert(self.stroke.points@ =~= start + moved_points(start, pos, base, width, spacing, s0));
            return ;
        }
        let mut ends: Vec<Point> = Vec::new();
        ends.push(last);
        ends.push(pos);
        let r = reach / 1000;
        let step: u32 = if r < SPACING_FLOOR as u64 {
            SPACING_FLOOR
        } else if r > u32::MAX as u64 {
            u32::MAX
        } else {
            r as u32
        };
        let seg = resample(&ends, step);
        proof {
            assert(ends@.drop_last() =~= seq![last]);
            assert(ends@[0] == last && ends@[1] == pos);
            assert(crate::geometry::resampled(ends@.drop_last(), step as int) == seq![last]);
            assert(seg@ =~= seq![last] + segment_points(last, pos, step as int));
        }
        let ghost added = jittered_points(segment_points(last, pos, step as int), base, s0);
        let mut k: usize = 1;
        while k < seg.len()
            invariant
                1 <= k <= seg@.len(),
                seg@ == seq![last] + segment_points(last, pos, step as int),
                added == jittered_points(segment_points(last, pos, step as int), base, s0),
                self.recording,
                self.stroke.points@ == start + added.take(k - 1),
                jitter.state == jitter_after(s0, (2 * (k - 1)) as nat),
                self.stroke.color == old(self).stroke.color,
                self.stroke.width == old(self).stroke.width,
                self.stroke.brush_type == old(self).stroke.brush_type,
            decreases seg.len() - k,
        {
            let ghost j = k - 1;
            let stamp_rotation = jitter.rotation();
            let factor = jitter.pressure_factor();
            let pressure = scale_pressure(base, factor);
            let p = BrushPoint { position: seg[k], pressure, stamp_rotation };
            self.stroke.points.push(p);
            proof {
                assert(jitter_after(s0, (2 * j + 1) as nat) == crate::stroke::jitter_step(
                    jitter_after(s0, (2 * j) as nat),
                ));
                assert(jitter_after(s0, (2 * j + 2) as nat) == crate::stroke::jitter_step(
                    jitter_after(s0, (2 * j + 1) as nat),
                ));
                assert(p == added[j]);
                assert(added.take(k as int) =~= added.take(j).push(added[j]));
            }
            k = k + 1;
        }
        assert(added.take(seg.len() - 1) =~= added);
    }
}

} // verus!
