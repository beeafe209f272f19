//! The painting state threaded through input handling and rendering: the
//! history of finished strokes, the recorder of the stroke in progress, and
//! the jitter source.
use vstd::prelude::*;
use crate::geometry::Point;
use crate::history::{CanvasHistory, pushed, undone};
use crate::pigment::Rgb;
use crate::recorder::{
    SPACING_FLOOR,
    StrokeRecorder,
    moved_draws,
    moved_points,
    spaced_within_reach,
};
use crate::render::{Primitive, UNIT, frame, render_scene, scene};
use crate::stroke::{BrushType, Jitter, StrokeView, jitter_after};

verus! {

/// Least and greatest stroke width, in grid cells (1 to 20 display units).
pub const WIDTH_MIN: u32 = 40;

pub const WIDTH_MAX: u32 = 800;

/// Least and greatest brush pressure, in thousandths.
pub const PRESSURE_MIN: u32 = 100;

pub const PRESSURE_MAX: u32 = 1000;

/// Least and greatest capture spacing, in thousandths of the stroke width.
pub const SPACING_MIN: u32 = 50;

pub const SPACING_MAX: u32 = 500;

/// What the user has chosen in the controls.
#[derive(Clone, Copy, Debug, PartialEq, Eq, Structural)]
pub struct Settings {
    /// In grid cells.
    pub stroke_width: u32,
    pub stroke_color: Rgb,
    pub brush_type: BrushType,
    /// In thousandths.
    pub brush_pressure: u32,
    /// In thousandths of the stroke width.
    pub brush_spacing: u32,
    pub clear_requested: bool,
    pub undo_requested: bool,
}

pub open spec fn clamp_u32(v: u32, lo: u32, hi: u32) -> u32 {
    if v < lo {
        lo
    } else if v > hi {
        hi
    } else {
        v
    }
}

fn clamp_value(v: u32, lo: u32, hi: u32) -> (r: u32)
    ensures
        r == clamp_u32(v, lo, hi),
{
    if v < lo {
        lo
    } else if v > hi {
        hi
    } else {
        v
    }
}

impl Settings {
    /// The defaults: a black basic brush, 5 display units wide, at full
    /// pressure and a spacing of a tenth of the width.
    pub fn new() -> (s: Settings)
        ensures
            s.stroke_width == 5 * UNIT,
            s.stroke_color == (Rgb { r: 0, g: 0, b: 0 }),
            s.brush_type == BrushType::Basic,
            s.brush_pressure == 1000,
            s.brush_spacing == 100,
            !s.clear_requested,
            !s.undo_requested,
    {
        Settings {
            stroke_width: 5 * UNIT,
            stroke_color: Rgb { r: 0, g: 0, b: 0 },
            brush_type: BrushType::Basic,
            brush_pressure: 1000,
            brush_spacing: 100,
            clear_requested: false,
            undo_requested: false,
        }
    }

    /// The stroke width brought into range.
    pub fn width(&self) -> (w: u32)
        ensures
            w == clamp_u32(self.stroke_width, WIDTH_MIN, WIDTH_MAX),
    {
        clamp_value(self.stroke_width, WIDTH_MIN, WIDTH_MAX)
    }

    /// The brush pressure brought into range.
    pub fn pressure(&self) -> (p: u32)
        ensures
            p == clamp_u32(self.brush_pressure, PRESSURE_MIN, PRESSURE_MAX),
    {
        clamp_value(self.brush_pressure, PRESSURE_MIN, PRESSURE_MAX)
    }

    /// The capture spacing, in thousandths of the stroke width, brought
    /// into range.
    pub fn spacing(&self) -> (s: u32)
        ensures
            s == clamp_u32(self.brush_spacing, SPACING_MIN, SPACING_MAX),
    {
        clamp_value(self.brush_spacing, SPACING_MIN, SPACING_MAX)
    }
}

/// The whole painting state.
#[derive(Debug)]
pub struct Canvas {
    pub history: CanvasHistory,
    pub recorder: StrokeRecorder,
    pub jitter: Jitter,
}

impl Canvas {
    /// The history holds no empty stroke, and an idle recorder holds no
    /// points.
    pub open spec fn wf(&self) -> bool {
        &&& self.history.wf()
        &&& !self.recorder.recording ==> self.recorder.stroke.points@.len() == 0
        &&& self.recorder.stroke.width > 0
        &&& self.recorder.recording ==> self.recorder.stroke.width >= WIDTH_MIN
    }

    /// The strokes that the next frame shows.
    pub open spec fn shown(&self) -> Seq<StrokeView> {
        scene(
            self.history.strokes@,
            self.recorder.stroke,
            self.recorder.stroke.points@.len() > 0,
        )
    }

    /// An empty canvas whose jitter starts from `seed`.
    pub fn new(seed: u64) -> (c: Canvas)
        ensures
            c.wf(),
            c.history@.len() == 0,
            !c.recorder.recording,
            c.recorder.stroke.points@.len() == 0,
            c.jitter.state == seed,
    {
        Canvas { history: CanvasHistory::new(), recorder: StrokeRecorder::new(), jitter: Jitter::new(seed) }
    }

    /// Pointer pressed: starts a stroke with the current settings, unless the
    /// controls take the input.
    pub fn pointer_down(&mut self, settings: &Settings, ui_busy: bool)
        requires
            old(self).wf(),
        ensures
            final(self).wf(),
            final(self).history@ == old(self).history@,
            final(self).jitter == old(self).jitter,
            ui_busy ==> final(self).recorder.recording == old(self).recorder.recording
                && final(self).recorder.stroke@ == old(self).recorder.stroke@,
            !ui_busy ==> final(self).recorder.recording && final(self).recorder.stroke@ == (
            StrokeView {
                points: Seq::empty(),
                color: settings.stroke_color,
                width: clamp_u32(settings.stroke_width, WIDTH_MIN, WIDTH_MAX),
                brush_type: settings.brush_type,
            }),
    {
        if !ui_busy {
            let w = settings.width();
            self.recorder.begin(settings.stroke_color, w, settings.brush_type);
            assert(self.recorder.stroke.points@ =~= Seq::empty());
        }
    }

    /// Pointer moved to `pos`: extends the stroke in progress, unless the
    /// controls take the input.
    pub fn pointer_moved(&mut self, pos: Point, settings: &Settings, ui_busy: bool)
        requires
            old(self).wf(),
        ensures
            final(self).wf(),
            final(self).history@ == old(self).history@,
            final(self).recorder.recording == old(self).recorder.recording,
            final(self).recorder.stroke.color == old(self).recorder.stroke.color,
            final(self).recorder.stroke.width == old(self).recorder.stroke.width,
            final(self).recorder.stroke.brush_type == old(self).recorder.stroke.brush_type,
            ui_busy || !old(self).recorder.recording ==> final(self).recorder.stroke.points@
                == old(self).recorder.stroke.points@ && final(self).jitter == old(self).jitter,
            !ui_busy && old(self).recorder.recording ==> {
                let base = clamp_u32(settings.brush_pressure, PRESSURE_MIN, PRESSURE_MAX);
                let width = old(self).recorder.stroke.width;
                let spacing = clamp_u32(settings.brush_spacing, SPACING_MIN, SPACING_MAX);
                let old_points = old(self).recorder.stroke.points@;
                let s0 = old(self).jitter.state;
                &&& final(self).recorder.stroke.points@ == old_points + moved_points(
                    old_points,
                    pos,
                    base,
                    width,
                    spacing,
                    s0,
                )
                &&& final(self).jitter.state == jitter_after(
                    s0,
                    moved_draws(old_points, pos, base, width, spacing, s0),
                )
                &&& old_points.len() > 0 ==> spaced_within_reach(
                    old_points.last().position,
                    moved_points(old_points, pos, base, width, spacing, s0),
                    width,
                    spacing,
                )
            },
    {
        if !ui_busy {
            let base = settings.pressure();
            let spacing = settings.spacing();
            assert(self.recorder.recording ==> self.recorder.stroke.width * spacing >= 1000
                * SPACING_FLOOR) by (nonlinear_arith)
                requires
                    self.recorder.recording ==> self.recorder.stroke.width >= 40,
                    spacing >= 50,
            ;
            self.recorder.move_to(pos, base, spacing, &mut self.jitter);
        }
    }

    /// Pointer released: the stroke in progress goes to the history if it
    /// has a point and is dropped otherwise, unless the controls take the
    /// input.
    pub fn pointer_up(&mut self, ui_busy: bool)
        requires
            old(self).wf(),
        ensures
            final(self).wf(),
            final(self).jitter == old(self).jitter,
            ui_busy ==> final(self).history@ == old(self).history@
                && final(self).recorder.recording == old(self).recorder.recording
                && final(self).recorder.stroke@ == old(self).recorder.stroke@,
            !ui_busy ==> !final(self).recorder.recording && final(self).recorder.stroke.points@.len()
                == 0,
            !ui_busy ==> final(self).history@ == if old(self).recorder.stroke.points@.len() > 0 {
                pushed(old(self).history@, old(self).recorder.stroke@)
            } else {
                old(self).history@
            },
    {
        if !ui_busy {
            match self.recorder.end() {
                Some(s) => self.history.push(s),
                None => {},
            }
        }
    }

    /// Removes every finished stroke and the stroke in progress.
    pub fn clear(&mut self)
        requires
            old(self).wf(),
        ensures
            final(self).wf(),
            final(self).history@.len() == 0,
            final(self).recorder.stroke.points@.len() == 0,
            !final(self).recorder.recording,
            final(self).jitter == old(self).jitter,
    {
        self.history.clear();
        self.recorder.discard();
    }

    /// Removes the most recent finished stroke, if any.
    pub fn undo(&mut self)
        requires
            old(self).wf(),
        ensures
            final(self).wf(),
            final(self).history@ == undone(old(self).history@),
            final(self).recorder.recording == old(self).recorder.recording,
            final(self).recorder.stroke@ == old(self).recorder.stroke@,
            final(self).jitter == old(self).jitter,
    {
        let _ = self.history.undo();
    }

    /// Carries out the clear and undo requests of the settings (clear
    /// first) and resets both.
    pub fn apply_requests(&mut self, settings: &mut Settings)
        requires
            old(self).wf(),
        ensures
            final(self).wf(),
            final(self).history@ == if old(settings).clear_requested {
                Seq::<StrokeView>::empty()
            } else if old(settings).undo_requested {
                undone(old(self).history@)
            } else {
                old(self).history@
            },
            old(settings).clear_requested ==> final(self).recorder.stroke.points@.len() == 0
                && !final(self).recorder.recording,
            !old(settings).clear_requested ==> final(self).recorder.recording == old(
                self,
            ).recorder.recording && final(self).recorder.stroke@ == old(self).recorder.stroke@,
            *final(settings) == (Settings {
                clear_requested: false,
                undo_requested: false,
                ..*old(settings)
            }),
    {
        if settings.clear_requested {
            self.clear();
            assert(self.history@ =~= Seq::<StrokeView>::empty());
        } else if settings.undo_requested {
            self.undo();
        }
        settings.clear_requested = false;
        settings.undo_requested = false;
    }

    /// The number of finished strokes.
    pub fn stroke_count(&self) -> (n: usize)
        ensures
            n == self.history@.len(),
    {
        self.history.len()
    }

    /// The primitives of the next frame: the history in order, then the
    /// stroke in progress if it has a point.
    pub fn render(&self) -> (r: Vec<Primitive>)
        ensures
            r@ == frame(self.shown(), self.shown().len() as int),
    {
        let with_current = self.recorder.stroke.points.len() > 0;
        render_scene(&self.history.strokes, &self.recorder.stroke, with_current)
    }
}

} // verus!
