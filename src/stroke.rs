//! Strokes, their points, and the seeded source of per-point jitter.
use vstd::prelude::*;
use crate::geometry::Point;
use crate::pigment::Rgb;

verus! {

/// How a stroke is drawn.
#[derive(Clone, Copy, Debug, PartialEq, Eq, Structural)]
pub enum BrushType {
    /// A continuous polyline of uniform color and width.
    Basic,
    /// A rotated textured stamp at every point.
    Textured,
    /// A translucent round glow at every point.
    Light,
}

/// Pressure is in thousandths: `PRESSURE_FULL` is full pressure.
pub const PRESSURE_FULL: u32 = 1000;

/// Stamp rotations are in units of `1 / ROTATION_FULL` of a turn, so every
/// rotation is below `ROTATION_FULL`.
pub const ROTATION_FULL: u32 = 65536;

/// One captured sample of a stroke.
#[derive(Clone, Copy, Debug, PartialEq, Eq, Structural)]
pub struct BrushPoint {
    pub position: Point,
    /// In thousandths of full pressure.
    pub pressure: u32,
    /// In units of `1 / ROTATION_FULL` of a turn.
    pub stamp_rotation: u32,
}

/// A sequence of points drawn with one color, width and brush.
#[derive(Debug)]
pub struct Stroke {
    pub points: Vec<BrushPoint>,
    pub color: Rgb,
    pub width: u32,
    pub brush_type: BrushType,
}

/// What a stroke holds, with its points as a sequence.
pub ghost struct StrokeView {
    pub points: Seq<BrushPoint>,
    pub color: Rgb,
    pub width: u32,
    pub brush_type: BrushType,
}

impl View for Stroke {
    type V = StrokeView;

    open spec fn view(&self) -> StrokeView {
        StrokeView {
            points: self.points@,
            color: self.color,
            width: self.width,
            brush_type: self.brush_type,
        }
    }
}

impl Clone for Stroke {
    fn clone(&self) -> (r: Stroke)
        ensures
            r@ == self@,
    {
        let points = self.points.clone();
        assert(points@ =~= self.points@);
        Stroke { points, color: self.color, width: self.width, brush_type: self.brush_type }
    }
}

/// Multiplier and increment of the jitter generator (a 64-bit linear
/// congruential generator).
pub const JITTER_MUL: u64 = 6364136223846793005;

pub const JITTER_INC: u64 = 1442695040888963407;

/// The generator state after one draw.
pub open spec fn jitter_step(s: u64) -> u64 {
    vstd::wrapping::u64_specs::wrapping_add(
        vstd::wrapping::u64_specs::wrapping_mul(s, JITTER_MUL),
        JITTER_INC,
    )
}

/// The generator state after `k` draws.
pub open spec fn jitter_after(s: u64, k: nat) -> u64
    decreases k,
{
    if k == 0 {
        s
    } else {
        jitter_step(jitter_after(s, (k - 1) as nat))
    }
}

/// The value drawn when the generator reaches state `s`: its high half.
pub open spec fn jitter_value(s: u64) -> u32 {
    (s >> 32u64) as u32
}

/// The stamp rotation drawn when the generator reaches state `s`.
pub open spec fn rotation_of(s: u64) -> u32 {
    (jitter_value(s) % ROTATION_FULL) as u32
}

/// The pressure factor, in thousandths between 800 and 1000, drawn when the
/// generator reaches state `s`.
pub open spec fn factor_of(s: u64) -> u32 {
    (800 + jitter_value(s) % 201) as u32
}

/// A seeded, deterministic source of random stamp rotations and pressure
/// variation.
#[derive(Clone, Copy, Debug)]
pub struct Jitter {
    pub state: u64,
}

impl Jitter {
    pub fn new(seed: u64) -> (j: Jitter)
        ensures
            j.state == seed,
    {
        Jitter { state: seed }
    }

    pub fn next_u32(&mut self) -> (r: u32)
        ensures
            final(self).state == jitter_step(old(self).state),
            r == jitter_value(final(self).state),
    {
        self.state = self.state.wrapping_mul(JITTER_MUL).wrapping_add(JITTER_INC);
        (self.state >> 32u64) as u32
    }

    /// A stamp rotation below `ROTATION_FULL`.
    pub fn rotation(&mut self) -> (r: u32)
        ensures
            final(self).state == jitter_step(old(self).state),
            r == rotation_of(final(self).state),
            r < ROTATION_FULL,
    {
        let v = self.next_u32();
        v % ROTATION_FULL
    }

    /// A pressure factor in thousandths, between 800 and 1000.
    pub fn pressure_factor(&mut self) -> (r: u32)
        ensures
            final(self).state == jitter_step(old(self).state),
            r == factor_of(final(self).state),
            800 <= r <= 1000,
    {
        let v = self.next_u32();
        800 + v % 201
    }
}

/// A base pressure scaled by a factor in thousandths.
pub open spec fn scaled_pressure(base: u32, factor: u32) -> u32 {
    (base * factor / 1000) as u32
}

/// A factor between 800 and 1000 thousandths keeps the pressure between 80%
/// of the base and the base.
pub proof fn lemma_scaled_pressure_range(base: u32, factor: u32)
    requires
        800 <= factor <= 1000,
    ensures
        base * 800 / 1000 <= scaled_pressure(base, factor) <= base,
{
    assert(base * 800 <= base * factor <= base * 1000) by (nonlinear_arith)
        requires
            800 <= factor <= 1000,
            0 <= base,
    ;
    vstd::arithmetic::div_mod::lemma_div_is_ordered(base * factor, base * 1000, 1000);
    vstd::arithmetic::div_mod::lemma_div_is_ordered(base * 800, base * factor, 1000);
    vstd::arithmetic::div_mod::lemma_div_multiples_vanish(base as int, 1000);
    assert(base * 1000 == 1000 * base) by (nonlinear_arith);
}

pub fn scale_pressure(base: u32, factor: u32) -> (r: u32)
    requires
        factor <= 1000,
    ensures
        r == scaled_pressure(base, factor),
        r <= base,
        factor >= 800 ==> r >= base * 800 / 1000,
{
    assert(base * factor <= base * 1000) by (nonlinear_arith)
        requires
            factor <= 1000,
    ;
    assert(base * factor <= 0xffff_ffff * 1000) by (nonlinear_arith)
        requires
            factor <= 1000,
            base <= 0xffff_ffff,
    ;
    proof {
        vstd::arithmetic::div_mod::lemma_div_is_ordered(base * factor, base * 1000, 1000);
        vstd::arithmetic::div_mod::lemma_div_multiples_vanish(base as int, 1000);
        assert(base * 1000 == 1000 * base) by (nonlinear_arith);
        if factor >= 800 {
            assert(base * 800 <= base * factor) by (nonlinear_arith)
                requires
                    factor >= 800,
            ;
            vstd::arithmetic::div_mod::lemma_div_is_ordered(base * 800, base * factor, 1000);
        }
    }
    ((base as u64) * (factor as u64) / 1000) as u32
}

} // verus!
