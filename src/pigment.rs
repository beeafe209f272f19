//! Display colors, the palette, and mixing in a latent pigment space.
//!
//! A color is encoded as three pigment concentrations (red, yellow and blue,
//! each in `0..=255`) plus a residual per display channel. Decoding evaluates
//! the pigment model (trilinear interpolation between the eight corner colors
//! of the concentration cube) and adds the residual back, so an encoded color
//! decodes to itself exactly. Mixing is a weighted sum of encodings; because
//! the pigment model is not linear, yellow and blue tend towards green.
use vstd::prelude::*;

verus! {

/// A display color, one byte per channel.
#[derive(Clone, Copy, Debug, PartialEq, Eq, Structural)]
pub struct Rgb {
    pub r: u8,
    pub g: u8,
    pub b: u8,
}

/// Fixed-point denominator of mixing weights: a weight of `WEIGHT_ONE` is 1.
pub const WEIGHT_ONE: u32 = 1000;

/// `255 * 255 * 255`, the total of the eight trilinear weights.
pub const CUBE: i64 = 16581375;

/// An encoded color: pigment concentrations, then per-channel residuals.
#[derive(Clone, Copy, Debug)]
pub struct Latent {
    pub red: i64,
    pub yellow: i64,
    pub blue: i64,
    pub res_r: i64,
    pub res_g: i64,
    pub res_b: i64,
}

impl View for Latent {
    type V = Seq<int>;

    open spec fn view(&self) -> Seq<int> {
        seq![
            self.red as int,
            self.yellow as int,
            self.blue as int,
            self.res_r as int,
            self.res_g as int,
            self.res_b as int,
        ]
    }
}

/// Channel `k` (0 red, 1 green, 2 blue) of a display color.
pub open spec fn channel(c: Rgb, k: int) -> int {
    if k == 0 {
        c.r as int
    } else if k == 1 {
        c.g as int
    } else {
        c.b as int
    }
}

pub open spec fn clamp_byte(v: int) -> int {
    if v < 0 {
        0
    } else if v > 255 {
        255
    } else {
        v
    }
}

/// Channel `k` of corner `i` of the pigment cube; bit 0 of `i` is red
/// pigment, bit 1 yellow, bit 2 blue.
pub open spec fn corner(i: int, k: int) -> int {
    let c: (int, int, int) = if i == 0 {
        (255, 255, 255)
    } else if i == 1 {
        (255, 0, 0)
    } else if i == 2 {
        (255, 255, 0)
    } else if i == 3 {
        (255, 128, 0)
    } else if i == 4 {
        (0, 0, 255)
    } else if i == 5 {
        (128, 0, 128)
    } else if i == 6 {
        (0, 255, 0)
    } else {
        (0, 0, 0)
    };
    if k == 0 {
        c.0
    } else if k == 1 {
        c.1
    } else {
        c.2
    }
}

/// The interpolation weight of a concentration towards one side of the cube.
pub open spec fn share(v: int, on: bool) -> int {
    if on {
        v
    } else {
        255 - v
    }
}

pub open spec fn corner_term(r: int, y: int, b: int, i: int, k: int) -> int {
    share(r, i % 2 == 1) * share(y, (i / 2) % 2 == 1) * share(b, i / 4 == 1) * corner(i, k)
}

/// Sum of the first `n` corner terms.
pub open spec fn corner_sum(r: int, y: int, b: int, k: int, n: int) -> int
    decreases n,
{
    if n <= 0 {
        0
    } else {
        corner_sum(r, y, b, k, n - 1) + corner_term(r, y, b, n - 1, k)
    }
}

/// Channel `k` of the pigment model at concentrations `(r, y, b)`.
pub open spec fn ryb_channel(r: int, y: int, b: int, k: int) -> int {
    corner_sum(r, y, b, k, 8) / (CUBE as int)
}

pub open spec fn min_int(a: int, b: int) -> int {
    if a < b {
        a
    } else {
        b
    }
}

/// Pigment concentrations estimated from a display color: the white part is
/// removed, the common part of red and green is yellow, what is left of green
/// counts as yellow plus blue.
pub open spec fn concentrations(c: Rgb) -> (int, int, int) {
    let w = min_int(c.r as int, min_int(c.g as int, c.b as int));
    let r1 = c.r - w;
    let g1 = c.g - w;
    let b1 = c.b - w;
    let yl = min_int(r1, g1);
    (r1 - yl, g1, min_int(b1 + g1 - yl, 255))
}

/// The encoding of a display color.
pub open spec fn latent_of(c: Rgb) -> Seq<int> {
    let (r, y, b) = concentrations(c);
    seq![
        r,
        y,
        b,
        c.r - ryb_channel(r, y, b, 0),
        c.g - ryb_channel(r, y, b, 1),
        c.b - ryb_channel(r, y, b, 2),
    ]
}

/// Channel `k` of the decoding of `l`.
pub open spec fn decoded_channel(l: Seq<int>, k: int) -> int {
    clamp_byte(
        ryb_channel(clamp_byte(l[0]), clamp_byte(l[1]), clamp_byte(l[2]), k) + l[3 + k],
    )
}

/// The decoding of an encoding.
pub open spec fn rgb_of(l: Seq<int>) -> Rgb {
    Rgb {
        r: decoded_channel(l, 0) as u8,
        g: decoded_channel(l, 1) as u8,
        b: decoded_channel(l, 2) as u8,
    }
}

/// The weighted sum `wa * A + wb * B` of two encodings, weights in units of
/// `1 / WEIGHT_ONE`, rounded down.
pub open spec fn mixed_latent(a: Rgb, b: Rgb, wa: int, wb: int) -> Seq<int> {
    Seq::new(
        6,
        |k: int| (wa * latent_of(a)[k] + wb * latent_of(b)[k]) / (WEIGHT_ONE as int),
    )
}

/// The display color of a pigment mix.
pub open spec fn mix_of(a: Rgb, b: Rgb, wa: int, wb: int) -> Rgb {
    rgb_of(mixed_latent(a, b, wa, wb))
}

proof fn lemma_term_bounds(r: int, y: int, b: int, i: int, k: int)
    requires
        0 <= r <= 255,
        0 <= y <= 255,
        0 <= b <= 255,
    ensures
        0 <= corner_term(r, y, b, i, k) <= 255 * 255 * 255 * 255,
{
    let a = share(r, i % 2 == 1);
    let c = share(y, (i / 2) % 2 == 1);
    let d = share(b, i / 4 == 1);
    let e = corner(i, k);
    assert(0 <= a * c * d * e <= 255 * 255 * 255 * 255) by (nonlinear_arith)
        requires
            0 <= a <= 255,
            0 <= c <= 255,
            0 <= d <= 255,
            0 <= e <= 255,
    ;
}

fn corner_value(i: usize, k: usize) -> (v: i64)
    requires
        i < 8,
        k < 3,
    ensures
        v == corner(i as int, k as int),
{
    let c: (i64, i64, i64) = if i == 0 {
        (255, 255, 255)
    } else if i == 1 {
        (255, 0, 0)
    } else if i == 2 {
        (255, 255, 0)
    } else if i == 3 {
        (255, 128, 0)
    } else if i == 4 {
        (0, 0, 255)
    } else if i == 5 {
        (128, 0, 128)
    } else if i == 6 {
        (0, 255, 0)
    } else {
        (0, 0, 0)
    };
    if k == 0 {
        c.0
    } else if k == 1 {
        c.1
    } else {
        c.2
    }
}

fn share_value(v: i64, on: bool) -> (s: i64)
    requires
        0 <= v <= 255,
    ensures
        s == share(v as int, on),
        0 <= s <= 255,
{
    if on {
        v
    } else {
        255 - v
    }
}

/// Channel `k` of the pigment model at concentrations `(r, y, b)`.
pub fn ryb_to_channel(r: i64, y: i64, b: i64, k: usize) -> (v: i64)
    requires
        0 <= r <= 255,
        0 <= y <= 255,
        0 <= b <= 255,
        k < 3,
    ensures
        v == ryb_channel(r as int, y as int, b as int, k as int),
        0 <= v <= 8 * 255,
{
    let mut sum: i64 = 0;
    let mut i: usize = 0;
    while i < 8
        invariant
            0 <= r <= 255,
            0 <= y <= 255,
            0 <= b <= 255,
            k < 3,
            i <= 8,
            sum == corner_sum(r as int, y as int, b as int, k as int, i as int),
            0 <= sum <= i * 4228250625,
        decreases 8 - i,
    {
        let a = share_value(r, i % 2 == 1);
        let c = share_value(y, (i / 2) % 2 == 1);
        let d = share_value(b, i / 4 == 1);
        let e = corner_value(i, k);
        proof {
            lemma_term_bounds(r as int, y as int, b as int, i as int, k as int);
            assert(0 <= a * c <= 255 * 255) by (nonlinear_arith)
                requires
                    0 <= a <= 255,
                    0 <= c <= 255,
            ;
            assert(0 <= a * c * d <= 255 * 255 * 255) by (nonlinear_arith)
                requires
                    0 <= a * c <= 255 * 255,
                    0 <= d <= 255,
            ;
        }
        assert(a * c * d * e == corner_term(r as int, y as int, b as int, i as int, k as int));
        sum = sum + a * c * d * e;
        i = i + 1;
    }
    assert(0 <= sum / CUBE <= 8 * 255) by (nonlinear_arith)
        requires
            0 <= sum <= 8 * (255 * 255 * 255 * 255),
    ;
    sum / CUBE
}

/// Every component of an encoding made by `latent_of` stays in this range.
pub open spec fn latent_bounded(l: Seq<int>) -> bool {
    &&& l.len() == 6
    &&& forall|k: int| 0 <= k < 6 ==> -2040 <= #[trigger] l[k] <= 255
}

fn min_i64(a: i64, b: i64) -> (m: i64)
    ensures
        m == min_int(a as int, b as int),
{
    if a < b {
        a
    } else {
        b
    }
}

/// Encodes a display color in the latent pigment space.
pub fn to_latent(c: Rgb) -> (l: Latent)
    ensures
        l@ == latent_of(c),
        latent_bounded(l@),
{
    let r = c.r as i64;
    let g = c.g as i64;
    let b = c.b as i64;
    let w = min_i64(r, min_i64(g, b));
    let r1 = r - w;
    let g1 = g - w;
    let b1 = b - w;
    let yl = min_i64(r1, g1);
    let red = r1 - yl;
    let yellow = g1;
    let blue = min_i64(b1 + g1 - yl, 255);
    let e0 = ryb_to_channel(red, yellow, blue, 0);
    let e1 = ryb_to_channel(red, yellow, blue, 1);
    let e2 = ryb_to_channel(red, yellow, blue, 2);
    let l = Latent { red, yellow, blue, res_r: r - e0, res_g: g - e1, res_b: b - e2 };
    assert(l@ =~= latent_of(c));
    l
}

fn clamp_i64(v: i64) -> (r: i64)
    ensures
        r == clamp_byte(v as int),
{
    if v < 0 {
        0
    } else if v > 255 {
        255
    } else {
        v
    }
}

fn byte_of(v: i128) -> (r: u8)
    ensures
        r as int == clamp_byte(v as int),
{
    if v < 0 {
        0
    } else if v > 255 {
        255
    } else {
        v as u8
    }
}

/// Decodes a latent color, clamping each display channel to `0..=255`.
pub fn to_rgb(l: Latent) -> (c: Rgb)
    ensures
        c == rgb_of(l@),
{
    let red = clamp_i64(l.red);
    let yellow = clamp_i64(l.yellow);
    let blue = clamp_i64(l.blue);
    let e0 = ryb_to_channel(red, yellow, blue, 0);
    let e1 = ryb_to_channel(red, yellow, blue, 1);
    let e2 = ryb_to_channel(red, yellow, blue, 2);
    let r = byte_of(e0 as i128 + l.res_r as i128);
    let g = byte_of(e1 as i128 + l.res_g as i128);
    let b = byte_of(e2 as i128 + l.res_b as i128);
    Rgb { r, g, b }
}

proof fn lemma_neg_floor_div(m: int, d: int)
    requires
        m > 0,
        d > 0,
    ensures
        (-m) / d == -((m + d - 1) / d),
{
    let q = (m + d - 1) / d;
    let r = (m + d - 1) % d;
    vstd::arithmetic::div_mod::lemma_fundamental_div_mod(m + d - 1, d);
    assert(-m == (-q) * d + (d - 1 - r)) by (nonlinear_arith)
        requires
            m + d - 1 == d * q + r,
    ;
    vstd::arithmetic::div_mod::lemma_fundamental_div_mod_converse(-m, d, -q, d - 1 - r);
}

/// `n / d` rounded down.
fn floor_div(n: i64, d: i64) -> (q: i64)
    requires
        d > 0,
        -0x1000_0000_0000_0000 <= n <= 0x1000_0000_0000_0000,
        d <= 0x1000_0000_0000_0000,
    ensures
        q == n as int / d as int,
{
    if n >= 0 {
        ((n as u64) / (d as u64)) as i64
    } else {
        let m = (-n) as u64;
        let q = (m + d as u64 - 1) / (d as u64);
        proof {
            lemma_neg_floor_div(m as int, d as int);
        }
        -(q as i64)
    }
}

fn weighted_component(x: i64, y: i64, wa: u32, wb: u32) -> (v: i64)
    requires
        -2040 <= x <= 255,
        -2040 <= y <= 255,
    ensures
        v == (wa * x + wb * y) / (WEIGHT_ONE as int),
{
    proof {
        assert(-0x1000_0000_0000 <= wa * x <= 0x1000_0000_0000) by (nonlinear_arith)
            requires
                -2040 <= x <= 255,
                0 <= wa <= 0xffff_ffff,
        ;
        assert(-0x1000_0000_0000 <= wb * y <= 0x1000_0000_0000) by (nonlinear_arith)
            requires
                -2040 <= y <= 255,
                0 <= wb <= 0xffff_ffff,
        ;
    }
    floor_div((wa as i64) * x + (wb as i64) * y, WEIGHT_ONE as i64)
}

/// Mixes two colors as pigments: the weighted sum `wa * A + wb * B` of their
/// encodings (weights in units of `1 / WEIGHT_ONE`, not required to add up to
/// one), decoded back to a display color.
pub fn mix(a: Rgb, b: Rgb, wa: u32, wb: u32) -> (c: Rgb)
    ensures
        c == mix_of(a, b, wa as int, wb as int),
{
    let la = to_latent(a);
    let lb = to_latent(b);
    assert(-2040 <= la@[0] <= 255 && -2040 <= la@[1] <= 255 && -2040 <= la@[2] <= 255);
    assert(-2040 <= la@[3] <= 255 && -2040 <= la@[4] <= 255 && -2040 <= la@[5] <= 255);
    assert(-2040 <= lb@[0] <= 255 && -2040 <= lb@[1] <= 255 && -2040 <= lb@[2] <= 255);
    assert(-2040 <= lb@[3] <= 255 && -2040 <= lb@[4] <= 255 && -2040 <= lb@[5] <= 255);
    let l = Latent {
        red: weighted_component(la.red, lb.red, wa, wb),
        yellow: weighted_component(la.yellow, lb.yellow, wa, wb),
        blue: weighted_component(la.blue, lb.blue, wa, wb),
        res_r: weighted_component(la.res_r, lb.res_r, wa, wb),
        res_g: weighted_component(la.res_g, lb.res_g, wa, wb),
        res_b: weighted_component(la.res_b, lb.res_b, wa, wb),
    };
    assert(l@ =~= mixed_latent(a, b, wa as int, wb as int));
    to_rgb(l)
}

/// Decoding an encoded color gives the color back exactly.
pub proof fn lemma_round_trip(c: Rgb)
    ensures
        rgb_of(latent_of(c)) == c,
{
    let l = latent_of(c);
    assert(0 <= l[0] <= 255 && 0 <= l[1] <= 255 && 0 <= l[2] <= 255);
    assert(decoded_channel(l, 0) == c.r as int);
    assert(decoded_channel(l, 1) == c.g as int);
    assert(decoded_channel(l, 2) == c.b as int);
}

/// Mixing with equal weights does not depend on the order of the colors.
pub proof fn lemma_mix_commutes(a: Rgb, b: Rgb, w: int)
    ensures
        mix_of(a, b, w, w) == mix_of(b, a, w, w),
{
    assert(mixed_latent(a, b, w, w) =~= mixed_latent(b, a, w, w));
}

/// Mixing a color with itself, with weights that add up to one, gives the
/// color back.
pub proof fn lemma_self_mix(a: Rgb, wa: int, wb: int)
    requires
        wa + wb == WEIGHT_ONE,
    ensures
        mix_of(a, a, wa, wb) == a,
{
    let la = latent_of(a);
    assert forall|k: int| 0 <= k < 6 implies #[trigger] mixed_latent(a, a, wa, wb)[k] == la[k] by {
        let x = la[k];
        assert(wa * x + wb * x == 1000 * x) by (nonlinear_arith)
            requires
                wa + wb == 1000,
        ;
        vstd::arithmetic::div_mod::lemma_div_multiples_vanish(x, 1000);
    }
    assert(mixed_latent(a, a, wa, wb) =~= la);
    lemma_round_trip(a);
}

/// A named swatch of the palette.
#[derive(Clone, Copy, Debug)]
pub struct PaintColor {
    pub name: &'static str,
    pub color: Rgb,
}

/// The swatch colors of the palette, in order.
pub open spec fn palette() -> Seq<Rgb> {
    seq![
        Rgb { r: 254, g: 236, b: 0 },
        Rgb { r: 252, g: 211, b: 0 },
        Rgb { r: 255, g: 105, b: 0 },
        Rgb { r: 255, g: 39, b: 2 },
        Rgb { r: 128, g: 2, b: 46 },
        Rgb { r: 78, g: 0, b: 66 },
        Rgb { r: 25, g: 0, b: 89 },
        Rgb { r: 0, g: 33, b: 133 },
        Rgb { r: 13, g: 27, b: 68 },
        Rgb { r: 0, g: 60, b: 50 },
        Rgb { r: 7, g: 109, b: 22 },
        Rgb { r: 107, g: 148, b: 4 },
        Rgb { r: 123, g: 72, b: 0 },
        Rgb { r: 0, g: 0, b: 0 },
    ]
}

/// The swatch names of the palette, in order.
pub open spec fn palette_names() -> Seq<Seq<char>> {
    seq![
        "Cadmium Yellow"@,
        "Hansa Yellow"@,
        "Cadmium Orange"@,
        "Cadmium Red"@,
        "Quinacridone Magenta"@,
        "Cobalt Violet"@,
        "Ultramarine Blue"@,
        "Cobalt Blue"@,
        "Phthalo Blue"@,
        "Phthalo Green"@,
        "Permanent Green"@,
        "Sap Green"@,
        "Burnt Sienna"@,
        "Black"@,
    ]
}

/// The palette of paints offered to pick a stroke color from, in display
/// order.
pub fn create_paint_colors() -> (v: Vec<PaintColor>)
    ensures
        v@.len() == palette().len(),
        forall|i: int| 0 <= i < v@.len() ==> (#[trigger] v@[i]).color == palette()[i] && v@[i].name@
            == palette_names()[i],
{
    let mut v: Vec<PaintColor> = Vec::new();
    v.push(PaintColor { name: "Cadmium Yellow", color: Rgb { r: 254, g: 236, b: 0 } });
    v.push(PaintColor { name: "Hansa Yellow", color: Rgb { r: 252, g: 211, b: 0 } });
    v.push(PaintColor { name: "Cadmium Orange", color: Rgb { r: 255, g: 105, b: 0 } });
    v.push(PaintColor { name: "Cadmium Red", color: Rgb { r: 255, g: 39, b: 2 } });
    v.push(PaintColor { name: "Quinacridone Magenta", color: Rgb { r: 128, g: 2, b: 46 } });
    v.push(PaintColor { name: "Cobalt Violet", color: Rgb { r: 78, g: 0, b: 66 } });
    v.push(PaintColor { name: "Ultramarine Blue", color: Rgb { r: 25, g: 0, b: 89 } });
    v.push(PaintColor { name: "Cobalt Blue", color: Rgb { r: 0, g: 33, b: 133 } });
    v.push(PaintColor { name: "Phthalo Blue", color: Rgb { r: 13, g: 27, b: 68 } });
    v.push(PaintColor { name: "Phthalo Green", color: Rgb { r: 0, g: 60, b: 50 } });
    v.push(PaintColor { name: "Permanent Green", color: Rgb { r: 7, g: 109, b: 22 } });
    v.push(PaintColor { name: "Sap Green", color: Rgb { r: 107, g: 148, b: 4 } });
    v.push(PaintColor { name: "Burnt Sienna", color: Rgb { r: 123, g: 72, b: 0 } });
    v.push(PaintColor { name: "Black", color: Rgb { r: 0, g: 0, b: 0 } });
    assert(v@.map_values(|p: PaintColor| p.color) =~= palette());
    assert(v@.map_values(|p: PaintColor| p.name@) =~= palette_names());
    v
}

} // verus!
