//! Points on the integer drawing grid, overlap of segments, and resampling of
//! point sequences at a bounded spacing.
use vstd::prelude::*;

verus! {

/// A position on the drawing grid.
#[derive(Clone, Copy, Debug, PartialEq, Eq, Structural)]
pub struct Point {
    pub x: i32,
    pub y: i32,
}

/// A straight piece of a stroke between two consecutive points.
#[derive(Clone, Copy, Debug, PartialEq, Eq, Structural)]
pub struct Segment {
    pub start: Point,
    pub end: Point,
}

/// Squared Euclidean distance.
pub open spec fn dist_sq(p: Point, q: Point) -> int {
    (p.x - q.x) * (p.x - q.x) + (p.y - q.y) * (p.y - q.y)
}

/// `p` and `q` are closer than `t`.
pub open spec fn near(p: Point, q: Point, t: int) -> bool {
    dist_sq(p, q) < t * t
}

/// Some endpoint of `a` is closer than `t` to some endpoint of `b`.
pub open spec fn segments_overlap(a: Segment, b: Segment, t: int) -> bool {
    near(a.start, b.start, t) || near(a.start, b.end, t) || near(a.end, b.start, t) || near(
        a.end,
        b.end,
        t,
    )
}

/// Squared distance between two points.
pub fn distance_sq(p: Point, q: Point) -> (r: u128)
    ensures
        r == dist_sq(p, q),
        r <= 0x8_0000_0000_0000_0000,
{
    let dx = p.x as i64 - q.x as i64;
    let dy = p.y as i64 - q.y as i64;
    let ax: u64 = if dx < 0 {
        (-dx) as u64
    } else {
        dx as u64
    };
    let ay: u64 = if dy < 0 {
        (-dy) as u64
    } else {
        dy as u64
    };
    assert(ax * ax == dx * dx) by (nonlinear_arith)
        requires
            ax == dx || ax == -dx,
    ;
    assert(ay * ay == dy * dy) by (nonlinear_arith)
        requires
            ay == dy || ay == -dy,
    ;
    assert(ax * ax <= 0x4_0000_0000_0000_0000) by (nonlinear_arith)
        requires
            0 <= ax <= 0x2_0000_0000,
    ;
    assert(ay * ay <= 0x4_0000_0000_0000_0000) by (nonlinear_arith)
        requires
            0 <= ay <= 0x2_0000_0000,
    ;
    (ax as u128) * (ax as u128) + (ay as u128) * (ay as u128)
}

/// Whether two segments are treated as coinciding: some endpoint of one lies
/// closer than `threshold` to some endpoint of the other. This looks at
/// endpoints only; it is not a test of geometric intersection.
pub fn overlaps(a: Segment, b: Segment, threshold: u32) -> (r: bool)
    ensures
        r == segments_overlap(a, b, threshold as int),
{
    assert(threshold * threshold <= 0x1_0000_0000_0000_0000) by (nonlinear_arith)
        requires
            0 <= threshold <= 0xffff_ffff,
    ;
    let t = (threshold as u128) * (threshold as u128);
    distance_sq(a.start, b.start) < t || distance_sq(a.start, b.end) < t || distance_sq(
        a.end,
        b.start,
    ) < t || distance_sq(a.end, b.end) < t
}

/// Overlap does not depend on the order of the two segments.
pub proof fn lemma_overlaps_symmetric(a: Segment, b: Segment, t: int)
    ensures
        segments_overlap(a, b, t) == segments_overlap(b, a, t),
{
    assert forall|p: Point, q: Point| #[trigger] dist_sq(p, q) == dist_sq(q, p) by {
        assert((p.x - q.x) * (p.x - q.x) == (q.x - p.x) * (q.x - p.x)) by (nonlinear_arith);
        assert((p.y - q.y) * (p.y - q.y) == (q.y - p.y) * (q.y - p.y)) by (nonlinear_arith);
    }
}

pub open spec fn abs(v: int) -> int {
    if v < 0 {
        -v
    } else {
        v
    }
}

pub open spec fn max_int(a: int, b: int) -> int {
    if a < b {
        b
    } else {
        a
    }
}

/// `a / n` rounded up.
pub open spec fn ceil_div(a: int, n: int) -> int {
    (a + n - 1) / n
}

/// Splitting a displacement of `(a, b)` into `n` steps on the grid keeps
/// every step within `s`: the longest step along each axis is `ceil(a / n)`
/// and `ceil(b / n)`.
pub open spec fn fits(a: int, b: int, n: int, s: int) -> bool {
    ceil_div(a, n) * ceil_div(a, n) + ceil_div(b, n) * ceil_div(b, n) <= s * s
}

/// The least step count from `n` on that fits, or `max(a, b)` (steps of at
/// most one grid cell per axis) if none below it does. Because the steps
/// land on grid points, this can exceed `ceil(distance / s)`: that many
/// equal steps, rounded to the grid, may overshoot `s`.
pub open spec fn steps_from(a: int, b: int, s: int, n: int) -> int
    decreases max_int(a, b) - n,
{
    if n >= max_int(a, b) || fits(a, b, n, s) {
        n
    } else {
        steps_from(a, b, s, n + 1)
    }
}

/// The number of points that resampling puts on the way from `p` to `q`
/// (`q` included): none for a segment of length zero.
pub open spec fn step_count(p: Point, q: Point, s: int) -> int {
    let a = abs(q.x - p.x);
    let b = abs(q.y - p.y);
    if a == 0 && b == 0 {
        0
    } else {
        steps_from(a, b, s, 1)
    }
}

/// Coordinate `i` of `n` equal steps from `p` by `d`, rounded towards `p`.
pub open spec fn lerp_coord(p: int, d: int, i: int, n: int) -> int {
    if d >= 0 {
        p + (d * i) / n
    } else {
        p - ((-d) * i) / n
    }
}

/// Point `i` of `n` equal steps from `p` to `q`.
pub open spec fn lerp(p: Point, q: Point, i: int, n: int) -> Point {
    Point {
        x: lerp_coord(p.x as int, q.x - p.x, i, n) as i32,
        y: lerp_coord(p.y as int, q.y - p.y, i, n) as i32,
    }
}

/// The points that resampling inserts after `p` on the way to `q`.
pub open spec fn segment_points(p: Point, q: Point, s: int) -> Seq<Point> {
    let n = step_count(p, q, s);
    Seq::new(n as nat, |j: int| lerp(p, q, j + 1, n))
}

/// `pts` resampled at spacing `s`: the first point, then for each
/// consecutive pair the points of `segment_points`.
pub open spec fn resampled(pts: Seq<Point>, s: int) -> Seq<Point>
    decreases pts.len(),
{
    if pts.len() < 2 {
        pts
    } else {
        resampled(pts.drop_last(), s) + segment_points(
            pts[pts.len() - 2],
            pts[pts.len() - 1],
            s,
        )
    }
}

fn fits_exec(a: u64, b: u64, n: u64, s: u32) -> (r: bool)
    requires
        a <= 0xffff_ffff,
        b <= 0xffff_ffff,
        1 <= n <= 0xffff_ffff,
    ensures
        r == fits(a as int, b as int, n as int, s as int),
{
    let ca = (a + n - 1) / n;
    let cb = (b + n - 1) / n;
    proof {
        vstd::arithmetic::div_mod::lemma_div_is_ordered_by_denominator((a + n - 1) as int, 1, n as int);
        vstd::arithmetic::div_mod::lemma_div_is_ordered_by_denominator((b + n - 1) as int, 1, n as int);
        assert(ca * ca <= 0x4_0000_0000_0000_0000) by (nonlinear_arith)
            requires
                0 <= ca <= 0x2_0000_0000,
        ;
        assert(cb * cb <= 0x4_0000_0000_0000_0000) by (nonlinear_arith)
            requires
                0 <= cb <= 0x2_0000_0000,
        ;
        assert(s * s <= 0x1_0000_0000_0000_0000) by (nonlinear_arith)
            requires
                0 <= s <= 0xffff_ffff,
        ;
    }
    (ca as u128) * (ca as u128) + (cb as u128) * (cb as u128) <= (s as u128) * (s as u128)
}

fn steps_exec(a: u64, b: u64, s: u32) -> (n: u64)
    requires
        a <= 0xffff_ffff,
        b <= 0xffff_ffff,
        a > 0 || b > 0,
    ensures
        n == steps_from(a as int, b as int, s as int, 1),
        1 <= n <= max_int(a as int, b as int),
{
    let m = if a < b {
        b
    } else {
        a
    };
    let mut n: u64 = 1;
    while n < m && !fits_exec(a, b, n, s)
        invariant
            a <= 0xffff_ffff,
            b <= 0xffff_ffff,
            m == max_int(a as int, b as int),
            1 <= n <= m,
            steps_from(a as int, b as int, s as int, 1) == steps_from(
                a as int,
                b as int,
                s as int,
                n as int,
            ),
        decreases m - n,
    {
        n = n + 1;
    }
    n
}

proof fn lemma_lerp_offset(d: int, i: int, n: int)
    requires
        0 <= d,
        0 <= i <= n,
        1 <= n,
    ensures
        0 <= (d * i) / n <= d,
        i == 0 ==> (d * i) / n == 0,
        i == n ==> (d * i) / n == d,
{
    assert(0 <= d * i <= d * n) by (nonlinear_arith)
        requires
            0 <= d,
            0 <= i <= n,
    ;
    vstd::arithmetic::div_mod::lemma_div_is_ordered(d * i, d * n, n);
    vstd::arithmetic::div_mod::lemma_div_multiples_vanish(d, n);
    vstd::arithmetic::div_mod::lemma_div_pos_is_pos(d * i, n);
    assert(d * n == n * d) by (nonlinear_arith);
    assert((d * n) / n == d);
    if i == n {
        assert(d * i == d * n);
    }
}

proof fn lemma_lerp_coord(p: int, d: int, i: int, n: int)
    requires
        0 <= i <= n,
        1 <= n,
    ensures
        p <= lerp_coord(p, d, i, n) <= p + d || p + d <= lerp_coord(p, d, i, n) <= p,
        lerp_coord(p, d, 0, n) == p,
        lerp_coord(p, d, n, n) == p + d,
{
    if d >= 0 {
        lemma_lerp_offset(d, i, n);
        lemma_lerp_offset(d, 0, n);
        lemma_lerp_offset(d, n, n);
    } else {
        lemma_lerp_offset(-d, i, n);
        lemma_lerp_offset(-d, 0, n);
        lemma_lerp_offset(-d, n, n);
    }
}

fn lerp_coord_exec(p: i32, q: i32, i: u64, n: u64) -> (r: i32)
    requires
        1 <= n <= 0xffff_ffff,
        i <= n,
    ensures
        r == lerp_coord(p as int, q - p, i as int, n as int),
{
    proof {
        lemma_lerp_coord(p as int, q - p, i as int, n as int);
    }
    let d = q as i64 - p as i64;
    if d >= 0 {
        let ad = d as u64;
        assert(ad * i <= 0xffff_ffff * 0xffff_ffff) by (nonlinear_arith)
            requires
                ad <= 0xffff_ffff,
                i <= 0xffff_ffff,
        ;
        (p as i64 + ((ad * i) / n) as i64) as i32
    } else {
        let ad = (-d) as u64;
        assert(ad * i <= 0xffff_ffff * 0xffff_ffff) by (nonlinear_arith)
            requires
                ad <= 0xffff_ffff,
                i <= 0xffff_ffff,
        ;
        (p as i64 - ((ad * i) / n) as i64) as i32
    }
}

/// Appends the points that resampling inserts between `p` and `q`.
fn push_segment(out: &mut Vec<Point>, p: Point, q: Point, s: u32)
    ensures
        final(out)@ == old(out)@ + segment_points(p, q, s as int),
{
    let ghost start = out@;
    let dx = q.x as i64 - p.x as i64;
    let dy = q.y as i64 - p.y as i64;
    let a: u64 = if dx < 0 {
        (-dx) as u64
    } else {
        dx as u64
    };
    let b: u64 = if dy < 0 {
        (-dy) as u64
    } else {
        dy as u64
    };
    if a == 0 && b == 0 {
        assert(out@ =~= start + segment_points(p, q, s as int));
        return ;
    }
    let n = steps_exec(a, b, s);
    let mut i: u64 = 1;
    while i <= n
        invariant
            1 <= n <= 0xffff_ffff,
            n == step_count(p, q, s as int),
            1 <= i <= n + 1,
            out@ == start + segment_points(p, q, s as int).take(i - 1),
        decreases n + 1 - i,
    {
        let x = lerp_coord_exec(p.x, q.x, i, n);
        let y = lerp_coord_exec(p.y, q.y, i, n);
        out.push(Point { x, y });
        proof {
            lemma_lerp_coord(p.x as int, q.x - p.x, i as int, n as int);
            lemma_lerp_coord(p.y as int, q.y - p.y, i as int, n as int);
            assert(segment_points(p, q, s as int).take(i as int) =~= segment_points(
                p,
                q,
                s as int,
            ).take(i - 1).push(Point { x, y }));
        }
        i = i + 1;
    }
    assert(segment_points(p, q, s as int).take(n as int) =~= segment_points(p, q, s as int));
}

/// Resamples a point sequence: keeps the first point and, between each
/// consecutive pair, inserts evenly spaced grid points ending at the second
/// point of the pair, so that consecutive points of the result are at most
/// `spacing` apart (see `lemma_resample_spacing`). The points lie on the grid,
/// so a pair may take more than `ceil(distance / spacing)` steps: the least
/// count whose rounded steps all stay within `spacing` (`steps_from`). Fewer
/// than two points are returned as they are.
pub fn resample(points: &Vec<Point>, spacing: u32) -> (r: Vec<Point>)
    ensures
        r@ == resampled(points@, spacing as int),
{
    let mut out: Vec<Point> = Vec::new();
    if points.len() < 2 {
        let mut k: usize = 0;
        while k < points.len()
            invariant
                k <= points.len(),
                out@ == points@.take(k as int),
            decreases points.len() - k,
        {
            out.push(points[k]);
            assert(points@.take(k + 1) =~= points@.take(k as int).push(points@[k as int]));
            k = k + 1;
        }
        assert(points@.take(points.len() as int) =~= points@);
        return out;
    }
    out.push(points[0]);
    assert(out@ =~= resampled(points@.take(1), spacing as int));
    let mut k: usize = 1;
    while k < points.len()
        invariant
            1 <= k <= points.len(),
            out@ == resampled(points@.take(k as int), spacing as int),
        decreases points.len() - k,
    {
        push_segment(&mut out, points[k - 1], points[k], spacing);
        proof {
            let t = points@.take(k + 1);
            assert(t.drop_last() =~= points@.take(k as int));
        }
        k = k + 1;
    }
    assert(points@.take(points.len() as int) =~= points@);
    out
}

proof fn lemma_fits_at_max(a: int, b: int, s: int)
    requires
        0 <= a,
        0 <= b,
        1 <= max_int(a, b),
        2 <= s,
    ensures
        fits(a, b, max_int(a, b), s),
{
    let m = max_int(a, b);
    assert forall|v: int| 0 <= v <= m implies 0 <= #[trigger] ceil_div(v, m) <= 1 by {
        let x = v + m - 1;
        vstd::arithmetic::div_mod::lemma_fundamental_div_mod(x, m);
        let q = x / m;
        let r = x % m;
        assert(0 <= q < 2) by (nonlinear_arith)
            requires
                x == m * q + r,
                0 <= r < m,
                0 <= x < 2 * m,
        ;
    }
    let ca = ceil_div(a, m);
    let cb = ceil_div(b, m);
    assert(ca * ca + cb * cb <= 2) by (nonlinear_arith)
        requires
            0 <= ca <= 1,
            0 <= cb <= 1,
    ;
    assert(4 <= s * s) by (nonlinear_arith)
        requires
            2 <= s,
    ;
}

proof fn lemma_steps_fit(a: int, b: int, s: int, n: int)
    requires
        0 <= a,
        0 <= b,
        1 <= n <= max_int(a, b),
        2 <= s,
    ensures
        n <= steps_from(a, b, s, n) <= max_int(a, b),
        fits(a, b, steps_from(a, b, s, n), s),
    decreases max_int(a, b) - n,
{
    if n >= max_int(a, b) {
        lemma_fits_at_max(a, b, s);
    } else if !fits(a, b, n, s) {
        lemma_steps_fit(a, b, s, n + 1);
    }
}

/// Consecutive offsets `d * i / n` differ by at most `ceil(d / n)`.
proof fn lemma_offset_step(d: int, i: int, n: int)
    requires
        0 <= d,
        0 <= i < n,
    ensures
        0 <= (d * (i + 1)) / n - (d * i) / n <= ceil_div(d, n),
{
    let x = d * i;
    let y = d * (i + 1);
    assert(y == x + d && 0 <= x) by (nonlinear_arith)
        requires
            x == d * i,
            y == d * (i + 1),
            0 <= d,
            0 <= i,
    ;
    vstd::arithmetic::div_mod::lemma_div_is_ordered(x, y, n);
    vstd::arithmetic::div_mod::lemma_fundamental_div_mod(x, n);
    vstd::arithmetic::div_mod::lemma_fundamental_div_mod(y, n);
    vstd::arithmetic::div_mod::lemma_fundamental_div_mod(d + n - 1, n);
    let q1 = x / n;
    let q2 = y / n;
    let c = ceil_div(d, n);
    assert(q2 - q1 <= c) by (nonlinear_arith)
        requires
            x == n * q1 + x % n,
            0 <= x % n < n,
            y == n * q2 + y % n,
            0 <= y % n < n,
            d + n - 1 == n * c + (d + n - 1) % n,
            0 <= (d + n - 1) % n < n,
            y == x + d,
            1 <= n,
    ;
}

proof fn lemma_axis_step(p: int, d: int, j: int, n: int)
    requires
        0 <= j < n,
    ensures
        abs(lerp_coord(p, d, j + 1, n) - lerp_coord(p, d, j, n)) <= ceil_div(abs(d), n),
{
    lemma_offset_step(abs(d), j, n);
}

proof fn lemma_square_le(u: int, v: int)
    requires
        abs(u) <= v,
    ensures
        u * u <= v * v,
{
    assert(u * u <= v * v) by (nonlinear_arith)
        requires
            -v <= u <= v,
    ;
}

/// Consecutive points of a resampled segment are at most `s` apart, the
/// first is `p` and the last is `q`.
proof fn lemma_segment_steps(p: Point, q: Point, s: int)
    requires
        2 <= s,
        step_count(p, q, s) >= 1,
    ensures
        lerp(p, q, 0, step_count(p, q, s)) == p,
        lerp(p, q, step_count(p, q, s), step_count(p, q, s)) == q,
        forall|j: int|
            0 <= j < step_count(p, q, s) ==> dist_sq(
                #[trigger] lerp(p, q, j, step_count(p, q, s)),
                lerp(p, q, j + 1, step_count(p, q, s)),
            ) <= s * s,
{
    let a = abs(q.x - p.x);
    let b = abs(q.y - p.y);
    let n = step_count(p, q, s);
    lemma_steps_fit(a, b, s, 1);
    lemma_lerp_coord(p.x as int, q.x - p.x, 0, n);
    lemma_lerp_coord(p.y as int, q.y - p.y, 0, n);
    assert forall|j: int| 0 <= j < n implies dist_sq(
        #[trigger] lerp(p, q, j, n),
        lerp(p, q, j + 1, n),
    ) <= s * s by {
        lemma_lerp_coord(p.x as int, q.x - p.x, j, n);
        lemma_lerp_coord(p.y as int, q.y - p.y, j, n);
        lemma_lerp_coord(p.x as int, q.x - p.x, j + 1, n);
        lemma_lerp_coord(p.y as int, q.y - p.y, j + 1, n);
        lemma_axis_step(p.x as int, q.x - p.x, j, n);
        lemma_axis_step(p.y as int, q.y - p.y, j, n);
        let u = lerp(p, q, j, n);
        let v = lerp(p, q, j + 1, n);
        lemma_square_le(u.x - v.x, ceil_div(a, n));
        lemma_square_le(u.y - v.y, ceil_div(b, n));
    }
}

/// Resampling keeps the first and the last point, and on a spacing of at
/// least two grid cells puts consecutive points at most `s` apart. (On a
/// spacing of one cell a diagonal step of the grid is already longer.)
pub proof fn lemma_resample_spacing(pts: Seq<Point>, s: int)
    requires
        pts.len() >= 2,
        s >= 2,
    ensures
        resampled(pts, s).len() >= 1,
        resampled(pts, s)[0] == pts[0],
        resampled(pts, s).last() == pts.last(),
        forall|i: int|
            0 <= i < resampled(pts, s).len() - 1 ==> dist_sq(
                #[trigger] resampled(pts, s)[i],
                resampled(pts, s)[i + 1],
            ) <= s * s,
    decreases pts.len(),
{
    let prefix = pts.drop_last();
    let head = resampled(prefix, s);
    if prefix.len() >= 2 {
        lemma_resample_spacing(prefix, s);
    } else {
        assert(head == prefix);
    }
    let p = pts[pts.len() - 2];
    let q = pts[pts.len() - 1];
    let n = step_count(p, q, s);
    let seg = segment_points(p, q, s);
    let r = resampled(pts, s);
    if abs(q.x - p.x) != 0 || abs(q.y - p.y) != 0 {
        lemma_steps_fit(abs(q.x - p.x), abs(q.y - p.y), s, 1);
    }
    assert(r == head + seg);
    assert(head.last() == p);
    if n == 0 {
        assert(seg.len() == 0);
        assert(r =~= head);
        assert(p.x == q.x && p.y == q.y);
    } else {
        lemma_segment_steps(p, q, s);
        assert(r.last() == seg[n - 1]);
        assert forall|i: int| 0 <= i < r.len() - 1 implies dist_sq(
            #[trigger] r[i],
            r[i + 1],
        ) <= s * s by {
            if i < head.len() - 1 {
                assert(r[i] == head[i] && r[i + 1] == head[i + 1]);
            } else if i == head.len() - 1 {
                assert(r[i] == lerp(p, q, 0, n));
                assert(r[i + 1] == lerp(p, q, 1, n));
            } else {
                let j = i - head.len() + 1;
                assert(r[i] == lerp(p, q, j, n));
                assert(r[i + 1] == lerp(p, q, j + 1, n));
            }
        }
    }
}

/// The squared distance from inserted point `i` to the next one.
pub open spec fn segment_gap_sq(p: Point, q: Point, s: int, i: int) -> int {
    dist_sq(segment_points(p, q, s)[i], segment_points(p, q, s)[i + 1])
}

/// The points inserted between `p` and `q` at a spacing of at least two
/// cells are each at most `s` from the one before (from `p` for the first),
/// and end at `q`; none are inserted only when `p` and `q` coincide.
pub proof fn lemma_segment_points_spacing(p: Point, q: Point, s: int)
    requires
        s >= 2,
    ensures
        segment_points(p, q, s).len() > 0 ==> dist_sq(p, segment_points(p, q, s)[0]) <= s * s,
        forall|i: int|
            0 <= i < segment_points(p, q, s).len() - 1 ==> #[trigger] segment_gap_sq(p, q, s, i)
                <= s * s,
        segment_points(p, q, s).len() > 0 ==> segment_points(p, q, s).last() == q,
        segment_points(p, q, s).len() == 0 <==> p == q,
{
    let a = abs(q.x - p.x);
    let b = abs(q.y - p.y);
    let n = step_count(p, q, s);
    let seg = segment_points(p, q, s);
    if a != 0 || b != 0 {
        lemma_steps_fit(a, b, s, 1);
        lemma_segment_steps(p, q, s);
        assert(seg[0] == lerp(p, q, 1, n));
        assert(dist_sq(lerp(p, q, 0, n), lerp(p, q, 1, n)) <= s * s);
        assert forall|i: int| 0 <= i < seg.len() - 1 implies #[trigger] segment_gap_sq(p, q, s, i)
            <= s * s by {
            assert(seg[i] == lerp(p, q, i + 1, n));
            assert(seg[i + 1] == lerp(p, q, i + 2, n));
            assert(dist_sq(lerp(p, q, i + 1, n), lerp(p, q, (i + 1) + 1, n)) <= s * s);
        }
        assert(seg.last() == lerp(p, q, n, n));
        assert(p != q) by {
            if p == q {
                assert(a == 0);
            }
        }
    } else {
        assert(p.x == q.x && p.y == q.y);
    }
}

/// Resampling a sequence with some point (`k`) away from its first gives at
/// least two points.
pub proof fn lemma_resampled_moves(pts: Seq<Point>, s: int, k: int)
    requires
        s >= 2,
        0 <= k < pts.len(),
        pts[k] != pts[0],
    ensures
        resampled(pts, s).len() >= 2,
    decreases pts.len(),
{
    let n = pts.len();
    let prefix = pts.drop_last();
    let p = pts[n - 2];
    let q = pts[n - 1];
    lemma_segment_points_spacing(p, q, s);
    assert(resampled(pts, s) == resampled(prefix, s) + segment_points(p, q, s));
    if n - 2 >= 1 {
        lemma_resample_spacing(prefix, s);
    } else {
        assert(resampled(prefix, s) == prefix);
    }
    if k < n - 1 {
        if n - 1 >= 2 {
            assert(prefix[k] != prefix[0]);
            lemma_resampled_moves(prefix, s, k);
        } else {
            assert(k == 0);
        }
    } else if p == q {
        assert(n - 2 != 0);
        assert(prefix[n - 2] != prefix[0]);
        lemma_resampled_moves(prefix, s, n - 2);
    }
}

} // verus!
