//! Point and stroke geometry: bounds, centroids, linear interpolation and
//! the centroid/bounding-box normalization that makes matching invariant
//! under translation and uniform scaling.

use vstd::prelude::*;
use vstd::arithmetic::div_mod::{
    lemma_div_nonincreasing, lemma_div_pos_is_pos, lemma_multiply_divide_le,
};
use vstd::arithmetic::mul::{lemma_mul_inequality, lemma_mul_nonnegative};

verus! {

/// A pointer position in screen space, integer-valued as sampled from the
/// pointing device.
#[derive(Clone, Copy, Debug, PartialEq, Eq, Structural)]
pub struct Point {
    pub x: i32,
    pub y: i32,
}

/// Truncating signed division of `a` by a positive `b`, as the hardware
/// performs it: the quotient of the magnitudes, with the sign of `a`.
pub open spec fn sdiv_spec(a: int, b: int) -> int {
    if a >= 0 {
        a / b
    } else {
        -((-a) / b)
    }
}

/// Exec counterpart of `sdiv_spec`, via unsigned division on the magnitude.
pub(crate) fn sdiv(a: i64, b: i64) -> (r: i64)
    requires
        1 <= b,
        -0x4000_0000_0000_0000 <= a <= 0x4000_0000_0000_0000,
    ensures
        r as int == sdiv_spec(a as int, b as int),
{
    if a >= 0 {
        let q: u64 = (a as u64) / (b as u64);
        proof {
            lemma_div_nonincreasing(a as int, b as int);
            lemma_div_pos_is_pos(a as int, b as int);
        }
        q as i64
    } else {
        let m: u64 = (-a) as u64;
        let q: u64 = m / (b as u64);
        proof {
            lemma_div_nonincreasing(m as int, b as int);
            lemma_div_pos_is_pos(m as int, b as int);
        }
        -(q as i64)
    }
}

/// For nonnegative `a` and `0 <= b <= d`, scaling `a` by the fraction
/// `b / d` stays within `[0, a]`.
pub proof fn lemma_mul_div_le(a: int, b: int, d: int)
    requires
        0 <= a,
        1 <= d,
        0 <= b <= d,
    ensures
        0 <= (a * b) / d <= a,
{
    lemma_mul_nonnegative(a, b);
    lemma_div_pos_is_pos(a * b, d);
    lemma_mul_inequality(b, d, a);
    assert(b * a == a * b) by (nonlinear_arith);
    assert(d * a == a * d) by (nonlinear_arith);
    lemma_multiply_divide_le(a * b, d, a);
}

/// Scaling a value of magnitude at most `e` by the fraction `t / e` yields
/// a value of magnitude at most `t`.
pub proof fn lemma_sdiv_in_range(v: int, t: int, e: int)
    requires
        1 <= e,
        0 <= t,
        -e <= v <= e,
    ensures
        -t <= sdiv_spec(v * t, e) <= t,
{
    if v >= 0 {
        lemma_mul_nonnegative(v, t);
        lemma_mul_div_le(t, v, e);
        assert(v * t == t * v) by (nonlinear_arith);
    } else {
        assert((-v) * t == -(v * t) && (-v) * t >= 0 && (-v) * t == t * (-v)) by (nonlinear_arith)
            requires
                v < 0,
                t >= 0,
        ;
        lemma_mul_div_le(t, -v, e);
    }
}

/// Scaling a value of magnitude at most `k * e` by the fraction `t / e`
/// yields a value of magnitude at most `k * t`.
pub proof fn lemma_sdiv_bounded(v: int, t: int, e: int, k: int)
    requires
        1 <= e,
        0 <= t,
        0 <= k,
        -(k * e) <= v <= k * e,
    ensures
        -(k * t) <= sdiv_spec(v * t, e) <= k * t,
{
    if v >= 0 {
        lemma_mul_nonnegative(v, t);
        lemma_div_pos_is_pos(v * t, e);
        assert(v * t <= e * (k * t)) by (nonlinear_arith)
            requires
                0 <= v <= k * e,
                0 <= t,
                1 <= e,
        ;
        lemma_multiply_divide_le(v * t, e, k * t);
    } else {
        assert((-v) * t == -(v * t) && (-v) * t >= 0 && v * t <= 0) by (nonlinear_arith)
            requires
                v < 0,
                t >= 0,
        ;
        lemma_div_pos_is_pos((-v) * t, e);
        assert((-v) * t <= e * (k * t)) by (nonlinear_arith)
            requires
                0 <= -v <= k * e,
                0 <= t,
                1 <= e,
        ;
        lemma_multiply_divide_le((-v) * t, e, k * t);
    }
}

/// Smallest x coordinate of a non-empty stroke.
pub open spec fn min_x(s: Seq<Point>) -> int
    decreases s.len(),
{
    if s.len() <= 1 {
        s[0].x as int
    } else if s.last().x as int <= min_x(s.drop_last()) {
        s.last().x as int
    } else {
        min_x(s.drop_last())
    }
}

/// Largest x coordinate of a non-empty stroke.
pub open spec fn max_x(s: Seq<Point>) -> int
    decreases s.len(),
{
    if s.len() <= 1 {
        s[0].x as int
    } else if s.last().x as int >= max_x(s.drop_last()) {
        s.last().x as int
    } else {
        max_x(s.drop_last())
    }
}

/// Smallest y coordinate of a non-empty stroke.
pub open spec fn min_y(s: Seq<Point>) -> int
    decreases s.len(),
{
    if s.len() <= 1 {
        s[0].y as int
    } else if s.last().y as int <= min_y(s.drop_last()) {
        s.last().y as int
    } else {
        min_y(s.drop_last())
    }
}

/// Largest y coordinate of a non-empty stroke.
pub open spec fn max_y(s: Seq<Point>) -> int
    decreases s.len(),
{
    if s.len() <= 1 {
        s[0].y as int
    } else if s.last().y as int >= max_y(s.drop_last()) {
        s.last().y as int
    } else {
        max_y(s.drop_last())
    }
}

/// Larger dimension of the stroke's bounding box.
pub open spec fn extent(s: Seq<Point>) -> int {
    if max_x(s) - min_x(s) >= max_y(s) - min_y(s) {
        max_x(s) - min_x(s)
    } else {
        max_y(s) - min_y(s)
    }
}

/// Every coordinate of a non-empty stroke lies within its bounds.
pub proof fn lemma_bounds_cover(s: Seq<Point>)
    requires
        s.len() > 0,
    ensures
        forall|i: int|
            0 <= i < s.len() ==> min_x(s) <= (#[trigger] s[i]).x as int <= max_x(s) && min_y(s)
                <= s[i].y as int <= max_y(s),
    decreases s.len(),
{
    if s.len() > 1 {
        lemma_bounds_cover(s.drop_last());
        assert forall|i: int|
            0 <= i < s.len() implies min_x(s) <= (#[trigger] s[i]).x as int <= max_x(s) && min_y(s)
            <= s[i].y as int <= max_y(s) by {
            if i < s.len() - 1 {
                assert(s.drop_last()[i] == s[i]);
            }
        }
    }
}

/// Sum of the x offsets of a stroke's points above a fixed base.
pub open spec fn sum_dx(s: Seq<Point>, base: int) -> int
    decreases s.len(),
{
    if s.len() == 0 {
        0
    } else {
        sum_dx(s.drop_last(), base) + (s.last().x as int - base)
    }
}

/// Sum of the y offsets of a stroke's points above a fixed base.
pub open spec fn sum_dy(s: Seq<Point>, base: int) -> int
    decreases s.len(),
{
    if s.len() == 0 {
        0
    } else {
        sum_dy(s.drop_last(), base) + (s.last().y as int - base)
    }
}

/// If every x offset above `base` lies in `[0, w]`, the sum of the offsets
/// lies in `[0, len * w]`.
pub proof fn lemma_sum_dx_bound(s: Seq<Point>, base: int, w: int)
    requires
        0 <= w,
        forall|i: int| 0 <= i < s.len() ==> base <= (#[trigger] s[i]).x as int <= base + w,
    ensures
        0 <= sum_dx(s, base) <= s.len() * w,
    decreases s.len(),
{
    if s.len() == 0 {
    } else {
        assert forall|i: int|
            0 <= i < s.drop_last().len() implies base <= (#[trigger] s.drop_last()[i]).x as int
            <= base + w by {
            assert(s.drop_last()[i] == s[i]);
        }
        lemma_sum_dx_bound(s.drop_last(), base, w);
        assert(s.len() * w == (s.len() - 1) * w + w) by (nonlinear_arith);
    }
}

/// If every y offset above `base` lies in `[0, w]`, the sum of the offsets
/// lies in `[0, len * w]`.
pub proof fn lemma_sum_dy_bound(s: Seq<Point>, base: int, w: int)
    requires
        0 <= w,
        forall|i: int| 0 <= i < s.len() ==> base <= (#[trigger] s[i]).y as int <= base + w,
    ensures
        0 <= sum_dy(s, base) <= s.len() * w,
    decreases s.len(),
{
    if s.len() == 0 {
    } else {
        assert forall|i: int|
            0 <= i < s.drop_last().len() implies base <= (#[trigger] s.drop_last()[i]).y as int
            <= base + w by {
            assert(s.drop_last()[i] == s[i]);
        }
        lemma_sum_dy_bound(s.drop_last(), base, w);
        assert(s.len() * w == (s.len() - 1) * w + w) by (nonlinear_arith);
    }
}

/// The stroke recentred on its centroid and uniformly rescaled so that the
/// larger bounding-box dimension spans `t`, all in truncating integer
/// arithmetic.  Meaningful only when `extent(s) > 0`.
pub open spec fn normalized_point(s: Seq<Point>, t: int, i: int) -> Point {
    let mx = min_x(s);
    let my = min_y(s);
    let e = extent(s);
    let cx = sum_dx(s, mx) / (s.len() as int);
    let cy = sum_dy(s, my) / (s.len() as int);
    Point {
        x: sdiv_spec((s[i].x as int - mx - cx) * t, e) as i32,
        y: sdiv_spec((s[i].y as int - my - cy) * t, e) as i32,
    }
}

pub open spec fn normalize_spec(s: Seq<Point>, t: int) -> Seq<Point> {
    Seq::new(s.len(), |i: int| normalized_point(s, t, i))
}

/// Both coordinates of `p` have magnitude at most `b`.
pub open spec fn point_within(p: Point, b: int) -> bool {
    -b <= p.x as int <= b && -b <= p.y as int <= b
}

/// Bounding box of a non-empty stroke: (min x, max x, min y, max y).
fn bounds(stroke: &Vec<Point>) -> (r: (i32, i32, i32, i32))
    requires
        stroke@.len() > 0,
    ensures
        r.0 as int == min_x(stroke@),
        r.1 as int == max_x(stroke@),
        r.2 as int == min_y(stroke@),
        r.3 as int == max_y(stroke@),
{
    let ghost s = stroke@;
    let mut mnx: i32 = stroke[0].x;
    let mut mxx: i32 = stroke[0].x;
    let mut mny: i32 = stroke[0].y;
    let mut mxy: i32 = stroke[0].y;
    let mut i: usize = 1;
    while i < stroke.len()
        invariant
            1 <= i <= s.len(),
            stroke@ == s,
            mnx as int == min_x(s.take(i as int)),
            mxx as int == max_x(s.take(i as int)),
            mny as int == min_y(s.take(i as int)),
            mxy as int == max_y(s.take(i as int)),
        decreases s.len() - i,
    {
        let p = stroke[i];
        proof {
            assert(s.take(i + 1).drop_last() =~= s.take(i as int));
            assert(s.take(i + 1).last() == s[i as int]);
        }
        if p.x < mnx {
            mnx = p.x;
        }
        if p.x > mxx {
            mxx = p.x;
        }
        if p.y < mny {
            mny = p.y;
        }
        if p.y > mxy {
            mxy = p.y;
        }
        i = i + 1;
    }
    proof {
        assert(s.take(s.len() as int) =~= s);
    }
    (mnx, mxx, mny, mxy)
}

/// Larger bounding-box dimension of a non-empty stroke.
pub fn stroke_extent(stroke: &Vec<Point>) -> (r: i64)
    requires
        stroke@.len() > 0,
    ensures
        r as int == extent(stroke@),
        r >= 0,
{
    let (mnx, mxx, mny, mxy) = bounds(stroke);
    proof {
        lemma_bounds_cover(stroke@);
        assert(min_x(stroke@) <= stroke@[0].x as int <= max_x(stroke@));
        assert(min_y(stroke@) <= stroke@[0].y as int <= max_y(stroke@));
    }
    let w: i64 = mxx as i64 - mnx as i64;
    let h: i64 = mxy as i64 - mny as i64;
    if w >= h {
        w
    } else {
        h
    }
}

/// The point a fraction `num / den` of the way from `p1` to `p2`, each
/// coordinate rounded toward `p1`.
pub open spec fn interp_point(p1: Point, p2: Point, num: int, den: int) -> Point {
    Point {
        x: (p1.x as int + sdiv_spec((p2.x as int - p1.x as int) * num, den)) as i32,
        y: (p1.y as int + sdiv_spec((p2.y as int - p1.y as int) * num, den)) as i32,
    }
}

/// Linear interpolation between `p1` and `p2` at parameter `num / den`,
/// with each coordinate rounded toward `p1`.
pub fn interpolate(p1: Point, p2: Point, num: i32, den: i32) -> (r: Point)
    requires
        1 <= den <= 1_000_000,
        0 <= num <= den,
    ensures
        r == interp_point(p1, p2, num as int, den as int),
        r.x as int == p1.x as int + sdiv_spec((p2.x as int - p1.x as int) * num, den as int),
        r.y as int == p1.y as int + sdiv_spec((p2.y as int - p1.y as int) * num, den as int),
{
    let dx: i64 = p2.x as i64 - p1.x as i64;
    let dy: i64 = p2.y as i64 - p1.y as i64;
    proof {
        assert(-0x4000_0000_0000_0000 <= (dx as int) * (num as int) <= 0x4000_0000_0000_0000
            && -0x4000_0000_0000_0000 <= (dy as int) * (num as int) <= 0x4000_0000_0000_0000)
            by (nonlinear_arith)
            requires
                -0x1_0000_0000 <= dx as int <= 0x1_0000_0000,
                -0x1_0000_0000 <= dy as int <= 0x1_0000_0000,
                0 <= num as int <= 1_000_000,
        ;
    }
    let sx: i64 = sdiv(dx * num as i64, den as i64);
    let sy: i64 = sdiv(dy * num as i64, den as i64);
    proof {
        lemma_interp_step(p1.x as int, p2.x as int, num as int, den as int);
        lemma_interp_step(p1.y as int, p2.y as int, num as int, den as int);
    }
    Point { x: (p1.x as i64 + sx) as i32, y: (p1.y as i64 + sy) as i32 }
}

/// The interpolation step from `a` toward `b` never leaves the segment
/// between them.
proof fn lemma_interp_step(a: int, b: int, num: int, den: int)
    requires
        1 <= den,
        0 <= num <= den,
    ensures
        b >= a ==> 0 <= sdiv_spec((b - a) * num, den) <= b - a,
        b < a ==> a - b >= -sdiv_spec((b - a) * num, den) >= 0,
{
    let d = b - a;
    if d >= 0 {
        lemma_mul_nonnegative(d, num);
        lemma_mul_div_le(d, num, den);
        assert(d * num == num * d) by (nonlinear_arith);
    } else {
        assert((-(d * num)) == (-d) * num && d * num <= 0 && (-d) * num == num * (-d))
            by (nonlinear_arith)
            requires
                d < 0,
                num >= 0,
        ;
        lemma_mul_div_le(-d, num, den);
    }
}

/// Recentre `stroke` on its centroid and rescale it uniformly so that the
/// larger bounding-box dimension spans `target_range`.  The caller must
/// rule out a degenerate (zero-extent) stroke, for which rescaling is
/// undefined; the sampling loop's movement gate does exactly that.
pub fn normalize(stroke: &Vec<Point>, target_range: i32) -> (r: Vec<Point>)
    requires
        stroke@.len() > 0,
        extent(stroke@) > 0,
        1 <= target_range <= 10_000,
    ensures
        r@ == normalize_spec(stroke@, target_range as int),
        r@.len() == stroke@.len(),
        forall|i: int| 0 <= i < r@.len() ==> point_within(#[trigger] r@[i], target_range as int),
{
    let ghost s = stroke@;
    let ghost t = target_range as int;
    let n: usize = stroke.len();
    let (mnx, mxx, mny, mxy) = bounds(stroke);
    let w: i64 = mxx as i64 - mnx as i64;
    let h: i64 = mxy as i64 - mny as i64;
    let e: i64 = if w >= h {
        w
    } else {
        h
    };
    assert(e as int == extent(s));
    proof {
        lemma_bounds_cover(s);
    }

    let mut sx: i128 = 0;
    let mut sy: i128 = 0;
    let mut i: usize = 0;
    while i < n
        invariant
            0 <= i <= n,
            n == s.len(),
            stroke@ == s,
            mnx as int == min_x(s),
            mny as int == min_y(s),
            w == max_x(s) - min_x(s),
            h == max_y(s) - min_y(s),
            0 <= w <= 0xffff_ffff,
            0 <= h <= 0xffff_ffff,
            sx == sum_dx(s.take(i as int), mnx as int),
            sy == sum_dy(s.take(i as int), mny as int),
            0 <= sx <= i * w,
            0 <= sy <= i * h,
            sx <= (i as int) * 0x1_0000_0000,
            sy <= (i as int) * 0x1_0000_0000,
            forall|j: int|
                0 <= j < s.len() ==> min_x(s) <= (#[trigger] s[j]).x as int <= max_x(s) && min_y(s)
                    <= s[j].y as int <= max_y(s),
        decreases n - i,
    {
        let p = stroke[i];
        proof {
            assert(s.take(i + 1).drop_last() =~= s.take(i as int));
            assert(s.take(i + 1).last() == s[i as int]);
            assert((i + 1) * w == i * w + w) by (nonlinear_arith);
            assert((i + 1) * h == i * h + h) by (nonlinear_arith);
            assert((i + 1) as int * 0x1_0000_0000 == (i as int) * 0x1_0000_0000 + 0x1_0000_0000);
        }
        sx = sx + (p.x as i64 - mnx as i64) as i128;
        sy = sy + (p.y as i64 - mny as i64) as i128;
        i = i + 1;
    }
    proof {
        assert(s.take(n as int) =~= s);
    }

    let ghost cx_spec = sum_dx(s, min_x(s)) / (s.len() as int);
    let ghost cy_spec = sum_dy(s, min_y(s)) / (s.len() as int);
    proof {
        lemma_centroid_bound(sx as int, n as int, w as int);
        lemma_centroid_bound(sy as int, n as int, h as int);
    }
    let cx: i64 = ((sx as u128) / (n as u128)) as i64;
    let cy: i64 = ((sy as u128) / (n as u128)) as i64;
    assert(cx as int == cx_spec && 0 <= cx <= w);
    assert(cy as int == cy_spec && 0 <= cy <= h);

    let mut out: Vec<Point> = Vec::new();
    let mut i: usize = 0;
    while i < n
        invariant
            0 <= i <= n,
            n == s.len(),
            stroke@ == s,
            mnx as int == min_x(s),
            mny as int == min_y(s),
            w == max_x(s) - min_x(s),
            h == max_y(s) - min_y(s),
            1 <= e,
            e as int == extent(s),
            w <= e && h <= e,
            0 <= w <= 0xffff_ffff,
            0 <= h <= 0xffff_ffff,
            e <= 0xffff_ffff,
            0 <= cx <= w && cx as int == cx_spec,
            0 <= cy <= h && cy as int == cy_spec,
            cx_spec == sum_dx(s, min_x(s)) / (s.len() as int),
            cy_spec == sum_dy(s, min_y(s)) / (s.len() as int),
            1 <= t <= 10_000,
            t == target_range as int,
            out@.len() == i,
            forall|j: int| 0 <= j < i ==> out@[j] == normalize_spec(s, t)[j],
            forall|j: int| 0 <= j < i ==> point_within(#[trigger] out@[j], t),
            forall|j: int|
                0 <= j < s.len() ==> min_x(s) <= (#[trigger] s[j]).x as int <= max_x(s) && min_y(s)
                    <= s[j].y as int <= max_y(s),
        decreases n - i,
    {
        let p = stroke[i];
        let dx: i64 = (p.x as i64 - mnx as i64) - cx;
        let dy: i64 = (p.y as i64 - mny as i64) - cy;
        proof {
            lemma_sdiv_in_range(dx as int, t, e as int);
            lemma_sdiv_in_range(dy as int, t, e as int);
            assert(-0x4000_0000_0000_0000 <= (dx as int) * t <= 0x4000_0000_0000_0000)
                by (nonlinear_arith)
                requires
                    -0x1_0000_0000 <= dx as int <= 0x1_0000_0000,
                    1 <= t <= 10_000,
            ;
            assert(-0x4000_0000_0000_0000 <= (dy as int) * t <= 0x4000_0000_0000_0000)
                by (nonlinear_arith)
                requires
                    -0x1_0000_0000 <= dy as int <= 0x1_0000_0000,
                    1 <= t <= 10_000,
            ;
        }
        let nx: i64 = sdiv(dx * target_range as i64, e);
        let ny: i64 = sdiv(dy * target_range as i64, e);
        let q = Point { x: nx as i32, y: ny as i32 };
        proof {
            assert(dx as int == s[i as int].x as int - min_x(s) - cx_spec);
            assert(dy as int == s[i as int].y as int - min_y(s) - cy_spec);
            assert(nx as int == sdiv_spec((s[i as int].x as int - min_x(s) - cx_spec) * t, extent(s)));
            assert(ny as int == sdiv_spec((s[i as int].y as int - min_y(s) - cy_spec) * t, extent(s)));
            assert(normalize_spec(s, t)[i as int] == normalized_point(s, t, i as int));
            assert(q == normalize_spec(s, t)[i as int]);
        }
        out.push(q);
        i = i + 1;
    }
    proof {
        assert(out@ =~= normalize_spec(s, t));
    }
    out
}

/// The truncated mean of `n` offsets summing to `sum`, each in `[0, w]`,
/// lies in `[0, w]`.
proof fn lemma_centroid_bound(sum: int, n: int, w: int)
    requires
        1 <= n,
        0 <= w,
        0 <= sum <= n * w,
    ensures
        0 <= sum / n <= w,
{
    lemma_div_pos_is_pos(sum, n);
    lemma_multiply_divide_le(sum, n, w);
}

} // verus!
