//! Canonical stroke templates: deterministic, procedurally generated
//! reference paths for each recognizable symbol, in both traversal
//! directions where direction is ambiguous.

use vstd::prelude::*;
use vstd::string::*;
use vstd::arithmetic::div_mod::{
    lemma_div_is_ordered, lemma_div_nonincreasing, lemma_div_pos_is_pos, lemma_multiply_divide_le,
    lemma_multiply_divide_lt,
};
use crate::geometry::{
    interp_point, interpolate, lemma_sdiv_bounded, lemma_sdiv_in_range, sdiv, sdiv_spec, Point,
};
use crate::shape::Shape;
use crate::trig::{cos_milli, cos_milli_spec, sin_milli, sin_milli_spec};

verus! {

/// Capacity of the recognition window, and the point count of the
/// canonical templates.
pub const POINTS_PER_FIGURE: usize = 200;

/// Nominal size (radius or side length) of the canonical templates.
pub const SHAPE_SIZE: i32 = 100;

/// Largest accepted template generation parameters; they keep every
/// intermediate product comfortably inside 64-bit arithmetic.
pub const MAX_TEMPLATE_POINTS: usize = 1_000_000;

/// Largest accepted template size parameter.
pub const MAX_TEMPLATE_SIZE: i32 = 1_000_000;

/// A named canonical stroke for one way of drawing a symbol.
pub struct Template {
    pub shape: Shape,
    pub path: Vec<Point>,
}

/// Mathematical view of a template: its symbol tag and its path.
pub ghost struct TemplateView {
    pub shape: Shape,
    pub path: Seq<Point>,
}

impl View for Template {
    type V = TemplateView;

    open spec fn view(&self) -> TemplateView {
        TemplateView { shape: self.shape, path: self.path@ }
    }
}

impl TemplateView {
    /// Every enrolled template has a non-empty path.
    pub open spec fn valid(self) -> bool {
        self.path.len() > 0
    }
}

/// The views of a template set, in order.
pub open spec fn template_views(ts: Seq<Template>) -> Seq<TemplateView> {
    ts.map_values(|t: Template| t@)
}

/// A canonical path walked in the requested direction.
pub open spec fn directed(path: Seq<Point>, invert: bool) -> Seq<Point> {
    if invert {
        path.reverse()
    } else {
        path
    }
}

impl Template {
    /// Stable identifier of the template, derived from its symbol; the
    /// control symbols carry their historical template names.
    pub open spec fn name_spec(self) -> Seq<char> {
        match self.shape {
            Shape::Circle => "Circle"@,
            Shape::Square => "Square"@,
            Shape::Triangle => "Triangle"@,
            Shape::Tick => "Confirm"@,
            Shape::Cross => "Cancel"@,
        }
    }

    /// Returns the template's stable identifier.
    pub fn name(&self) -> (r: String)
        ensures
            r@ == self.name_spec(),
    {
        match self.shape {
            Shape::Circle => String::from_str("Circle"),
            Shape::Square => String::from_str("Square"),
            Shape::Triangle => String::from_str("Triangle"),
            Shape::Tick => String::from_str("Confirm"),
            Shape::Cross => String::from_str("Cancel"),
        }
    }
}

/// A copy of `v` with its points in the opposite order.
fn reversed_vec(v: &Vec<Point>) -> (r: Vec<Point>)
    ensures
        r@ == v@.reverse(),
{
    let n = v.len();
    let mut out: Vec<Point> = Vec::new();
    let mut i: usize = 0;
    while i < n
        invariant
            0 <= i <= n,
            n == v@.len(),
            out@.len() == i,
            forall|j: int| 0 <= j < i ==> out@[j] == v@[n - 1 - j],
        decreases n - i,
    {
        out.push(v[n - 1 - i]);
        i = i + 1;
    }
    proof {
        assert(out@ =~= v@.reverse());
    }
    out
}

/// Angle of the `i`-th of `n` circle points, in millidegrees.
pub open spec fn circle_angle(i: int, n: int) -> int {
    (360_000 * i) / n
}

/// The `i`-th of `n` points evenly spaced by angle around a circle of
/// radius `r` centred on the origin.
pub open spec fn circle_point(i: int, n: int, r: int) -> Point {
    Point {
        x: sdiv_spec(r * cos_milli_spec(circle_angle(i, n)), 10_000) as i32,
        y: sdiv_spec(r * sin_milli_spec(circle_angle(i, n)), 10_000) as i32,
    }
}

/// The canonical circle path of `n` points.
pub open spec fn circle_path(n: int, r: int) -> Seq<Point> {
    Seq::new(n as nat, |i: int| circle_point(i, n, r))
}

/// Circle template: points evenly spaced by angle around a circle of the
/// given radius; `invert_direction` walks the angles backward, producing
/// the counter-clockwise variant.
pub fn circle_template(point_count: usize, radius: i32, invert_direction: bool) -> (t: Template)
    requires
        0 <= radius,
    ensures
        t@.shape == Shape::Circle,
        t@.path == directed(circle_path(point_count as int, radius as int), invert_direction),
        t@.path.len() == point_count as int,
{
    let n = point_count;
    let mut path: Vec<Point> = Vec::new();
    let mut i: usize = 0;
    while i < n
        invariant
            0 <= i <= n,
            0 <= radius,
            path@.len() == i,
            forall|j: int| 0 <= j < i ==> path@[j] == circle_point(j, n as int, radius as int),
        decreases n - i,
    {
        proof {
            assert(0 <= 360_000 * (i as int) < (n as int) * 360_000) by (nonlinear_arith)
                requires
                    0 <= i as int,
                    (i as int) < (n as int),
            ;
            lemma_multiply_divide_lt(360_000 * (i as int), n as int, 360_000);
            lemma_div_pos_is_pos(360_000 * (i as int), n as int);
        }
        let angle: i64 = ((360_000u128 * (i as u128)) / (n as u128)) as i64;
        let c = cos_milli(angle);
        let s = sin_milli(angle);
        proof {
            assert(-0x8000_0000_0000 <= (radius as int) * (c as int) <= 0x8000_0000_0000
                && -0x8000_0000_0000 <= (radius as int) * (s as int) <= 0x8000_0000_0000)
                by (nonlinear_arith)
                requires
                    0 <= radius as int <= 0x7fff_ffff,
                    -10_000 <= c as int <= 10_000,
                    -10_000 <= s as int <= 10_000,
            ;
            lemma_sdiv_in_range(c as int, radius as int, 10_000);
            lemma_sdiv_in_range(s as int, radius as int, 10_000);
            assert((radius as int) * (c as int) == (c as int) * (radius as int)
                && (radius as int) * (s as int) == (s as int) * (radius as int))
                by (nonlinear_arith);
        }
        let x = sdiv(radius as i64 * c, 10_000);
        let y = sdiv(radius as i64 * s, 10_000);
        path.push(Point { x: x as i32, y: y as i32 });
        i = i + 1;
    }
    proof {
        assert(path@ =~= circle_path(n as int, radius as int));
    }
    if invert_direction {
        let rev = reversed_vec(&path);
        Template { shape: Shape::Circle, path: rev }
    } else {
        Template { shape: Shape::Circle, path }
    }
}

/// Corner `j` of the square of side `s` centred on the origin, walking
/// counter-clockwise from the bottom-left corner.
pub open spec fn square_corner(j: int, s: int) -> Point {
    let h = s / 2;
    if j == 0 {
        Point { x: (-h) as i32, y: (-h) as i32 }
    } else if j == 1 {
        Point { x: h as i32, y: (-h) as i32 }
    } else if j == 2 {
        Point { x: h as i32, y: h as i32 }
    } else {
        Point { x: (-h) as i32, y: h as i32 }
    }
}

/// The `k`-th point of the square path: the four sides are traced corner
/// to corner, each interpolated with `n / 4` points; remainder points are
/// dropped, not distributed.
pub open spec fn square_point(k: int, n: int, s: int) -> Point {
    let pps = n / 4;
    let side = k / pps;
    let off = k % pps;
    interp_point(square_corner(side, s), square_corner((side + 1) % 4, s), off, pps)
}

/// The canonical square path: `4 * (n / 4)` points.
pub open spec fn square_path(n: int, s: int) -> Seq<Point> {
    Seq::new((4 * (n / 4)) as nat, |k: int| square_point(k, n, s))
}

fn square_corner_at(j: usize, s: i32) -> (r: Point)
    requires
        j < 4,
        0 <= s,
    ensures
        r == square_corner(j as int, s as int),
{
    let h: i32 = ((s as u32) / 2) as i32;
    if j == 0 {
        Point { x: -h, y: -h }
    } else if j == 1 {
        Point { x: h, y: -h }
    } else if j == 2 {
        Point { x: h, y: h }
    } else {
        Point { x: -h, y: h }
    }
}

/// Square template: four equal-length straight segments tracing the
/// square's perimeter, the point count divided evenly across the four
/// sides (any remainder dropped).  `invert_direction` walks the perimeter
/// the opposite way round.
pub fn square_template(point_count: usize, side_length: i32, invert_direction: bool) -> (t:
    Template)
    requires
        point_count <= MAX_TEMPLATE_POINTS,
        0 <= side_length <= MAX_TEMPLATE_SIZE,
    ensures
        t@.shape == Shape::Square,
        t@.path == directed(
            square_path(point_count as int, side_length as int),
            invert_direction,
        ),
        t@.path.len() == 4 * (point_count as int / 4),
{
    let n = point_count;
    let s = side_length;
    let pps: usize = n / 4;
    proof {
        lemma_div_nonincreasing(n as int, 4);
        lemma_div_is_ordered(n as int, 1_000_000, 4);
    }
    let total: usize = 4 * pps;
    let mut path: Vec<Point> = Vec::new();
    let mut k: usize = 0;
    while k < total
        invariant
            0 <= k <= total,
            pps == n as int / 4,
            total == 4 * pps,
            pps <= 250_000,
            0 <= s <= MAX_TEMPLATE_SIZE,
            path@.len() == k,
            forall|j: int| 0 <= j < k ==> path@[j] == square_point(j, n as int, s as int),
        decreases total - k,
    {
        proof {
            assert((k as int) < (pps as int) * 4) by (nonlinear_arith)
                requires
                    (k as int) < (total as int),
                    total as int == 4 * pps as int,
            ;
            lemma_multiply_divide_lt(k as int, pps as int, 4);
            lemma_div_pos_is_pos(k as int, pps as int);
        }
        let side: usize = k / pps;
        let off: usize = k % pps;
        let p1 = square_corner_at(side, s);
        let p2 = square_corner_at((side + 1) % 4, s);
        let q = interpolate(p1, p2, off as i32, pps as i32);
        proof {
            assert(q == square_point(k as int, n as int, s as int));
        }
        path.push(q);
        k = k + 1;
    }
    proof {
        assert(path@ =~= square_path(n as int, s as int));
    }
    if invert_direction {
        let rev = reversed_vec(&path);
        Template { shape: Shape::Square, path: rev }
    } else {
        Template { shape: Shape::Square, path }
    }
}

/// Vertex `j` of the equilateral triangle of side `s` centred on the
/// origin: apex on top, base at the bottom.  The height uses the
/// fixed-point ratio `866 / 1000` for half the square root of three.
pub open spec fn triangle_vertex(j: int, s: int) -> Point {
    let h = (s * 866) / 1000;
    if j == 0 {
        Point { x: 0, y: (h / 2) as i32 }
    } else if j == 1 {
        Point { x: (-(s / 2)) as i32, y: (-(h / 2)) as i32 }
    } else {
        Point { x: (s / 2) as i32, y: (-(h / 2)) as i32 }
    }
}

/// The `k`-th point of the triangle path: three sides traced vertex to
/// vertex, each interpolated with `n / 3` points; remainder points are
/// never emitted.
pub open spec fn triangle_point(k: int, n: int, s: int) -> Point {
    let pps = n / 3;
    let side = k / pps;
    let off = k % pps;
    interp_point(triangle_vertex(side, s), triangle_vertex((side + 1) % 3, s), off, pps)
}

/// The canonical triangle path: `3 * (n / 3)` points.
pub open spec fn triangle_path(n: int, s: int) -> Seq<Point> {
    Seq::new((3 * (n / 3)) as nat, |k: int| triangle_point(k, n, s))
}

fn triangle_vertex_at(j: usize, s: i32) -> (r: Point)
    requires
        j < 3,
        0 <= s <= MAX_TEMPLATE_SIZE,
    ensures
        r == triangle_vertex(j as int, s as int),
{
    let h: i32 = (((s as u64) * 866) / 1000) as i32;
    let h2: i32 = ((h as u32) / 2) as i32;
    let s2: i32 = ((s as u32) / 2) as i32;
    if j == 0 {
        Point { x: 0, y: h2 }
    } else if j == 1 {
        Point { x: -s2, y: -h2 }
    } else {
        Point { x: s2, y: -h2 }
    }
}

/// Triangle template: three equal sides of an equilateral triangle, each
/// interpolated with `n / 3` points (integer division; remainder points
/// are never emitted).  `invert_direction` walks the perimeter the
/// opposite way round.
pub fn triangle_template(point_count: usize, side_length: i32, invert_direction: bool) -> (t:
    Template)
    requires
        point_count <= MAX_TEMPLATE_POINTS,
        0 <= side_length <= MAX_TEMPLATE_SIZE,
    ensures
        t@.shape == Shape::Triangle,
        t@.path == directed(
            triangle_path(point_count as int, side_length as int),
            invert_direction,
        ),
        t@.path.len() == 3 * (point_count as int / 3),
{
    let n = point_count;
    let s = side_length;
    let pps: usize = n / 3;
    proof {
        lemma_div_nonincreasing(n as int, 3);
        lemma_div_is_ordered(n as int, 1_000_000, 3);
    }
    let total: usize = 3 * pps;
    let mut path: Vec<Point> = Vec::new();
    let mut k: usize = 0;
    while k < total
        invariant
            0 <= k <= total,
            pps == n as int / 3,
            total == 3 * pps,
            pps <= 333_334,
            0 <= s <= MAX_TEMPLATE_SIZE,
            path@.len() == k,
            forall|j: int| 0 <= j < k ==> path@[j] == triangle_point(j, n as int, s as int),
        decreases total - k,
    {
        proof {
            assert((k as int) < (pps as int) * 3) by (nonlinear_arith)
                requires
                    (k as int) < (total as int),
                    total as int == 3 * pps as int,
            ;
            lemma_multiply_divide_lt(k as int, pps as int, 3);
            lemma_div_pos_is_pos(k as int, pps as int);
        }
        let side: usize = k / pps;
        let off: usize = k % pps;
        let p1 = triangle_vertex_at(side, s);
        let p2 = triangle_vertex_at((side + 1) % 3, s);
        let q = interpolate(p1, p2, off as i32, pps as i32);
        proof {
            assert(q == triangle_point(k as int, n as int, s as int));
        }
        path.push(q);
        k = k + 1;
    }
    proof {
        assert(path@ =~= triangle_path(n as int, s as int));
    }
    if invert_direction {
        let rev = reversed_vec(&path);
        Template { shape: Shape::Triangle, path: rev }
    } else {
        Template { shape: Shape::Triangle, path }
    }
}

/// The `i`-th point of the checkmark path: a short descending segment
/// (the first third of the points, with a steeper slope) followed by a
/// longer ascending segment, both advancing in x.
pub open spec fn confirm_point(i: int, n: int, s: int) -> Point {
    let m = i + 1;
    let boundary = n / 3 + 1;
    let desc = if m <= boundary {
        m
    } else {
        boundary
    };
    let asc = m - desc;
    Point {
        x: ((m * s) / n) as i32,
        y: sdiv_spec((2 * asc - 3 * desc) * s, 2 * n) as i32,
    }
}

/// The canonical checkmark path of `n` points.
pub open spec fn confirm_path(n: int, s: int) -> Seq<Point> {
    Seq::new(n as nat, |i: int| confirm_point(i, n, s))
}

/// Checkmark template ("tick"), used as the confirmation gesture.
pub fn confirm_template(point_count: usize, size: i32) -> (t: Template)
    requires
        point_count <= MAX_TEMPLATE_POINTS,
        0 <= size <= MAX_TEMPLATE_SIZE,
    ensures
        t@.shape == Shape::Tick,
        t@.path == confirm_path(point_count as int, size as int),
        t@.path.len() == point_count as int,
{
    let n = point_count;
    let s = size;
    let mut path: Vec<Point> = Vec::new();
    let mut i: usize = 0;
    while i < n
        invariant
            0 <= i <= n,
            n <= MAX_TEMPLATE_POINTS,
            0 <= s <= MAX_TEMPLATE_SIZE,
            path@.len() == i,
            forall|j: int| 0 <= j < i ==> path@[j] == confirm_point(j, n as int, s as int),
        decreases n - i,
    {
        let m: usize = i + 1;
        let boundary: usize = n / 3 + 1;
        let desc: usize = if m <= boundary {
            m
        } else {
            boundary
        };
        let asc: usize = m - desc;
        proof {
            lemma_div_nonincreasing(n as int, 3);
            assert(0 <= (m as int) * (s as int) <= 2_000_000_000_000) by (nonlinear_arith)
                requires
                    0 < m as int <= 1_000_001,
                    0 <= s as int <= 1_000_000,
            ;
            lemma_mul_div_le_local(m as int, s as int, n as int);
            lemma_sdiv_bounded(2 * (asc as int) - 3 * (desc as int), s as int, 2 * (n as int), 2);
            assert(-4_000_000_000_000 <= (2 * (asc as int) - 3 * (desc as int)) * (s as int)
                <= 4_000_000_000_000) by (nonlinear_arith)
                requires
                    -4_000_000 <= 2 * (asc as int) - 3 * (desc as int) <= 4_000_000,
                    0 <= s as int <= 1_000_000,
            ;
        }
        let x: i64 = (((m as u64) * (s as u64)) / (n as u64)) as i64;
        let v: i64 = 2 * (asc as i64) - 3 * (desc as i64);
        let y: i64 = sdiv(v * (s as i64), 2 * (n as i64));
        proof {
            assert(Point { x: x as i32, y: y as i32 } == confirm_point(
                i as int,
                n as int,
                s as int,
            ));
        }
        path.push(Point { x: x as i32, y: y as i32 });
        i = i + 1;
    }
    proof {
        assert(path@ =~= confirm_path(n as int, s as int));
    }
    Template { shape: Shape::Tick, path }
}

/// For positive `m <= n` and nonnegative `s`, the truncated fraction
/// `m * s / n` stays within `[0, s]`.
proof fn lemma_mul_div_le_local(m: int, s: int, n: int)
    requires
        0 < m <= n,
        0 <= s,
    ensures
        0 <= (m * s) / n <= s,
{
    vstd::arithmetic::mul::lemma_mul_nonnegative(m, s);
    lemma_div_pos_is_pos(m * s, n);
    assert(m * s <= n * s) by (nonlinear_arith)
        requires
            0 < m <= n,
            0 <= s,
    ;
    lemma_multiply_divide_le(m * s, n, s);
}

/// The `i`-th point of the cancellation path: a rising diagonal, a
/// vertical drop, then a rising diagonal back to the left, as one
/// unbroken stroke.
pub open spec fn cancel_point(i: int, n: int, s: int) -> Point {
    let m = i + 1;
    let k1 = n / 3 + 1;
    let k2 = 2 * n / 3 + 1;
    let a = if m <= k1 {
        m
    } else {
        k1
    };
    let b = if m <= k1 {
        0
    } else if m <= k2 {
        m - k1
    } else {
        k2 - k1
    };
    let c = if m <= k2 {
        0
    } else {
        m - k2
    };
    Point {
        x: sdiv_spec((a - c) * s, n) as i32,
        y: sdiv_spec((a - b + c) * s, n) as i32,
    }
}

/// The canonical cancellation path of `n` points.
pub open spec fn cancel_path(n: int, s: int) -> Seq<Point> {
    Seq::new(n as nat, |i: int| cancel_point(i, n, s))
}

/// Cross template ("X" drawn as a single continuous stroke), used as the
/// cancellation gesture.  `invert_direction` walks the stroke backward.
pub fn cancel_template(point_count: usize, size: i32, invert_direction: bool) -> (t: Template)
    requires
        point_count <= MAX_TEMPLATE_POINTS,
        0 <= size <= MAX_TEMPLATE_SIZE,
    ensures
        t@.shape == Shape::Cross,
        t@.path == directed(cancel_path(point_count as int, size as int), invert_direction),
        t@.path.len() == point_count as int,
{
    let n = point_count;
    let s = size;
    let mut path: Vec<Point> = Vec::new();
    let mut i: usize = 0;
    while i < n
        invariant
            0 <= i <= n,
            n <= MAX_TEMPLATE_POINTS,
            0 <= s <= MAX_TEMPLATE_SIZE,
            path@.len() == i,
            forall|j: int| 0 <= j < i ==> path@[j] == cancel_point(j, n as int, s as int),
        decreases n - i,
    {
        let m: usize = i + 1;
        let k1: usize = n / 3 + 1;
        let k2: usize = 2 * n / 3 + 1;
        proof {
            lemma_div_is_ordered(n as int, 2 * (n as int), 3);
            lemma_div_nonincreasing(n as int, 3);
            lemma_div_nonincreasing(2 * (n as int), 3);
        }
        let a: usize = if m <= k1 {
            m
        } else {
            k1
        };
        let b: usize = if m <= k1 {
            0
        } else if m <= k2 {
            m - k1
        } else {
            k2 - k1
        };
        let c: usize = if m <= k2 {
            0
        } else {
            m - k2
        };
        proof {
            lemma_sdiv_bounded((a as int) - (c as int), s as int, n as int, 1);
            lemma_sdiv_bounded((a as int) - (b as int) + (c as int), s as int, n as int, 2);
            assert(-4_000_000_000_000 <= ((a as int) - (c as int)) * (s as int)
                <= 4_000_000_000_000 && -4_000_000_000_000 <= ((a as int) - (b as int) + (
            c as int)) * (s as int) <= 4_000_000_000_000) by (nonlinear_arith)
                requires
                    -2_000_002 <= (a as int) - (c as int) <= 2_000_002,
                    -2_000_002 <= (a as int) - (b as int) + (c as int) <= 2_000_002,
                    0 <= s as int <= 1_000_000,
            ;
        }
        let x: i64 = sdiv(((a as i64) - (c as i64)) * (s as i64), n as i64);
        let y: i64 = sdiv(((a as i64) - (b as i64) + (c as i64)) * (s as i64), n as i64);
        proof {
            assert(Point { x: x as i32, y: y as i32 } == cancel_point(i as int, n as int, s as int));
        }
        path.push(Point { x: x as i32, y: y as i32 });
        i = i + 1;
    }
    proof {
        assert(path@ =~= cancel_path(n as int, s as int));
    }
    if invert_direction {
        let rev = reversed_vec(&path);
        Template { shape: Shape::Cross, path: rev }
    } else {
        Template { shape: Shape::Cross, path }
    }
}

/// The template set enrolled for one symbol: both direction variants for
/// the drawable shapes and for the cancellation cross, the single
/// checkmark for confirmation.
pub open spec fn templates_for_spec(shape: Shape) -> Seq<TemplateView> {
    let n = POINTS_PER_FIGURE as int;
    let s = SHAPE_SIZE as int;
    match shape {
        Shape::Circle => seq![
            TemplateView { shape: Shape::Circle, path: circle_path(n, s) },
            TemplateView { shape: Shape::Circle, path: circle_path(n, s).reverse() },
        ],
        Shape::Square => seq![
            TemplateView { shape: Shape::Square, path: square_path(n, s) },
            TemplateView { shape: Shape::Square, path: square_path(n, s).reverse() },
        ],
        Shape::Triangle => seq![
            TemplateView { shape: Shape::Triangle, path: triangle_path(n, s) },
            TemplateView { shape: Shape::Triangle, path: triangle_path(n, s).reverse() },
        ],
        Shape::Tick => seq![TemplateView { shape: Shape::Tick, path: confirm_path(n, s) }],
        Shape::Cross => seq![
            TemplateView { shape: Shape::Cross, path: cancel_path(n, s) },
            TemplateView { shape: Shape::Cross, path: cancel_path(n, s).reverse() },
        ],
    }
}

impl Shape {
    /// The canonical templates enrolled for recognizing this symbol.
    pub fn get_templates_for_shape(shape: Shape) -> (r: Vec<Template>)
        ensures
            template_views(r@) == templates_for_spec(shape),
    {
        let mut v: Vec<Template> = Vec::new();
        match shape {
            Shape::Circle => {
                v.push(circle_template(POINTS_PER_FIGURE, SHAPE_SIZE, false));
                v.push(circle_template(POINTS_PER_FIGURE, SHAPE_SIZE, true));
            }
            Shape::Square => {
                v.push(square_template(POINTS_PER_FIGURE, SHAPE_SIZE, false));
                v.push(square_template(POINTS_PER_FIGURE, SHAPE_SIZE, true));
            }
            Shape::Triangle => {
                v.push(triangle_template(POINTS_PER_FIGURE, SHAPE_SIZE, false));
                v.push(triangle_template(POINTS_PER_FIGURE, SHAPE_SIZE, true));
            }
            Shape::Tick => {
                v.push(confirm_template(POINTS_PER_FIGURE, SHAPE_SIZE));
            }
            Shape::Cross => {
                v.push(cancel_template(POINTS_PER_FIGURE, SHAPE_SIZE, false));
                v.push(cancel_template(POINTS_PER_FIGURE, SHAPE_SIZE, true));
            }
        }
        proof {
            assert(template_views(v@) =~= templates_for_spec(shape));
        }
        v
    }
}

/// Append the templates enrolled for one symbol to a template set under
/// construction.
pub fn push_templates_for(acc: &mut Vec<Template>, shape: Shape)
    ensures
        template_views(final(acc)@) == template_views(old(acc)@) + templates_for_spec(shape),
{
    let ghost before = acc@;
    match shape {
        Shape::Circle => {
            acc.push(circle_template(POINTS_PER_FIGURE, SHAPE_SIZE, false));
            acc.push(circle_template(POINTS_PER_FIGURE, SHAPE_SIZE, true));
        }
        Shape::Square => {
            acc.push(square_template(POINTS_PER_FIGURE, SHAPE_SIZE, false));
            acc.push(square_template(POINTS_PER_FIGURE, SHAPE_SIZE, true));
        }
        Shape::Triangle => {
            acc.push(triangle_template(POINTS_PER_FIGURE, SHAPE_SIZE, false));
            acc.push(triangle_template(POINTS_PER_FIGURE, SHAPE_SIZE, true));
        }
        Shape::Tick => {
            acc.push(confirm_template(POINTS_PER_FIGURE, SHAPE_SIZE));
        }
        Shape::Cross => {
            acc.push(cancel_template(POINTS_PER_FIGURE, SHAPE_SIZE, false));
            acc.push(cancel_template(POINTS_PER_FIGURE, SHAPE_SIZE, true));
        }
    }
    proof {
        assert(template_views(acc@) =~= template_views(before) + templates_for_spec(shape));
    }
}

/// The template set enrolled for a collection of symbols, in order.
pub open spec fn templates_for_shapes(shapes: Seq<Shape>) -> Seq<TemplateView>
    decreases shapes.len(),
{
    if shapes.len() == 0 {
        Seq::empty()
    } else {
        templates_for_shapes(shapes.drop_last()) + templates_for_spec(shapes.last())
    }
}

/// Assemble the template set for a trigger phase: the union of the
/// templates of every configured symbol, in configuration order.
pub fn build_template_set(shapes: &Vec<Shape>) -> (r: Vec<Template>)
    ensures
        template_views(r@) == templates_for_shapes(shapes@),
{
    let mut acc: Vec<Template> = Vec::new();
    let mut i: usize = 0;
    proof {
        assert(template_views(acc@) =~= Seq::<TemplateView>::empty());
    }
    while i < shapes.len()
        invariant
            0 <= i <= shapes@.len(),
            template_views(acc@) == templates_for_shapes(shapes@.take(i as int)),
        decreases shapes@.len() - i,
    {
        push_templates_for(&mut acc, shapes[i]);
        proof {
            assert(shapes@.take(i + 1).drop_last() =~= shapes@.take(i as int));
            assert(shapes@.take(i + 1).last() == shapes@[i as int]);
        }
        i = i + 1;
    }
    proof {
        assert(shapes@.take(shapes@.len() as int) =~= shapes@);
    }
    acc
}

/// The two traversal directions of the circle template contain the same
/// multiset of points, traversed in opposite order: the inverted variant
/// is exactly the reversal of the direct one.
pub proof fn lemma_circle_direction_reversal(point_count: int, radius: int)
    requires
        point_count >= 0,
    ensures
        directed(circle_path(point_count, radius), true) == directed(
            circle_path(point_count, radius),
            false,
        ).reverse(),
        forall|i: int|
            0 <= i < point_count ==> directed(circle_path(point_count, radius), true)[i]
                == directed(circle_path(point_count, radius), false)[point_count - 1 - i],
        directed(circle_path(point_count, radius), true).to_multiset() == directed(
            circle_path(point_count, radius),
            false,
        ).to_multiset(),
{
    let p = circle_path(point_count, radius);
    assert forall|i: int| 0 <= i < point_count implies directed(p, true)[i] == directed(p, false)[
        point_count - 1 - i
    ] by {
        assert(p.reverse()[i] == p[point_count - 1 - i]);
    }
    p.lemma_reverse_to_multiset();
}

/// Template generation is pure and deterministic: the templates enrolled
/// for a symbol are a function of the symbol alone, so two template sets
/// built for the same symbol are identical.
pub proof fn lemma_templates_for_symbol_deterministic(
    shape: Shape,
    a: Seq<TemplateView>,
    b: Seq<TemplateView>,
)
    requires
        a == templates_for_spec(shape),
        b == templates_for_spec(shape),
    ensures
        a == b,
{
}

} // verus!
