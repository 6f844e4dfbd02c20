//! Path matcher: scores a captured stroke against a template set and
//! returns the best match, together with the movement gate that keeps a
//! stationary pointer from ever reaching the matcher.
//!
//! Both the candidate stroke and each template are normalized (recentred
//! on their centroid and rescaled to a common range), which makes the
//! comparison invariant under translation and uniform scaling of the live
//! input.  The similarity is `SIM_SCALE - SIM_SCALE * d / MISS_SQ_DIST`,
//! clipped to `[0, SIM_SCALE]`, where `d` is the mean squared distance
//! between index-aligned normalized points: identical paths score exactly
//! `SIM_SCALE`, and paths whose mean squared distance reaches
//! `MISS_SQ_DIST` score zero.

use vstd::prelude::*;
use vstd::arithmetic::div_mod::{lemma_div_multiples_vanish, lemma_multiply_divide_lt};
use crate::geometry::{extent, normalize, normalize_spec, point_within, stroke_extent, Point};
use crate::shape::Shape;
use crate::template::{template_views, Template, TemplateView};

verus! {

/// Coordinate range that normalization maps strokes onto before they are
/// compared.
pub const NORM_RANGE: i32 = 1000;

/// Similarity scores are fixed point: `SIM_SCALE` is a perfect match.
pub const SIM_SCALE: u32 = 1000;

/// A match is accepted only when its similarity strictly exceeds this.
pub const GUESS_THRESHOLD: u32 = 900;

/// Mean squared normalized distance at which similarity bottoms out at
/// zero.
pub const MISS_SQ_DIST: u32 = 160_000;

/// Per-axis pointer travel, in pixels, under which the pointer counts as
/// stationary.
pub const MOVEMENT_THRESHOLD: i64 = 600;

/// Squared euclidean distance between two points.
pub open spec fn sq_dist(a: Point, b: Point) -> int {
    (a.x as int - b.x as int) * (a.x as int - b.x as int) + (a.y as int - b.y as int) * (a.y as int
        - b.y as int)
}

/// The template index that candidate index `i` is compared against, when
/// a candidate of `clen` points meets a template of `tlen` points.
pub open spec fn aligned_index(i: int, clen: int, tlen: int) -> int {
    (i * tlen) / clen
}

/// Sum over the first `k` candidate indices of the squared distance to
/// the aligned template point.
pub open spec fn sum_sq(c: Seq<Point>, t: Seq<Point>, k: int) -> int
    decreases k,
{
    if k <= 0 {
        0
    } else {
        sum_sq(c, t, k - 1) + sq_dist(c[k - 1], t[aligned_index(k - 1, c.len() as int, t.len() as int)])
    }
}

/// Similarity of a candidate stroke and a template path, in
/// `[0, SIM_SCALE]`.  A degenerate input — an empty path on either side,
/// or one whose bounding box has no extent — scores zero rather than
/// failing.
pub open spec fn score_spec(c: Seq<Point>, t: Seq<Point>) -> int {
    if c.len() == 0 || t.len() == 0 || extent(c) <= 0 || extent(t) <= 0 {
        0
    } else {
        let nc = normalize_spec(c, NORM_RANGE as int);
        let nt = normalize_spec(t, NORM_RANGE as int);
        let m = sum_sq(nc, nt, c.len() as int);
        let raw = SIM_SCALE as int - ((SIM_SCALE as int) * m) / ((c.len() as int) * (
        MISS_SQ_DIST as int));
        if raw < 0 {
            0
        } else {
            raw
        }
    }
}

/// Similarity of a candidate stroke and one template.
pub open spec fn score_of(c: Seq<Point>, tv: TemplateView) -> int {
    score_spec(c, tv.path)
}

/// Index of the best-scoring template among the first `k`, ties resolved
/// toward the earliest index: a strictly higher score is needed to
/// displace an earlier template.
pub open spec fn best_index(c: Seq<Point>, ts: Seq<TemplateView>, k: int) -> int
    decreases k,
{
    if k <= 1 {
        0
    } else {
        let b = best_index(c, ts, k - 1);
        if score_of(c, ts[k - 1]) > score_of(c, ts[b]) {
            k - 1
        } else {
            b
        }
    }
}

/// The classification of a captured stroke against a template set: the
/// tag of the best-scoring template if its similarity strictly exceeds
/// the threshold, `None` otherwise (including every degenerate input).
pub open spec fn detect_spec(c: Seq<Point>, ts: Seq<TemplateView>, threshold: int) -> Option<
    Shape,
> {
    if c.len() == 0 || ts.len() == 0 {
        None
    } else {
        let b = best_index(c, ts, ts.len() as int);
        if score_of(c, ts[b]) > threshold {
            Some(ts[b].shape)
        } else {
            None
        }
    }
}

/// Similarity of a candidate stroke and one template path.
pub fn score_stroke(points: &Vec<Point>, tpath: &Vec<Point>) -> (r: u32)
    ensures
        r as int == score_spec(points@, tpath@),
        r <= SIM_SCALE,
{
    let clen = points.len();
    let tlen = tpath.len();
    if clen == 0 || tlen == 0 {
        return 0;
    }
    let ec = stroke_extent(points);
    let et = stroke_extent(tpath);
    if ec <= 0 || et <= 0 {
        return 0;
    }
    let nc = normalize(points, NORM_RANGE);
    let nt = normalize(tpath, NORM_RANGE);
    let ghost ncs = nc@;
    let ghost nts = nt@;

    let mut sum: i128 = 0;
    let mut i: usize = 0;
    while i < clen
        invariant
            0 <= i <= clen,
            clen == points@.len(),
            tlen == tpath@.len(),
            clen >= 1,
            tlen >= 1,
            nc@ == ncs,
            nt@ == nts,
            ncs.len() == clen,
            nts.len() == tlen,
            forall|z: int| 0 <= z < ncs.len() ==> point_within(#[trigger] ncs[z], 1000),
            forall|z: int| 0 <= z < nts.len() ==> point_within(#[trigger] nts[z], 1000),
            sum == sum_sq(ncs, nts, i as int),
            0 <= sum <= (i as int) * 8_000_000,
        decreases clen - i,
    {
        proof {
            assert((i as int) * (tlen as int) < (clen as int) * (tlen as int)) by (nonlinear_arith)
                requires
                    0 <= i as int,
                    (i as int) < (clen as int),
                    1 <= tlen as int,
            ;
            assert(0 <= (i as int) * (tlen as int)) by (nonlinear_arith)
                requires
                    0 <= i as int,
                    0 <= tlen as int,
            ;
            lemma_multiply_divide_lt((i as int) * (tlen as int), clen as int, tlen as int);
            vstd::arithmetic::div_mod::lemma_div_pos_is_pos((i as int) * (tlen as int), clen as int);
            assert((i as int) * (tlen as int)
                < 0x1_0000_0000_0000_0000_0000_0000_0000_0000) by (nonlinear_arith)
                requires
                    0 <= i as int <= 0xffff_ffff_ffff_ffff,
                    0 <= tlen as int <= 0xffff_ffff_ffff_ffff,
            ;
        }
        let j: usize = (((i as u128) * (tlen as u128)) / (clen as u128)) as usize;
        let dx: i64 = nc[i].x as i64 - nt[j].x as i64;
        let dy: i64 = nc[i].y as i64 - nt[j].y as i64;
        proof {
            assert(0 <= (dx as int) * (dx as int) <= 4_000_000 && 0 <= (dy as int) * (dy as int)
                <= 4_000_000) by (nonlinear_arith)
                requires
                    -2000 <= dx as int <= 2000,
                    -2000 <= dy as int <= 2000,
            ;
            assert((i + 1) as int * 8_000_000 == (i as int) * 8_000_000 + 8_000_000);
        }
        let d2: i64 = dx * dx + dy * dy;
        sum = sum + d2 as i128;
        i = i + 1;
    }

    proof {
        assert(MISS_SQ_DIST as int == 160_000 && SIM_SCALE as int == 1000);
        assert(0 <= (clen as int) * 160_000 < 0x1_0000_0000_0000_0000_0000_0000_0000)
            by (nonlinear_arith)
            requires
                1 <= clen as int <= 0xffff_ffff_ffff_ffff,
        ;
        assert(0 <= 1000 * sum <= 0x1_0000_0000_0000_0000_0000_0000_0000) by (nonlinear_arith)
            requires
                0 <= sum,
                sum <= (clen as int) * 8_000_000,
                1 <= clen as int <= 0xffff_ffff_ffff_ffff,
        ;
    }
    let numer: u128 = (SIM_SCALE as u128) * (sum as u128);
    let denom: u128 = (clen as u128) * (MISS_SQ_DIST as u128);
    let q: u128 = numer / denom;
    if q >= SIM_SCALE as u128 {
        0
    } else {
        SIM_SCALE - (q as u32)
    }
}

/// Classify the captured stroke against the template set: the symbol of
/// the best-scoring template, if its similarity strictly exceeds the
/// threshold; `None` when the stroke is degenerate, the template set is
/// empty, or no template scores above the threshold.  On exact ties the
/// first template in set order wins.
pub fn detect_shape(points: &Vec<Point>, templates: &Vec<Template>, threshold: u32) -> (r: Option<
    Shape,
>)
    ensures
        r == detect_spec(points@, template_views(templates@), threshold as int),
{
    let ghost tvs = template_views(templates@);
    if points.len() == 0 || templates.len() == 0 {
        return None;
    }
    let mut best_i: usize = 0;
    let mut best_s: u32 = score_stroke(points, &templates[0].path);
    let mut k: usize = 1;
    while k < templates.len()
        invariant
            1 <= k <= templates@.len(),
            tvs == template_views(templates@),
            tvs.len() == templates@.len(),
            (best_i as int) == best_index(points@, tvs, k as int),
            0 <= best_i < k,
            best_s as int == score_of(points@, tvs[best_i as int]),
        decreases templates@.len() - k,
    {
        let sc = score_stroke(points, &templates[k].path);
        proof {
            assert(tvs[k as int].path == templates@[k as int].path@);
        }
        if sc > best_s {
            best_i = k;
            best_s = sc;
        }
        k = k + 1;
    }
    if best_s > threshold {
        Some(templates[best_i].shape)
    } else {
        None
    }
}

/// A stroke counts as stationary when every point stays within the
/// movement threshold of its first point, on both axes.
pub open spec fn all_near_spec(s: Seq<Point>) -> bool {
    forall|i: int|
        0 <= i < s.len() ==> -(MOVEMENT_THRESHOLD as int) <= (#[trigger] s[i]).x as int
            - s[0].x as int <= MOVEMENT_THRESHOLD as int && -(MOVEMENT_THRESHOLD as int)
            <= s[i].y as int - s[0].y as int <= MOVEMENT_THRESHOLD as int
}

/// Check whether the pointer stayed within the movement threshold of the
/// window's first point; a `true` result means the pointer is effectively
/// stationary and classification should be skipped.
pub fn all_points_near(points: &Vec<Point>) -> (r: bool)
    requires
        points@.len() > 0,
    ensures
        r == all_near_spec(points@),
{
    let x0 = points[0].x;
    let y0 = points[0].y;
    let mut i: usize = 0;
    while i < points.len()
        invariant
            0 <= i <= points@.len(),
            points@.len() > 0,
            x0 == points@[0].x,
            y0 == points@[0].y,
            forall|j: int|
                0 <= j < i ==> -(MOVEMENT_THRESHOLD as int) <= (#[trigger] points@[j]).x as int
                    - points@[0].x as int <= MOVEMENT_THRESHOLD as int && -(
                MOVEMENT_THRESHOLD as int) <= points@[j].y as int - points@[0].y as int
                    <= MOVEMENT_THRESHOLD as int,
        decreases points@.len() - i,
    {
        let dx: i64 = points[i].x as i64 - x0 as i64;
        let dy: i64 = points[i].y as i64 - y0 as i64;
        if dx > MOVEMENT_THRESHOLD || dx < -MOVEMENT_THRESHOLD || dy > MOVEMENT_THRESHOLD || dy
            < -MOVEMENT_THRESHOLD {
            return false;
        }
        i = i + 1;
    }
    true
}

/// Fed its own path, the matcher reports a perfect score: a stroke that
/// retraces a template exactly scores `SIM_SCALE`, which strictly exceeds
/// the acceptance threshold.
pub proof fn lemma_self_match(p: Seq<Point>)
    requires
        p.len() > 0,
        extent(p) > 0,
    ensures
        score_spec(p, p) == SIM_SCALE as int,
        score_spec(p, p) > GUESS_THRESHOLD as int,
{
    let np = normalize_spec(p, NORM_RANGE as int);
    lemma_sum_sq_self(np, p.len() as int);
    assert(sum_sq(np, np, p.len() as int) == 0);
    assert((SIM_SCALE as int) * 0 == 0) by (nonlinear_arith);
    assert((0int) / ((p.len() as int) * (MISS_SQ_DIST as int)) == 0) by {
        assert((p.len() as int) * (MISS_SQ_DIST as int) >= 1) by (nonlinear_arith)
            requires
                p.len() as int >= 1,
        ;
        vstd::arithmetic::div_mod::lemma_div_of0((p.len() as int) * (MISS_SQ_DIST as int));
    }
}

/// Aligned squared distances are sums of squares, hence nonnegative.
proof fn lemma_sum_sq_nonneg(c: Seq<Point>, t: Seq<Point>, k: int)
    ensures
        0 <= sum_sq(c, t, k),
    decreases k,
{
    if k > 0 {
        lemma_sum_sq_nonneg(c, t, k - 1);
        let a = c[k - 1];
        let b = t[aligned_index(k - 1, c.len() as int, t.len() as int)];
        assert(sq_dist(a, b) >= 0) by (nonlinear_arith);
    }
}

/// Every similarity lies in `[0, SIM_SCALE]`: no stroke can outscore a
/// perfect match.
pub proof fn lemma_score_bounded(c: Seq<Point>, t: Seq<Point>)
    ensures
        0 <= score_spec(c, t) <= SIM_SCALE as int,
{
    if c.len() == 0 || t.len() == 0 || extent(c) <= 0 || extent(t) <= 0 {
    } else {
        let nc = normalize_spec(c, NORM_RANGE as int);
        let nt = normalize_spec(t, NORM_RANGE as int);
        let m = sum_sq(nc, nt, c.len() as int);
        let denom = (c.len() as int) * (MISS_SQ_DIST as int);
        lemma_sum_sq_nonneg(nc, nt, c.len() as int);
        assert(denom >= 160_000) by (nonlinear_arith)
            requires
                denom == (c.len() as int) * 160_000,
                c.len() as int >= 1,
        ;
        vstd::arithmetic::mul::lemma_mul_nonnegative(SIM_SCALE as int, m);
        vstd::arithmetic::div_mod::lemma_div_pos_is_pos((SIM_SCALE as int) * m, denom);
    }
}

/// With no strictly better template later in the set, the first template
/// keeps the best-match slot: ties never displace an earlier template.
proof fn lemma_best_index_stays_first(c: Seq<Point>, ts: Seq<TemplateView>, k: int)
    requires
        1 <= k,
        forall|j: int| 0 <= j < k ==> score_of(c, #[trigger] ts[j]) <= score_of(c, ts[0]),
    ensures
        best_index(c, ts, k) == 0,
    decreases k,
{
    if k > 1 {
        lemma_best_index_stays_first(c, ts, k - 1);
    }
}

/// A stroke that retraces an enrolled template exactly is detected as
/// that template's symbol whenever the template stands first in the set:
/// its similarity is perfect, no other template can strictly beat it, and
/// on ties the first template in set order wins.
pub proof fn lemma_detect_own_template(c: Seq<Point>, ts: Seq<TemplateView>)
    requires
        ts.len() > 0,
        ts[0].path == c,
        c.len() > 0,
        extent(c) > 0,
    ensures
        detect_spec(c, ts, GUESS_THRESHOLD as int) == Some(ts[0].shape),
{
    lemma_self_match(c);
    assert forall|j: int| 0 <= j < ts.len() implies score_of(c, #[trigger] ts[j]) <= score_of(
        c,
        ts[0],
    ) by {
        lemma_score_bounded(c, ts[j].path);
    }
    lemma_best_index_stays_first(c, ts, ts.len() as int);
}

/// The aligned squared distance of a path to itself is zero.
proof fn lemma_sum_sq_self(np: Seq<Point>, k: int)
    requires
        0 <= k <= np.len(),
    ensures
        sum_sq(np, np, k) == 0,
    decreases k,
{
    if k > 0 {
        lemma_sum_sq_self(np, k - 1);
        lemma_div_multiples_vanish(k - 1, np.len() as int);
        assert((k - 1) * (np.len() as int) == (np.len() as int) * (k - 1)) by (nonlinear_arith);
        assert(aligned_index(k - 1, np.len() as int, np.len() as int) == k - 1);
        assert(sq_dist(np[k - 1], np[k - 1]) == 0) by (nonlinear_arith);
    }
}

} // verus!
