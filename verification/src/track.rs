//! Closed-loop track geometry: the centerline polyline, its derived
//! segments (midpoint, unit direction, left normal, length) and the start
//! pose used to spawn vehicles.
//!
//! Coordinates are fixed-point thousandths (`crate::SCALE`). A heading is
//! represented by the segment's unit direction vector, also in
//! thousandths; the presentation layer derives an angle from it when one
//! is needed.

use vstd::prelude::*;

use vstd::arithmetic::div_mod::{lemma_div_pos_is_pos, lemma_fundamental_div_mod, lemma_mod_bound};

use crate::num::{isqrt64, isqrt_spec, tdiv64, tdiv_spec};
use crate::{COORD_LIMIT, SCALE};

verus! {

/// The near-zero length threshold below which a candidate segment is
/// dropped. In exact integer coordinates only coincident points fall to
/// it: any two distinct points are at least one thousandth apart.
pub const SEGMENT_EPSILON: i64 = 0;

/// A 2-D point or vector, fixed-point in thousandths of a unit.
#[derive(Debug, Clone, Copy, PartialEq, Eq, Structural)]
pub struct Vec2 {
    pub x: i64,
    pub y: i64,
}

impl Vec2 {
    /// Both coordinates within the accepted range, so squared distances
    /// fit in 64 bits.
    pub open spec fn in_bounds(self) -> bool {
        &&& -COORD_LIMIT <= self.x <= COORD_LIMIT
        &&& -COORD_LIMIT <= self.y <= COORD_LIMIT
    }

    pub fn new(x: i64, y: i64) -> (v: Self)
        ensures
            v == (Vec2 { x, y }),
    {
        Vec2 { x, y }
    }
}

/// Squared Euclidean distance between two points.
pub open spec fn dist_sq(a: Vec2, b: Vec2) -> int {
    (b.x - a.x) * (b.x - a.x) + (b.y - a.y) * (b.y - a.y)
}

/// The distance between two points is zero exactly when they coincide.
pub proof fn lemma_dist_sq_zero(a: Vec2, b: Vec2)
    ensures
        dist_sq(a, b) == 0 <==> a == b,
        dist_sq(a, b) >= 0,
{
    let dx = b.x - a.x;
    let dy = b.y - a.y;
    assert(dist_sq(a, b) == dx * dx + dy * dy);
    assert(dx * dx >= 0) by (nonlinear_arith);
    assert(dy * dy >= 0) by (nonlinear_arith);
    if a == b {
        assert(dx == 0 && dy == 0);
        assert(dx * dx + dy * dy == 0) by (nonlinear_arith)
            requires
                dx == 0,
                dy == 0,
        ;
        assert(dist_sq(a, b) == 0);
    }
    if dist_sq(a, b) == 0 {
        assert(dx * dx == 0 && dy * dy == 0);
        assert(dx == 0) by (nonlinear_arith)
            requires
                dx * dx == 0,
        ;
        assert(dy == 0) by (nonlinear_arith)
            requires
                dy * dy == 0,
        ;
        assert(a == b);
    }
}

/// One edge of the closed-loop polyline with its derived geometry:
/// `mid` is the midpoint (components truncated toward zero), `dir` the
/// unit direction from `start` to `end` in thousandths, `normal` the
/// left-hand perpendicular of `dir`, and `length` the Euclidean length
/// rounded down. Built only for pairs of distinct points, so `length`
/// is always positive.
///
/// For a segment at least one unit long (`length >= SCALE`), `dir` is a
/// unit vector up to quantization: its squared magnitude lies within
/// about four thousandths of one. For shorter segments the endpoints,
/// midpoint and length stay exact, but the direction quotient has too
/// few steps to be near-unit; only coincident points count as
/// degenerate, as the near-zero threshold demands.
#[derive(Debug, Clone, Copy, PartialEq, Eq, Structural)]
pub struct TrackSegment {
    pub start: Vec2,
    pub end: Vec2,
    pub mid: Vec2,
    pub dir: Vec2,
    pub normal: Vec2,
    pub length: i64,
}

/// The segment derived from the distinct points `a` and `b`.
pub open spec fn segment_spec(a: Vec2, b: Vec2) -> TrackSegment {
    let dx = b.x - a.x;
    let dy = b.y - a.y;
    let len = isqrt_spec(dx * dx + dy * dy);
    let dirx = tdiv_spec(dx * SCALE, len);
    let diry = tdiv_spec(dy * SCALE, len);
    TrackSegment {
        start: a,
        end: b,
        mid: Vec2 { x: (a.x + tdiv_spec(dx, 2)) as i64, y: (a.y + tdiv_spec(dy, 2)) as i64 },
        dir: Vec2 { x: dirx as i64, y: diry as i64 },
        normal: Vec2 { x: (-diry) as i64, y: dirx as i64 },
        length: len as i64,
    }
}

impl TrackSegment {
    /// Builds the segment from `start` to `end`; `None` exactly when the
    /// two points coincide (a degenerate pair is filtered, not an error).
    pub fn new(start: Vec2, end: Vec2) -> (r: Option<TrackSegment>)
        requires
            start.in_bounds(),
            end.in_bounds(),
        ensures
            (r is None) <==> start == end,
            r matches Some(s) ==> s == segment_spec(start, end) && s.length > SEGMENT_EPSILON,
            r matches Some(s) ==> -SCALE <= s.dir.x <= SCALE && -SCALE <= s.dir.y <= SCALE,
            r matches Some(s) ==> s.normal.x == -s.dir.y && s.normal.y == s.dir.x,
            r matches Some(s) ==> (s.length >= SCALE ==> SCALE * SCALE - 4 * SCALE - 1 <= s.dir.x
                * s.dir.x + s.dir.y * s.dir.y <= SCALE * SCALE + 2 * SCALE),
    {
        let dx: i64 = end.x - start.x;
        let dy: i64 = end.y - start.y;
        assert(dx * dx + dy * dy <= 8_000_000_000_000_000_000 && dx * dx >= 0 && dy * dy >= 0)
            by (nonlinear_arith)
            requires
                -2_000_000_000 <= dx <= 2_000_000_000,
                -2_000_000_000 <= dy <= 2_000_000_000,
        ;
        let sq: i64 = dx * dx + dy * dy;
        proof {
            lemma_dist_sq_zero(start, end);
        }
        if sq == 0 {
            return None;
        }
        let len_u: u64 = isqrt64(sq as u64);
        proof {
            assert(len_u * len_u <= sq as u64);
            assert(len_u <= 3_000_000_000) by (nonlinear_arith)
                requires
                    (len_u as int) * (len_u as int) <= 8_000_000_000_000_000_000,
            ;
            assert(sq >= 1);
            assert((sq as u64) >= 1);
            assert(len_u >= 1) by {
                if len_u == 0 {
                    assert(((sq as u64) as int) < (len_u + 1) * (len_u + 1));
                    assert((len_u as int + 1) * (len_u as int + 1) == 1) by (nonlinear_arith)
                        requires
                            len_u == 0u64,
                    ;
                    assert(false);
                }
            }
        }
        let len: i64 = len_u as i64;
        proof {
            assert((dx as int) * (dx as int) <= dist_sq(start, end));
            assert((dy as int) * (dy as int) <= dist_sq(start, end)) by (nonlinear_arith)
                requires
                    dist_sq(start, end) == (dx as int) * (dx as int) + (dy as int) * (dy as int),
                    (dx as int) * (dx as int) >= 0,
            ;
            lemma_delta_le_len(dx as int, len as int, dist_sq(start, end));
            lemma_delta_le_len(dy as int, len as int, dist_sq(start, end));
        }
        let dirx: i64 = tdiv64(dx * SCALE, len);
        let diry: i64 = tdiv64(dy * SCALE, len);
        proof {
            lemma_tdiv_bounded(dx as int, len as int);
            lemma_tdiv_bounded(dy as int, len as int);
            if len >= SCALE {
                let dxi = dx as int;
                let dyi = dy as int;
                let leni = len as int;
                let a = if dx >= 0 { dxi } else { -dxi };
                let b = if dy >= 0 { dyi } else { -dyi };
                let p = if dirx >= 0 { dirx as int } else { -(dirx as int) };
                let q = if diry >= 0 { diry as int } else { -(diry as int) };
                assert(a * a == dxi * dxi && b * b == dyi * dyi) by (nonlinear_arith)
                    requires
                        a == (if dx >= 0 { dxi } else { -dxi }),
                        b == (if dy >= 0 { dyi } else { -dyi }),
                        dxi == dx as int,
                        dyi == dy as int,
                ;
                assert(p * p == (dirx as int) * (dirx as int) && q * q == (diry as int) * (
                diry as int)) by (nonlinear_arith)
                    requires
                        p == (if dirx >= 0 { dirx as int } else { -(dirx as int) }),
                        q == (if diry >= 0 { diry as int } else { -(diry as int) }),
                ;
                lemma_div_pos_is_pos(a * SCALE, leni);
                lemma_div_pos_is_pos(b * SCALE, leni);
                if dx >= 0 {
                    assert(dxi * SCALE >= 0) by (nonlinear_arith)
                        requires
                            dxi >= 0,
                            SCALE == 1000,
                    ;
                    assert(dirx == (a * SCALE) / leni);
                    assert(p == (a * SCALE) / leni);
                } else {
                    assert(dxi * SCALE < 0 && -(dxi * SCALE) == a * SCALE) by (nonlinear_arith)
                        requires
                            dxi < 0,
                            a == -dxi,
                            SCALE == 1000,
                    ;
                    assert(dirx == -((a * SCALE) / leni));
                    assert(p == (a * SCALE) / leni);
                }
                if dy >= 0 {
                    assert(dyi * SCALE >= 0) by (nonlinear_arith)
                        requires
                            dyi >= 0,
                            SCALE == 1000,
                    ;
                    assert(diry == (b * SCALE) / leni);
                    assert(q == (b * SCALE) / leni);
                } else {
                    assert(dyi * SCALE < 0 && -(dyi * SCALE) == b * SCALE) by (nonlinear_arith)
                        requires
                            dyi < 0,
                            b == -dyi,
                            SCALE == 1000,
                    ;
                    assert(diry == -((b * SCALE) / leni));
                    assert(q == (b * SCALE) / leni);
                }
                assert(0 <= p <= SCALE && 0 <= q <= SCALE);
                assert(leni * leni <= a * a + b * b && a * a + b * b <= leni * leni + 2 * leni)
                    by (nonlinear_arith)
                    requires
                        a * a + b * b == dist_sq(start, end),
                        leni * leni <= dist_sq(start, end),
                        dist_sq(start, end) < (leni + 1) * (leni + 1),
                ;
                lemma_dir_sq_bracket(a, b, leni, p, q);
                assert((dirx as int) * (dirx as int) + (diry as int) * (diry as int) == p * p + q
                    * q);
            }
        }
        let midx: i64 = start.x + tdiv64(dx, 2);
        let midy: i64 = start.y + tdiv64(dy, 2);
        Some(
            TrackSegment {
                start,
                end,
                mid: Vec2 { x: midx, y: midy },
                dir: Vec2 { x: dirx, y: diry },
                normal: Vec2 { x: -diry, y: dirx },
                length: len,
            },
        )
    }
}

/// If `d * d <= sq < (len + 1)^2` then `|d| <= len`.
proof fn lemma_delta_le_len(d: int, len: int, sq: int)
    requires
        len >= 0,
        d * d <= sq,
        sq < (len + 1) * (len + 1),
    ensures
        -len <= d <= len,
{
    assert(-len <= d <= len) by (nonlinear_arith)
        requires
            len >= 0,
            d * d <= sq,
            sq < (len + 1) * (len + 1),
    ;
}

/// Truncating division of `d * SCALE` by `len` stays within `[-SCALE, SCALE]`
/// when `|d| <= len`.
proof fn lemma_tdiv_bounded(d: int, len: int)
    requires
        len >= 1,
        -len <= d <= len,
    ensures
        -SCALE <= tdiv_spec(d * SCALE, len) <= SCALE,
{
    if d >= 0 {
        assert(d * SCALE >= 0) by (nonlinear_arith)
            requires
                d >= 0,
        ;
        assert((d * SCALE) / len <= SCALE) by (nonlinear_arith)
            requires
                len >= 1,
                d <= len,
                d * SCALE >= 0,
        ;
        assert((d * SCALE) / len >= 0) by (nonlinear_arith)
            requires
                len >= 1,
                d * SCALE >= 0,
        ;
    } else {
        assert((-d) * SCALE >= 0 && (-d) * SCALE == -(d * SCALE)) by (nonlinear_arith)
            requires
                d < 0,
        ;
        assert(((-d) * SCALE) / len <= SCALE) by (nonlinear_arith)
            requires
                len >= 1,
                -d <= len,
                (-d) * SCALE >= 0,
        ;
        assert(((-d) * SCALE) / len >= 0) by (nonlinear_arith)
            requires
                len >= 1,
                (-d) * SCALE >= 0,
        ;
    }
}

/// For a segment at least one unit long, the truncated direction
/// components form a vector whose squared magnitude stays within a few
/// thousandths of one squared unit.
proof fn lemma_dir_sq_bracket(a: int, b: int, len: int, p: int, q: int)
    requires
        len >= SCALE,
        a >= 0,
        b >= 0,
        len * len <= a * a + b * b,
        a * a + b * b <= len * len + 2 * len,
        p == (a * SCALE) / len,
        q == (b * SCALE) / len,
        0 <= p <= SCALE,
        0 <= q <= SCALE,
    ensures
        SCALE * SCALE - 4 * SCALE - 1 <= p * p + q * q,
        p * p + q * q <= SCALE * SCALE + 2 * SCALE,
{
    lemma_fundamental_div_mod(a * SCALE, len);
    lemma_mod_bound(a * SCALE, len);
    lemma_fundamental_div_mod(b * SCALE, len);
    lemma_mod_bound(b * SCALE, len);
    assert(p * len <= a * SCALE && a * SCALE < (p + 1) * len) by (nonlinear_arith)
        requires
            a * SCALE == len * p + (a * SCALE) % len,
            0 <= (a * SCALE) % len,
            (a * SCALE) % len < len,
    ;
    assert(q * len <= b * SCALE && b * SCALE < (q + 1) * len) by (nonlinear_arith)
        requires
            b * SCALE == len * q + (b * SCALE) % len,
            0 <= (b * SCALE) % len,
            (b * SCALE) % len < len,
    ;
    // upper bound: squares of p*len <= a*SCALE, summed
    assert(p * p * (len * len) <= a * a * (SCALE * SCALE)) by (nonlinear_arith)
        requires
            0 <= p,
            0 <= len,
            0 <= a,
            p * len <= a * SCALE,
            SCALE == 1000,
    ;
    assert(q * q * (len * len) <= b * b * (SCALE * SCALE)) by (nonlinear_arith)
        requires
            0 <= q,
            0 <= len,
            0 <= b,
            q * len <= b * SCALE,
            SCALE == 1000,
    ;
    assert((p * p + q * q) * (len * len) <= (len * len + 2 * len) * (SCALE * SCALE))
        by (nonlinear_arith)
        requires
            p * p * (len * len) <= a * a * (SCALE * SCALE),
            q * q * (len * len) <= b * b * (SCALE * SCALE),
            a * a + b * b <= len * len + 2 * len,
            SCALE == 1000,
    ;
    assert(p * p + q * q <= SCALE * SCALE + 2 * SCALE) by (nonlinear_arith)
        requires
            (p * p + q * q) * (len * len) <= (len * len + 2 * len) * (SCALE * SCALE),
            len >= SCALE,
            SCALE == 1000,
    ;
    // lower bound: squares of a*SCALE < (p+1)*len, summed
    assert(a * a * (SCALE * SCALE) < ((p + 1) * (p + 1)) * (len * len)) by (nonlinear_arith)
        requires
            0 <= a * SCALE,
            a * SCALE < (p + 1) * len,
            a * SCALE == a * SCALE,
            SCALE == 1000,
            0 <= a,
            0 <= p,
            0 <= len,
    ;
    assert(b * b * (SCALE * SCALE) < ((q + 1) * (q + 1)) * (len * len)) by (nonlinear_arith)
        requires
            0 <= b * SCALE,
            b * SCALE < (q + 1) * len,
            SCALE == 1000,
            0 <= b,
            0 <= q,
            0 <= len,
    ;
    assert((len * len) * (SCALE * SCALE) < ((p + 1) * (p + 1) + (q + 1) * (q + 1)) * (len * len))
        by (nonlinear_arith)
        requires
            a * a * (SCALE * SCALE) < ((p + 1) * (p + 1)) * (len * len),
            b * b * (SCALE * SCALE) < ((q + 1) * (q + 1)) * (len * len),
            len * len <= a * a + b * b,
            SCALE == 1000,
    ;
    assert(SCALE * SCALE < (p + 1) * (p + 1) + (q + 1) * (q + 1)) by (nonlinear_arith)
        requires
            (len * len) * (SCALE * SCALE) < ((p + 1) * (p + 1) + (q + 1) * (q + 1)) * (len * len),
            len >= 1,
            SCALE == 1000,
    ;
    assert(SCALE * SCALE - 4 * SCALE - 1 <= p * p + q * q) by (nonlinear_arith)
        requires
            SCALE * SCALE < (p + 1) * (p + 1) + (q + 1) * (q + 1),
            0 <= p <= SCALE,
            0 <= q <= SCALE,
            SCALE == 1000,
    ;
}

/// Position and facing of the spawn point: the start of the first
/// non-degenerate segment. `direction` is that segment's unit direction
/// vector in thousandths.
#[derive(Debug, Clone, Copy, PartialEq, Eq, Structural)]
pub struct StartPose {
    pub position: Vec2,
    pub direction: Vec2,
}

/// The segments of the closed polyline `ps` taken in order, pairing each
/// point with its successor (wrapping around at the end) and skipping
/// coincident pairs. Fewer than two points yield no segments.
pub open spec fn segments_spec(ps: Seq<Vec2>) -> Seq<TrackSegment> {
    if ps.len() < 2 {
        Seq::empty()
    } else {
        segments_upto(ps, ps.len() as int)
    }
}

/// The segments contributed by the pairs starting at indices `0 .. k`.
pub open spec fn segments_upto(ps: Seq<Vec2>, k: int) -> Seq<TrackSegment>
    decreases k,
{
    if k <= 0 || ps.len() < 2 {
        Seq::empty()
    } else {
        let prev = segments_upto(ps, k - 1);
        let a = ps[k - 1];
        let b = ps[k % ps.len() as int];
        if a == b {
            prev
        } else {
            prev.push(segment_spec(a, b))
        }
    }
}

/// The closed-loop track: the raw centerline plus road width and wall
/// thickness (both strictly positive). The segments are derived on
/// demand, never stored.
#[derive(Debug, Clone)]
pub struct Track {
    pub centerline: Vec<Vec2>,
    pub width: i64,
    pub wall_thickness: i64,
}

impl Track {
    /// The centerline points, as a mathematical sequence.
    pub open spec fn centerline_spec(&self) -> Seq<Vec2> {
        self.centerline@
    }

    /// Positive widths and every point within coordinate bounds.
    pub open spec fn wf(&self) -> bool {
        &&& self.width > 0
        &&& self.wall_thickness > 0
        &&& forall|i: int|
            0 <= i < self.centerline_spec().len() ==> (#[trigger] self.centerline_spec()[i]).in_bounds()
    }

    /// Builds a track over `points`; the loop closes from the last point
    /// back to the first. Both width parameters must be positive.
    pub fn new(points: Vec<Vec2>, width: i64, wall_thickness: i64) -> (t: Track)
        requires
            width > 0,
            wall_thickness > 0,
            forall|i: int| 0 <= i < points@.len() ==> (#[trigger] points@[i]).in_bounds(),
        ensures
            t.centerline_spec() == points@,
            t.width == width,
            t.wall_thickness == wall_thickness,
            t.wf(),
    {
        Track { centerline: points, width, wall_thickness }
    }

    /// Whether the track has no centerline points at all.
    pub fn is_empty(&self) -> (r: bool)
        ensures
            r == (self.centerline_spec().len() == 0),
    {
        self.centerline.len() == 0
    }

    /// Read-only access to the centerline points.
    pub fn points(&self) -> (r: &Vec<Vec2>)
        ensures
            r@ == self.centerline_spec(),
    {
        &self.centerline
    }

    /// The non-degenerate segments of the loop, in order. Every returned
    /// segment has positive length: coincident neighbouring points are
    /// skipped, not surfaced as errors. Endpoints are centerline points,
    /// so they stay in bounds, and every direction component is within
    /// `[-SCALE, SCALE]`.
    pub fn segments(&self) -> (v: Vec<TrackSegment>)
        requires
            self.wf(),
        ensures
            v@ == segments_spec(self.centerline_spec()),
            forall|i: int| 0 <= i < v@.len() ==> (#[trigger] v@[i]).length > SEGMENT_EPSILON,
            forall|i: int|
                0 <= i < v@.len() ==> (#[trigger] v@[i]).start.in_bounds() && v@[i].end.in_bounds()
                    && -SCALE <= v@[i].dir.x <= SCALE && -SCALE <= v@[i].dir.y <= SCALE,
    {
        let n: usize = self.centerline.len();
        let mut v: Vec<TrackSegment> = Vec::new();
        if n < 2 {
            return v;
        }
        let mut i: usize = 0;
        while i < n
            invariant
                2 <= n == self.centerline_spec().len(),
                i <= n,
                self.wf(),
                v@ == segments_upto(self.centerline_spec(), i as int),
                forall|j: int| 0 <= j < v@.len() ==> (#[trigger] v@[j]).length >= 1,
                forall|j: int|
                    0 <= j < v@.len() ==> (#[trigger] v@[j]).start.in_bounds()
                        && v@[j].end.in_bounds() && -SCALE <= v@[j].dir.x <= SCALE && -SCALE
                        <= v@[j].dir.y <= SCALE,
            decreases n - i,
        {
            let a = self.centerline[i];
            let b = self.centerline[(i + 1) % n];
            if let Some(seg) = TrackSegment::new(a, b) {
                v.push(seg);
            }
            i = i + 1;
        }
        v
    }

    /// The spawn pose: position and direction of the first segment's
    /// start, absent exactly when the track yields no segments. The
    /// position is a centerline point, in bounds, and the direction's
    /// components are within `[-SCALE, SCALE]`, so the pose can be fed
    /// straight to the spawn-grid layout.
    pub fn start_pose(&self) -> (r: Option<StartPose>)
        requires
            self.wf(),
        ensures
            (r is None) <==> segments_spec(self.centerline_spec()).len() == 0,
            r matches Some(p) ==> {
                &&& p.position == segments_spec(self.centerline_spec())[0].start
                &&& p.direction == segments_spec(self.centerline_spec())[0].dir
                &&& p.position.in_bounds()
                &&& -SCALE <= p.direction.x <= SCALE
                &&& -SCALE <= p.direction.y <= SCALE
            },
    {
        let segs = self.segments();
        if segs.len() == 0 {
            None
        } else {
            Some(StartPose { position: segs[0].start, direction: segs[0].dir })
        }
    }
}

impl Default for Track {
    /// The built-in development track.
    fn default() -> (t: Track)
        ensures
            t.centerline_spec() == placeholder_points(),
            t.width == 120_000,
            t.wall_thickness == 16_000,
            t.wf(),
    {
        placeholder_track()
    }
}

/// The five corner points of the built-in development track.
pub open spec fn placeholder_points() -> Seq<Vec2> {
    seq![
        Vec2 { x: -320_000i64, y: -180_000i64 },
        Vec2 { x: 280_000i64, y: -200_000i64 },
        Vec2 { x: 340_000i64, y: 160_000i64 },
        Vec2 { x: -260_000i64, y: 220_000i64 },
        Vec2 { x: -360_000i64, y: 40_000i64 },
    ]
}

/// An irregular five-cornered loop used for development and tests.
pub fn placeholder_track() -> (t: Track)
    ensures
        t.centerline_spec() == placeholder_points(),
        t.width == 120_000,
        t.wall_thickness == 16_000,
        t.wf(),
{
    let mut points: Vec<Vec2> = Vec::new();
    points.push(Vec2 { x: -320_000, y: -180_000 });
    points.push(Vec2 { x: 280_000, y: -200_000 });
    points.push(Vec2 { x: 340_000, y: 160_000 });
    points.push(Vec2 { x: -260_000, y: 220_000 });
    points.push(Vec2 { x: -360_000, y: 40_000 });
    proof {
        assert(points@ =~= placeholder_points());
    }
    Track::new(points, 120_000, 16_000)
}

/// Over in-bounds points, building the segments of all `n` pairs one
/// index at a time keeps every length positive; stated by induction for
/// `segments_upto`.
pub proof fn lemma_segments_upto_len(ps: Seq<Vec2>, k: int)
    requires
        ps.len() >= 2,
        0 <= k <= ps.len(),
    ensures
        segments_upto(ps, k).len() <= k,
        (forall|i: int| 0 <= i < k ==> #[trigger] ps[i] != ps[(i + 1) % ps.len() as int])
            ==> segments_upto(ps, k).len() == k,
    decreases k,
{
    if k > 0 {
        lemma_segments_upto_len(ps, k - 1);
    }
}

/// A track whose `n >= 2` centerline points have no coincident
/// neighbours (including the wrap-around pair) yields exactly `n`
/// segments.
pub proof fn lemma_segments_all_distinct(ps: Seq<Vec2>)
    requires
        ps.len() >= 2,
        forall|i: int| 0 <= i < ps.len() ==> #[trigger] ps[i] != ps[(i + 1) % ps.len() as int],
    ensures
        segments_spec(ps).len() == ps.len(),
{
    lemma_segments_upto_len(ps, ps.len() as int);
}

} // verus!
