//! The rasterizer: projecting samples to pixels and accumulating per-pixel
//! visitation counts.
//!
//! Each sample is projected through the map's linear transform and rounded
//! to a pixel.  Samples within one pixel of any canvas edge are discarded,
//! which keeps line drawing safely in bounds.  Consecutive samples of one
//! track are joined by a line of single increments along the major axis,
//! but only when both carry timestamps at most `GAP_SECONDS` apart: a
//! recording dropout draws no connecting line.  A repeated pixel is counted
//! once per sample and never redrawn as a line, so a stationary stretch
//! cannot over-weight its pixel through repeated line draws.

use vstd::arithmetic::div_mod::*;
use vstd::arithmetic::mul::*;
use vstd::prelude::*;

use crate::model::MapInfo;
use crate::model::Point;
use crate::model::TrkPt;
use crate::num::round_div_i128;
use crate::num::spec_round_div;

verus! {

/// Consecutive samples farther apart than this many seconds are not joined.
pub const GAP_SECONDS: i64 = 5;

/// Nanodegrees times micro-pixels-per-degree make this many pixels.
pub const PX_DENOM: i128 = 1_000_000_000_000_000;

/// The widest canvas axis the renderer accepts, a machine limit that keeps
/// pixel arithmetic inside `i64`.
pub const MAX_CANVAS: usize = 0x7fff_ffff;

/// The pixel ordinate a fixed-point value projects to on one axis.
pub open spec fn spec_px(v: i64, minv: i64, scale: i64) -> int {
    spec_round_div((v - minv) * (scale as int), PX_DENOM as int)
}

/// Where a position lands on a `w` by `h` canvas, or `None` when it falls
/// on or beyond the one-pixel safety border.
pub open spec fn spec_pixel_of(p: Point, info: MapInfo, w: int, h: int) -> Option<(int, int)> {
    let x = spec_px(p.lng, info.min.lng, info.scale.lng);
    let y = spec_px(p.lat, info.min.lat, info.scale.lat);
    if 1 <= x && x <= w - 2 && 1 <= y && y <= h - 2 {
        Some((x, y))
    } else {
        None
    }
}

/// One axis of the projection, exactly `spec_px`.
fn px_of(v: i64, minv: i64, scale: i64) -> (r: i128)
    ensures
        r as int == spec_px(v, minv, scale),
{
    let d = (v as i128) - (minv as i128);
    let s = scale as i128;
    proof {
        assert(d * s <= 0x7fff_ffff_ffff_ffff_8000_0000_0000_0000
            && -0x7fff_ffff_ffff_ffff_8000_0000_0000_0000 <= d * s) by (nonlinear_arith)
            requires
                -0x1_0000_0000_0000_0000 < d < 0x1_0000_0000_0000_0000,
                -0x8000_0000_0000_0000 <= s < 0x8000_0000_0000_0000,
        ;
    }
    let n = d * s;
    round_div_i128(n, PX_DENOM)
}

/// Projects a sample to a canvas pixel, exactly `spec_pixel_of`.
pub fn pixel_of(p: Point, info: &MapInfo, width: usize, height: usize) -> (r: Option<
    (usize, usize),
>)
    ensures
        match r {
            Some(xy) => spec_pixel_of(p, *info, width as int, height as int) == Some(
                (xy.0 as int, xy.1 as int),
            ),
            None => spec_pixel_of(p, *info, width as int, height as int) is None,
        },
{
    let x = px_of(p.lng, info.min.lng, info.scale.lng);
    let y = px_of(p.lat, info.min.lat, info.scale.lat);
    if 1 <= x && x <= (width as i128) - 2 && 1 <= y && y <= (height as i128) - 2 {
        Some((x as usize, y as usize))
    } else {
        None
    }
}

/// Adds one, stopping at the counter's ceiling.
pub open spec fn sat_inc(c: u64) -> u64 {
    if c == u64::MAX {
        c
    } else {
        (c + 1) as u64
    }
}

/// The field with pixel `(x, y)` visited once more.
pub open spec fn spec_bump(f: Seq<u64>, w: int, x: int, y: int) -> Seq<u64> {
    f.update(y * w + x, sat_inc(f[y * w + x]))
}

/// The flat index of pixel `(x, y)` in a row-major field of width `w`.
pub open spec fn pix_idx(w: int, x: int, y: int) -> int {
    y * w + x
}

/// A pixel strictly inside a `w` by `h` canvas indexes the flat field.
pub proof fn lemma_idx_bound(x: int, y: int, w: int, h: int)
    requires
        0 <= x < w,
        0 <= y < h,
    ensures
        0 <= y * w + x < w * h,
{
    assert(y * w + x < w * h) by (nonlinear_arith)
        requires
            0 <= x < w,
            0 <= y < h,
    ;
    assert(0 <= y * w) by (nonlinear_arith)
        requires
            0 <= y,
            0 <= w,
    ;
}

/// Visits pixel `(x, y)` once more, exactly `spec_bump`.
fn bump(counts: &mut Vec<u64>, w: usize, x: usize, y: usize)
    requires
        x < w,
        (y as int) * (w as int) + (x as int) < old(counts)@.len(),
    ensures
        final(counts)@ == spec_bump(old(counts)@, w as int, x as int, y as int),
{
    let l = counts.len();
    let idx = y * w + x;
    let c = counts[idx];
    let nc = if c == u64::MAX {
        c
    } else {
        c + 1
    };
    counts[idx] = nc;
}

/// The value the segment from `(a1, b1)` to `(a2, b2)` takes at major-axis
/// position `t`, rounded to the nearest pixel.
pub open spec fn spec_interp(a1: int, b1: int, a2: int, b2: int, t: int) -> int {
    b1 + spec_round_div((t - a1) * (b2 - b1), a2 - a1)
}

/// The interpolated ordinate stays between the endpoints.
pub proof fn lemma_interp_in_range(a1: int, b1: int, a2: int, b2: int, t: int)
    requires
        a1 < t < a2,
    ensures
        b1 <= b2 ==> b1 <= spec_interp(a1, b1, a2, b2, t) <= b2,
        b2 <= b1 ==> b2 <= spec_interp(a1, b1, a2, b2, t) <= b1,
{
    let m = a2 - a1;
    let n = t - a1;
    let d = b2 - b1;
    assert(1 <= n <= m - 1);
    assert(m >= 2);
    if d >= 0 {
        lemma_mul_nonnegative(n, d);
        lemma_mul_inequality(n, m - 1, d);
        assert((m - 1) * d == m * d - d) by (nonlinear_arith);
        lemma_div_is_ordered(0, n * d + m / 2, m);
        assert(0int / m == 0) by {
            lemma_div_of0(m);
        }
        assert(spec_round_div(n * d, m) == (n * d + m / 2) / m);
        assert(n * d + m / 2 <= m * d - d + m / 2);
        assert(m * d - d + m / 2 <= d * m + (m - 1)) by (nonlinear_arith)
            requires
                m >= 2,
                d >= 0,
        ;
        lemma_div_is_ordered(n * d + m / 2, d * m + (m - 1), m);
        lemma_fundamental_div_mod_converse_div(d * m + (m - 1), m, d, m - 1);
        assert((d * m + (m - 1)) / m == d);
    } else {
        let e = -d;
        assert(e > 0);
        lemma_mul_nonnegative(n, e);
        assert(n * d == -(n * e)) by (nonlinear_arith)
            requires
                e == -d,
        ;
        assert(n * d < 0) by (nonlinear_arith)
            requires
                n >= 1,
                d < 0,
        ;
        assert(spec_round_div(n * d, m) == -((n * e + m / 2) / m));
        lemma_mul_inequality(n, m - 1, e);
        assert((m - 1) * e == m * e - e) by (nonlinear_arith);
        lemma_div_is_ordered(0, n * e + m / 2, m);
        assert(0int / m == 0) by {
            lemma_div_of0(m);
        }
        assert(n * e + m / 2 <= m * e - e + m / 2);
        assert(m * e - e + m / 2 <= e * m + (m - 1)) by (nonlinear_arith)
            requires
                m >= 2,
                e > 0,
        ;
        lemma_div_is_ordered(n * e + m / 2, e * m + (m - 1), m);
        lemma_fundamental_div_mod_converse_div(e * m + (m - 1), m, e, m - 1);
        assert((e * m + (m - 1)) / m == e);
    }
}

/// Computes `spec_interp`, with the endpoints' range carried in the result.
fn interp(a1: usize, b1: usize, a2: usize, b2: usize, t: usize) -> (r: usize)
    requires
        a1 < t < a2,
        a1 <= MAX_CANVAS,
        a2 <= MAX_CANVAS,
        b1 <= MAX_CANVAS,
        b2 <= MAX_CANVAS,
    ensures
        r as int == spec_interp(a1 as int, b1 as int, a2 as int, b2 as int, t as int),
        b1 <= b2 ==> b1 <= r <= b2,
        b2 <= b1 ==> b2 <= r <= b1,
{
    proof {
        lemma_interp_in_range(a1 as int, b1 as int, a2 as int, b2 as int, t as int);
    }
    let td = (t - a1) as i128;
    let bd = (b2 as i128) - (b1 as i128);
    proof {
        assert(-0x4000_0000_0000_0000 < td * bd < 0x4000_0000_0000_0000) by (nonlinear_arith)
            requires
                0 < td <= 0x7fff_ffff,
                -0x7fff_ffff <= bd <= 0x7fff_ffff,
        ;
    }
    let n = td * bd;
    let q = round_div_i128(n, (a2 - a1) as i128);
    let r = (b1 as i128) + q;
    r as usize
}

/// Whether two optional timestamps are both present and within the gap.
pub open spec fn spec_within_gap(prev: Option<i64>, cur: Option<i64>) -> bool {
    match (prev, cur) {
        (Some(a), Some(b)) => -(GAP_SECONDS as int) <= b - a <= GAP_SECONDS as int,
        _ => false,
    }
}

/// Exactly `spec_within_gap`.
fn within_gap(prev: Option<i64>, cur: Option<i64>) -> (r: bool)
    ensures
        r == spec_within_gap(prev, cur),
{
    match (prev, cur) {
        (Some(a), Some(b)) => {
            let d = (b as i128) - (a as i128);
            -(GAP_SECONDS as i128) <= d && d <= GAP_SECONDS as i128
        },
        _ => false,
    }
}

/// The pixels strictly between two x-ordered endpoints, visited along x.
pub open spec fn spec_line_x(
    f: Seq<u64>,
    w: int,
    px: int,
    py: int,
    qx: int,
    qy: int,
    cx: int,
) -> Seq<u64>
    decreases qx - cx,
{
    if cx >= qx {
        f
    } else {
        spec_line_x(spec_bump(f, w, cx, spec_interp(px, py, qx, qy, cx)), w, px, py, qx, qy, cx + 1)
    }
}

/// The pixels strictly between two y-ordered endpoints, visited along y.
pub open spec fn spec_line_y(
    f: Seq<u64>,
    w: int,
    px: int,
    py: int,
    qx: int,
    qy: int,
    cy: int,
) -> Seq<u64>
    decreases qy - cy,
{
    if cy >= qy {
        f
    } else {
        spec_line_y(spec_bump(f, w, spec_interp(py, px, qy, qx, cy), cy), w, px, py, qx, qy, cy + 1)
    }
}

/// The connecting line from pixel `a` to pixel `b`, endpoints excluded:
/// stepped along x when the segment is at most as steep as the diagonal,
/// else along y, one increment per traversed pixel.
pub open spec fn spec_draw_line(f: Seq<u64>, w: int, ax: int, ay: int, bx: int, by: int) -> Seq<
    u64,
> {
    let dx = if bx >= ax {
        bx - ax
    } else {
        ax - bx
    };
    let dy = if by >= ay {
        by - ay
    } else {
        ay - by
    };
    if dx != 0 && dy <= dx {
        if ax <= bx {
            spec_line_x(f, w, ax, ay, bx, by, ax + 1)
        } else {
            spec_line_x(f, w, bx, by, ax, ay, bx + 1)
        }
    } else {
        if ay <= by {
            spec_line_y(f, w, ax, ay, bx, by, ay + 1)
        } else {
            spec_line_y(f, w, bx, by, ax, ay, by + 1)
        }
    }
}

/// Is the pixel strictly inside the safety border of a `w` by `h` canvas?
pub open spec fn in_window(x: int, y: int, w: int, h: int) -> bool {
    1 <= x <= w - 2 && 1 <= y <= h - 2
}

/// Draws the connecting line between two distinct in-window pixels,
/// exactly `spec_draw_line`.
#[verifier::loop_isolation(false)]
fn draw_line(
    counts: &mut Vec<u64>,
    w: usize,
    h: usize,
    ax: usize,
    ay: usize,
    bx: usize,
    by: usize,
)
    requires
        old(counts)@.len() == (w as int) * (h as int),
        w <= MAX_CANVAS,
        h <= MAX_CANVAS,
        in_window(ax as int, ay as int, w as int, h as int),
        in_window(bx as int, by as int, w as int, h as int),
        !(ax == bx && ay == by),
    ensures
        final(counts)@ == spec_draw_line(
            old(counts)@,
            w as int,
            ax as int,
            ay as int,
            bx as int,
            by as int,
        ),
        final(counts)@.len() == old(counts)@.len(),
{
    let ghost f0 = counts@;
    let dx = if bx >= ax {
        bx - ax
    } else {
        ax - bx
    };
    let dy = if by >= ay {
        by - ay
    } else {
        ay - by
    };
    if dx != 0 && dy <= dx {
        let (px, py, qx, qy) = if ax <= bx {
            (ax, ay, bx, by)
        } else {
            (bx, by, ax, ay)
        };
        let mut cx = px + 1;
        while cx < qx
            invariant
                px < cx <= qx,
                counts@.len() == (w as int) * (h as int),
                spec_line_x(counts@, w as int, px as int, py as int, qx as int, qy as int, cx as int)
                    == spec_line_x(f0, w as int, px as int, py as int, qx as int, qy as int, px + 1),
            decreases qx - cx,
        {
            let cy = interp(px, py, qx, qy, cx);
            proof {
                lemma_idx_bound(cx as int, cy as int, w as int, h as int);
            }
            bump(counts, w, cx, cy);
            cx = cx + 1;
        }
    } else {
        let (px, py, qx, qy) = if ay <= by {
            (ax, ay, bx, by)
        } else {
            (bx, by, ax, ay)
        };
        let mut cy = py + 1;
        while cy < qy
            invariant
                py < cy <= qy,
                counts@.len() == (w as int) * (h as int),
                spec_line_y(counts@, w as int, px as int, py as int, qx as int, qy as int, cy as int)
                    == spec_line_y(f0, w as int, px as int, py as int, qx as int, qy as int, py + 1),
            decreases qy - cy,
        {
            let cx = interp(py, px, qy, qx, cy);
            proof {
                lemma_idx_bound(cx as int, cy as int, w as int, h as int);
            }
            bump(counts, w, cx, cy);
            cy = cy + 1;
        }
    }
}

/// The view of the renderer's previous-pixel memory.
pub open spec fn spec_prev(p: Option<(usize, usize)>) -> Option<(int, int)> {
    match p {
        None => None,
        Some(xy) => Some((xy.0 as int, xy.1 as int)),
    }
}

/// Accumulates one track's samples from index `k` on, given the previous
/// plotted pixel and its sample's timestamp.
pub open spec fn spec_track_acc(
    f: Seq<u64>,
    tr: Seq<TrkPt>,
    k: int,
    prev: Option<(int, int)>,
    ptime: Option<i64>,
    info: MapInfo,
    w: int,
    h: int,
) -> Seq<u64>
    decreases tr.len() - k,
{
    if k < 0 || k >= tr.len() {
        f
    } else {
        let pt = tr[k];
        match spec_pixel_of(pt.center, info, w, h) {
            None => spec_track_acc(f, tr, k + 1, prev, ptime, info, w, h),
            Some(xy) => match prev {
                None => spec_track_acc(
                    spec_bump(f, w, xy.0, xy.1),
                    tr,
                    k + 1,
                    Some(xy),
                    pt.time,
                    info,
                    w,
                    h,
                ),
                Some(pxy) => if pxy == xy {
                    spec_track_acc(spec_bump(f, w, xy.0, xy.1), tr, k + 1, prev, pt.time, info, w, h)
                } else {
                    let joined = if spec_within_gap(ptime, pt.time) {
                        spec_draw_line(f, w, pxy.0, pxy.1, xy.0, xy.1)
                    } else {
                        f
                    };
                    spec_track_acc(
                        spec_bump(joined, w, xy.0, xy.1),
                        tr,
                        k + 1,
                        Some(xy),
                        pt.time,
                        info,
                        w,
                        h,
                    )
                },
            },
        }
    }
}

/// Accumulates every track from index `i` on.
pub open spec fn spec_acc_from(
    f: Seq<u64>,
    ts: Seq<Seq<TrkPt>>,
    i: int,
    info: MapInfo,
    w: int,
    h: int,
) -> Seq<u64>
    decreases ts.len() - i,
{
    if i < 0 || i >= ts.len() {
        f
    } else {
        spec_acc_from(spec_track_acc(f, ts[i], 0, None, None, info, w, h), ts, i + 1, info, w, h)
    }
}

/// The all-zero field of a `w` by `h` canvas.
pub open spec fn spec_zeros(n: int) -> Seq<u64> {
    Seq::new(n as nat, |i: int| 0u64)
}

/// The whole track set's intensity field.
pub open spec fn spec_field(ts: Seq<Seq<TrkPt>>, info: MapInfo, w: int, h: int) -> Seq<u64> {
    spec_acc_from(spec_zeros(w * h), ts, 0, info, w, h)
}

/// A `width` by `height` grid of visitation counts, row-major.
pub struct IntensityField {
    /// Pixels per row.
    pub width: usize,
    /// Rows.
    pub height: usize,
    /// The counts, `width * height` of them, pixel `(x, y)` at `y * width + x`.
    pub counts: Vec<u64>,
}

impl IntensityField {
    /// The count of one pixel.
    pub fn count_at(&self, x: usize, y: usize) -> (c: u64)
        requires
            x < self.width,
            (y as int) * (self.width as int) + (x as int) < self.counts@.len(),
        ensures
            c == self.counts@[(y as int) * (self.width as int) + (x as int)],
    {
        let l = self.counts.len();
        self.counts[y * self.width + x]
    }
}

/// Builds the intensity field of a track set: projects every sample,
/// joins consecutive in-gap samples with lines, and counts visits.
///
/// Returns exactly `spec_field` of the track set's image.
#[verifier::loop_isolation(false)]
pub fn build_intensity(
    map_info: &MapInfo,
    trk_pts: &Vec<Vec<TrkPt>>,
    width: usize,
    height: usize,
) -> (r: IntensityField)
    requires
        (width as int) * (height as int) <= usize::MAX as int,
        width <= MAX_CANVAS,
        height <= MAX_CANVAS,
    ensures
        r.width == width,
        r.height == height,
        r.counts@ == spec_field(trk_pts.deep_view(), *map_info, width as int, height as int),
        r.counts@.len() == (width as int) * (height as int),
{
    let ghost ts = trk_pts.deep_view();
    let ghost wi = width as int;
    let ghost hi = height as int;
    let n = width * height;
    let mut counts: Vec<u64> = vec![0u64; n];
    proof {
        assert(counts@ =~= spec_zeros(wi * hi));
    }
    let ghost target = spec_acc_from(spec_zeros(wi * hi), ts, 0, *map_info, wi, hi);
    let mut i: usize = 0;
    while i < trk_pts.len()
        invariant
            i <= trk_pts.len(),
            counts@.len() == wi * hi,
            spec_acc_from(counts@, ts, i as int, *map_info, wi, hi) == target,
        decreases trk_pts.len() - i,
    {
        let track = &trk_pts[i];
        proof {
            assert(ts[i as int] == trk_pts@[i as int].deep_view());
            assert(ts[i as int] =~= track@);
        }
        let ghost track_target = spec_track_acc(
            counts@,
            ts[i as int],
            0,
            None,
            None,
            *map_info,
            wi,
            hi,
        );
        let mut prev: Option<(usize, usize)> = None;
        let mut ptime: Option<i64> = None;
        let mut k: usize = 0;
        while k < track.len()
            invariant
                k <= track.len(),
                counts@.len() == wi * hi,
                prev matches Some(p) ==> in_window(p.0 as int, p.1 as int, wi, hi),
                spec_track_acc(
                    counts@,
                    ts[i as int],
                    k as int,
                    spec_prev(prev),
                    ptime,
                    *map_info,
                    wi,
                    hi,
                ) == track_target,
            decreases track.len() - k,
        {
            let pt = track[k];
            proof {
                assert(ts[i as int][k as int] == track@[k as int]);
            }
            match pixel_of(pt.center, map_info, width, height) {
                None => {},
                Some(xy) => {
                    let (x, y) = xy;
                    proof {
                        lemma_idx_bound(x as int, y as int, wi, hi);
                    }
                    match prev {
                        None => {
                            bump(&mut counts, width, x, y);
                            prev = Some((x, y));
                            ptime = pt.time;
                        },
                        Some(pxy) => {
                            if pxy.0 == x && pxy.1 == y {
                                bump(&mut counts, width, x, y);
                                ptime = pt.time;
                            } else {
                                if within_gap(ptime, pt.time) {
                                    draw_line(&mut counts, width, height, pxy.0, pxy.1, x, y);
                                }
                                bump(&mut counts, width, x, y);
                                prev = Some((x, y));
                                ptime = pt.time;
                            }
                        },
                    }
                },
            }
            k = k + 1;
        }
        i = i + 1;
    }
    IntensityField { width, height, counts }
}

/// A horizontal line visits each column between `cx` and `qx` once, in its
/// own row, and touches nothing else.
proof fn lemma_line_x_row(f: Seq<u64>, w: int, h: int, px: int, py: int, qx: int, cx: int)
    requires
        px < cx <= qx,
        0 <= px,
        qx <= w - 1,
        0 <= py <= h - 1,
        f.len() == w * h,
    ensures
        spec_line_x(f, w, px, py, qx, py, cx).len() == f.len(),
        forall|j: int|
            0 <= j < f.len() ==> spec_line_x(f, w, px, py, qx, py, cx)[j] == (if py * w + cx <= j
                < py * w + qx {
                sat_inc(f[j])
            } else {
                f[j]
            }),
    decreases qx - cx,
{
    if cx >= qx {
    } else {
        // The interpolated row of a flat segment is the row itself.
        let m = qx - px;
        assert(spec_round_div((cx - px) * (py - py), m) == 0) by {
            assert((cx - px) * 0 == 0) by (nonlinear_arith);
            lemma_div_of0(m);
            assert(0 <= m / 2 < m);
            lemma_basic_div(m / 2, m);
        }
        assert(spec_interp(px, py, qx, py, cx) == py);
        lemma_idx_bound(cx, py, w, h);
        let g = spec_bump(f, w, cx, py);
        lemma_line_x_row(g, w, h, px, py, qx, cx + 1);
        assert forall|j: int|
            0 <= j < f.len() implies spec_line_x(f, w, px, py, qx, py, cx)[j] == (if py * w + cx
            <= j < py * w + qx {
            sat_inc(f[j])
        } else {
            f[j]
        }) by {
            assert(spec_line_x(f, w, px, py, qx, py, cx) == spec_line_x(g, w, px, py, qx, py, cx + 1));
            if j == py * w + cx {
                assert(g[j] == sat_inc(f[j]));
            } else {
                assert(g[j] == f[j]);
            }
        }
    }
}

/// Two consecutive in-gap samples in one row, `d` pixels apart, produce a
/// contiguous run of exactly `d + 1` pixels visited once each — the two
/// endpoints and the full connecting line between them — and touch no other
/// pixel.
pub proof fn lemma_joined_row_counts(
    p1: TrkPt,
    p2: TrkPt,
    info: MapInfo,
    w: int,
    h: int,
    x1: int,
    x2: int,
    y: int,
)
    requires
        spec_pixel_of(p1.center, info, w, h) == Some((x1, y)),
        spec_pixel_of(p2.center, info, w, h) == Some((x2, y)),
        x1 < x2,
        spec_within_gap(p1.time, p2.time),
    ensures
        forall|x: int|
            x1 <= x <= x2 ==> spec_field(seq![seq![p1, p2]], info, w, h)[#[trigger] pix_idx(
                w,
                x,
                y,
            )] == 1,
        forall|x: int, yy: int|
            0 <= x < w && 0 <= yy < h && !(yy == y && x1 <= x <= x2) ==> spec_field(
                seq![seq![p1, p2]],
                info,
                w,
                h,
            )[#[trigger] pix_idx(w, x, yy)] == 0,
{
    let ts: Seq<Seq<TrkPt>> = seq![seq![p1, p2]];
    let z = spec_zeros(w * h);
    let tr = ts[0];
    assert(tr.len() == 2 && tr[0] == p1 && tr[1] == p2);
    assert(in_window(x1, y, w, h) && in_window(x2, y, w, h));
    lemma_idx_bound(x1, y, w, h);
    lemma_idx_bound(x2, y, w, h);
    let f1 = spec_bump(z, w, x1, y);
    let joined = spec_draw_line(f1, w, x1, y, x2, y);
    let f2 = spec_bump(joined, w, x2, y);
    // The fold: first endpoint, the line, second endpoint.
    assert(spec_track_acc(f2, tr, 2, Some((x2, y)), p2.time, info, w, h) == f2);
    assert(spec_track_acc(f1, tr, 1, Some((x1, y)), p1.time, info, w, h) == f2);
    assert(spec_track_acc(z, tr, 0, None, None, info, w, h) == f2);
    assert(spec_acc_from(f2, ts, 1, info, w, h) == f2);
    assert(spec_field(ts, info, w, h) == f2);
    // The line is x-major and left-to-right.
    assert(joined == spec_line_x(f1, w, x1, y, x2, y, x1 + 1));
    lemma_line_x_row(f1, w, h, x1, y, x2, x1 + 1);
    assert forall|x: int| x1 <= x <= x2 implies f2[#[trigger] pix_idx(w, x, y)] == 1 by {
        lemma_idx_bound(x, y, w, h);
        if x == x1 {
            assert(f1[y * w + x1] == 1);
            assert(joined[y * w + x1] == 1);
        } else if x == x2 {
            assert(f1[y * w + x2] == 0);
            assert(joined[y * w + x2] == 0);
            assert(f2[y * w + x2] == sat_inc(0));
        } else {
            assert(f1[y * w + x] == 0);
            assert(joined[y * w + x] == sat_inc(0));
        }
    }
    assert forall|x: int, yy: int|
        0 <= x < w && 0 <= yy < h && !(yy == y && x1 <= x <= x2) implies f2[#[trigger] pix_idx(
        w,
        x,
        yy,
    )] == 0 by {
        let j = pix_idx(w, x, yy);
        lemma_idx_bound(x, yy, w, h);
        // The pixel lies outside the run's flat index range.
        assert(!(y * w + x1 <= j <= y * w + x2)) by {
            if yy < y {
                assert((yy + 1) * w <= y * w) by (nonlinear_arith)
                    requires
                        yy + 1 <= y,
                        w >= 0,
                ;
                assert(yy * w + w <= y * w) by (nonlinear_arith)
                    requires
                        yy + 1 <= y,
                        w >= 0,
                ;
            } else if yy > y {
                assert((y + 1) * w <= yy * w) by (nonlinear_arith)
                    requires
                        y + 1 <= yy,
                        w >= 0,
                ;
                assert(y * w + w <= yy * w) by (nonlinear_arith)
                    requires
                        y + 1 <= yy,
                        w >= 0,
                ;
            }
        }
        assert(z[j] == 0);
        assert(f1[j] == 0);
        assert(joined[j] == 0);
    }
}

/// Two consecutive samples whose timestamps are not both present and within
/// the gap threshold contribute only their two endpoint pixels: no
/// connecting line is drawn across a recording dropout.
pub proof fn lemma_gap_draws_no_line(
    p1: TrkPt,
    p2: TrkPt,
    info: MapInfo,
    w: int,
    h: int,
    x1: int,
    y1: int,
    x2: int,
    y2: int,
)
    requires
        spec_pixel_of(p1.center, info, w, h) == Some((x1, y1)),
        spec_pixel_of(p2.center, info, w, h) == Some((x2, y2)),
        (x1, y1) != (x2, y2),
        !spec_within_gap(p1.time, p2.time),
    ensures
        spec_field(seq![seq![p1, p2]], info, w, h) == spec_bump(
            spec_bump(spec_zeros(w * h), w, x1, y1),
            w,
            x2,
            y2,
        ),
{
    let ts: Seq<Seq<TrkPt>> = seq![seq![p1, p2]];
    let z = spec_zeros(w * h);
    let tr = ts[0];
    assert(tr.len() == 2);
    assert(tr[0] == p1 && tr[1] == p2);
    let b1 = spec_bump(z, w, x1, y1);
    let b2 = spec_bump(b1, w, x2, y2);
    assert(spec_track_acc(b2, tr, 2, Some((x2, y2)), p2.time, info, w, h) == b2);
    assert(spec_track_acc(b1, tr, 1, Some((x1, y1)), p1.time, info, w, h) == b2);
    assert(spec_track_acc(z, tr, 0, None, None, info, w, h) == b2);
    assert(spec_acc_from(b2, ts, 1, info, w, h) == b2);
    assert(spec_field(ts, info, w, h) == b2);
}

/// A single isolated point increments exactly its own pixel: the field of a
/// one-point track set is the zero field with that pixel's count at one, and
/// no connecting line is drawn anywhere.
pub proof fn lemma_single_point_field(pt: TrkPt, info: MapInfo, w: int, h: int, x: int, y: int)
    requires
        spec_pixel_of(pt.center, info, w, h) == Some((x, y)),
    ensures
        spec_field(seq![seq![pt]], info, w, h) == spec_zeros(w * h).update(y * w + x, 1u64),
{
    let ts: Seq<Seq<TrkPt>> = seq![seq![pt]];
    let z = spec_zeros(w * h);
    assert(in_window(x, y, w, h));
    lemma_idx_bound(x, y, w, h);
    let tr = ts[0];
    assert(tr.len() == 1);
    assert(tr[0] == pt);
    let b = spec_bump(z, w, x, y);
    assert(spec_track_acc(b, tr, 1, Some((x, y)), pt.time, info, w, h) == b);
    assert(spec_track_acc(z, tr, 0, None, None, info, w, h) == b);
    assert(spec_acc_from(b, ts, 1, info, w, h) == b);
    assert(spec_field(ts, info, w, h) == b);
    assert(z[y * w + x] == 0);
    assert(sat_inc(0) == 1);
}

} // verus!
