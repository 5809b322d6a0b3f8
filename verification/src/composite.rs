//! Percentile normalization and alpha compositing onto an RGB canvas.
//!
//! All pixel counts greater than one, sorted ascending, give the value at
//! the three-quarters index; a count's opacity is `count * factor /
//! percentile`, clamped between the caller's floor and one.  Opacity is held
//! in thousandths, so compositing is exact integer arithmetic: each channel
//! becomes `color * alpha + base * (1 - alpha)`, rounded to the nearest
//! value.  When no pixel was visited twice, every visited pixel gets the
//! floor opacity.  Untouched pixels keep their base value.

use vstd::arithmetic::div_mod::*;
use vstd::arithmetic::mul::*;
use vstd::prelude::*;
use vstd::relations::sorted_by;
use vstd::relations::total_ordering;
use vstd::seq_lib::*;

use crate::model::MapInfo;
use crate::model::TrkPt;
use crate::render::IntensityField;
use crate::render::MAX_CANVAS;
use crate::render::build_intensity;
use crate::render::spec_field;

verus! {

/// An RGB color, one byte per channel.
#[derive(Clone, Copy, Debug, PartialEq, Eq, Structural)]
pub struct Color {
    pub r: u8,
    pub g: u8,
    pub b: u8,
}

/// A mutable RGB pixel buffer: `width * height` pixels, three bytes each,
/// row-major, pixel `(x, y)` at bytes `3 * (y * width + x)` on.
pub struct Canvas {
    /// Pixels per row, at most `MAX_CANVAS`.
    pub width: usize,
    /// Rows, at most `MAX_CANVAS`.
    pub height: usize,
    /// The raw bytes, exactly `3 * width * height` of them.
    pub data: Vec<u8>,
}

/// The canvas's bytes match its dimensions.
pub open spec fn canvas_wf(c: &Canvas) -> bool {
    &&& c.data@.len() == 3 * (c.width as int) * (c.height as int)
    &&& c.width <= MAX_CANVAS
    &&& c.height <= MAX_CANVAS
}

impl Canvas {
    /// Wraps raw bytes as a canvas when they match the dimensions.
    pub fn new(width: usize, height: usize, data: Vec<u8>) -> (r: Option<Canvas>)
        ensures
            match r {
                Some(c) => canvas_wf(&c) && c.width == width && c.height == height && c.data@
                    == data@,
                None => !(data@.len() == 3 * (width as int) * (height as int) && width
                    <= MAX_CANVAS && height <= MAX_CANVAS),
            },
    {
        if width > MAX_CANVAS || height > MAX_CANVAS {
            return None;
        }
        proof {
            assert(3 * (width as int) * (height as int) < 0xffff_ffff_ffff_ffff_ffff)
                by (nonlinear_arith)
                requires
                    width <= 0x7fff_ffff,
                    height <= 0x7fff_ffff,
            ;
            assert(3 * (width as int) * (height as int) >= 0) by (nonlinear_arith)
                requires
                    width >= 0,
                    height >= 0,
            ;
        }
        let need = 3u128 * (width as u128) * (height as u128);
        if (data.len() as u128) == need {
            Some(Canvas { width, height, data })
        } else {
            None
        }
    }

    /// The three channel bytes of one pixel.
    pub fn get_pixel(&self, x: usize, y: usize) -> (r: (u8, u8, u8))
        requires
            canvas_wf(self),
            x < self.width,
            y < self.height,
        ensures
            ({
                let base = 3 * ((y as int) * (self.width as int) + (x as int));
                r == (self.data@[base], self.data@[base + 1], self.data@[base + 2])
            }),
    {
        proof {
            crate::render::lemma_idx_bound(x as int, y as int, self.width as int, self.height as int);
            assert(3 * ((y as int) * (self.width as int) + (x as int)) + 2 < self.data@.len())
                by (nonlinear_arith)
                requires
                    0 <= (y as int) * (self.width as int) + (x as int) < (self.width as int) * (
                    self.height as int),
                    self.data@.len() == 3 * (self.width as int) * (self.height as int),
            ;
        }
        let l = self.data.len();
        let base = 3 * (y * self.width + x);
        (self.data[base], self.data[base + 1], self.data[base + 2])
    }
}

/// The ascending order on counts.
pub open spec fn u64_le() -> spec_fn(u64, u64) -> bool {
    |a: u64, b: u64| a <= b
}

/// Keeps the counts above one.
pub open spec fn gt1() -> spec_fn(u64) -> bool {
    |c: u64| c > 1
}

/// The 75th-percentile count among pixels visited more than once, or `None`
/// when there is no such pixel.
pub open spec fn spec_percentile(f: Seq<u64>) -> Option<u64> {
    let big = f.filter(gt1());
    if big.len() == 0 {
        None
    } else {
        Some(big.sort_by(u64_le())[big.len() as int * 3 / 4])
    }
}

/// A visited pixel's opacity in thousandths: `count * factor / percentile`,
/// clamped to `[min_alpha, 1000]`; the floor alone when nothing was visited
/// twice.
pub open spec fn spec_alpha_milli(
    c: u64,
    p: Option<u64>,
    factor_milli: u32,
    min_alpha_milli: u32,
) -> int {
    match p {
        None => min_alpha_milli as int,
        Some(pv) => if pv == 0 {
            min_alpha_milli as int
        } else {
            let raw = (c as int) * (factor_milli as int) / (pv as int);
            if raw < min_alpha_milli as int {
                min_alpha_milli as int
            } else if raw > 1000 {
                1000
            } else {
                raw
            }
        },
    }
}

/// One channel blended: `color * alpha + base * (1 - alpha)`, in
/// thousandths, rounded to the nearest byte.
pub open spec fn spec_blend_chan(cc: u8, bc: u8, alpha: int) -> u8 {
    (((cc as int) * alpha + (bc as int) * (1000 - alpha) + 500) / 1000) as u8
}

/// The channel of a color a byte index selects.
pub open spec fn spec_chan(color: Color, chan: int) -> u8 {
    if chan == 0 {
        color.r
    } else if chan == 1 {
        color.g
    } else {
        color.b
    }
}

/// The composited canvas bytes: untouched pixels keep their base value,
/// visited pixels blend the track color in at their normalized opacity.
pub open spec fn spec_composite(
    base: Seq<u8>,
    field: Seq<u64>,
    color: Color,
    factor_milli: u32,
    min_alpha_milli: u32,
) -> Seq<u8> {
    let p = spec_percentile(field);
    Seq::new(
        base.len(),
        |i: int|
            {
                let c = field[i / 3];
                if c == 0 {
                    base[i]
                } else {
                    spec_blend_chan(
                        spec_chan(color, i % 3),
                        base[i],
                        spec_alpha_milli(c, p, factor_milli, min_alpha_milli),
                    )
                }
            },
    )
}

/// A convex blend of two bytes stays a byte.
proof fn lemma_blend_bound(cc: u8, bc: u8, alpha: int)
    requires
        0 <= alpha <= 1000,
    ensures
        0 <= ((cc as int) * alpha + (bc as int) * (1000 - alpha) + 500) / 1000 <= 255,
{
    let s = (cc as int) * alpha + (bc as int) * (1000 - alpha);
    lemma_mul_nonnegative(cc as int, alpha);
    lemma_mul_nonnegative(bc as int, 1000 - alpha);
    lemma_mul_inequality(cc as int, 255, alpha);
    lemma_mul_inequality(bc as int, 255, 1000 - alpha);
    assert(255 * alpha + 255 * (1000 - alpha) == 255000) by (nonlinear_arith);
    assert(s + 500 <= 255500);
    lemma_div_is_ordered(0, s + 500, 1000);
    lemma_div_of0(1000);
    lemma_div_is_ordered(s + 500, 255500, 1000);
    lemma_fundamental_div_mod_converse_div(255500, 1000, 255, 500);
}

/// Exactly `spec_blend_chan`.
fn blend_chan(cc: u8, bc: u8, alpha: u32) -> (r: u8)
    requires
        alpha <= 1000,
    ensures
        r == spec_blend_chan(cc, bc, alpha as int),
{
    proof {
        lemma_blend_bound(cc, bc, alpha as int);
        assert((cc as int) * (alpha as int) <= 255000 && (bc as int) * (1000 - alpha as int)
            <= 255000) by (nonlinear_arith)
            requires
                cc <= 255,
                bc <= 255,
                0 <= alpha <= 1000,
        ;
        assert((cc as int) * (alpha as int) >= 0 && (bc as int) * (1000 - alpha as int) >= 0)
            by (nonlinear_arith)
            requires
                0 <= alpha <= 1000,
        ;
    }
    let v = (cc as u32) * alpha + (bc as u32) * (1000 - alpha) + 500;
    (v / 1000) as u8
}

/// Exactly `spec_alpha_milli`.
fn alpha_milli(c: u64, p: &Option<u64>, factor_milli: u32, min_alpha_milli: u32) -> (r: u32)
    requires
        min_alpha_milli <= 1000,
    ensures
        r as int == spec_alpha_milli(c, *p, factor_milli, min_alpha_milli),
        r <= 1000,
{
    match p {
        None => min_alpha_milli,
        Some(pv) => {
            if *pv == 0 {
                min_alpha_milli
            } else {
                proof {
                    assert((c as int) * (factor_milli as int)
                        < 0x1_0000_0000_0000_0000_0000_0000) by (nonlinear_arith)
                        requires
                            c <= 0xffff_ffff_ffff_ffff,
                            factor_milli <= 0xffff_ffff,
                    ;
                    assert((c as int) * (factor_milli as int) >= 0) by (nonlinear_arith)
                        requires
                            c >= 0,
                            factor_milli >= 0,
                    ;
                }
                let raw = ((c as u128) * (factor_milli as u128)) / (*pv as u128);
                if raw < (min_alpha_milli as u128) {
                    min_alpha_milli
                } else if raw > 1000 {
                    1000
                } else {
                    raw as u32
                }
            }
        },
    }
}

/// Sorts counts ascending; the result is a permutation of the input.
#[verifier::loop_isolation(false)]
fn sort_counts(input: &Vec<u64>) -> (out: Vec<u64>)
    ensures
        sorted_by(out@, u64_le()),
        out@.to_multiset() == input@.to_multiset(),
        out@.len() == input@.len(),
{
    broadcast use group_to_multiset_ensures;

    let mut out: Vec<u64> = Vec::new();
    proof {
        assert(input@.take(0) =~= Seq::<u64>::empty());
        assert(Seq::<u64>::empty().to_multiset() =~= out@.to_multiset());
    }
    let mut i: usize = 0;
    while i < input.len()
        invariant
            i <= input.len(),
            sorted_by(out@, u64_le()),
            out@.to_multiset() == input@.take(i as int).to_multiset(),
            out@.len() == i,
        decreases input.len() - i,
    {
        let x = input[i];
        let mut p: usize = 0;
        while p < out.len() && out[p] <= x
            invariant
                p <= out@.len(),
                forall|k: int| 0 <= k < p ==> out@[k] <= x,
            decreases out.len() - p,
        {
            p = p + 1;
        }
        let ghost oldout = out@;
        out.insert(p, x);
        proof {
            assert(out@ == oldout.insert(p as int, x));
            to_multiset_insert(oldout, p as int, x);
            assert(input@.take(i + 1).drop_last() =~= input@.take(i as int));
            assert(input@.take(i + 1) =~= input@.take(i as int).push(x));
            to_multiset_build(input@.take(i as int), x);
            oldout.insert_ensures(p as int, x);
            // The inserted element sits after everything at most `x` and
            // before the first element above `x`, so order is preserved.
            assert forall|k1: int, k2: int|
                0 <= k1 < k2 < out@.len() implies u64_le()(out@[k1], out@[k2]) by {
                assert(p < oldout.len() ==> x < oldout[p as int]);
                if k2 < p {
                    assert(out@[k1] == oldout[k1] && out@[k2] == oldout[k2]);
                } else if k1 > p {
                    assert(out@[k1] == oldout[k1 - 1] && out@[k2] == oldout[k2 - 1]);
                } else if k1 == p {
                    assert(out@[k1] == x && out@[k2] == oldout[k2 - 1]);
                    if p < k2 - 1 {
                        assert(u64_le()(oldout[p as int], oldout[k2 - 1]));
                    }
                } else if k2 == p {
                    assert(out@[k1] == oldout[k1] && out@[k2] == x);
                } else {
                    // k1 < p < k2: through x in the middle.
                    assert(out@[k1] == oldout[k1] && out@[k2] == oldout[k2 - 1]);
                    assert(oldout[k1] <= x);
                    if p < k2 - 1 {
                        assert(u64_le()(oldout[p as int], oldout[k2 - 1]));
                    }
                }
            }
        }
        i = i + 1;
    }
    proof {
        assert(input@.take(input@.len() as int) =~= input@);
    }
    out
}

/// `u64_le` is a total ordering.
proof fn lemma_u64_le_total()
    ensures
        total_ordering(u64_le()),
{
}

/// The percentile of a field, exactly `spec_percentile`.
#[verifier::loop_isolation(false)]
fn percentile(counts: &Vec<u64>) -> (r: Option<u64>)
    requires
        3 * counts@.len() <= usize::MAX as int,
    ensures
        r == spec_percentile(counts@),
{
    broadcast use Seq::lemma_filter_len;

    let ghost cv = counts@;
    let mut big: Vec<u64> = Vec::new();
    proof {
        assert(cv.take(0) =~= Seq::<u64>::empty());
        assert(Seq::<u64>::empty().filter(gt1()) =~= Seq::<u64>::empty());
        reveal_with_fuel(Seq::filter, 2);
    }
    let mut i: usize = 0;
    while i < counts.len()
        invariant
            i <= counts.len(),
            big@ == cv.take(i as int).filter(gt1()),
            big@.len() <= i,
        decreases counts.len() - i,
    {
        let c = counts[i];
        proof {
            reveal_with_fuel(Seq::filter, 2);
            assert(cv.take(i + 1).drop_last() =~= cv.take(i as int));
            assert(cv.take(i + 1).last() == cv[i as int]);
        }
        if c > 1 {
            big.push(c);
        }
        i = i + 1;
    }
    proof {
        assert(cv.take(cv.len() as int) =~= cv);
    }
    if big.len() == 0 {
        return None;
    }
    let bl = big.len();
    let sorted = sort_counts(&big);
    proof {
        lemma_u64_le_total();
        big@.lemma_sort_by_ensures(u64_le());
        lemma_sorted_unique(sorted@, big@.sort_by(u64_le()), u64_le());
        to_multiset_len(sorted@);
        to_multiset_len(big@.sort_by(u64_le()));
        lemma_fundamental_div_mod_converse_div(4 * (bl as int) - 1, 4, bl as int - 1, 3);
        lemma_div_is_ordered(3 * (bl as int), 4 * (bl as int) - 1, 4);
        lemma_div_is_ordered(0, 3 * (bl as int), 4);
        lemma_div_of0(4);
    }
    let idx = bl * 3 / 4;
    Some(sorted[idx])
}

/// Overlays a track set's heatmap onto a base canvas.
///
/// Returns the same canvas with every visited pixel blended toward
/// `track_color` at its normalized opacity; the result is exactly
/// `spec_composite` of the base bytes and the track set's intensity field,
/// so rendering the same inputs twice gives byte-identical canvases.
#[verifier::loop_isolation(false)]
pub fn overlay_image(
    map_image: Canvas,
    map_info: &MapInfo,
    trk_pts: &Vec<Vec<TrkPt>>,
    track_color: Color,
    factor_milli: u32,
    min_alpha_milli: u32,
) -> (r: Canvas)
    requires
        canvas_wf(&map_image),
        1 <= factor_milli,
        min_alpha_milli <= 1000,
    ensures
        canvas_wf(&r),
        r.width == map_image.width,
        r.height == map_image.height,
        r.data@ == spec_composite(
            map_image.data@,
            spec_field(
                trk_pts.deep_view(),
                *map_info,
                map_image.width as int,
                map_image.height as int,
            ),
            track_color,
            factor_milli,
            min_alpha_milli,
        ),
{
    let mut canvas = map_image;
    let w = canvas.width;
    let h = canvas.height;
    let dlen = canvas.data.len();
    proof {
        assert((w as int) * (h as int) <= usize::MAX as int) by (nonlinear_arith)
            requires
                3 * (w as int) * (h as int) == dlen as int,
                dlen <= usize::MAX,
        ;
    }
    let field = build_intensity(map_info, trk_pts, w, h);
    let ghost fv = field.counts@;
    proof {
        assert(3 * ((w as int) * (h as int)) == 3 * (w as int) * (h as int)) by (nonlinear_arith);
    }
    let p_opt = percentile(&field.counts);
    let ghost base0 = canvas.data@;
    let ghost target = spec_composite(base0, fv, track_color, factor_milli, min_alpha_milli);
    let mut i: usize = 0;
    while i < dlen
        invariant
            i <= dlen,
            canvas.data@.len() == dlen,
            canvas.width == w,
            canvas.height == h,
            forall|j: int| 0 <= j < i ==> canvas.data@[j] == target[j],
            forall|j: int| i <= j < dlen ==> canvas.data@[j] == base0[j],
        decreases dlen - i,
    {
        proof {
            lemma_fundamental_div_mod_converse_div(
                3 * ((w as int) * (h as int) - 1) + 2,
                3,
                (w as int) * (h as int) - 1,
                2,
            );
            assert(3 * ((w as int) * (h as int) - 1) + 2 == dlen as int - 1) by (nonlinear_arith)
                requires
                    3 * (w as int) * (h as int) == dlen as int,
            ;
            lemma_div_is_ordered(i as int, dlen as int - 1, 3);
            lemma_div_is_ordered(0, i as int, 3);
            lemma_div_of0(3);
        }
        let pix = i / 3;
        let c = field.counts[pix];
        if c > 0 {
            let a = alpha_milli(c, &p_opt, factor_milli, min_alpha_milli);
            let chan = i % 3;
            let cc = if chan == 0 {
                track_color.r
            } else if chan == 1 {
                track_color.g
            } else {
                track_color.b
            };
            let nb = blend_chan(cc, canvas.data[i], a);
            canvas.data[i] = nb;
            proof {
                assert(canvas.data@[i as int] == target[i as int]);
            }
        } else {
            proof {
                assert(canvas.data@[i as int] == target[i as int]);
            }
        }
        i = i + 1;
    }
    proof {
        assert(canvas.data@ =~= target);
    }
    canvas
}

/// Rendering is deterministic: the same base canvas, track set, projection,
/// color and normalization parameters yield byte-identical output, so
/// rendering twice onto two copies of one canvas gives equal canvases.
pub proof fn lemma_render_deterministic(
    base1: Seq<u8>,
    base2: Seq<u8>,
    ts1: Seq<Seq<TrkPt>>,
    ts2: Seq<Seq<TrkPt>>,
    info1: MapInfo,
    info2: MapInfo,
    w: int,
    h: int,
    color: Color,
    factor_milli: u32,
    min_alpha_milli: u32,
)
    requires
        base1 == base2,
        ts1 == ts2,
        info1 == info2,
    ensures
        spec_composite(base1, spec_field(ts1, info1, w, h), color, factor_milli, min_alpha_milli)
            == spec_composite(
            base2,
            spec_field(ts2, info2, w, h),
            color,
            factor_milli,
            min_alpha_milli,
        ),
{
}

} // verus!
