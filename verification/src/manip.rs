//! The manipulation engine: pure functions from an image to a new image.
//!
//! Sample arithmetic is performed in an integer domain wide enough to
//! avoid overflow and re-clamped to `[0, maxval]`. The convolution
//! operators read every neighborhood from the read-only source buffer with
//! edge-clamped (replicated) border sampling, so the result is a pure
//! function of the input.

use vstd::prelude::*;
use crate::args::ManipOption;
use crate::image::{
    all_le, ColorImage, ColorView, GrayImage, GrayView, Image, ImageType, ImageView, PxVal,
};

verus! {

/// `x` forced into `[lo, hi]`.
pub open spec fn clamp_to(lo: int, hi: int, x: int) -> int {
    if x < lo {
        lo
    } else if x > hi {
        hi
    } else {
        x
    }
}

/// `a / b` rounded to the nearest integer, halves away from zero, for
/// nonnegative `a` and positive `b`.
pub open spec fn div_round(a: int, b: int) -> int {
    (a + b / 2) / b
}

/// Rounding division stays within `[0, m]` when the numerator is within
/// `[0, b * m]`.
proof fn lemma_div_round_bounds(a: int, b: int, m: int)
    requires
        b >= 1,
        0 <= a,
        a <= b * m,
    ensures
        0 <= div_round(a, b) <= m,
{
    vstd::arithmetic::div_mod::lemma_div_is_ordered(a + b / 2, b * m + b / 2, b);
    assert((b * m + b / 2) / b == m) by {
        vstd::arithmetic::div_mod::lemma_div_multiples_vanish_fancy(m, b / 2, b);
    }
    vstd::arithmetic::div_mod::lemma_div_pos_is_pos(a + b / 2, b);
}

/// Negation of one channel: `sample' = maxval - sample`.
pub open spec fn negate_channel(s: Seq<PxVal>, mv: PxVal) -> Seq<PxVal> {
    Seq::new(s.len(), |i: int| (mv - s[i]) as PxVal)
}

/// Brightening of one channel: `sample' = clamp(sample + amount, 0, maxval)`.
pub open spec fn brighten_channel(s: Seq<PxVal>, mv: PxVal, amount: int) -> Seq<PxVal> {
    Seq::new(s.len(), |i: int| clamp_to(0, mv as int, s[i] + amount) as PxVal)
}

/// The standard luma weights, rounded to the nearest integer and clamped:
/// `sample' = clamp(round(0.299 r + 0.587 g + 0.114 b), 0, maxval)`.
pub open spec fn luma_channel(r: Seq<PxVal>, g: Seq<PxVal>, b: Seq<PxVal>, mv: PxVal) -> Seq<
    PxVal,
> {
    Seq::new(
        r.len(),
        |i: int|
            clamp_to(0, mv as int, div_round(299 * r[i] + 587 * g[i] + 114 * b[i], 1000)) as PxVal,
    )
}

/// The smallest sample of a channel (0 for an empty channel).
pub open spec fn seq_lo(s: Seq<PxVal>) -> PxVal
    decreases s.len(),
{
    if s.len() == 0 {
        0
    } else if s.len() == 1 {
        s[0]
    } else {
        let m = seq_lo(s.drop_last());
        if s.last() < m {
            s.last()
        } else {
            m
        }
    }
}

/// The largest sample of a channel (0 for an empty channel).
pub open spec fn seq_hi(s: Seq<PxVal>) -> PxVal
    decreases s.len(),
{
    if s.len() == 0 {
        0
    } else if s.len() == 1 {
        s[0]
    } else {
        let m = seq_hi(s.drop_last());
        if s.last() > m {
            s.last()
        } else {
            m
        }
    }
}

/// Every sample lies between the channel's extremes.
proof fn lemma_seq_lo_hi(s: Seq<PxVal>)
    ensures
        forall|i: int| 0 <= i < s.len() ==> seq_lo(s) <= s[i] && s[i] <= seq_hi(s),
    decreases s.len(),
{
    if s.len() > 1 {
        lemma_seq_lo_hi(s.drop_last());
        assert forall|i: int| 0 <= i < s.len() implies seq_lo(s) <= s[i] && s[i] <= seq_hi(s) by {
            if i < s.len() - 1 {
                assert(s.drop_last()[i] == s[i]);
            }
        }
    }
}

/// Linear histogram stretch of one channel: with `lo` and `hi` the
/// channel's extremes, `sample' = round((sample - lo) * maxval / (hi - lo))`;
/// a constant channel is left unchanged.
pub open spec fn contrast_channel(s: Seq<PxVal>, mv: PxVal) -> Seq<PxVal> {
    let lo = seq_lo(s);
    let hi = seq_hi(s);
    if hi == lo {
        s
    } else {
        Seq::new(s.len(), |i: int| div_round((s[i] - lo) * mv, hi - lo) as PxVal)
    }
}

/// `a` forced into `[0, n - 1]`: the edge-clamped (replicated) coordinate.
pub open spec fn clamp_coord(a: int, n: int) -> int {
    if a < 0 {
        0
    } else if a >= n {
        n - 1
    } else {
        a
    }
}

/// The sample of a `w` by `h` channel at `(x, y)`, with edge-clamped
/// coordinates.
pub open spec fn px_at(s: Seq<PxVal>, w: int, h: int, x: int, y: int) -> int {
    s[clamp_coord(y, h) * w + clamp_coord(x, w)] as int
}

/// The sum of the 3-by-3 neighborhood of `(x, y)`.
pub open spec fn smooth_sum(s: Seq<PxVal>, w: int, h: int, x: int, y: int) -> int {
    px_at(s, w, h, x - 1, y - 1) + px_at(s, w, h, x, y - 1) + px_at(s, w, h, x + 1, y - 1) + px_at(
        s,
        w,
        h,
        x - 1,
        y,
    ) + px_at(s, w, h, x, y) + px_at(s, w, h, x + 1, y) + px_at(s, w, h, x - 1, y + 1) + px_at(
        s,
        w,
        h,
        x,
        y + 1,
    ) + px_at(s, w, h, x + 1, y + 1)
}

/// 3-by-3 box blur of one channel: all nine weights equal, normalized
/// by 9, with edge-clamped border sampling.
pub open spec fn smooth_channel(s: Seq<PxVal>, w: int, h: int) -> Seq<PxVal> {
    Seq::new((w * h) as nat, |i: int| div_round(smooth_sum(s, w, h, i % w, i / w), 9) as PxVal)
}

/// The sharpening kernel at `(x, y)`: center weight 5, the four
/// orthogonal neighbors weight -1, clamped to `[0, maxval]`.
pub open spec fn sharpen_at(s: Seq<PxVal>, w: int, h: int, mv: PxVal, x: int, y: int) -> int {
    clamp_to(
        0,
        mv as int,
        5 * px_at(s, w, h, x, y) - px_at(s, w, h, x, y - 1) - px_at(s, w, h, x - 1, y) - px_at(
            s,
            w,
            h,
            x + 1,
            y,
        ) - px_at(s, w, h, x, y + 1),
    )
}

/// 3-by-3 sharpening of one channel, with edge-clamped border sampling.
pub open spec fn sharpen_channel(s: Seq<PxVal>, w: int, h: int, mv: PxVal) -> Seq<PxVal> {
    Seq::new((w * h) as nat, |i: int| sharpen_at(s, w, h, mv, i % w, i / w) as PxVal)
}

/// Negation of a whole image, per channel.
pub open spec fn spec_negate(v: ImageView) -> ImageView {
    match v {
        ImageView::Gray(g) => ImageView::Gray(
            GrayView {
                width: g.width,
                height: g.height,
                maxval: g.maxval,
                pixels: negate_channel(g.pixels, g.maxval),
            },
        ),
        ImageView::Color(c) => ImageView::Color(
            ColorView {
                width: c.width,
                height: c.height,
                maxval: c.maxval,
                rpixels: negate_channel(c.rpixels, c.maxval),
                gpixels: negate_channel(c.gpixels, c.maxval),
                bpixels: negate_channel(c.bpixels, c.maxval),
            },
        ),
    }
}

/// Brightening of a whole image, per channel.
pub open spec fn spec_brighten(v: ImageView, amount: int) -> ImageView {
    match v {
        ImageView::Gray(g) => ImageView::Gray(
            GrayView {
                width: g.width,
                height: g.height,
                maxval: g.maxval,
                pixels: brighten_channel(g.pixels, g.maxval, amount),
            },
        ),
        ImageView::Color(c) => ImageView::Color(
            ColorView {
                width: c.width,
                height: c.height,
                maxval: c.maxval,
                rpixels: brighten_channel(c.rpixels, c.maxval, amount),
                gpixels: brighten_channel(c.gpixels, c.maxval, amount),
                bpixels: brighten_channel(c.bpixels, c.maxval, amount),
            },
        ),
    }
}

/// Grayscale conversion: the luma of a color image; the identity on an
/// image that is already gray.
pub open spec fn spec_grayscale(v: ImageView) -> ImageView {
    match v {
        ImageView::Gray(g) => ImageView::Gray(g),
        ImageView::Color(c) => ImageView::Gray(
            GrayView {
                width: c.width,
                height: c.height,
                maxval: c.maxval,
                pixels: luma_channel(c.rpixels, c.gpixels, c.bpixels, c.maxval),
            },
        ),
    }
}

/// Contrast stretch of a whole image, per channel.
pub open spec fn spec_contrast(v: ImageView) -> ImageView {
    match v {
        ImageView::Gray(g) => ImageView::Gray(
            GrayView {
                width: g.width,
                height: g.height,
                maxval: g.maxval,
                pixels: contrast_channel(g.pixels, g.maxval),
            },
        ),
        ImageView::Color(c) => ImageView::Color(
            ColorView {
                width: c.width,
                height: c.height,
                maxval: c.maxval,
                rpixels: contrast_channel(c.rpixels, c.maxval),
                gpixels: contrast_channel(c.gpixels, c.maxval),
                bpixels: contrast_channel(c.bpixels, c.maxval),
            },
        ),
    }
}

/// Box blur of a whole image, per channel.
pub open spec fn spec_smooth(v: ImageView) -> ImageView {
    match v {
        ImageView::Gray(g) => ImageView::Gray(
            GrayView {
                width: g.width,
                height: g.height,
                maxval: g.maxval,
                pixels: smooth_channel(g.pixels, g.width as int, g.height as int),
            },
        ),
        ImageView::Color(c) => ImageView::Color(
            ColorView {
                width: c.width,
                height: c.height,
                maxval: c.maxval,
                rpixels: smooth_channel(c.rpixels, c.width as int, c.height as int),
                gpixels: smooth_channel(c.gpixels, c.width as int, c.height as int),
                bpixels: smooth_channel(c.bpixels, c.width as int, c.height as int),
            },
        ),
    }
}

/// Sharpening of a whole image, per channel.
pub open spec fn spec_sharpen(v: ImageView) -> ImageView {
    match v {
        ImageView::Gray(g) => ImageView::Gray(
            GrayView {
                width: g.width,
                height: g.height,
                maxval: g.maxval,
                pixels: sharpen_channel(g.pixels, g.width as int, g.height as int, g.maxval),
            },
        ),
        ImageView::Color(c) => ImageView::Color(
            ColorView {
                width: c.width,
                height: c.height,
                maxval: c.maxval,
                rpixels: sharpen_channel(c.rpixels, c.width as int, c.height as int, c.maxval),
                gpixels: sharpen_channel(c.gpixels, c.width as int, c.height as int, c.maxval),
                bpixels: sharpen_channel(c.bpixels, c.width as int, c.height as int, c.maxval),
            },
        ),
    }
}


/// A fresh copy of one channel buffer.
fn copy_channel(s: &Vec<PxVal>) -> (out: Vec<PxVal>)
    ensures
        out@ == s@,
{
    let mut out: Vec<PxVal> = Vec::new();
    let mut i: usize = 0;
    while i < s.len()
        invariant
            0 <= i <= s@.len(),
            out@ == s@.subrange(0, i as int),
        decreases s@.len() - i,
    {
        out.push(s[i]);
        proof {
            assert(out@ =~= s@.subrange(0, i + 1));
        }
        i = i + 1;
    }
    proof {
        assert(out@ =~= s@);
    }
    out
}

/// Negates one channel.
fn negate_px(s: &Vec<PxVal>, mv: PxVal) -> (out: Vec<PxVal>)
    requires
        all_le(s@, mv),
    ensures
        out@ == negate_channel(s@, mv),
        all_le(out@, mv),
{
    let mut out: Vec<PxVal> = Vec::new();
    let mut i: usize = 0;
    while i < s.len()
        invariant
            0 <= i <= s@.len(),
            all_le(s@, mv),
            out@ == negate_channel(s@, mv).subrange(0, i as int),
        decreases s@.len() - i,
    {
        assert(s@[i as int] <= mv);
        out.push(mv - s[i]);
        proof {
            assert(out@ =~= negate_channel(s@, mv).subrange(0, i + 1));
        }
        i = i + 1;
    }
    proof {
        assert(out@ =~= negate_channel(s@, mv));
        assert forall|j: int| 0 <= j < out@.len() implies out@[j] <= mv by {
            assert(out@[j] == (mv - s@[j]) as PxVal);
        }
    }
    out
}

/// Brightens one channel, clamping each sample into `[0, maxval]`.
fn brighten_px(s: &Vec<PxVal>, mv: PxVal, amount: i32) -> (out: Vec<PxVal>)
    ensures
        out@ == brighten_channel(s@, mv, amount as int),
        all_le(out@, mv),
{
    let mut out: Vec<PxVal> = Vec::new();
    let mut i: usize = 0;
    while i < s.len()
        invariant
            0 <= i <= s@.len(),
            out@ == brighten_channel(s@, mv, amount as int).subrange(0, i as int),
            all_le(out@, mv),
        decreases s@.len() - i,
    {
        let v: i64 = (s[i] as i64) + (amount as i64);
        let px: PxVal = if v < 0 {
            0
        } else if v > mv as i64 {
            mv
        } else {
            v as PxVal
        };
        assert(px as int == clamp_to(0, mv as int, s@[i as int] + amount));
        out.push(px);
        proof {
            assert(out@ =~= brighten_channel(s@, mv, amount as int).subrange(0, i + 1));
        }
        i = i + 1;
    }
    proof {
        assert(out@ =~= brighten_channel(s@, mv, amount as int));
    }
    out
}

/// Converts three color channels to one gray channel by the luma weights.
fn luma_px(r: &Vec<PxVal>, g: &Vec<PxVal>, b: &Vec<PxVal>, mv: PxVal) -> (out: Vec<PxVal>)
    requires
        r@.len() == g@.len(),
        r@.len() == b@.len(),
    ensures
        out@ == luma_channel(r@, g@, b@, mv),
        all_le(out@, mv),
{
    let mut out: Vec<PxVal> = Vec::new();
    let mut i: usize = 0;
    while i < r.len()
        invariant
            0 <= i <= r@.len(),
            r@.len() == g@.len(),
            r@.len() == b@.len(),
            out@ == luma_channel(r@, g@, b@, mv).subrange(0, i as int),
            all_le(out@, mv),
        decreases r@.len() - i,
    {
        let sum: u64 = 299 * (r[i] as u64) + 587 * (g[i] as u64) + 114 * (b[i] as u64);
        let q: u64 = (sum + 500) / 1000;
        let px: PxVal = if q > mv as u64 {
            mv
        } else {
            q as PxVal
        };
        proof {
            vstd::arithmetic::div_mod::lemma_div_pos_is_pos(sum as int + 500, 1000);
            assert(px as int == clamp_to(
                0,
                mv as int,
                div_round(299 * r@[i as int] + 587 * g@[i as int] + 114 * b@[i as int], 1000),
            ));
        }
        out.push(px);
        proof {
            assert(out@ =~= luma_channel(r@, g@, b@, mv).subrange(0, i + 1));
        }
        i = i + 1;
    }
    proof {
        assert(out@ =~= luma_channel(r@, g@, b@, mv));
    }
    out
}

/// The smallest sample of a nonempty channel.
fn lo_of(s: &Vec<PxVal>) -> (r: PxVal)
    requires
        s@.len() >= 1,
    ensures
        r == seq_lo(s@),
{
    let mut m: PxVal = s[0];
    proof {
        assert(s@.subrange(0, 1) =~= seq![s@[0]]);
    }
    let mut i: usize = 1;
    while i < s.len()
        invariant
            1 <= i <= s@.len(),
            m == seq_lo(s@.subrange(0, i as int)),
        decreases s@.len() - i,
    {
        let ghost pre2 = s@.subrange(0, i + 1);
        proof {
            assert(pre2.drop_last() =~= s@.subrange(0, i as int));
            assert(pre2.last() == s@[i as int]);
        }
        if s[i] < m {
            m = s[i];
        }
        i = i + 1;
    }
    proof {
        assert(s@.subrange(0, s@.len() as int) =~= s@);
    }
    m
}

/// The largest sample of a nonempty channel.
fn hi_of(s: &Vec<PxVal>) -> (r: PxVal)
    requires
        s@.len() >= 1,
    ensures
        r == seq_hi(s@),
{
    let mut m: PxVal = s[0];
    proof {
        assert(s@.subrange(0, 1) =~= seq![s@[0]]);
    }
    let mut i: usize = 1;
    while i < s.len()
        invariant
            1 <= i <= s@.len(),
            m == seq_hi(s@.subrange(0, i as int)),
        decreases s@.len() - i,
    {
        let ghost pre2 = s@.subrange(0, i + 1);
        proof {
            assert(pre2.drop_last() =~= s@.subrange(0, i as int));
            assert(pre2.last() == s@[i as int]);
        }
        if s[i] > m {
            m = s[i];
        }
        i = i + 1;
    }
    proof {
        assert(s@.subrange(0, s@.len() as int) =~= s@);
    }
    m
}

/// Stretches the histogram of one channel linearly onto `[0, maxval]`.
fn contrast_px(s: &Vec<PxVal>, mv: PxVal) -> (out: Vec<PxVal>)
    requires
        s@.len() >= 1,
    ensures
        out@ == contrast_channel(s@, mv),
        all_le(out@, mv) || out@ == s@,
{
    let lo = lo_of(s);
    let hi = hi_of(s);
    if hi == lo {
        let out = copy_channel(s);
        return out;
    }
    proof {
        lemma_seq_lo_hi(s@);
    }
    let d: u64 = (hi - lo) as u64;
    let mut out: Vec<PxVal> = Vec::new();
    let mut i: usize = 0;
    while i < s.len()
        invariant
            0 <= i <= s@.len(),
            lo == seq_lo(s@),
            hi == seq_hi(s@),
            lo < hi,
            d == hi - lo,
            forall|j: int| 0 <= j < s@.len() ==> lo <= #[trigger] s@[j] <= hi,
            out@ == contrast_channel(s@, mv).subrange(0, i as int),
            all_le(out@, mv),
        decreases s@.len() - i,
    {
        assert(lo <= s@[i as int] <= hi);
        let diff: PxVal = s[i] - lo;
        proof {
            assert((diff as int) * (mv as int) <= (hi - lo) * (mv as int) && 0 <= (diff as int) * (
            mv as int) && (diff as int) * (mv as int) < 0x1_0000_0000) by (nonlinear_arith)
                requires
                    0 <= diff <= hi - lo,
                    lo < hi <= 0xffff,
                    0 <= mv <= 0xffff,
            ;
        }
        let num: u64 = (diff as u64) * (mv as u64);
        proof {
            lemma_div_round_bounds(num as int, d as int, mv as int);
        }
        let q: u64 = (num + d / 2) / d;
        out.push(q as PxVal);
        proof {
            assert(q as int == div_round((s@[i as int] - lo) * mv, hi - lo));
            assert(out@ =~= contrast_channel(s@, mv).subrange(0, i + 1));
        }
        i = i + 1;
    }
    proof {
        assert(out@ =~= contrast_channel(s@, mv));
    }
    out
}

/// The sample at `(x, y)` of a `w` by `h` channel.
fn at(s: &Vec<PxVal>, w: usize, h: usize, x: usize, y: usize) -> (r: PxVal)
    requires
        x < w,
        y < h,
        s@.len() == w * h,
    ensures
        r as int == px_at(s@, w as int, h as int, x as int, y as int),
{
    let n = s.len();
    assert(n == w * h);
    proof {
        assert((y as int) * (w as int) + (x as int) < (w as int) * (h as int)) by (nonlinear_arith)
            requires
                0 <= x < w,
                0 <= y < h,
        ;
        assert(clamp_coord(y as int, h as int) == y as int);
        assert(clamp_coord(x as int, w as int) == x as int);
    }
    s[y * w + x]
}


/// Box-blurs one `w` by `h` channel.
#[verifier::rlimit(100)]
fn smooth_px(s: &Vec<PxVal>, w: usize, h: usize, mv: PxVal) -> (out: Vec<PxVal>)
    requires
        w >= 1,
        h >= 1,
        s@.len() == w * h,
        all_le(s@, mv),
    ensures
        out@ == smooth_channel(s@, w as int, h as int),
        all_le(out@, mv),
{
    let n = s.len();
    assert(n == w * h);
    let ghost target = smooth_channel(s@, w as int, h as int);
    let mut out: Vec<PxVal> = Vec::new();
    let mut y: usize = 0;
    while y < h
        invariant
            0 <= y <= h,
            w >= 1,
            h >= 1,
            s@.len() == w * h,
            w * h <= usize::MAX,
            all_le(s@, mv),
            target == smooth_channel(s@, w as int, h as int),
            out@ == target.subrange(0, (y * w) as int),
            all_le(out@, mv),
        decreases h - y,
    {
        let mut x: usize = 0;
        proof {
            assert((y as int) * (w as int) + 0 <= (w as int) * (h as int)) by (nonlinear_arith)
                requires
                    0 <= y < h,
                    w >= 1,
            ;
        }
        while x < w
            invariant
                0 <= x <= w,
                0 <= y < h,
                w >= 1,
                h >= 1,
                s@.len() == w * h,
                w * h <= usize::MAX,
                all_le(s@, mv),
                target == smooth_channel(s@, w as int, h as int),
                out@ == target.subrange(0, (y * w + x) as int),
                all_le(out@, mv),
            decreases w - x,
        {
            proof {
                assert((y as int) * (w as int) + (x as int) < (w as int) * (h as int))
                    by (nonlinear_arith)
                    requires
                        0 <= x < w,
                        0 <= y < h,
                ;
            }
            let xm = if x > 0 { x - 1 } else { 0 };
            let xp = if x + 1 < w { x + 1 } else { x };
            let ym = if y > 0 { y - 1 } else { 0 };
            let yp = if y + 1 < h { y + 1 } else { y };
            let sum: u64 = (at(s, w, h, xm, ym) as u64) + (at(s, w, h, x, ym) as u64) + (at(
                s,
                w,
                h,
                xp,
                ym,
            ) as u64) + (at(s, w, h, xm, y) as u64) + (at(s, w, h, x, y) as u64) + (at(
                s,
                w,
                h,
                xp,
                y,
            ) as u64) + (at(s, w, h, xm, yp) as u64) + (at(s, w, h, x, yp) as u64) + (at(
                s,
                w,
                h,
                xp,
                yp,
            ) as u64);
            proof {
                let wi = w as int;
                let hi = h as int;
                let xi = x as int;
                let yi = y as int;
                assert(clamp_coord(xm as int, wi) == clamp_coord(xi - 1, wi));
                assert(clamp_coord(xp as int, wi) == clamp_coord(xi + 1, wi));
                assert(clamp_coord(ym as int, hi) == clamp_coord(yi - 1, hi));
                assert(clamp_coord(yp as int, hi) == clamp_coord(yi + 1, hi));
                assert(sum as int == smooth_sum(s@, wi, hi, xi, yi));
                assert forall|a: int, b: int| 0 <= a < wi && 0 <= b < hi implies 0 <= #[trigger] px_at(
                    s@,
                    wi,
                    hi,
                    a,
                    b,
                ) <= mv by {
                    assert(0 <= b * wi + a < wi * hi) by (nonlinear_arith)
                        requires
                            0 <= a < wi,
                            0 <= b < hi,
                    ;
                    assert(s@[b * wi + a] <= mv);
                }
                lemma_div_round_bounds(sum as int, 9, mv as int);
            }
            let q: u64 = (sum + 4) / 9;
            let idx = y * w + x;
            proof {
                vstd::arithmetic::div_mod::lemma_fundamental_div_mod_converse(
                    idx as int,
                    w as int,
                    y as int,
                    x as int,
                );
                assert(target[idx as int] == (div_round(
                    smooth_sum(s@, w as int, h as int, x as int, y as int),
                    9,
                )) as PxVal);
            }
            out.push(q as PxVal);
            proof {
                assert(out@ =~= target.subrange(0, idx + 1));
            }
            x = x + 1;
        }
        proof {
            assert((y as int + 1) * (w as int) == (y as int) * (w as int) + (w as int))
                by (nonlinear_arith);
        }
        y = y + 1;
    }
    proof {
        assert((h as int) * (w as int) == (w as int) * (h as int)) by (nonlinear_arith);
        assert(out@ =~= target);
    }
    out
}

/// Sharpens one `w` by `h` channel.
#[verifier::rlimit(100)]
fn sharpen_px(s: &Vec<PxVal>, w: usize, h: usize, mv: PxVal) -> (out: Vec<PxVal>)
    requires
        w >= 1,
        h >= 1,
        s@.len() == w * h,
    ensures
        out@ == sharpen_channel(s@, w as int, h as int, mv),
        all_le(out@, mv),
{
    let n = s.len();
    assert(n == w * h);
    let ghost target = sharpen_channel(s@, w as int, h as int, mv);
    let mut out: Vec<PxVal> = Vec::new();
    let mut y: usize = 0;
    while y < h
        invariant
            0 <= y <= h,
            w >= 1,
            h >= 1,
            s@.len() == w * h,
            w * h <= usize::MAX,
            target == sharpen_channel(s@, w as int, h as int, mv),
            out@ == target.subrange(0, (y * w) as int),
            all_le(out@, mv),
        decreases h - y,
    {
        let mut x: usize = 0;
        proof {
            assert((y as int) * (w as int) + 0 <= (w as int) * (h as int)) by (nonlinear_arith)
                requires
                    0 <= y < h,
                    w >= 1,
            ;
        }
        while x < w
            invariant
                0 <= x <= w,
                0 <= y < h,
                w >= 1,
                h >= 1,
                s@.len() == w * h,
                w * h <= usize::MAX,
                target == sharpen_channel(s@, w as int, h as int, mv),
                out@ == target.subrange(0, (y * w + x) as int),
                all_le(out@, mv),
            decreases w - x,
        {
            proof {
                assert((y as int) * (w as int) + (x as int) < (w as int) * (h as int))
                    by (nonlinear_arith)
                    requires
                        0 <= x < w,
                        0 <= y < h,
                ;
            }
            let xm = if x > 0 { x - 1 } else { 0 };
            let xp = if x + 1 < w { x + 1 } else { x };
            let ym = if y > 0 { y - 1 } else { 0 };
            let yp = if y + 1 < h { y + 1 } else { y };
            let c = at(s, w, h, x, y);
            let up = at(s, w, h, x, ym);
            let lf = at(s, w, h, xm, y);
            let rt = at(s, w, h, xp, y);
            let dn = at(s, w, h, x, yp);
            let v: i64 = 5 * (c as i64) - (up as i64) - (lf as i64) - (rt as i64) - (dn as i64);
            let px: PxVal = if v < 0 {
                0
            } else if v > mv as i64 {
                mv
            } else {
                v as PxVal
            };
            let idx = y * w + x;
            proof {
                let wi = w as int;
                let hi = h as int;
                let xi = x as int;
                let yi = y as int;
                assert(clamp_coord(xm as int, wi) == clamp_coord(xi - 1, wi));
                assert(clamp_coord(xp as int, wi) == clamp_coord(xi + 1, wi));
                assert(clamp_coord(ym as int, hi) == clamp_coord(yi - 1, hi));
                assert(clamp_coord(yp as int, hi) == clamp_coord(yi + 1, hi));
                assert(px as int == sharpen_at(s@, wi, hi, mv, xi, yi));
                vstd::arithmetic::div_mod::lemma_fundamental_div_mod_converse(
                    idx as int,
                    w as int,
                    y as int,
                    x as int,
                );
                assert(target[idx as int] == sharpen_at(s@, wi, hi, mv, xi, yi) as PxVal);
            }
            out.push(px);
            proof {
                assert(out@ =~= target.subrange(0, idx + 1));
            }
            x = x + 1;
        }
        proof {
            assert((y as int + 1) * (w as int) == (y as int) * (w as int) + (w as int))
                by (nonlinear_arith);
        }
        y = y + 1;
    }
    proof {
        assert((h as int) * (w as int) == (w as int) * (h as int)) by (nonlinear_arith);
        assert(out@ =~= target);
    }
    out
}


/// The six pixel-level manipulations, available uniformly on gray
/// images, color images, and the tagged image type. Every operator is a
/// pure function of its input: it returns a fresh, well-formed image
/// whose samples are within `[0, maxval]`.
pub trait ImageManip {
    /// The mathematical model of the image being manipulated.
    spec fn img(&self) -> ImageView;

    /// `sample' = clamp(sample + amount, 0, maxval)`, per channel.
    fn brighten(&self, amount: i32) -> (r: Image)
        requires
            self.img().wf(),
            self.img().bounded(),
        ensures
            r@ == spec_brighten(self.img(), amount as int),
            r@.wf(),
            r@.bounded(),
    ;

    /// Linear histogram stretch, per channel; a constant channel is left
    /// unchanged.
    fn contrast(&self) -> (r: Image)
        requires
            self.img().wf(),
            self.img().bounded(),
        ensures
            r@ == spec_contrast(self.img()),
            r@.wf(),
            r@.bounded(),
    ;

    /// Luma conversion of a color image; the identity on a gray image.
    fn grayscale(&self) -> (r: Image)
        requires
            self.img().wf(),
            self.img().bounded(),
        ensures
            r@ == spec_grayscale(self.img()),
            r@.wf(),
            r@.bounded(),
    ;

    /// `sample' = maxval - sample`, per channel.
    fn negate(&self) -> (r: Image)
        requires
            self.img().wf(),
            self.img().bounded(),
        ensures
            r@ == spec_negate(self.img()),
            r@.wf(),
            r@.bounded(),
    ;

    /// 3-by-3 sharpening convolution, edge-clamped, per channel.
    fn sharpen(&self) -> (r: Image)
        requires
            self.img().wf(),
            self.img().bounded(),
        ensures
            r@ == spec_sharpen(self.img()),
            r@.wf(),
            r@.bounded(),
    ;

    /// 3-by-3 box blur, edge-clamped, per channel.
    fn smooth(&self) -> (r: Image)
        requires
            self.img().wf(),
            self.img().bounded(),
        ensures
            r@ == spec_smooth(self.img()),
            r@.wf(),
            r@.bounded(),
    ;
}

impl ImageManip for GrayImage {
    open spec fn img(&self) -> ImageView {
        ImageView::Gray(self@)
    }

    fn brighten(&self, amount: i32) -> (r: Image) {
        let pixels = brighten_px(&self.pixels, self.maxval, amount);
        Image(
            ImageType::Grayscale(
                GrayImage {
                    width: self.width,
                    height: self.height,
                    maxval: self.maxval,
                    pixels,
                },
            ),
        )
    }

    fn contrast(&self) -> (r: Image) {
        proof {
            assert((self.width as int) * (self.height as int) >= 1) by (nonlinear_arith)
                requires
                    self.width >= 1,
                    self.height >= 1,
            ;
        }
        let pixels = contrast_px(&self.pixels, self.maxval);
        Image(
            ImageType::Grayscale(
                GrayImage {
                    width: self.width,
                    height: self.height,
                    maxval: self.maxval,
                    pixels,
                },
            ),
        )
    }

    fn grayscale(&self) -> (r: Image) {
        let pixels = copy_channel(&self.pixels);
        Image(
            ImageType::Grayscale(
                GrayImage {
                    width: self.width,
                    height: self.height,
                    maxval: self.maxval,
                    pixels,
                },
            ),
        )
    }

    fn negate(&self) -> (r: Image) {
        let pixels = negate_px(&self.pixels, self.maxval);
        Image(
            ImageType::Grayscale(
                GrayImage {
                    width: self.width,
                    height: self.height,
                    maxval: self.maxval,
                    pixels,
                },
            ),
        )
    }

    fn sharpen(&self) -> (r: Image) {
        let pixels = sharpen_px(&self.pixels, self.width, self.height, self.maxval);
        Image(
            ImageType::Grayscale(
                GrayImage {
                    width: self.width,
                    height: self.height,
                    maxval: self.maxval,
                    pixels,
                },
            ),
        )
    }

    fn smooth(&self) -> (r: Image) {
        let pixels = smooth_px(&self.pixels, self.width, self.height, self.maxval);
        Image(
            ImageType::Grayscale(
                GrayImage {
                    width: self.width,
                    height: self.height,
                    maxval: self.maxval,
                    pixels,
                },
            ),
        )
    }
}

impl ImageManip for ColorImage {
    open spec fn img(&self) -> ImageView {
        ImageView::Color(self@)
    }

    fn brighten(&self, amount: i32) -> (r: Image) {
        Image(
            ImageType::Color(
                ColorImage {
                    width: self.width,
                    height: self.height,
                    maxval: self.maxval,
                    rpixels: brighten_px(&self.rpixels, self.maxval, amount),
                    gpixels: brighten_px(&self.gpixels, self.maxval, amount),
                    bpixels: brighten_px(&self.bpixels, self.maxval, amount),
                },
            ),
        )
    }

    fn contrast(&self) -> (r: Image) {
        proof {
            assert((self.width as int) * (self.height as int) >= 1) by (nonlinear_arith)
                requires
                    self.width >= 1,
                    self.height >= 1,
            ;
        }
        Image(
            ImageType::Color(
                ColorImage {
                    width: self.width,
                    height: self.height,
                    maxval: self.maxval,
                    rpixels: contrast_px(&self.rpixels, self.maxval),
                    gpixels: contrast_px(&self.gpixels, self.maxval),
                    bpixels: contrast_px(&self.bpixels, self.maxval),
                },
            ),
        )
    }

    fn grayscale(&self) -> (r: Image) {
        let pixels = luma_px(&self.rpixels, &self.gpixels, &self.bpixels, self.maxval);
        Image(
            ImageType::Grayscale(
                GrayImage {
                    width: self.width,
                    height: self.height,
                    maxval: self.maxval,
                    pixels,
                },
            ),
        )
    }

    fn negate(&self) -> (r: Image) {
        Image(
            ImageType::Color(
                ColorImage {
                    width: self.width,
                    height: self.height,
                    maxval: self.maxval,
                    rpixels: negate_px(&self.rpixels, self.maxval),
                    gpixels: negate_px(&self.gpixels, self.maxval),
                    bpixels: negate_px(&self.bpixels, self.maxval),
                },
            ),
        )
    }

    fn sharpen(&self) -> (r: Image) {
        Image(
            ImageType::Color(
                ColorImage {
                    width: self.width,
                    height: self.height,
                    maxval: self.maxval,
                    rpixels: sharpen_px(&self.rpixels, self.width, self.height, self.maxval),
                    gpixels: sharpen_px(&self.gpixels, self.width, self.height, self.maxval),
                    bpixels: sharpen_px(&self.bpixels, self.width, self.height, self.maxval),
                },
            ),
        )
    }

    fn smooth(&self) -> (r: Image) {
        Image(
            ImageType::Color(
                ColorImage {
                    width: self.width,
                    height: self.height,
                    maxval: self.maxval,
                    rpixels: smooth_px(&self.rpixels, self.width, self.height, self.maxval),
                    gpixels: smooth_px(&self.gpixels, self.width, self.height, self.maxval),
                    bpixels: smooth_px(&self.bpixels, self.width, self.height, self.maxval),
                },
            ),
        )
    }
}

impl ImageManip for Image {
    open spec fn img(&self) -> ImageView {
        self@
    }

    fn brighten(&self, amount: i32) -> (r: Image) {
        match &self.0 {
            ImageType::Grayscale(g) => g.brighten(amount),
            ImageType::Color(c) => c.brighten(amount),
        }
    }

    fn contrast(&self) -> (r: Image) {
        match &self.0 {
            ImageType::Grayscale(g) => g.contrast(),
            ImageType::Color(c) => c.contrast(),
        }
    }

    fn grayscale(&self) -> (r: Image) {
        match &self.0 {
            ImageType::Grayscale(g) => g.grayscale(),
            ImageType::Color(c) => c.grayscale(),
        }
    }

    fn negate(&self) -> (r: Image) {
        match &self.0 {
            ImageType::Grayscale(g) => g.negate(),
            ImageType::Color(c) => c.negate(),
        }
    }

    fn sharpen(&self) -> (r: Image) {
        match &self.0 {
            ImageType::Grayscale(g) => g.sharpen(),
            ImageType::Color(c) => c.sharpen(),
        }
    }

    fn smooth(&self) -> (r: Image) {
        match &self.0 {
            ImageType::Grayscale(g) => g.smooth(),
            ImageType::Color(c) => c.smooth(),
        }
    }
}


/// A fresh copy of an image.
fn copy_image(image: &Image) -> (r: Image)
    ensures
        r@ == image@,
{
    match &image.0 {
        ImageType::Grayscale(g) => Image(
            ImageType::Grayscale(
                GrayImage {
                    width: g.width,
                    height: g.height,
                    maxval: g.maxval,
                    pixels: copy_channel(&g.pixels),
                },
            ),
        ),
        ImageType::Color(c) => Image(
            ImageType::Color(
                ColorImage {
                    width: c.width,
                    height: c.height,
                    maxval: c.maxval,
                    rpixels: copy_channel(&c.rpixels),
                    gpixels: copy_channel(&c.gpixels),
                    bpixels: copy_channel(&c.bpixels),
                },
            ),
        ),
    }
}

/// What applying a selected manipulation yields.
pub open spec fn spec_apply(v: ImageView, op: ManipOption) -> ImageView {
    match op {
        ManipOption::DoNothing => v,
        ManipOption::Negate => spec_negate(v),
        ManipOption::Brighten(n) => spec_brighten(v, n as int),
        ManipOption::Sharpen => spec_sharpen(v),
        ManipOption::Smooth => spec_smooth(v),
        ManipOption::Grayscale => spec_grayscale(v),
        ManipOption::Contrast => spec_contrast(v),
    }
}

/// Two brighten amounts at or above the largest possible sample value
/// act identically: every sample clamps to maxval.
proof fn lemma_brighten_saturates(v: ImageView, a: int, b: int)
    requires
        a >= 65535,
        b >= 65535,
    ensures
        spec_brighten(v, a) == spec_brighten(v, b),
{
    match v {
        ImageView::Gray(g) => {
            assert(brighten_channel(g.pixels, g.maxval, a) =~= brighten_channel(
                g.pixels,
                g.maxval,
                b,
            ));
        },
        ImageView::Color(c) => {
            assert(brighten_channel(c.rpixels, c.maxval, a) =~= brighten_channel(
                c.rpixels,
                c.maxval,
                b,
            ));
            assert(brighten_channel(c.gpixels, c.maxval, a) =~= brighten_channel(
                c.gpixels,
                c.maxval,
                b,
            ));
            assert(brighten_channel(c.bpixels, c.maxval, a) =~= brighten_channel(
                c.bpixels,
                c.maxval,
                b,
            ));
        },
    }
}

/// Applies the selected manipulation to an image, returning a new,
/// well-formed, bounded image; `DoNothing` returns the image unchanged.
pub fn apply(image: &Image, op: ManipOption) -> (r: Image)
    requires
        image@.wf(),
        image@.bounded(),
    ensures
        r@ == spec_apply(image@, op),
        r@.wf(),
        r@.bounded(),
{
    match op {
        ManipOption::DoNothing => copy_image(image),
        ManipOption::Negate => image.negate(),
        ManipOption::Brighten(n) => {
            let amt: i32 = if n > (i32::MAX as usize) {
                i32::MAX
            } else {
                n as i32
            };
            let r = image.brighten(amt);
            proof {
                if n > (i32::MAX as usize) {
                    lemma_brighten_saturates(image@, amt as int, n as int);
                }
            }
            r
        },
        ManipOption::Sharpen => image.sharpen(),
        ManipOption::Smooth => image.smooth(),
        ManipOption::Grayscale => image.grayscale(),
        ManipOption::Contrast => image.contrast(),
    }
}

/// Negation is an involution: negating twice gives back the image.
pub proof fn lemma_negate_involutive(v: ImageView)
    requires
        v.wf(),
        v.bounded(),
    ensures
        spec_negate(spec_negate(v)) == v,
{
    match v {
        ImageView::Gray(g) => {
            assert(negate_channel(negate_channel(g.pixels, g.maxval), g.maxval) =~= g.pixels);
        },
        ImageView::Color(c) => {
            assert(negate_channel(negate_channel(c.rpixels, c.maxval), c.maxval) =~= c.rpixels);
            assert(negate_channel(negate_channel(c.gpixels, c.maxval), c.maxval) =~= c.gpixels);
            assert(negate_channel(negate_channel(c.bpixels, c.maxval), c.maxval) =~= c.bpixels);
        },
    }
}

/// Brightening clamps: whatever the amount's sign or magnitude, every
/// sample of the result is within `[0, maxval]`.
pub proof fn lemma_brighten_bounded(v: ImageView, amount: int)
    ensures
        spec_brighten(v, amount).bounded(),
{
    match v {
        ImageView::Gray(g) => {
            assert forall|i: int|
                0 <= i < brighten_channel(g.pixels, g.maxval, amount).len() implies #[trigger]
            brighten_channel(g.pixels, g.maxval, amount)[i] <= g.maxval by {}
        },
        ImageView::Color(c) => {
            assert forall|i: int|
                0 <= i < brighten_channel(c.rpixels, c.maxval, amount).len() implies #[trigger]
            brighten_channel(c.rpixels, c.maxval, amount)[i] <= c.maxval by {}
            assert forall|i: int|
                0 <= i < brighten_channel(c.gpixels, c.maxval, amount).len() implies #[trigger]
            brighten_channel(c.gpixels, c.maxval, amount)[i] <= c.maxval by {}
            assert forall|i: int|
                0 <= i < brighten_channel(c.bpixels, c.maxval, amount).len() implies #[trigger]
            brighten_channel(c.bpixels, c.maxval, amount)[i] <= c.maxval by {}
        },
    }
}

/// Grayscale conversion is the identity on an image that is already
/// gray.
pub proof fn lemma_grayscale_identity(g: GrayView)
    ensures
        spec_grayscale(ImageView::Gray(g)) == ImageView::Gray(g),
{
}

} // verus!
