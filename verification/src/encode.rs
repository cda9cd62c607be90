//! The raster encoder: serializes an image back to raw or ascii PPM/PGM
//! bytes. The canonical header is `"P{2,3,5,6}\n{width} {height}\n{maxval}\n"`;
//! raw encoding emits one byte per sample, or two big-endian bytes when
//! `maxval >= 256`, matching the decoder's width rule exactly, and ascii
//! encoding emits the samples as space-separated decimal tokens.

use vstd::prelude::*;
use crate::header::{all_digits, dec_value, RasterType};
use crate::image::{ImageType, Image, ImageView, PxVal};

verus! {

/// The decimal digit string of `n`, most significant digit first; any
/// negative argument is rendered like zero.
pub open spec fn dec_digits(n: int) -> Seq<u8>
    decreases n,
{
    if n <= 0 {
        seq![48u8]
    } else if n < 10 {
        seq![(48 + n) as u8]
    } else {
        dec_digits(n / 10) + seq![(48 + n % 10) as u8]
    }
}

/// The digit string of `n` consists of decimal digits only.
pub proof fn lemma_dec_digits_digits(n: int)
    ensures
        dec_digits(n).len() >= 1,
        all_digits(dec_digits(n)),
    decreases n,
{
    if n >= 10 {
        lemma_dec_digits_digits(n / 10);
        assert forall|i: int| 0 <= i < dec_digits(n).len() implies crate::header::is_digit(
            dec_digits(n)[i],
        ) by {
            if i < dec_digits(n / 10).len() {
                assert(dec_digits(n)[i] == dec_digits(n / 10)[i]);
            }
        }
    }
}

/// Rendering and then reading back a decimal number is the identity.
pub proof fn lemma_dec_digits_value(n: int)
    requires
        n >= 0,
    ensures
        dec_value(dec_digits(n)) == n,
    decreases n,
{
    if n < 10 {
        assert(dec_digits(n).drop_last() =~= Seq::<u8>::empty());
        assert(dec_digits(n).last() == (48 + n) as u8);
        assert(dec_value(dec_digits(n)) == dec_value(Seq::<u8>::empty()) * 10 + ((48 + n) as u8
            - 48));
    } else {
        lemma_dec_digits_value(n / 10);
        assert(dec_digits(n).drop_last() =~= dec_digits(n / 10));
        assert(dec_digits(n).last() == (48 + n % 10) as u8);
        assert(dec_value(dec_digits(n)) == dec_value(dec_digits(n / 10)) * 10 + ((48 + n % 10) as u8
            - 48));
        assert((n / 10) * 10 + n % 10 == n);
    }
}

/// The two magic bytes for a channel kind and raster kind.
pub open spec fn spec_magic(is_color: bool, rk: RasterType) -> Seq<u8> {
    match rk {
        RasterType::Ascii => if is_color {
            seq![80u8, 51u8]
        } else {
            seq![80u8, 50u8]
        },
        RasterType::Raw => if is_color {
            seq![80u8, 54u8]
        } else {
            seq![80u8, 53u8]
        },
    }
}

/// The canonical header: magic, a newline, width and height separated by
/// one space, a newline, maxval, and the single newline after which the
/// raster begins.
pub open spec fn spec_header_bytes(is_color: bool, rk: RasterType, w: int, h: int, mv: int) -> Seq<
    u8,
> {
    spec_magic(is_color, rk) + seq![10u8] + dec_digits(w) + seq![32u8] + dec_digits(h)
        + seq![10u8] + dec_digits(mv) + seq![10u8]
}

/// The flat rgb-interleaved sample sequence of three channel buffers.
pub open spec fn interleave3(r: Seq<PxVal>, g: Seq<PxVal>, b: Seq<PxVal>) -> Seq<PxVal> {
    Seq::new(
        3 * r.len(),
        |i: int|
            if i % 3 == 0 {
                r[i / 3]
            } else if i % 3 == 1 {
                g[i / 3]
            } else {
                b[i / 3]
            },
    )
}

/// The flat sample sequence of an image: the single channel of a gray
/// image, or the three channels of a color image in `(r, g, b)` order.
pub open spec fn flat_of(v: ImageView) -> Seq<PxVal> {
    match v {
        ImageView::Gray(g) => g.pixels,
        ImageView::Color(c) => interleave3(c.rpixels, c.gpixels, c.bpixels),
    }
}

/// One byte per sample.
pub open spec fn raw_bytes8(vals: Seq<PxVal>) -> Seq<u8> {
    Seq::new(vals.len(), |i: int| vals[i] as u8)
}

/// Two big-endian bytes per sample, high byte first.
pub open spec fn raw_bytes16(vals: Seq<PxVal>) -> Seq<u8> {
    Seq::new(
        2 * vals.len(),
        |i: int|
            if i % 2 == 0 {
                (vals[i / 2] / 256) as u8
            } else {
                (vals[i / 2] % 256) as u8
            },
    )
}

/// The samples as space-separated decimal tokens.
pub open spec fn ascii_bytes(vals: Seq<PxVal>) -> Seq<u8>
    decreases vals.len(),
{
    if vals.len() == 0 {
        Seq::empty()
    } else if vals.len() == 1 {
        dec_digits(vals[0] as int)
    } else {
        dec_digits(vals[0] as int) + seq![32u8] + ascii_bytes(vals.drop_first())
    }
}

/// Appending one more sample to a nonempty token run appends one space
/// and its digits.
pub proof fn lemma_ascii_bytes_push(vals: Seq<PxVal>, x: PxVal)
    requires
        vals.len() >= 1,
    ensures
        ascii_bytes(vals.push(x)) == ascii_bytes(vals) + seq![32u8] + dec_digits(x as int),
    decreases vals.len(),
{
    if vals.len() == 1 {
        let p = vals.push(x);
        assert(p.drop_first() =~= seq![x]);
        assert(ascii_bytes(p.drop_first()) == dec_digits(x as int));
    } else {
        lemma_ascii_bytes_push(vals.drop_first(), x);
        assert(vals.push(x).drop_first() =~= vals.drop_first().push(x));
        assert(ascii_bytes(vals.push(x)) == dec_digits(vals[0] as int) + seq![32u8] + ascii_bytes(
            vals.drop_first().push(x),
        ));
        assert((dec_digits(vals[0] as int) + seq![32u8] + ascii_bytes(vals.drop_first()))
            + seq![32u8] + dec_digits(x as int) =~= dec_digits(vals[0] as int) + seq![32u8] + (
        ascii_bytes(vals.drop_first()) + seq![32u8] + dec_digits(x as int)));
    }
}

/// The raster bytes of a flat sample sequence in the requested
/// representation; `maxval` selects the raw byte width.
pub open spec fn raster_bytes(vals: Seq<PxVal>, maxval: int, rk: RasterType) -> Seq<u8> {
    match rk {
        RasterType::Ascii => ascii_bytes(vals),
        RasterType::Raw => if maxval < 256 {
            raw_bytes8(vals)
        } else {
            raw_bytes16(vals)
        },
    }
}

/// What encoding an image yields: the canonical header followed by the
/// raster in the requested representation.
pub open spec fn spec_encode(v: ImageView, rk: RasterType) -> Seq<u8> {
    spec_header_bytes(v is Color, rk, v.width() as int, v.height() as int, v.maxval() as int)
        + raster_bytes(flat_of(v), v.maxval() as int, rk)
}

/// Appends the decimal digits of `n` to `out`.
fn push_dec(out: &mut Vec<u8>, n: usize)
    ensures
        final(out)@ == old(out)@ + dec_digits(n as int),
    decreases n,
{
    if n < 10 {
        out.push(48 + (n as u8));
        proof {
            assert(out@ =~= old(out)@ + dec_digits(n as int));
        }
    } else {
        push_dec(out, n / 10);
        out.push(48 + ((n % 10) as u8));
        proof {
            assert(out@ =~= old(out)@ + dec_digits(n as int));
        }
    }
}

/// Renders an ascii raster: space-separated decimal sample tokens.
fn ascii_raster(vals: &Vec<PxVal>) -> (out: Vec<u8>)
    ensures
        out@ == ascii_bytes(vals@),
{
    let mut out: Vec<u8> = Vec::new();
    let mut i: usize = 0;
    while i < vals.len()
        invariant
            0 <= i <= vals@.len(),
            out@ == ascii_bytes(vals@.subrange(0, i as int)),
        decreases vals@.len() - i,
    {
        let ghost pre = vals@.subrange(0, i as int);
        if i > 0 {
            out.push(32);
            push_dec(&mut out, vals[i] as usize);
            proof {
                lemma_ascii_bytes_push(pre, vals@[i as int]);
                assert(pre.push(vals@[i as int]) =~= vals@.subrange(0, i + 1));
                assert(out@ =~= ascii_bytes(vals@.subrange(0, i + 1)));
            }
        } else {
            push_dec(&mut out, vals[i] as usize);
            proof {
                assert(vals@.subrange(0, 1) =~= seq![vals@[0]]);
                assert(out@ =~= ascii_bytes(vals@.subrange(0, i + 1)));
            }
        }
        i = i + 1;
    }
    proof {
        assert(vals@.subrange(0, vals@.len() as int) =~= vals@);
    }
    out
}

/// Renders a raw 8-bit raster: one byte per sample.
fn raw8_raster(vals: &Vec<PxVal>) -> (out: Vec<u8>)
    requires
        forall|i: int| 0 <= i < vals@.len() ==> vals@[i] < 256,
    ensures
        out@ == raw_bytes8(vals@),
{
    let mut out: Vec<u8> = Vec::new();
    let mut i: usize = 0;
    while i < vals.len()
        invariant
            0 <= i <= vals@.len(),
            forall|j: int| 0 <= j < vals@.len() ==> vals@[j] < 256,
            out@.len() == i,
            forall|j: int| 0 <= j < i ==> out@[j] == vals@[j] as u8,
        decreases vals@.len() - i,
    {
        out.push(vals[i] as u8);
        i = i + 1;
    }
    proof {
        assert(out@ =~= raw_bytes8(vals@));
    }
    out
}

/// Renders a raw 16-bit raster: two big-endian bytes per sample.
fn raw16_raster(vals: &Vec<PxVal>) -> (out: Vec<u8>)
    ensures
        out@ == raw_bytes16(vals@),
{
    let mut out: Vec<u8> = Vec::new();
    let mut i: usize = 0;
    while i < vals.len()
        invariant
            0 <= i <= vals@.len(),
            out@.len() == 2 * i,
            forall|j: int|
                0 <= j < i ==> out@[2 * j] == (vals@[j] / 256) as u8 && out@[2 * j + 1] == (
                vals@[j] % 256) as u8,
        decreases vals@.len() - i,
    {
        out.push((vals[i] / 256) as u8);
        out.push((vals[i] % 256) as u8);
        i = i + 1;
    }
    proof {
        assert forall|k: int| 0 <= k < out@.len() implies out@[k] == raw_bytes16(vals@)[k] by {
            let j = k / 2;
            if k % 2 == 0 {
                assert(k == 2 * j);
            } else {
                assert(k == 2 * j + 1);
            }
        }
        assert(out@ =~= raw_bytes16(vals@));
    }
    out
}

/// The flat interleaved samples of three channel buffers of equal length.
fn interleave(r: &Vec<PxVal>, g: &Vec<PxVal>, b: &Vec<PxVal>) -> (out: Vec<PxVal>)
    requires
        r@.len() == g@.len(),
        r@.len() == b@.len(),
    ensures
        out@ == interleave3(r@, g@, b@),
{
    let mut out: Vec<PxVal> = Vec::new();
    let mut i: usize = 0;
    while i < r.len()
        invariant
            0 <= i <= r@.len(),
            r@.len() == g@.len(),
            r@.len() == b@.len(),
            out@.len() == 3 * i,
            forall|j: int|
                0 <= j < i ==> out@[3 * j] == r@[j] && out@[3 * j + 1] == g@[j] && out@[3 * j
                    + 2] == b@[j],
        decreases r@.len() - i,
    {
        out.push(r[i]);
        out.push(g[i]);
        out.push(b[i]);
        i = i + 1;
    }
    proof {
        assert forall|k: int| 0 <= k < out@.len() implies out@[k] == interleave3(r@, g@, b@)[k] by {
            let j = k / 3;
            if k % 3 == 0 {
                assert(k == 3 * j);
            } else if k % 3 == 1 {
                assert(k == 3 * j + 1);
            } else {
                assert(k == 3 * j + 2);
            }
        }
        assert(out@ =~= interleave3(r@, g@, b@));
    }
    out
}

/// Serializes an image to PGM/PPM bytes in the requested raster kind.
///
/// The image must be well-formed with every sample within `[0, maxval]`;
/// the output decodes back to the same image (see
/// [`crate::laws::lemma_round_trip`]).
pub fn encode(img: &Image, raster_kind: RasterType) -> (out: Vec<u8>)
    requires
        img@.wf(),
        img@.bounded(),
    ensures
        out@ == spec_encode(img@, raster_kind),
{
    let mut out: Vec<u8> = Vec::new();
    let is_color = match &img.0 {
        ImageType::Grayscale(_) => false,
        ImageType::Color(_) => true,
    };
    out.push(80);
    match raster_kind {
        RasterType::Ascii => if is_color {
            out.push(51);
        } else {
            out.push(50);
        },
        RasterType::Raw => if is_color {
            out.push(54);
        } else {
            out.push(53);
        },
    }
    out.push(10);
    let (w, h, mv) = match &img.0 {
        ImageType::Grayscale(gi) => (gi.width, gi.height, gi.maxval),
        ImageType::Color(ci) => (ci.width, ci.height, ci.maxval),
    };
    push_dec(&mut out, w);
    out.push(32);
    push_dec(&mut out, h);
    out.push(10);
    push_dec(&mut out, mv as usize);
    out.push(10);
    proof {
        assert(out@ =~= spec_header_bytes(
            img@ is Color,
            raster_kind,
            img@.width() as int,
            img@.height() as int,
            img@.maxval() as int,
        ));
    }
    let ghost hdr = out@;
    let mut raster: Vec<u8> = match &img.0 {
        ImageType::Grayscale(gi) => match raster_kind {
            RasterType::Ascii => ascii_raster(&gi.pixels),
            RasterType::Raw => if gi.maxval < 256 {
                raw8_raster(&gi.pixels)
            } else {
                raw16_raster(&gi.pixels)
            },
        },
        ImageType::Color(ci) => {
            let flat = interleave(&ci.rpixels, &ci.gpixels, &ci.bpixels);
            match raster_kind {
                RasterType::Ascii => ascii_raster(&flat),
                RasterType::Raw => if ci.maxval < 256 {
                    raw8_raster(&flat)
                } else {
                    raw16_raster(&flat)
                },
            }
        },
    };
    out.append(&mut raster);
    out
}

} // verus!
