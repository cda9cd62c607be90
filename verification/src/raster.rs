//! The raster decoder: converts the raw bytes that follow a parsed header
//! into the canonical pixel buffers, validating the declared size against
//! the actual size, uniformly over ascii/raw, gray/color and 8/16-bit
//! samples, and the `decode` entry point that ties the magic classifier,
//! the header scanner and the raster decoder together.

use vstd::prelude::*;
use crate::header::{
    is_space, parse_dec, spec_read, HeaderView, ImageHeader,
};
use crate::image::{
    ColorImage, ColorView, FormatError, GrayImage, GrayView, Image, ImageType, ImageView, PxVal,
};

verus! {

/// The flat sample sequence of a raw 8-bit raster: one byte per sample,
/// widened.
pub open spec fn raw_samples8(r: Seq<u8>) -> Seq<PxVal> {
    Seq::new(r.len(), |i: int| r[i] as PxVal)
}

/// The flat sample sequence of a raw 16-bit raster: two bytes per sample,
/// big-endian, high byte first.
pub open spec fn raw_samples16(r: Seq<u8>) -> Seq<PxVal> {
    Seq::new(r.len() / 2, |i: int| (r[2 * i] * 256 + r[2 * i + 1]) as PxVal)
}

/// Parsing a raw raster that should hold `n` samples: `maxval` selects the
/// per-sample byte width, and a length that does not match is a size
/// mismatch.
pub open spec fn spec_raw_samples(r: Seq<u8>, n: int, maxval: int) -> Result<
    Seq<PxVal>,
    FormatError,
> {
    if maxval < 256 {
        if r.len() == n {
            Ok(raw_samples8(r))
        } else {
            Err(FormatError::SizeMismatch)
        }
    } else {
        if r.len() == 2 * n {
            Ok(raw_samples16(r))
        } else {
            Err(FormatError::SizeMismatch)
        }
    }
}

/// One pass of the ascii raster tokenizer from position `i`: splits the
/// bytes on whitespace runs and parses every token as a decimal sample
/// value (at most 65535); the first bad token fails the parse.
pub open spec fn px_from(
    r: Seq<u8>,
    i: int,
    in_tok: bool,
    tok_start: int,
    vals: Seq<PxVal>,
) -> Result<Seq<PxVal>, FormatError>
    decreases r.len() - i,
{
    if i < 0 {
        Err(FormatError::InvalidAsciiRaster)
    } else if i >= r.len() {
        if in_tok {
            match parse_dec(r.subrange(tok_start, r.len() as int), 65535) {
                Some(v) => Ok(vals.push(v as PxVal)),
                None => Err(FormatError::InvalidAsciiRaster),
            }
        } else {
            Ok(vals)
        }
    } else {
        let ch = r[i];
        if in_tok {
            if is_space(ch) {
                match parse_dec(r.subrange(tok_start, i), 65535) {
                    Some(v) => px_from(r, i + 1, false, tok_start, vals.push(v as PxVal)),
                    None => Err(FormatError::InvalidAsciiRaster),
                }
            } else {
                px_from(r, i + 1, true, tok_start, vals)
            }
        } else {
            if is_space(ch) {
                px_from(r, i + 1, false, tok_start, vals)
            } else {
                px_from(r, i + 1, true, i, vals)
            }
        }
    }
}

/// The flat sample sequence of an ascii raster, or the error of its first
/// bad token.
pub open spec fn spec_ascii_samples(r: Seq<u8>) -> Result<Seq<PxVal>, FormatError> {
    px_from(r, 0, false, 0, Seq::empty())
}

/// The flat sample sequence of a raster in either representation, expected
/// to hold `n` samples: a raw raster of the wrong byte length, or an ascii
/// raster of the wrong token count, is a size mismatch.
pub open spec fn spec_samples(raster: Seq<u8>, is_ascii: bool, maxval: int, n: int) -> Result<
    Seq<PxVal>,
    FormatError,
> {
    if is_ascii {
        match spec_ascii_samples(raster) {
            Ok(vals) => if vals.len() == n {
                Ok(vals)
            } else {
                Err(FormatError::SizeMismatch)
            },
            Err(e) => Err(e),
        }
    } else {
        spec_raw_samples(raster, n, maxval)
    }
}

/// Whether the three header numbers are legal: positive dimensions and
/// `1 <= maxval < 65536`.
pub open spec fn header_params_ok(h: HeaderView) -> bool {
    1 <= h.width && 1 <= h.height && 1 <= h.maxval && h.maxval < 65536
}

/// Every third sample of a flat rgb-interleaved sequence, starting at
/// channel offset `off`.
pub open spec fn take_every3(vals: Seq<PxVal>, off: int) -> Seq<PxVal> {
    Seq::new(vals.len() / 3, |i: int| vals[3 * i + off])
}

/// What extracting a grayscale image from a parsed header yields.
pub open spec fn spec_gray_from_header(h: HeaderView) -> Result<GrayView, FormatError> {
    if !header_params_ok(h) {
        Err(FormatError::InvalidParam)
    } else {
        match spec_samples(h.raster, h.is_ascii_raster, h.maxval as int, (h.width * h.height) as int) {
            Ok(vals) => Ok(
                GrayView { width: h.width, height: h.height, maxval: h.maxval as PxVal, pixels: vals },
            ),
            Err(e) => Err(e),
        }
    }
}

/// What extracting a color image from a parsed header yields: the flat
/// samples are consumed in `(r, g, b)` triples per pixel, row-major.
pub open spec fn spec_color_from_header(h: HeaderView) -> Result<ColorView, FormatError> {
    if !header_params_ok(h) {
        Err(FormatError::InvalidParam)
    } else {
        match spec_samples(
            h.raster,
            h.is_ascii_raster,
            h.maxval as int,
            (3 * h.width * h.height) as int,
        ) {
            Ok(vals) => Ok(
                ColorView {
                    width: h.width,
                    height: h.height,
                    maxval: h.maxval as PxVal,
                    rpixels: take_every3(vals, 0),
                    gpixels: take_every3(vals, 1),
                    bpixels: take_every3(vals, 2),
                },
            ),
            Err(e) => Err(e),
        }
    }
}

/// What decoding a whole file yields.
pub open spec fn spec_decode(bytes: Seq<u8>) -> Result<ImageView, FormatError> {
    match spec_read(bytes) {
        Err(e) => Err(e),
        Ok(h) => if h.is_color {
            match spec_color_from_header(h) {
                Ok(c) => Ok(ImageView::Color(c)),
                Err(e) => Err(e),
            }
        } else {
            match spec_gray_from_header(h) {
                Ok(g) => Ok(ImageView::Gray(g)),
                Err(e) => Err(e),
            }
        },
    }
}

/// Parses the decimal sample token `bytes[from..to]`, failing on an empty
/// slice, a non-digit byte, or a value above 65535.
fn parse_px_range(bytes: &[u8], from: usize, to: usize) -> (r: Option<PxVal>)
    requires
        from <= to <= bytes@.len(),
    ensures
        ({
            let t = bytes@.subrange(from as int, to as int);
            match r {
                Some(v) => parse_dec(t, 65535) == Some(v as int),
                None => parse_dec(t, 65535) is None,
            }
        }),
{
    match crate::header::parse_dec_range(bytes, from, to) {
        Some(v) => if v <= 65535 {
            Some(v as PxVal)
        } else {
            None
        },
        None => None,
    }
}

/// Parses an ascii raster into its flat sample sequence.
fn ascii_samples(r: &[u8]) -> (out: Result<Vec<PxVal>, FormatError>)
    ensures
        match out {
            Ok(vals) => spec_ascii_samples(r@) == Ok::<Seq<PxVal>, FormatError>(vals@),
            Err(e) => spec_ascii_samples(r@) == Err::<Seq<PxVal>, FormatError>(e),
        },
{
    let mut vals: Vec<PxVal> = Vec::new();
    let mut i: usize = 0;
    let mut in_tok = false;
    let mut tok_start: usize = 0;
    while i < r.len()
        invariant
            0 <= i <= r@.len(),
            tok_start <= i,
            spec_ascii_samples(r@) == px_from(r@, i as int, in_tok, tok_start as int, vals@),
        decreases r@.len() - i,
    {
        let ch = r[i];
        let space = ch == 32 || ch == 9 || ch == 10 || ch == 12 || ch == 13;
        if in_tok {
            if space {
                match parse_px_range(r, tok_start, i) {
                    Some(v) => {
                        vals.push(v);
                        in_tok = false;
                    },
                    None => {
                        return Err(FormatError::InvalidAsciiRaster);
                    },
                }
            }
        } else {
            if !space {
                tok_start = i;
                in_tok = true;
            }
        }
        i = i + 1;
    }
    if in_tok {
        match parse_px_range(r, tok_start, r.len()) {
            Some(v) => {
                vals.push(v);
            },
            None => {
                return Err(FormatError::InvalidAsciiRaster);
            },
        }
    }
    Ok(vals)
}

/// Parses a raw raster with one byte per sample.
fn raw8_samples(r: &[u8]) -> (vals: Vec<PxVal>)
    ensures
        vals@ == raw_samples8(r@),
{
    let mut vals: Vec<PxVal> = Vec::new();
    let mut i: usize = 0;
    while i < r.len()
        invariant
            0 <= i <= r@.len(),
            vals@.len() == i,
            forall|j: int| 0 <= j < i ==> vals@[j] == r@[j] as PxVal,
        decreases r@.len() - i,
    {
        vals.push(r[i] as PxVal);
        i = i + 1;
    }
    proof {
        assert(vals@ =~= raw_samples8(r@));
    }
    vals
}

/// Parses a raw raster of two-byte big-endian samples.
fn raw16_samples(r: &[u8]) -> (vals: Vec<PxVal>)
    requires
        r@.len() % 2 == 0,
    ensures
        vals@ == raw_samples16(r@),
{
    let n = r.len() / 2;
    let mut vals: Vec<PxVal> = Vec::new();
    let mut i: usize = 0;
    while i < n
        invariant
            0 <= i <= n,
            n == r@.len() / 2,
            2 * n <= r@.len(),
            r@.len() <= usize::MAX,
            vals@.len() == i,
            forall|j: int| 0 <= j < i ==> vals@[j] == (r@[2 * j] * 256 + r@[2 * j + 1]) as PxVal,
        decreases n - i,
    {
        let hi = r[2 * i];
        let lo = r[2 * i + 1];
        let px: PxVal = (hi as PxVal) * 256 + (lo as PxVal);
        vals.push(px);
        i = i + 1;
    }
    proof {
        assert(vals@ =~= raw_samples16(r@));
    }
    vals
}

/// The flat samples of a raster in either representation, checked to hold
/// exactly `channels * w * h` samples.
fn flat_samples(
    raster: &[u8],
    is_ascii: bool,
    maxval: usize,
    w: usize,
    h: usize,
    channels: usize,
) -> (out: Result<Vec<PxVal>, FormatError>)
    requires
        maxval >= 1,
        channels == 1 || channels == 3,
    ensures
        ({
            let n3 = channels * w * h;
            match out {
                Ok(vals) => spec_samples(raster@, is_ascii, maxval as int, n3) == Ok::<
                    Seq<PxVal>,
                    FormatError,
                >(vals@) && vals@.len() == n3,
                Err(e) => spec_samples(raster@, is_ascii, maxval as int, n3) == Err::<
                    Seq<PxVal>,
                    FormatError,
                >(e),
            }
        }),
{
    let ghost n3 = (channels * w * h) as int;
    proof {
        assert((w as int) * (h as int) <= u128::MAX && (channels * w * h) as int == (
        channels as int) * ((w as int) * (h as int)) && (channels as int) * ((w as int) * (
        h as int)) >= (w as int) * (h as int)) by (nonlinear_arith)
            requires
                w <= u64::MAX,
                h <= u64::MAX,
                1 <= channels <= 3,
        ;
    }
    let n: u128 = (w as u128) * (h as u128);
    if is_ascii {
        let vals = match ascii_samples(raster) {
            Ok(v) => v,
            Err(e) => {
                return Err(e);
            },
        };
        let vlen = vals.len();
        if n > (usize::MAX as u128) {
            // more samples than any machine-sized buffer can hold tokens
            assert(vals@.len() < n3);
            return Err(FormatError::SizeMismatch);
        }
        proof {
            assert((channels as int) * (n as int) == n3 && (channels as int) * (n as int) <= 3 * (
            usize::MAX as int)) by (nonlinear_arith)
                requires
                    n == (w as int) * (h as int),
                    n <= usize::MAX,
                    n3 == (channels as int) * ((w as int) * (h as int)),
                    1 <= channels <= 3,
            ;
        }
        let need: u128 = (channels as u128) * n;
        if (vlen as u128) == need {
            Ok(vals)
        } else {
            Err(FormatError::SizeMismatch)
        }
    } else {
        let rlen = raster.len();
        if n > (usize::MAX as u128) {
            // the raster would have to hold at least one byte per sample
            assert(raster@.len() < n3);
            return Err(FormatError::SizeMismatch);
        }
        proof {
            assert((channels as int) * (n as int) == n3 && (channels as int) * (n as int) <= 3 * (
            usize::MAX as int)) by (nonlinear_arith)
                requires
                    n == (w as int) * (h as int),
                    n <= usize::MAX,
                    n3 == (channels as int) * ((w as int) * (h as int)),
                    1 <= channels <= 3,
            ;
        }
        let need: u128 = (channels as u128) * n;
        if maxval < 256 {
            if (rlen as u128) == need {
                Ok(raw8_samples(raster))
            } else {
                Err(FormatError::SizeMismatch)
            }
        } else {
            if (rlen as u128) == 2 * need {
                proof {
                    assert(raster@.len() % 2 == 0) by {
                        assert(raster@.len() == 2 * n3);
                    }
                }
                Ok(raw16_samples(raster))
            } else {
                Err(FormatError::SizeMismatch)
            }
        }
    }
}

impl GrayImage {
    /// Extracts a grayscale image from a parsed header, validating the
    /// header numbers and the raster size; the resulting image is
    /// well-formed.
    pub fn from_header(hdr: ImageHeader<'_>) -> (out: Result<GrayImage, FormatError>)
        ensures
            match out {
                Ok(img) => spec_gray_from_header(hdr@) == Ok::<GrayView, FormatError>(img@)
                    && img@.wf(),
                Err(e) => spec_gray_from_header(hdr@) == Err::<GrayView, FormatError>(e),
            },
    {
        if hdr.width == 0 || hdr.height == 0 || hdr.maxval == 0 || hdr.maxval > 65535 {
            return Err(FormatError::InvalidParam);
        }
        let pixels = match flat_samples(
            hdr.raster,
            hdr.is_ascii_raster,
            hdr.maxval,
            hdr.width,
            hdr.height,
            1,
        ) {
            Ok(v) => v,
            Err(e) => {
                return Err(e);
            },
        };
        Ok(
            GrayImage {
                width: hdr.width,
                height: hdr.height,
                maxval: hdr.maxval as PxVal,
                pixels,
            },
        )
    }
}

impl ColorImage {
    /// Extracts a color image from a parsed header, validating the header
    /// numbers and the raster size, and distributing the flat samples into
    /// the three channel buffers in `(r, g, b)` order; the resulting image
    /// is well-formed.
    pub fn from_header(hdr: ImageHeader<'_>) -> (out: Result<ColorImage, FormatError>)
        ensures
            match out {
                Ok(img) => spec_color_from_header(hdr@) == Ok::<ColorView, FormatError>(img@)
                    && img@.wf(),
                Err(e) => spec_color_from_header(hdr@) == Err::<ColorView, FormatError>(e),
            },
    {
        if hdr.width == 0 || hdr.height == 0 || hdr.maxval == 0 || hdr.maxval > 65535 {
            return Err(FormatError::InvalidParam);
        }
        let vals = match flat_samples(
            hdr.raster,
            hdr.is_ascii_raster,
            hdr.maxval,
            hdr.width,
            hdr.height,
            3,
        ) {
            Ok(v) => v,
            Err(e) => {
                return Err(e);
            },
        };
        // vals holds exactly three samples per pixel, so the pixel count
        // fits in usize
        proof {
            assert(3 * ((hdr.width as int) * (hdr.height as int)) == (3 * hdr@.width * hdr@.height)
                && (hdr.width as int) * (hdr.height as int) <= vals@.len()) by (nonlinear_arith)
                requires
                    vals@.len() == 3 * hdr@.width * hdr@.height,
                    hdr@.width == hdr.width as int,
                    hdr@.height == hdr.height as int,
                    hdr.width >= 0,
                    hdr.height >= 0,
            ;
        }
        let total = vals.len();
        proof {
            assert((hdr.width as int) * (hdr.height as int) <= u128::MAX) by (nonlinear_arith)
                requires
                    hdr.width <= u64::MAX,
                    hdr.height <= u64::MAX,
            ;
        }
        let n128: u128 = (hdr.width as u128) * (hdr.height as u128);
        let count: usize = n128 as usize;
        assert(count == (hdr.width as int) * (hdr.height as int));
        assert(count * 3 == vals@.len());
        let mut rs: Vec<PxVal> = Vec::new();
        let mut gs: Vec<PxVal> = Vec::new();
        let mut bs: Vec<PxVal> = Vec::new();
        let mut i: usize = 0;
        while i < count
            invariant
                0 <= i <= count,
                count * 3 == vals@.len(),
                vals@.len() <= usize::MAX,
                rs@.len() == i,
                gs@.len() == i,
                bs@.len() == i,
                forall|j: int| 0 <= j < i ==> rs@[j] == vals@[3 * j],
                forall|j: int| 0 <= j < i ==> gs@[j] == vals@[3 * j + 1],
                forall|j: int| 0 <= j < i ==> bs@[j] == vals@[3 * j + 2],
            decreases count - i,
        {
            proof {
                assert(3 * (i as int) + 2 < vals@.len()) by (nonlinear_arith)
                    requires
                        0 <= i < count,
                        count * 3 == vals@.len(),
                ;
            }
            rs.push(vals[3 * i]);
            gs.push(vals[3 * i + 1]);
            bs.push(vals[3 * i + 2]);
            i = i + 1;
        }
        proof {
            assert(rs@ =~= take_every3(vals@, 0));
            assert(gs@ =~= take_every3(vals@, 1));
            assert(bs@ =~= take_every3(vals@, 2));
        }
        Ok(
            ColorImage {
                width: hdr.width,
                height: hdr.height,
                maxval: hdr.maxval as PxVal,
                rpixels: rs,
                gpixels: gs,
                bpixels: bs,
            },
        )
    }
}

/// Decodes the full contents of a PGM/PPM file into an image.
///
/// The two magic bytes select the channel and raster kind, the header
/// scanner extracts width, height, maxval and the raster offset, and the
/// raster decoder converts the remaining bytes into pixel buffers. Every
/// malformed input fails with the typed error that [`spec_decode`] assigns
/// to it; every decoded image is well-formed.
pub fn decode(data: &[u8]) -> (out: Result<Image, FormatError>)
    ensures
        match out {
            Ok(img) => spec_decode(data@) == Ok::<ImageView, FormatError>(img@) && img@.wf(),
            Err(e) => spec_decode(data@) == Err::<ImageView, FormatError>(e),
        },
{
    let hdr = match ImageHeader::read(data) {
        Ok(h) => h,
        Err(e) => {
            return Err(e);
        },
    };
    if hdr.is_color {
        match ColorImage::from_header(hdr) {
            Ok(img) => Ok(Image(ImageType::Color(img))),
            Err(e) => Err(e),
        }
    } else {
        match GrayImage::from_header(hdr) {
            Ok(img) => Ok(Image(ImageType::Grayscale(img))),
            Err(e) => Err(e),
        }
    }
}

} // verus!
