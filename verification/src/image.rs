//! The canonical in-memory image model: a tagged union over grayscale and
//! color images, each holding width, height, maxval and one or three
//! equal-length sample buffers.
//!
//! Samples are stored as `u16`, wide enough for every legal `maxval`
//! (`1 <= maxval < 65536`); 8-bit sources are widened losslessly on decode
//! and narrowed again on encode when `maxval < 256`.

use vstd::prelude::*;

verus! {

/// The numeric type that pixel values are stored as, internally.
pub type PxVal = u16;

/// Every sample of `s` is at most `m`.
pub open spec fn all_le(s: Seq<PxVal>, m: PxVal) -> bool {
    forall|i: int| 0 <= i < s.len() ==> s[i] <= m
}

/// `a` and `b` have the same length and agree sample-for-sample up to the
/// scaling implied by `mva` and `mvb`.
pub open spec fn channel_equiv(a: Seq<PxVal>, mva: PxVal, b: Seq<PxVal>, mvb: PxVal) -> bool {
    a.len() == b.len() && forall|i: int| 0 <= i < a.len() ==> scaled_eq(a[i], mva, b[i], mvb)
}

/// The typed errors that decoding can report. Every error is terminal for
/// the decode call that raised it.
#[derive(Debug, Clone, Copy, PartialEq, Eq, Structural)]
pub enum FormatError {
    /// The first two bytes are not one of `P2`, `P3`, `P5`, `P6`, or fewer
    /// than two bytes are available.
    UnrecognizedMagic,
    /// End of input was reached before width, height, maxval and the raster
    /// start were all found.
    TruncatedHeader,
    /// A header token is not a decimal unsigned integer that fits the
    /// machine, or a parsed dimension or maxval is out of its legal range.
    InvalidParam,
    /// The raster byte or token count does not match the count declared by
    /// the header.
    SizeMismatch,
    /// An ascii raster token is not a decimal sample value.
    InvalidAsciiRaster,
}

/// A grayscale image: one sample per pixel, row-major.
#[derive(Debug, Clone, PartialEq)]
pub struct GrayImage {
    pub width: usize,
    pub height: usize,
    pub maxval: PxVal,
    pub pixels: Vec<PxVal>,
}

/// A color image: three equal-length channel buffers, row-major.
#[derive(Debug, Clone, PartialEq)]
pub struct ColorImage {
    pub width: usize,
    pub height: usize,
    pub maxval: PxVal,
    pub rpixels: Vec<PxVal>,
    pub gpixels: Vec<PxVal>,
    pub bpixels: Vec<PxVal>,
}

/// The closed variant set of images this crate works on.
#[derive(Debug, Clone, PartialEq)]
pub enum ImageType {
    Grayscale(GrayImage),
    Color(ColorImage),
}

/// A decoded image, ready for manipulation or encoding.
#[derive(Debug, Clone, PartialEq)]
pub struct Image(pub ImageType);

/// The mathematical model of a grayscale image.
pub struct GrayView {
    pub width: nat,
    pub height: nat,
    pub maxval: PxVal,
    pub pixels: Seq<PxVal>,
}

/// The mathematical model of a color image.
pub struct ColorView {
    pub width: nat,
    pub height: nat,
    pub maxval: PxVal,
    pub rpixels: Seq<PxVal>,
    pub gpixels: Seq<PxVal>,
    pub bpixels: Seq<PxVal>,
}

/// The mathematical model of an image.
pub enum ImageView {
    Gray(GrayView),
    Color(ColorView),
}

impl View for GrayImage {
    type V = GrayView;

    open spec fn view(&self) -> GrayView {
        GrayView {
            width: self.width as nat,
            height: self.height as nat,
            maxval: self.maxval,
            pixels: self.pixels@,
        }
    }
}

impl View for ColorImage {
    type V = ColorView;

    open spec fn view(&self) -> ColorView {
        ColorView {
            width: self.width as nat,
            height: self.height as nat,
            maxval: self.maxval,
            rpixels: self.rpixels@,
            gpixels: self.gpixels@,
            bpixels: self.bpixels@,
        }
    }
}

impl View for Image {
    type V = ImageView;

    open spec fn view(&self) -> ImageView {
        match self.0 {
            ImageType::Grayscale(g) => ImageView::Gray(g@),
            ImageType::Color(c) => ImageView::Color(c@),
        }
    }
}

impl GrayView {
    /// Structural well-formedness: positive dimensions that the machine can
    /// index, a legal maxval, and a sample buffer of exactly one sample per
    /// pixel.
    pub open spec fn wf(self) -> bool {
        &&& 1 <= self.width <= usize::MAX
        &&& 1 <= self.height <= usize::MAX
        &&& 1 <= self.maxval
        &&& self.pixels.len() == self.width * self.height
    }

    /// Every sample is within `[0, maxval]`.
    pub open spec fn bounded(self) -> bool {
        all_le(self.pixels, self.maxval)
    }
}

impl ColorView {
    /// Structural well-formedness: positive dimensions that the machine can
    /// index, a legal maxval, and three channel buffers of exactly one
    /// sample per pixel each.
    pub open spec fn wf(self) -> bool {
        &&& 1 <= self.width <= usize::MAX
        &&& 1 <= self.height <= usize::MAX
        &&& 1 <= self.maxval
        &&& self.rpixels.len() == self.width * self.height
        &&& self.gpixels.len() == self.width * self.height
        &&& self.bpixels.len() == self.width * self.height
    }

    /// Every sample of every channel is within `[0, maxval]`.
    pub open spec fn bounded(self) -> bool {
        &&& all_le(self.rpixels, self.maxval)
        &&& all_le(self.gpixels, self.maxval)
        &&& all_le(self.bpixels, self.maxval)
    }
}

impl ImageView {
    /// Structural well-formedness of either variant.
    pub open spec fn wf(self) -> bool {
        match self {
            ImageView::Gray(g) => g.wf(),
            ImageView::Color(c) => c.wf(),
        }
    }

    /// Every sample is within `[0, maxval]`.
    pub open spec fn bounded(self) -> bool {
        match self {
            ImageView::Gray(g) => g.bounded(),
            ImageView::Color(c) => c.bounded(),
        }
    }

    pub open spec fn width(self) -> nat {
        match self {
            ImageView::Gray(g) => g.width,
            ImageView::Color(c) => c.width,
        }
    }

    pub open spec fn height(self) -> nat {
        match self {
            ImageView::Gray(g) => g.height,
            ImageView::Color(c) => c.height,
        }
    }

    pub open spec fn maxval(self) -> PxVal {
        match self {
            ImageView::Gray(g) => g.maxval,
            ImageView::Color(c) => c.maxval,
        }
    }
}

/// Two samples agree up to the scaling implied by their images' maxvals:
/// `a / mva == b / mvb` as exact rationals.
pub open spec fn scaled_eq(a: PxVal, mva: PxVal, b: PxVal, mvb: PxVal) -> bool {
    a * mvb == b * mva
}

/// Two images carry the same logical content: same variant, same dimensions,
/// and sample-for-sample equality up to maxval scaling.
pub open spec fn spec_equivalent(a: ImageView, b: ImageView) -> bool {
    match (a, b) {
        (ImageView::Gray(x), ImageView::Gray(y)) => {
            &&& x.width == y.width
            &&& x.height == y.height
            &&& channel_equiv(x.pixels, x.maxval, y.pixels, y.maxval)
        },
        (ImageView::Color(x), ImageView::Color(y)) => {
            &&& x.width == y.width
            &&& x.height == y.height
            &&& channel_equiv(x.rpixels, x.maxval, y.rpixels, y.maxval)
            &&& channel_equiv(x.gpixels, x.maxval, y.gpixels, y.maxval)
            &&& channel_equiv(x.bpixels, x.maxval, y.bpixels, y.maxval)
        },
        _ => false,
    }
}

/// Compares two sample buffers up to maxval scaling.
fn channels_scaled_eq(a: &Vec<PxVal>, mva: PxVal, b: &Vec<PxVal>, mvb: PxVal) -> (r: bool)
    ensures
        r == channel_equiv(a@, mva, b@, mvb),
{
    if a.len() != b.len() {
        return false;
    }
    let mut i: usize = 0;
    while i < a.len()
        invariant
            0 <= i <= a@.len(),
            a@.len() == b@.len(),
            forall|j: int| 0 <= j < i ==> scaled_eq(a@[j], mva, b@[j], mvb),
        decreases a@.len() - i,
    {
        let lhs: u64 = a[i] as u64;
        let rhs: u64 = b[i] as u64;
        proof {
            assert(lhs * (mvb as u64) < 0x1_0000_0000 && rhs * (mva as u64) < 0x1_0000_0000)
                by (nonlinear_arith)
                requires
                    lhs < 0x1_0000,
                    rhs < 0x1_0000,
                    mva < 0x1_0000,
                    mvb < 0x1_0000,
            ;
        }
        if lhs * (mvb as u64) != rhs * (mva as u64) {
            assert(!scaled_eq(a@[i as int], mva, b@[i as int], mvb));
            return false;
        }
        i = i + 1;
    }
    true
}

impl Image {
    /// Whether `self` and `other` carry the same logical content: the same
    /// variant and dimensions, and sample-for-sample equality up to maxval
    /// scaling, so that e.g. a `maxval = 15` image and its `maxval = 255`
    /// re-quantization compare as equivalent.
    pub fn equivalent(&self, other: &Image) -> (r: bool)
        ensures
            r == spec_equivalent(self@, other@),
    {
        match (&self.0, &other.0) {
            (ImageType::Grayscale(x), ImageType::Grayscale(y)) => {
                x.width == y.width && x.height == y.height && channels_scaled_eq(
                    &x.pixels,
                    x.maxval,
                    &y.pixels,
                    y.maxval,
                )
            },
            (ImageType::Color(x), ImageType::Color(y)) => {
                x.width == y.width && x.height == y.height && channels_scaled_eq(
                    &x.rpixels,
                    x.maxval,
                    &y.rpixels,
                    y.maxval,
                ) && channels_scaled_eq(&x.gpixels, x.maxval, &y.gpixels, y.maxval)
                    && channels_scaled_eq(&x.bpixels, x.maxval, &y.bpixels, y.maxval)
            },
            _ => false,
        }
    }

    /// Structural well-formedness of the underlying image.
    pub open spec fn wf(self) -> bool {
        self@.wf()
    }

    /// Every sample is within `[0, maxval]`.
    pub open spec fn bounded(self) -> bool {
        self@.bounded()
    }

    /// Runtime check that every sample is within `[0, maxval]`; decoding is
    /// permissive about over-range samples, so a caller that needs the
    /// bound can establish it with this test.
    pub fn is_bounded(&self) -> (r: bool)
        ensures
            r == self@.bounded(),
    {
        match &self.0 {
            ImageType::Grayscale(g) => {
                channel_bounded(&g.pixels, g.maxval)
            },
            ImageType::Color(c) => {
                channel_bounded(&c.rpixels, c.maxval) && channel_bounded(&c.gpixels, c.maxval)
                    && channel_bounded(&c.bpixels, c.maxval)
            },
        }
    }
}

/// Checks that every sample of one channel is at most `maxval`.
fn channel_bounded(v: &Vec<PxVal>, maxval: PxVal) -> (r: bool)
    ensures
        r == all_le(v@, maxval),
{
    let mut i: usize = 0;
    while i < v.len()
        invariant
            0 <= i <= v@.len(),
            forall|j: int| 0 <= j < i ==> v@[j] <= maxval,
        decreases v@.len() - i,
    {
        if v[i] > maxval {
            return false;
        }
        i = i + 1;
    }
    true
}

} // verus!
