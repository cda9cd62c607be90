//! The byte-level header machinery: the magic classifier that maps the
//! 2-byte magic sequence to a channel kind and a raster kind, and the
//! finite-state header scanner that extracts width, height, maxval and the
//! raster start offset from the text that follows, skipping whitespace and
//! `#`-comments independently of the CR/LF/CRLF convention.

use vstd::prelude::*;
use vstd::slice::slice_subrange;
use crate::image::FormatError;

verus! {

/// Whether a byte counts as ASCII whitespace for header and raster
/// tokenization: space, tab, line feed, form feed, carriage return.
pub open spec fn is_space(b: u8) -> bool {
    b == 32 || b == 9 || b == 10 || b == 12 || b == 13
}

/// Whether a byte ends a line: line feed or carriage return, each alone.
pub open spec fn is_line_break(b: u8) -> bool {
    b == 10 || b == 13
}

/// Whether a byte is an ASCII decimal digit.
pub open spec fn is_digit(b: u8) -> bool {
    48 <= b <= 57
}

/// Every byte of `s` is an ASCII decimal digit.
pub open spec fn all_digits(s: Seq<u8>) -> bool {
    forall|i: int| 0 <= i < s.len() ==> is_digit(s[i])
}

/// The number denoted by a digit string, most significant digit first.
pub open spec fn dec_value(s: Seq<u8>) -> int
    decreases s.len(),
{
    if s.len() == 0 {
        0
    } else {
        dec_value(s.drop_last()) * 10 + (s.last() - 48)
    }
}

/// The value of a decimal token, if it is one: nonempty, all digits, and
/// no larger than `limit`.
pub open spec fn parse_dec(s: Seq<u8>, limit: int) -> Option<int> {
    if s.len() >= 1 && all_digits(s) && dec_value(s) <= limit {
        Some(dec_value(s))
    } else {
        None
    }
}

pub proof fn lemma_dec_value_nonneg(s: Seq<u8>)
    requires
        all_digits(s),
    ensures
        dec_value(s) >= 0,
    decreases s.len(),
{
    if s.len() > 0 {
        assert(all_digits(s.drop_last()));
        lemma_dec_value_nonneg(s.drop_last());
    }
}

/// Extending a digit string on the right can only grow its value.
pub proof fn lemma_dec_value_prefix(s: Seq<u8>, k: int)
    requires
        all_digits(s),
        0 <= k <= s.len(),
    ensures
        dec_value(s.subrange(0, k)) <= dec_value(s),
    decreases s.len() - k,
{
    if k < s.len() {
        let t = s.subrange(0, k + 1);
        assert(t.drop_last() =~= s.subrange(0, k));
        assert(all_digits(t.drop_last()));
        lemma_dec_value_nonneg(t.drop_last());
        assert(dec_value(t) == dec_value(s.subrange(0, k)) * 10 + (s[k] - 48));
        lemma_dec_value_prefix(s, k + 1);
        assert(s.subrange(0, s.len() as int) =~= s);
    } else {
        assert(s.subrange(0, k) =~= s);
    }
}

/// The channel kind of an image: one sample per pixel, or an rgb triple.
#[derive(Debug, Clone, Copy, PartialEq, Eq, Structural)]
pub enum ColorType {
    Grayscale,
    Color,
}

/// The raster kind of an image: whitespace-separated decimal text, or
/// packed binary samples.
#[derive(Debug, Clone, Copy, PartialEq, Eq, Structural)]
pub enum RasterType {
    Ascii,
    Raw,
}

/// The classification of the 2-byte magic sequence: `P2`/`P3`/`P5`/`P6`
/// map to grayscale/color crossed with ascii/raw; anything else, or fewer
/// than two bytes, is unrecognized.
pub open spec fn spec_kind(bytes: Seq<u8>) -> Result<(ColorType, RasterType), FormatError> {
    if bytes.len() < 2 || bytes[0] != 80 {
        Err(FormatError::UnrecognizedMagic)
    } else if bytes[1] == 50 {
        Ok((ColorType::Grayscale, RasterType::Ascii))
    } else if bytes[1] == 51 {
        Ok((ColorType::Color, RasterType::Ascii))
    } else if bytes[1] == 53 {
        Ok((ColorType::Grayscale, RasterType::Raw))
    } else if bytes[1] == 54 {
        Ok((ColorType::Color, RasterType::Raw))
    } else {
        Err(FormatError::UnrecognizedMagic)
    }
}

/// The states of the header scanner.
#[derive(Debug, Clone, Copy, PartialEq, Eq, Structural)]
pub enum ScanState {
    /// Just after a line break (or at the start of the scan): a `#` here
    /// opens a comment.
    Newline,
    /// Inside a run of non-line-break whitespace.
    Whitespace,
    /// Inside a `#`-comment; only a line break ends it.
    Comment,
    /// Inside a numeric token that started at the recorded index.
    Value,
}

/// One pass of the header scanner from position `i` in state `st`.
///
/// `tok_start` is the index where the current token began (meaningful only
/// in state `Value`); `vals` holds the values found so far. When the third
/// numeric token (maxval) is terminated at index `i`, the byte offset
/// `i + 1` is recorded as the fourth value: the start of the raster. The
/// scan succeeds as soon as four values are present; running out of input
/// first is a truncated header, and a token that is not a machine-sized
/// decimal number is an invalid parameter.
pub open spec fn scan_from(
    bytes: Seq<u8>,
    i: int,
    st: ScanState,
    tok_start: int,
    vals: Seq<usize>,
) -> Result<Seq<usize>, FormatError>
    decreases bytes.len() - i,
{
    if vals.len() >= 4 {
        Ok(vals)
    } else if i < 0 || i >= bytes.len() {
        Err(FormatError::TruncatedHeader)
    } else {
        let ch = bytes[i];
        match st {
            ScanState::Newline | ScanState::Whitespace => {
                if ch == 35 {
                    scan_from(bytes, i + 1, ScanState::Comment, tok_start, vals)
                } else if is_line_break(ch) {
                    scan_from(bytes, i + 1, ScanState::Newline, tok_start, vals)
                } else if is_space(ch) {
                    scan_from(bytes, i + 1, ScanState::Whitespace, tok_start, vals)
                } else {
                    scan_from(bytes, i + 1, ScanState::Value, i, vals)
                }
            },
            ScanState::Comment => {
                if is_line_break(ch) {
                    scan_from(bytes, i + 1, ScanState::Newline, tok_start, vals)
                } else {
                    scan_from(bytes, i + 1, ScanState::Comment, tok_start, vals)
                }
            },
            ScanState::Value => {
                if is_space(ch) {
                    match parse_dec(bytes.subrange(tok_start, i), usize::MAX as int) {
                        Some(v) => {
                            let next = if is_line_break(ch) {
                                ScanState::Newline
                            } else {
                                ScanState::Whitespace
                            };
                            let vals2 = if vals.len() == 2 {
                                vals.push(v as usize).push((i + 1) as usize)
                            } else {
                                vals.push(v as usize)
                            };
                            scan_from(bytes, i + 1, next, tok_start, vals2)
                        },
                        None => Err(FormatError::InvalidParam),
                    }
                } else {
                    scan_from(bytes, i + 1, ScanState::Value, tok_start, vals)
                }
            },
        }
    }
}

/// The whole header scan: it begins at offset 2, just after the magic
/// sequence, in the `Newline` state. On success the four values are
/// width, height, maxval, and the byte offset where the raster begins.
pub open spec fn spec_scan(bytes: Seq<u8>) -> Result<Seq<usize>, FormatError> {
    scan_from(bytes, 2, ScanState::Newline, 2, Seq::empty())
}

/// The mathematical model of a parsed header.
pub struct HeaderView {
    pub is_color: bool,
    pub is_ascii_raster: bool,
    pub width: nat,
    pub height: nat,
    pub maxval: nat,
    pub raster: Seq<u8>,
}

/// What parsing the metadata of a PGM/PPM file yields: the magic
/// classification, the three header numbers, and the raster bytes that
/// follow the header.
pub open spec fn spec_read(bytes: Seq<u8>) -> Result<HeaderView, FormatError> {
    match spec_kind(bytes) {
        Err(e) => Err(e),
        Ok(k) => match spec_scan(bytes) {
            Err(e) => Err(e),
            Ok(vals) => Ok(
                HeaderView {
                    is_color: k.0 is Color,
                    is_ascii_raster: k.1 is Ascii,
                    width: vals[0] as nat,
                    height: vals[1] as nat,
                    maxval: vals[2] as nat,
                    raster: bytes.subrange(vals[3] as int, bytes.len() as int),
                },
            ),
        },
    }
}

/// A parsed PGM/PPM header: the classified magic, the three header
/// numbers, and a borrow of the raster bytes that follow.
pub struct ImageHeader<'a> {
    pub is_color: bool,
    pub is_ascii_raster: bool,
    pub width: usize,
    pub height: usize,
    pub maxval: usize,
    pub raster: &'a [u8],
}

impl<'a> View for ImageHeader<'a> {
    type V = HeaderView;

    open spec fn view(&self) -> HeaderView {
        HeaderView {
            is_color: self.is_color,
            is_ascii_raster: self.is_ascii_raster,
            width: self.width as nat,
            height: self.height as nat,
            maxval: self.maxval as nat,
            raster: self.raster@,
        }
    }
}

/// Parses the decimal token `bytes[from..to]`, failing on an empty slice,
/// a non-digit byte, or a value that does not fit in `usize`.
pub(crate) fn parse_dec_range(bytes: &[u8], from: usize, to: usize) -> (r: Option<usize>)
    requires
        from <= to <= bytes@.len(),
    ensures
        ({
            let t = bytes@.subrange(from as int, to as int);
            match r {
                Some(v) => parse_dec(t, usize::MAX as int) == Some(v as int),
                None => parse_dec(t, usize::MAX as int) is None,
            }
        }),
{
    let ghost t = bytes@.subrange(from as int, to as int);
    if from == to {
        return None;
    }
    let mut acc: usize = 0;
    let mut j: usize = from;
    while j < to
        invariant
            from <= j <= to <= bytes@.len(),
            t == bytes@.subrange(from as int, to as int),
            all_digits(t.subrange(0, j - from)),
            acc == dec_value(t.subrange(0, j - from)),
        decreases to - j,
    {
        let b = bytes[j];
        assert(t[j - from] == b);
        if b < 48 || b > 57 {
            assert(!is_digit(t[j - from]));
            return None;
        }
        let d = (b - 48) as usize;
        let ghost pre = t.subrange(0, j - from);
        let ghost pre2 = t.subrange(0, j + 1 - from);
        proof {
            assert(pre2.drop_last() =~= pre);
            assert(pre2.last() == b);
            assert(dec_value(pre2) == acc * 10 + d);
            assert(all_digits(pre2));
        }
        let next = match acc.checked_mul(10) {
            Some(x) => x.checked_add(d),
            None => None,
        };
        match next {
            Some(x) => {
                acc = x;
            },
            None => {
                proof {
                    if all_digits(t) {
                        lemma_dec_value_prefix(t, j + 1 - from);
                    }
                }
                return None;
            },
        }
        j = j + 1;
    }
    assert(t.subrange(0, to - from) =~= t);
    Some(acc)
}

impl<'a> ImageHeader<'a> {
    /// Attempts to parse a PGM/PPM image's metadata from its full contents.
    ///
    /// The scan walks the bytes after the magic sequence one at a time
    /// through the four-state machine of [`scan_from`], collecting width,
    /// height and maxval, recording where the raster begins, skipping
    /// comments and treating LF, CR and CRLF alike.
    pub fn read(filedata: &'a [u8]) -> (r: Result<ImageHeader<'a>, FormatError>)
        ensures
            match r {
                Ok(h) => spec_read(filedata@) == Ok::<HeaderView, FormatError>(h@),
                Err(e) => spec_read(filedata@) == Err::<HeaderView, FormatError>(e),
            },
    {
        let (color_kind, raster_kind) = match Self::get_kind(filedata) {
            Ok(k) => k,
            Err(e) => {
                return Err(e);
            },
        };

        let mut i: usize = 2;
        let mut st = ScanState::Newline;
        let mut tok_start: usize = 2;
        let mut vals: Vec<usize> = Vec::new();

        while vals.len() < 4 && i < filedata.len()
            invariant
                2 <= i <= filedata@.len(),
                tok_start <= i,
                vals@.len() <= 4,
                vals@.len() != 3,
                vals@.len() >= 4 ==> vals@[3] <= filedata@.len(),
                spec_kind(filedata@) == Ok::<(ColorType, RasterType), FormatError>(
                    (color_kind, raster_kind),
                ),
                spec_scan(filedata@) == scan_from(
                    filedata@,
                    i as int,
                    st,
                    tok_start as int,
                    vals@,
                ),
            decreases filedata@.len() - i,
        {
            let ch = filedata[i];
            match st {
                ScanState::Newline | ScanState::Whitespace => {
                    if ch == 35 {
                        st = ScanState::Comment;
                    } else if ch == 10 || ch == 13 {
                        st = ScanState::Newline;
                    } else if ch == 32 || ch == 9 || ch == 12 {
                        st = ScanState::Whitespace;
                    } else {
                        tok_start = i;
                        st = ScanState::Value;
                    }
                },
                ScanState::Comment => {
                    if ch == 10 || ch == 13 {
                        st = ScanState::Newline;
                    }
                },
                ScanState::Value => {
                    if ch == 32 || ch == 9 || ch == 10 || ch == 12 || ch == 13 {
                        match parse_dec_range(filedata, tok_start, i) {
                            Some(v) => {
                                vals.push(v);
                                if vals.len() == 3 {
                                    vals.push(i + 1);
                                }
                                st = if ch == 10 || ch == 13 {
                                    ScanState::Newline
                                } else {
                                    ScanState::Whitespace
                                };
                            },
                            None => {
                                return Err(FormatError::InvalidParam);
                            },
                        }
                    }
                },
            }
            i = i + 1;
        }

        if vals.len() == 4 {
            let raster_start = vals[3];
            let raster = slice_subrange(filedata, raster_start, filedata.len());
            Ok(
                ImageHeader {
                    is_color: match color_kind {
                        ColorType::Color => true,
                        ColorType::Grayscale => false,
                    },
                    is_ascii_raster: match raster_kind {
                        RasterType::Ascii => true,
                        RasterType::Raw => false,
                    },
                    width: vals[0],
                    height: vals[1],
                    maxval: vals[2],
                    raster,
                },
            )
        } else {
            Err(FormatError::TruncatedHeader)
        }
    }

    /// Classifies an image's 2-byte magic sequence into its channel kind
    /// and raster kind, or reports it as unrecognized.
    pub fn get_kind(filedata: &[u8]) -> (r: Result<(ColorType, RasterType), FormatError>)
        ensures
            r == spec_kind(filedata@),
    {
        if filedata.len() < 2 {
            return Err(FormatError::UnrecognizedMagic);
        }
        if filedata[0] != 80 {
            return Err(FormatError::UnrecognizedMagic);
        }
        match filedata[1] {
            50 => Ok((ColorType::Grayscale, RasterType::Ascii)),
            51 => Ok((ColorType::Color, RasterType::Ascii)),
            53 => Ok((ColorType::Grayscale, RasterType::Raw)),
            54 => Ok((ColorType::Color, RasterType::Raw)),
            _ => Err(FormatError::UnrecognizedMagic),
        }
    }
}

} // verus!
