//! The laws of the codec: the header scanner reads back exactly what the
//! encoder writes, whatever whitespace, line-ending and comment layout the
//! header uses; and decoding an encoded image returns the image unchanged,
//! for both raster kinds.

use vstd::prelude::*;
use crate::encode::{
    ascii_bytes, dec_digits, flat_of, interleave3, lemma_dec_digits_digits,
    lemma_dec_digits_value, raster_bytes, raw_bytes16, raw_bytes8, spec_encode, spec_magic,
};
use crate::header::{
    is_digit, is_line_break, is_space, parse_dec, scan_from, spec_read, spec_scan, HeaderView,
    RasterType, ScanState,
};
use crate::image::{FormatError, ImageView, PxVal};
use crate::raster::{
    px_from, raw_samples16, raw_samples8, spec_ascii_samples, spec_decode, take_every3,
};

verus! {

/// A state in which the scanner is between tokens and ready to start one.
pub open spec fn resting(st: ScanState) -> bool {
    st is Newline || st is Whitespace
}

/// One transition of the header scanner outside a token; `Value` means a
/// token would start on this byte.
pub open spec fn gap_step(st: ScanState, ch: u8) -> ScanState {
    match st {
        ScanState::Newline | ScanState::Whitespace => {
            if ch == 35 {
                ScanState::Comment
            } else if is_line_break(ch) {
                ScanState::Newline
            } else if is_space(ch) {
                ScanState::Whitespace
            } else {
                ScanState::Value
            }
        },
        ScanState::Comment => if is_line_break(ch) {
            ScanState::Newline
        } else {
            ScanState::Comment
        },
        ScanState::Value => ScanState::Value,
    }
}

/// The scanner state after walking the bytes of `g` from state `st`,
/// never entering a token.
pub open spec fn gap_from(st: ScanState, g: Seq<u8>) -> ScanState
    decreases g.len(),
{
    if g.len() == 0 {
        st
    } else {
        gap_from(gap_step(st, g[0]), g.drop_first())
    }
}

/// A gap: a byte sequence (whitespace and comments) that the scanner
/// walks from either resting state without starting a token, ending in a
/// resting state again.
pub open spec fn is_gap(g: Seq<u8>) -> bool {
    resting(gap_from(ScanState::Newline, g)) && resting(gap_from(ScanState::Whitespace, g))
}

/// Once a token would start, it stays started.
proof fn lemma_gap_value_absorbs(g: Seq<u8>)
    ensures
        gap_from(ScanState::Value, g) == ScanState::Value,
    decreases g.len(),
{
    if g.len() > 0 {
        lemma_gap_value_absorbs(g.drop_first());
    }
}

/// Walking a concatenation is walking the parts in turn.
proof fn lemma_gap_from_concat(st: ScanState, g1: Seq<u8>, g2: Seq<u8>)
    ensures
        gap_from(st, g1 + g2) == gap_from(gap_from(st, g1), g2),
    decreases g1.len(),
{
    if g1.len() == 0 {
        assert(g1 + g2 =~= g2);
    } else {
        assert((g1 + g2)[0] == g1[0]);
        assert((g1 + g2).drop_first() =~= g1.drop_first() + g2);
        lemma_gap_from_concat(gap_step(st, g1[0]), g1.drop_first(), g2);
    }
}

/// Two gaps in a row are a gap.
pub proof fn lemma_gap_concat(g1: Seq<u8>, g2: Seq<u8>)
    requires
        is_gap(g1),
        is_gap(g2),
    ensures
        is_gap(g1 + g2),
{
    lemma_gap_from_concat(ScanState::Newline, g1, g2);
    lemma_gap_from_concat(ScanState::Whitespace, g1, g2);
}

/// A run of whitespace bytes is a gap.
pub proof fn lemma_gap_spaces(g: Seq<u8>)
    requires
        forall|k: int| 0 <= k < g.len() ==> is_space(g[k]),
    ensures
        is_gap(g),
    decreases g.len(),
{
    if g.len() > 0 {
        assert(is_space(g[0]));
        assert(forall|k: int|
            0 <= k < g.drop_first().len() ==> is_space(#[trigger] g.drop_first()[k]));
        lemma_gap_spaces(g.drop_first());
    }
}

/// A comment body never leaves the comment state until its line break.
proof fn lemma_gap_comment_run(body: Seq<u8>, lb: u8)
    requires
        is_line_break(lb),
        forall|k: int| 0 <= k < body.len() ==> !is_line_break(body[k]),
    ensures
        gap_from(ScanState::Comment, body + seq![lb]) == ScanState::Newline,
    decreases body.len(),
{
    if body.len() == 0 {
        assert(body + seq![lb] =~= seq![lb]);
        assert(seq![lb].drop_first() =~= Seq::<u8>::empty());
        assert(gap_from(ScanState::Newline, Seq::<u8>::empty()) == ScanState::Newline);
        assert(gap_step(ScanState::Comment, lb) == ScanState::Newline);
    } else {
        assert((body + seq![lb])[0] == body[0]);
        assert((body + seq![lb]).drop_first() =~= body.drop_first() + seq![lb]);
        assert(forall|k: int|
            0 <= k < body.drop_first().len() ==> !is_line_break(#[trigger] body.drop_first()[k]));
        lemma_gap_comment_run(body.drop_first(), lb);
    }
}

/// A `#`-comment terminated by a line break is a gap.
pub proof fn lemma_gap_comment(body: Seq<u8>, lb: u8)
    requires
        is_line_break(lb),
        forall|k: int| 0 <= k < body.len() ==> !is_line_break(body[k]),
    ensures
        is_gap(seq![35u8] + body + seq![lb]),
{
    let g = seq![35u8] + body + seq![lb];
    assert(g[0] == 35);
    assert(g.drop_first() =~= body + seq![lb]);
    lemma_gap_comment_run(body, lb);
}

/// The scanner passes through a gap without touching the collected
/// values or the token start.
proof fn lemma_scan_thru_gap(
    bytes: Seq<u8>,
    i: int,
    st: ScanState,
    g: Seq<u8>,
    ts: int,
    vals: Seq<usize>,
)
    requires
        !(st is Value),
        !(gap_from(st, g) is Value),
        vals.len() < 4,
        0 <= i,
        i + g.len() <= bytes.len(),
        bytes.subrange(i, i + g.len()) == g,
    ensures
        scan_from(bytes, i, st, ts, vals) == scan_from(bytes, i + g.len(), gap_from(st, g), ts, vals),
    decreases g.len(),
{
    if g.len() > 0 {
        let ch = bytes[i];
        assert(g[0] == ch);
        let st1 = gap_step(st, ch);
        if st1 is Value {
            lemma_gap_value_absorbs(g.drop_first());
            assert(false);
        }
        assert(bytes.subrange(i + 1, i + g.len()) =~= g.drop_first());
        lemma_scan_thru_gap(bytes, i + 1, st1, g.drop_first(), ts, vals);
    }
}

/// The scanner walks a run of digits without leaving the token.
proof fn lemma_scan_digits(bytes: Seq<u8>, i: int, j: int, ts: int, vals: Seq<usize>)
    requires
        vals.len() < 4,
        0 <= i <= j <= bytes.len(),
        forall|k: int| i <= k < j ==> is_digit(bytes[k]),
    ensures
        scan_from(bytes, i, ScanState::Value, ts, vals) == scan_from(
            bytes,
            j,
            ScanState::Value,
            ts,
            vals,
        ),
    decreases j - i,
{
    if i < j {
        assert(is_digit(bytes[i]));
        assert(!is_space(bytes[i]));
        lemma_scan_digits(bytes, i + 1, j, ts, vals);
    }
}

/// The scanner consumes one decimal token and its terminating whitespace
/// byte, recording its value, and, for the third token, the raster start.
proof fn lemma_scan_token(
    bytes: Seq<u8>,
    i: int,
    st: ScanState,
    v: usize,
    c: u8,
    ts: int,
    vals: Seq<usize>,
)
    requires
        resting(st),
        vals.len() < 4,
        0 <= i,
        i + dec_digits(v as int).len() < bytes.len(),
        bytes.subrange(i, i + dec_digits(v as int).len()) == dec_digits(v as int),
        bytes[i + dec_digits(v as int).len()] == c,
        is_space(c),
        i + dec_digits(v as int).len() + 1 <= usize::MAX,
    ensures
        scan_from(bytes, i, st, ts, vals) == scan_from(
            bytes,
            i + dec_digits(v as int).len() + 1,
            if is_line_break(c) {
                ScanState::Newline
            } else {
                ScanState::Whitespace
            },
            i,
            if vals.len() == 2 {
                vals.push(v).push((i + dec_digits(v as int).len() + 1) as usize)
            } else {
                vals.push(v)
            },
        ),
{
    let d = dec_digits(v as int);
    let end = i + d.len();
    lemma_dec_digits_digits(v as int);
    assert(bytes[i] == d[0]);
    assert(is_digit(bytes[i]));
    assert(!is_space(bytes[i]) && bytes[i] != 35);
    // the first digit starts the token
    assert(scan_from(bytes, i, st, ts, vals) == scan_from(bytes, i + 1, ScanState::Value, i, vals));
    // the remaining digits stay in it
    assert forall|k: int| i + 1 <= k < end implies is_digit(#[trigger] bytes[k]) by {
        assert(bytes[k] == bytes.subrange(i, end)[k - i]);
        assert(is_digit(d[k - i]));
    }
    lemma_scan_digits(bytes, i + 1, end, i, vals);
    // the whitespace byte ends it, and the token parses back to its value
    assert(bytes.subrange(i, end) == d);
    lemma_dec_digits_value(v as int);
    assert(parse_dec(bytes.subrange(i, end), usize::MAX as int) == Some(v as int));
}

/// What the header scanner makes of a well-shaped header, whatever the
/// gaps around the three numbers are: it finds exactly those numbers, and
/// the raster starts right after the single whitespace byte that ends the
/// third.
///
/// The first two bytes (the magic sequence) are never read by the
/// scanner; `g0`, `g1`, `g2` are arbitrary gaps (whitespace runs and
/// comments, possibly empty), and `c1`, `c2`, `c3` are the whitespace
/// bytes that terminate the three numeric tokens. Line-ending
/// independence and comment skipping are both instances: LF, CR and CRLF
/// separators only change the gaps, and so does inserting a comment.
#[verifier::rlimit(60)]
pub proof fn lemma_scan_header(
    pre: Seq<u8>,
    g0: Seq<u8>,
    w: usize,
    c1: u8,
    g1: Seq<u8>,
    h: usize,
    c2: u8,
    g2: Seq<u8>,
    mv: usize,
    c3: u8,
    rest: Seq<u8>,
    bytes: Seq<u8>,
)
    requires
        pre.len() == 2,
        is_gap(g0),
        is_gap(g1),
        is_gap(g2),
        is_space(c1),
        is_space(c2),
        is_space(c3),
        bytes == pre + g0 + dec_digits(w as int) + seq![c1] + g1 + dec_digits(h as int) + seq![c2]
            + g2 + dec_digits(mv as int) + seq![c3] + rest,
        bytes.len() - rest.len() <= usize::MAX,
    ensures
        spec_scan(bytes) == Ok::<Seq<usize>, FormatError>(
            seq![w, h, mv, (bytes.len() - rest.len()) as usize],
        ),
{
    let d1 = dec_digits(w as int);
    let d2 = dec_digits(h as int);
    let d3 = dec_digits(mv as int);
    lemma_dec_digits_digits(w as int);
    lemma_dec_digits_digits(h as int);
    lemma_dec_digits_digits(mv as int);
    let o0: int = 2;
    let o1 = o0 + g0.len();
    let o2 = o1 + d1.len();
    let o3 = o2 + 1 + g1.len();
    let o4 = o3 + d2.len();
    let o5 = o4 + 1 + g2.len();
    let o6 = o5 + d3.len();
    let off = o6 + 1;
    assert(bytes.len() == off + rest.len());

    assert(bytes.subrange(o0 as int, o1 as int) =~= g0);
    assert(bytes.subrange(o1 as int, o2 as int) =~= d1);
    assert(bytes[o2 as int] == c1);
    assert(bytes.subrange(o2 + 1, o3 as int) =~= g1);
    assert(bytes.subrange(o3 as int, o4 as int) =~= d2);
    assert(bytes[o4 as int] == c2);
    assert(bytes.subrange(o4 + 1, o5 as int) =~= g2);
    assert(bytes.subrange(o5 as int, o6 as int) =~= d3);
    assert(bytes[o6 as int] == c3);

    let e = Seq::<usize>::empty();
    lemma_scan_thru_gap(bytes, o0 as int, ScanState::Newline, g0, 2, e);
    let s1 = gap_from(ScanState::Newline, g0);
    lemma_scan_token(bytes, o1 as int, s1, w, c1, 2, e);
    let s2 = if is_line_break(c1) {
        ScanState::Newline
    } else {
        ScanState::Whitespace
    };
    lemma_scan_thru_gap(bytes, o2 + 1, s2, g1, o1 as int, seq![w]);
    let s3 = gap_from(s2, g1);
    lemma_scan_token(bytes, o3 as int, s3, h, c2, o1 as int, seq![w]);
    let s4 = if is_line_break(c2) {
        ScanState::Newline
    } else {
        ScanState::Whitespace
    };
    lemma_scan_thru_gap(bytes, o4 + 1, s4, g2, o3 as int, seq![w, h]);
    let s5 = gap_from(s4, g2);
    lemma_scan_token(bytes, o5 as int, s5, mv, c3, o3 as int, seq![w, h]);
    assert(seq![w].push(h) =~= seq![w, h]);
    assert(seq![w, h].push(mv).push(off as usize) =~= seq![w, h, mv, off as usize]);
    assert(scan_from(bytes, off as int, ScanState::Newline, o5 as int, seq![w, h, mv, off as usize])
        == Ok::<Seq<usize>, FormatError>(seq![w, h, mv, off as usize]));
    assert(scan_from(bytes, off as int, ScanState::Whitespace, o5 as int, seq![
        w,
        h,
        mv,
        off as usize,
    ]) == Ok::<Seq<usize>, FormatError>(seq![w, h, mv, off as usize]));
}


/// Ten to the `k`-th power.
pub open spec fn pow10(k: nat) -> int
    decreases k,
{
    if k == 0 {
        1
    } else {
        10 * pow10((k - 1) as nat)
    }
}

/// A number below `pow10(k)` has at most `k` decimal digits.
pub proof fn lemma_dec_digits_len(n: int, k: nat)
    requires
        k >= 1,
        n < pow10(k),
    ensures
        dec_digits(n).len() <= k,
    decreases k,
{
    if n >= 10 {
        assert(pow10(k) == 10 * pow10((k - 1) as nat));
        assert(n / 10 < pow10((k - 1) as nat)) by (nonlinear_arith)
            requires
                n < 10 * pow10((k - 1) as nat),
                n >= 10,
        ;
        lemma_dec_digits_len(n / 10, (k - 1) as nat);
    }
}

/// Any machine-sized number has at most 20 decimal digits.
proof fn lemma_dec_digits_len_usize(n: int)
    requires
        0 <= n <= usize::MAX,
    ensures
        dec_digits(n).len() <= 20,
{
    assert(pow10(20) == 100000000000000000000) by {
        reveal_with_fuel(pow10, 21);
    }
    lemma_dec_digits_len(n, 20);
}

/// The ascii tokenizer walks a run of digits without leaving the token.
proof fn lemma_px_digits(bytes: Seq<u8>, i: int, j: int, ts: int, acc: Seq<PxVal>)
    requires
        0 <= i <= j <= bytes.len(),
        forall|k: int| i <= k < j ==> is_digit(bytes[k]),
    ensures
        px_from(bytes, i, true, ts, acc) == px_from(bytes, j, true, ts, acc),
    decreases j - i,
{
    if i < j {
        assert(is_digit(bytes[i]));
        assert(!is_space(bytes[i]));
        lemma_px_digits(bytes, i + 1, j, ts, acc);
    }
}

/// The ascii tokenizer reads back exactly the samples whose rendering
/// makes up the rest of the input.
proof fn lemma_px_tokens(bytes: Seq<u8>, i: int, ts: int, acc: Seq<PxVal>, vs: Seq<PxVal>)
    requires
        0 <= i <= bytes.len(),
        bytes.subrange(i, bytes.len() as int) == ascii_bytes(vs),
    ensures
        px_from(bytes, i, false, ts, acc) == Ok::<Seq<PxVal>, FormatError>(acc + vs),
    decreases vs.len(),
{
    if vs.len() == 0 {
        assert(bytes.len() == i);
        assert(acc + vs =~= acc);
    } else {
        let d = dec_digits(vs[0] as int);
        let end = i + d.len();
        lemma_dec_digits_digits(vs[0] as int);
        lemma_dec_digits_value(vs[0] as int);
        let tail = ascii_bytes(vs);
        assert(bytes.subrange(i, bytes.len() as int) == tail);
        if vs.len() == 1 {
            assert(tail == d);
            assert(bytes.len() == end);
            assert(bytes[i] == bytes.subrange(i, bytes.len() as int)[0]);
            assert(is_digit(bytes[i]));
            assert(!is_space(bytes[i]));
            assert forall|k: int| i + 1 <= k < end implies is_digit(#[trigger] bytes[k]) by {
                assert(bytes[k] == bytes.subrange(i, bytes.len() as int)[k - i]);
            }
            lemma_px_digits(bytes, i + 1, end, i, acc);
            assert(bytes.subrange(i, end) == d);
            assert(parse_dec(bytes.subrange(i, end), 65535) == Some(vs[0] as int));
            assert(acc.push(vs[0]) =~= acc + vs);
        } else {
            assert(tail == d + seq![32u8] + ascii_bytes(vs.drop_first()));
            assert(ascii_bytes(vs.drop_first()).len() >= 1) by {
                lemma_dec_digits_digits(vs.drop_first()[0] as int);
            }
            assert(end + 1 <= bytes.len());
            assert forall|k: int| i <= k < end implies is_digit(#[trigger] bytes[k]) by {
                assert(bytes[k] == bytes.subrange(i, bytes.len() as int)[k - i]);
                assert(tail[k - i] == d[k - i]);
            }
            assert(!is_space(bytes[i]));
            lemma_px_digits(bytes, i + 1, end, i, acc);
            assert(bytes[end] == bytes.subrange(i, bytes.len() as int)[end - i]);
            assert(bytes[end] == 32);
            assert(bytes.subrange(i, end) =~= d);
            assert(parse_dec(bytes.subrange(i, end), 65535) == Some(vs[0] as int));
            assert forall|k: int| 0 <= k < bytes.len() - (end + 1) implies bytes[end + 1 + k]
                == ascii_bytes(vs.drop_first())[k] by {
                assert(bytes[end + 1 + k] == bytes.subrange(i, bytes.len() as int)[end + 1 - i
                    + k]);
                assert(tail[d.len() + 1 + k] == ascii_bytes(vs.drop_first())[k]);
            }
            assert(bytes.subrange(end + 1, bytes.len() as int) =~= ascii_bytes(vs.drop_first()));
            lemma_px_tokens(bytes, end + 1, i, acc.push(vs[0]), vs.drop_first());
            assert(acc.push(vs[0]) + vs.drop_first() =~= acc + vs);
        }
    }
}

/// Reading back a raw 8-bit raster recovers the samples.
proof fn lemma_raw8_round_trip(vals: Seq<PxVal>)
    requires
        forall|i: int| 0 <= i < vals.len() ==> vals[i] < 256,
    ensures
        raw_samples8(raw_bytes8(vals)) == vals,
{
    assert(raw_samples8(raw_bytes8(vals)) =~= vals);
}

/// Reading back a raw 16-bit raster recovers the samples.
proof fn lemma_raw16_round_trip(vals: Seq<PxVal>)
    ensures
        raw_samples16(raw_bytes16(vals)) == vals,
{
    let b = raw_bytes16(vals);
    assert forall|i: int| 0 <= i < vals.len() implies raw_samples16(b)[i] == vals[i] by {
        assert((2 * i) % 2 == 0 && (2 * i) / 2 == i && (2 * i + 1) % 2 == 1 && (2 * i + 1) / 2
            == i);
        assert(b[2 * i] == (vals[i] / 256) as u8);
        assert(b[2 * i + 1] == (vals[i] % 256) as u8);
        assert(vals[i] / 256 * 256 + vals[i] % 256 == vals[i]);
    }
    assert(raw_samples16(raw_bytes16(vals)) =~= vals);
}

/// Splitting an interleaved sample sequence back into channels recovers
/// them.
proof fn lemma_deinterleave(r: Seq<PxVal>, g: Seq<PxVal>, b: Seq<PxVal>)
    requires
        r.len() == g.len(),
        r.len() == b.len(),
    ensures
        take_every3(interleave3(r, g, b), 0) == r,
        take_every3(interleave3(r, g, b), 1) == g,
        take_every3(interleave3(r, g, b), 2) == b,
{
    let fl = interleave3(r, g, b);
    assert(fl.len() == 3 * r.len());
    assert forall|i: int| 0 <= i < r.len() implies take_every3(fl, 0)[i] == r[i] && take_every3(
        fl,
        1,
    )[i] == g[i] && take_every3(fl, 2)[i] == b[i] by {
        assert((3 * i) % 3 == 0 && (3 * i) / 3 == i) by (nonlinear_arith);
        assert((3 * i + 1) % 3 == 1 && (3 * i + 1) / 3 == i) by (nonlinear_arith);
        assert((3 * i + 2) % 3 == 2 && (3 * i + 2) / 3 == i) by (nonlinear_arith);
    }
    assert(take_every3(fl, 0) =~= r);
    assert(take_every3(fl, 1) =~= g);
    assert(take_every3(fl, 2) =~= b);
}

/// Every sample of the flat sequence of a bounded image is at most its
/// maxval.
proof fn lemma_flat_bounded(v: ImageView)
    requires
        v.wf(),
        v.bounded(),
    ensures
        forall|i: int| 0 <= i < flat_of(v).len() ==> flat_of(v)[i] <= v.maxval(),
{
    match v {
        ImageView::Gray(gv) => {},
        ImageView::Color(cv) => {
            let fl = flat_of(v);
            assert forall|i: int| 0 <= i < fl.len() implies fl[i] <= v.maxval() by {
                let j = i / 3;
                assert(0 <= j < cv.rpixels.len()) by (nonlinear_arith)
                    requires
                        0 <= i < 3 * cv.rpixels.len(),
                        j == i / 3,
                ;
                if i % 3 == 0 {
                    assert(fl[i] == cv.rpixels[j]);
                } else if i % 3 == 1 {
                    assert(fl[i] == cv.gpixels[j]);
                } else {
                    assert(fl[i] == cv.bpixels[j]);
                }
            }
        },
    }
}

/// Round-trip: decoding the encoding of a well-formed, bounded image, in
/// either raster kind, yields exactly that image.
pub proof fn lemma_round_trip(v: ImageView, raster_kind: RasterType)
    requires
        v.wf(),
        v.bounded(),
    ensures
        spec_decode(spec_encode(v, raster_kind)) == Ok::<ImageView, FormatError>(v),
{
    let bytes = spec_encode(v, raster_kind);
    let flat = flat_of(v);
    let mv = v.maxval() as int;
    let rest = raster_bytes(flat, mv, raster_kind);
    let wu = v.width() as usize;
    let hu = v.height() as usize;
    let mvu = v.maxval() as usize;
    let pre = spec_magic(v is Color, raster_kind);
    let empty = Seq::<u8>::empty();

    // the encoded bytes have exactly the shape the header-scan law needs
    assert(bytes =~= pre + seq![10u8] + dec_digits(wu as int) + seq![32u8] + empty + dec_digits(
        hu as int,
    ) + seq![10u8] + empty + dec_digits(mvu as int) + seq![10u8] + rest);
    let shaped = pre + seq![10u8] + dec_digits(wu as int) + seq![32u8] + empty + dec_digits(
        hu as int,
    ) + seq![10u8] + empty + dec_digits(mvu as int) + seq![10u8] + rest;
    assert(seq![10u8][0] == 10 && is_space(10));
    lemma_gap_spaces(seq![10u8]);
    lemma_gap_spaces(empty);
    lemma_dec_digits_digits(wu as int);
    lemma_dec_digits_digits(hu as int);
    lemma_dec_digits_digits(mvu as int);
    let off = bytes.len() - rest.len();
    lemma_dec_digits_len_usize(wu as int);
    lemma_dec_digits_len_usize(hu as int);
    lemma_dec_digits_len_usize(mvu as int);
    lemma_scan_header(
        pre,
        seq![10u8],
        wu,
        32,
        empty,
        hu,
        10,
        empty,
        mvu,
        10,
        rest,
        bytes,
    );
    assert(spec_scan(bytes) == Ok::<Seq<usize>, FormatError>(seq![wu, hu, mvu, off as usize]));

    // the magic classifies back to the encoded kinds
    assert(bytes[0] == pre[0] && bytes[1] == pre[1]);
    assert(bytes.len() >= 2);
    let hv = HeaderView {
        is_color: v is Color,
        is_ascii_raster: raster_kind is Ascii,
        width: wu as nat,
        height: hu as nat,
        maxval: mvu as nat,
        raster: bytes.subrange(off, bytes.len() as int),
    };
    assert(spec_read(bytes) == Ok::<HeaderView, FormatError>(hv));
    assert(bytes.subrange(off, bytes.len() as int) =~= rest);

    // the raster reads back to the flat samples
    assert(flat.len() == (if v is Color {
        3 * v.width() * v.height()
    } else {
        v.width() * v.height()
    })) by {
        match v {
            ImageView::Gray(gv) => {},
            ImageView::Color(cv) => {
                vstd::arithmetic::mul::lemma_mul_is_associative(
                    3,
                    cv.width as int,
                    cv.height as int,
                );
            },
        }
    }
    lemma_flat_bounded(v);
    match raster_kind {
        RasterType::Ascii => {
            assert(rest.subrange(0, rest.len() as int) =~= ascii_bytes(flat));
            lemma_px_tokens(rest, 0, 0, Seq::<PxVal>::empty(), flat);
            assert(Seq::<PxVal>::empty() + flat =~= flat);
            assert(spec_ascii_samples(rest) == Ok::<Seq<PxVal>, FormatError>(flat));
        },
        RasterType::Raw => {
            if mv < 256 {
                lemma_raw8_round_trip(flat);
            } else {
                lemma_raw16_round_trip(flat);
            }
        },
    }

    // the parsed samples rebuild exactly the original image
    match v {
        ImageView::Gray(gv) => {
            assert(spec_decode(bytes) == Ok::<ImageView, FormatError>(ImageView::Gray(gv)));
        },
        ImageView::Color(cv) => {
            lemma_deinterleave(cv.rpixels, cv.gpixels, cv.bpixels);
            assert(spec_decode(bytes) == Ok::<ImageView, FormatError>(ImageView::Color(cv)));
        },
    }
}

/// Ascii/raw equivalence: the ascii and the raw encoding of one image
/// decode to equal images.
pub proof fn lemma_ascii_raw_equal(v: ImageView)
    requires
        v.wf(),
        v.bounded(),
    ensures
        spec_decode(spec_encode(v, RasterType::Ascii)) == spec_decode(
            spec_encode(v, RasterType::Raw),
        ),
{
    lemma_round_trip(v, RasterType::Ascii);
    lemma_round_trip(v, RasterType::Raw);
}

/// One of the three line-ending conventions.
pub open spec fn line_end(e: Seq<u8>) -> bool {
    e == seq![10u8] || e == seq![13u8] || e == seq![13u8, 10u8]
}

/// Every byte of a line ending is whitespace, and so is every byte of
/// its tail.
proof fn lemma_line_end_spaces(e: Seq<u8>)
    requires
        line_end(e),
    ensures
        e.len() >= 1,
        is_space(e[0]),
        forall|k: int| 0 <= k < e.len() ==> is_space(e[k]),
        forall|k: int| 0 <= k < e.drop_first().len() ==> is_space(#[trigger] e.drop_first()[k]),
{
    if e == seq![10u8] {
        assert(e[0] == 10);
    } else if e == seq![13u8] {
        assert(e[0] == 13);
    } else {
        assert(e[0] == 13 && e[1] == 10);
    }
    assert forall|k: int| 0 <= k < e.drop_first().len() implies is_space(
        #[trigger] e.drop_first()[k],
    ) by {
        assert(e.drop_first()[k] == e[k + 1]);
    }
}

/// Line-ending independence: whether the header separates its tokens
/// with LF, CR or CRLF, the scanner finds the same width, height and
/// maxval, with the raster starting right after the byte that ends
/// maxval.
pub proof fn lemma_line_ending_independence(
    pre: Seq<u8>,
    e1: Seq<u8>,
    w: usize,
    e2: Seq<u8>,
    h: usize,
    e3: Seq<u8>,
    mv: usize,
    c4: u8,
    rest: Seq<u8>,
    bytes: Seq<u8>,
)
    requires
        pre.len() == 2,
        line_end(e1),
        line_end(e2),
        line_end(e3),
        is_space(c4),
        bytes == pre + e1 + dec_digits(w as int) + e2 + dec_digits(h as int) + e3 + dec_digits(
            mv as int,
        ) + seq![c4] + rest,
        bytes.len() - rest.len() <= usize::MAX,
    ensures
        spec_scan(bytes) == Ok::<Seq<usize>, FormatError>(
            seq![w, h, mv, (bytes.len() - rest.len()) as usize],
        ),
{
    lemma_line_end_spaces(e1);
    lemma_line_end_spaces(e2);
    lemma_line_end_spaces(e3);
    lemma_gap_spaces(e1);
    lemma_gap_spaces(e2.drop_first());
    lemma_gap_spaces(e3.drop_first());
    assert(is_space(e2[0]) && is_space(e3[0]));
    assert(e2 =~= seq![e2[0]] + e2.drop_first());
    assert(e3 =~= seq![e3[0]] + e3.drop_first());
    assert(bytes =~= pre + e1 + dec_digits(w as int) + seq![e2[0]] + e2.drop_first() + dec_digits(
        h as int,
    ) + seq![e3[0]] + e3.drop_first() + dec_digits(mv as int) + seq![c4] + rest);
    lemma_scan_header(
        pre,
        e1,
        w,
        e2[0],
        e2.drop_first(),
        h,
        e3[0],
        e3.drop_first(),
        mv,
        c4,
        rest,
        bytes,
    );
}

/// Comment skipping: a `#`-comment line inserted between header tokens
/// changes nothing about the parsed width, height and maxval.
pub proof fn lemma_comment_skipping(
    pre: Seq<u8>,
    g0: Seq<u8>,
    w: usize,
    c1: u8,
    g1a: Seq<u8>,
    body: Seq<u8>,
    lb: u8,
    g1b: Seq<u8>,
    h: usize,
    c2: u8,
    g2: Seq<u8>,
    mv: usize,
    c3: u8,
    rest: Seq<u8>,
    bytes: Seq<u8>,
)
    requires
        pre.len() == 2,
        is_gap(g0),
        is_gap(g1a),
        is_gap(g1b),
        is_gap(g2),
        is_space(c1),
        is_space(c2),
        is_space(c3),
        is_line_break(lb),
        forall|k: int| 0 <= k < body.len() ==> !is_line_break(body[k]),
        bytes == pre + g0 + dec_digits(w as int) + seq![c1] + (g1a + (seq![35u8] + body
            + seq![lb]) + g1b) + dec_digits(h as int) + seq![c2] + g2 + dec_digits(mv as int)
            + seq![c3] + rest,
        bytes.len() - rest.len() <= usize::MAX,
    ensures
        spec_scan(bytes) == Ok::<Seq<usize>, FormatError>(
            seq![w, h, mv, (bytes.len() - rest.len()) as usize],
        ),
{
    let comment = seq![35u8] + body + seq![lb];
    lemma_gap_comment(body, lb);
    lemma_gap_concat(g1a, comment);
    lemma_gap_concat(g1a + comment, g1b);
    lemma_scan_header(
        pre,
        g0,
        w,
        c1,
        g1a + comment + g1b,
        h,
        c2,
        g2,
        mv,
        c3,
        rest,
        bytes,
    );
}


/// Scaled representations carry the same logical content through the
/// codec: two equivalent images (sample-for-sample equal up to their
/// maxvals' scaling, e.g. a 4-level image stored once with maxval 15 and
/// once with maxval 255) decode from their encodings, in any raster
/// kinds, to images that are again equivalent.
pub proof fn lemma_scaled_representations(
    a: ImageView,
    b: ImageView,
    ka: RasterType,
    kb: RasterType,
)
    requires
        a.wf(),
        a.bounded(),
        b.wf(),
        b.bounded(),
        crate::image::spec_equivalent(a, b),
    ensures
        match (spec_decode(spec_encode(a, ka)), spec_decode(spec_encode(b, kb))) {
            (Ok(x), Ok(y)) => crate::image::spec_equivalent(x, y),
            _ => false,
        },
{
    lemma_round_trip(a, ka);
    lemma_round_trip(b, kb);
}

} // verus!
