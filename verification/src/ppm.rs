//! The plain-text image format: three header lines (magic, dimensions,
//! maximum channel value), then one ASCII decimal RGB triple per pixel,
//! row-major. The writer drops the alpha channel; the reader restores it
//! fully opaque.

use vstd::prelude::*;
use crate::image::{ImageRGBA, ImageS, iwf};

verus! {

pub open spec fn is_digit(b: u8) -> bool {
    48 <= b <= 57
}

pub open spec fn is_ws(b: u8) -> bool {
    b == 32 || b == 10 || b == 13 || b == 9
}

/// The decimal digits of `n`, most significant first.
pub open spec fn dec_digits(n: int) -> Seq<u8>
    decreases n,
{
    if n < 10 {
        seq![(48 + n) as u8]
    } else {
        dec_digits(n / 10) + seq![(48 + n % 10) as u8]
    }
}

/// The three header lines: magic, width and height, maximum channel value.
pub open spec fn ppm_header_s(width: int, height: int) -> Seq<u8> {
    seq![80u8, 51u8, 10u8] + dec_digits(width) + seq![32u8] + dec_digits(height) + seq![10u8]
        + dec_digits(255) + seq![10u8]
}

/// One pixel's line: the three channels as decimals, alpha dropped.
pub open spec fn triple_s(pixels: Seq<u8>, k: int) -> Seq<u8> {
    dec_digits(pixels[4 * k] as int) + seq![32u8] + dec_digits(pixels[4 * k + 1] as int)
        + seq![32u8] + dec_digits(pixels[4 * k + 2] as int) + seq![10u8]
}

/// The pixel lines from pixel `k` on.
pub open spec fn body_from_s(pixels: Seq<u8>, k: int, count: int) -> Seq<u8>
    decreases count - k,
{
    if k < 0 || k >= count {
        Seq::empty()
    } else {
        triple_s(pixels, k) + body_from_s(pixels, k + 1, count)
    }
}

/// The whole serialized image.
pub open spec fn ppm_bytes_s(im: ImageS) -> Seq<u8> {
    ppm_header_s(im.width, im.height) + body_from_s(im.pixels, 0, im.width * im.height)
}

/// Append the decimal digits of `n`.
fn push_decimal(out: &mut Vec<u8>, n: u64)
    ensures
        final(out)@ == old(out)@ + dec_digits(n as int),
    decreases n,
{
    if n < 10 {
        out.push(48 + n as u8);
        proof {
            assert(final(out)@ =~= old(out)@ + dec_digits(n as int));
        }
    } else {
        push_decimal(out, n / 10);
        out.push(48 + (n % 10) as u8);
        proof {
            assert(final(out)@ =~= old(out)@ + dec_digits(n as int));
        }
    }
}

/// Write an image into the text format. The alpha channel is dropped.
pub fn ppmwrite(im: &ImageRGBA) -> (out: Vec<u8>)
    requires
        iwf(im@),
    ensures
        out@ == ppm_bytes_s(im@),
{
    let mut out: Vec<u8> = Vec::new();
    out.push(80);
    out.push(51);
    out.push(10);
    push_decimal(&mut out, im.width as u64);
    out.push(32);
    push_decimal(&mut out, im.height as u64);
    out.push(10);
    push_decimal(&mut out, 255);
    out.push(10);
    proof {
        assert(out@ =~= ppm_header_s(im@.width, im@.height));
    }

    let nbytes: usize = im.pixels.len();
    assert(im@.width * im@.height * 4 == nbytes && 0 <= im@.width * im@.height <= nbytes) by (nonlinear_arith)
        requires
            im@.width * im@.height * 4 == nbytes,
            im@.width == im.width as int,
            im@.height == im.height as int,
    ;
    let count: usize = im.width * im.height;

    let ghost header = out@;
    let mut k: usize = 0;
    while k < count
        invariant
            k <= count,
            count * 4 == im@.pixels.len(),
            count * 4 <= usize::MAX,
            iwf(im@),
            out@ == header + body_from_s(im@.pixels, 0, k as int),
        decreases count - k,
    {
        assert(4 * k + 3 < im@.pixels.len());
        let ghost before = out@;
        push_decimal(&mut out, im.pixels[4 * k] as u64);
        out.push(32);
        push_decimal(&mut out, im.pixels[4 * k + 1] as u64);
        out.push(32);
        push_decimal(&mut out, im.pixels[4 * k + 2] as u64);
        out.push(10);
        proof {
            assert(out@ =~= before + triple_s(im@.pixels, k as int));
            lemma_body_snoc(im@.pixels, 0, k as int);
            assert(out@ =~= header + body_from_s(im@.pixels, 0, k as int + 1));
        }
        k = k + 1;
    }
    out
}

/// The position of the first byte at or after `pos` that is not whitespace.
pub open spec fn skip_ws_s(s: Seq<u8>, pos: int) -> int
    decreases s.len() - pos,
{
    if pos < 0 || pos >= s.len() {
        pos
    } else if is_ws(s[pos]) {
        skip_ws_s(s, pos + 1)
    } else {
        pos
    }
}

/// Consume decimal digits into an accumulator; a value past the word size is
/// a parse failure.
pub open spec fn parse_digits_s(s: Seq<u8>, pos: int, acc: int) -> Option<(int, int)>
    decreases s.len() - pos,
{
    if pos < 0 || pos >= s.len() || !is_digit(s[pos]) {
        Some((acc, pos))
    } else if acc * 10 + (s[pos] - 48) > 0xffff_ffff_ffff_ffffu64 {
        None
    } else {
        parse_digits_s(s, pos + 1, acc * 10 + (s[pos] - 48))
    }
}

/// A number must begin with a digit at the given position.
pub open spec fn parse_uint_s(s: Seq<u8>, pos: int) -> Option<(int, int)> {
    if 0 <= pos < s.len() && is_digit(s[pos]) {
        parse_digits_s(s, pos, 0)
    } else {
        None
    }
}

/// Three whitespace-led decimals, each a channel value of at most 255.
pub open spec fn parse_triple_s(s: Seq<u8>, pos: int) -> Option<(u8, u8, u8, int)> {
    match parse_uint_s(s, skip_ws_s(s, pos)) {
        None => None,
        Some((r, p1)) => if r > 255 {
            None
        } else {
            match parse_uint_s(s, skip_ws_s(s, p1)) {
                None => None,
                Some((g, p2)) => if g > 255 {
                    None
                } else {
                    match parse_uint_s(s, skip_ws_s(s, p2)) {
                        None => None,
                        Some((b, p3)) => if b > 255 {
                            None
                        } else {
                            Some((r as u8, g as u8, b as u8, p3))
                        },
                    }
                },
            }
        },
    }
}

/// `count` triples in a row, rebuilt as RGBA bytes with opaque alpha.
pub open spec fn parse_body_s(s: Seq<u8>, pos: int, count: int) -> Option<(Seq<u8>, int)>
    decreases count,
{
    if count <= 0 {
        Some((Seq::empty(), pos))
    } else {
        match parse_triple_s(s, pos) {
            None => None,
            Some((r, g, b, p)) => match parse_body_s(s, p, count - 1) {
                None => None,
                Some((rest, pend)) => Some((seq![r, g, b, 255u8] + rest, pend)),
            },
        }
    }
}

/// The whole reader: the magic token, width and height, the maximum channel
/// value (read and ignored, as the format's header asks), then the pixels.
pub open spec fn ppm_parse_s(s: Seq<u8>) -> Option<(int, int, Seq<u8>)> {
    let p0 = skip_ws_s(s, 0);
    if !(p0 + 1 < s.len() && s[p0] == 80 && s[p0 + 1] == 51 && (p0 + 2 == s.len() || is_ws(
        s[p0 + 2],
    ))) {
        None
    } else {
        match parse_uint_s(s, skip_ws_s(s, p0 + 2)) {
            None => None,
            Some((w, p1)) => match parse_uint_s(s, skip_ws_s(s, p1)) {
                None => None,
                Some((h, p2)) => match parse_uint_s(s, skip_ws_s(s, p2)) {
                    None => None,
                    Some((maxval, p3)) => if !(w <= usize::MAX && h <= usize::MAX && w * h * 4
                        <= usize::MAX) {
                        None
                    } else {
                        match parse_body_s(s, p3, w * h) {
                            None => None,
                            Some((rgba, pend)) => Some((w, h, rgba)),
                        }
                    },
                },
            },
        }
    }
}

fn wsb(b: u8) -> (r: bool)
    ensures
        r == is_ws(b),
{
    b == 32 || b == 10 || b == 13 || b == 9
}

fn digitb(b: u8) -> (r: bool)
    ensures
        r == is_digit(b),
{
    48 <= b && b <= 57
}

fn skip_ws(bytes: &Vec<u8>, pos: usize) -> (r: usize)
    requires
        pos <= bytes@.len(),
    ensures
        r as int == skip_ws_s(bytes@, pos as int),
        pos <= r <= bytes@.len(),
{
    let len: usize = bytes.len();
    let mut p: usize = pos;
    while p < len && wsb(bytes[p])
        invariant
            pos <= p <= len,
            len == bytes@.len(),
            skip_ws_s(bytes@, pos as int) == skip_ws_s(bytes@, p as int),
        decreases len - p,
    {
        p = p + 1;
    }
    p
}

fn parse_uint(bytes: &Vec<u8>, pos: usize) -> (r: Option<(u64, usize)>)
    requires
        pos <= bytes@.len(),
    ensures
        match r {
            Some(vp) => parse_uint_s(bytes@, pos as int) == Some((vp.0 as int, vp.1 as int))
                && vp.1 <= bytes@.len(),
            None => parse_uint_s(bytes@, pos as int) is None,
        },
{
    let len: usize = bytes.len();
    if pos >= len || !digitb(bytes[pos]) {
        return None;
    }
    let mut acc: u64 = 0;
    let mut p: usize = pos;
    while p < len && digitb(bytes[p])
        invariant
            pos <= p <= len,
            len == bytes@.len(),
            parse_digits_s(bytes@, pos as int, 0) == parse_digits_s(bytes@, p as int, acc as int),
        decreases len - p,
    {
        let d: u64 = (bytes[p] - 48) as u64;
        let next: u128 = acc as u128 * 10 + d as u128;
        if next > 0xffff_ffff_ffff_ffff {
            return None;
        }
        acc = next as u64;
        p = p + 1;
    }
    Some((acc, p))
}

fn parse_triple(bytes: &Vec<u8>, pos: usize) -> (r: Option<(u8, u8, u8, usize)>)
    requires
        pos <= bytes@.len(),
    ensures
        match r {
            Some(t) => parse_triple_s(bytes@, pos as int) == Some((t.0, t.1, t.2, t.3 as int))
                && t.3 <= bytes@.len(),
            None => parse_triple_s(bytes@, pos as int) is None,
        },
{
    let (r, p1) = match parse_uint(bytes, skip_ws(bytes, pos)) {
        None => {
            return None;
        },
        Some(vp) => vp,
    };
    if r > 255 {
        return None;
    }
    let (g, p2) = match parse_uint(bytes, skip_ws(bytes, p1)) {
        None => {
            return None;
        },
        Some(vp) => vp,
    };
    if g > 255 {
        return None;
    }
    let (b, p3) = match parse_uint(bytes, skip_ws(bytes, p2)) {
        None => {
            return None;
        },
        Some(vp) => vp,
    };
    if b > 255 {
        return None;
    }
    Some((r as u8, g as u8, b as u8, p3))
}

/// Read an image back from the text format. Every failure of the format is a
/// `None`: a missing magic token, a number that does not fit, dimensions
/// whose buffer would not fit in memory, or too few pixel values.
pub fn ppmread(bytes: &Vec<u8>) -> (res: Option<ImageRGBA>)
    ensures
        match res {
            Some(im) => ppm_parse_s(bytes@) == Some((im@.width, im@.height, im@.pixels)) && iwf(
                im@,
            ),
            None => ppm_parse_s(bytes@) is None,
        },
{
    let len: usize = bytes.len();
    let p0: usize = skip_ws(bytes, 0);
    if len - p0 < 2 {
        return None;
    }
    if !(bytes[p0] == 80 && bytes[p0 + 1] == 51) {
        return None;
    }
    if !(p0 + 2 == len || wsb(bytes[p0 + 2])) {
        return None;
    }
    let (w64, p1) = match parse_uint(bytes, skip_ws(bytes, p0 + 2)) {
        None => {
            return None;
        },
        Some(vp) => vp,
    };
    let (h64, p2) = match parse_uint(bytes, skip_ws(bytes, p1)) {
        None => {
            return None;
        },
        Some(vp) => vp,
    };
    let (_maxval, p3) = match parse_uint(bytes, skip_ws(bytes, p2)) {
        None => {
            return None;
        },
        Some(vp) => vp,
    };
    assert((w64 as u128) * (h64 as u128) <= 0xffff_ffff_ffff_ffff_ffff_ffff_ffff_ffffu128)
        by (nonlinear_arith)
        requires
            w64 <= 0xffff_ffff_ffff_ffffu64,
            h64 <= 0xffff_ffff_ffff_ffffu64,
    ;
    let wh: u128 = w64 as u128 * h64 as u128;
    if !(w64 as u128 <= usize::MAX as u128 && h64 as u128 <= usize::MAX as u128 && wh
        <= usize::MAX as u128 / 4) {
        proof {
            if w64 <= usize::MAX && h64 <= usize::MAX {
                vstd::arithmetic::div_mod::lemma_fundamental_div_mod(usize::MAX as int, 4);
                assert(!(w64 as int * h64 as int * 4 <= usize::MAX));
            }
        }
        return None;
    }
    proof {
        vstd::arithmetic::div_mod::lemma_fundamental_div_mod(usize::MAX as int, 4);
        assert(w64 as int * h64 as int * 4 <= usize::MAX);
    }
    let w: usize = w64 as usize;
    let h: usize = h64 as usize;
    assert(w as int * h as int <= usize::MAX) by (nonlinear_arith)
        requires
            w as int * h as int * 4 <= usize::MAX,
            0 <= w,
            0 <= h,
    ;
    let count: usize = w * h;

    let mut pixels: Vec<u8> = Vec::new();
    let mut pos: usize = p3;
    let mut k: usize = 0;
    while k < count
        invariant
            k <= count,
            pos <= bytes@.len(),
            pixels@.len() == 4 * k,
            parse_body_s(bytes@, p3 as int, count as int) == (match parse_body_s(
                bytes@,
                pos as int,
                count - k,
            ) {
                Some((rest, pend)) => Some((pixels@ + rest, pend)),
                None => None::<(Seq<u8>, int)>,
            }),
            ppm_parse_s(bytes@) == (match parse_body_s(bytes@, p3 as int, count as int) {
                Some((rgba, pend)) => Some((w as int, h as int, rgba)),
                None => None::<(int, int, Seq<u8>)>,
            }),
            w as int * h as int * 4 <= usize::MAX,
            w as int * h as int == count as int,
        decreases count - k,
    {
        let (r, g, b, np) = match parse_triple(bytes, pos) {
            None => {
                return None;
            },
            Some(t) => t,
        };
        let ghost before = pixels@;
        pixels.push(r);
        pixels.push(g);
        pixels.push(b);
        pixels.push(255);
        proof {
            let rem = count - k;
            let pb = parse_body_s(bytes@, np as int, rem - 1);
            if pb is Some {
                let (rest, pend) = pb->0;
                assert(pixels@ + rest =~= before + (seq![r, g, b, 255u8] + rest));
            }
        }
        pos = np;
        k = k + 1;
    }
    proof {
        assert(pixels@ + Seq::<u8>::empty() =~= pixels@);
    }

    let im = ImageRGBA { width: w, height: h, pixels };
    proof {
        assert(im@.pixels.len() == im@.width * im@.height * 4) by (nonlinear_arith)
            requires
                im@.pixels.len() == 4 * (w as int * h as int),
                im@.width == w as int,
                im@.height == h as int,
        ;
    }
    Some(im)
}

/// Powers of ten, for the digit accumulator.
pub open spec fn pow10(k: nat) -> int
    decreases k,
{
    if k == 0 {
        1
    } else {
        10 * pow10((k - 1) as nat)
    }
}

/// A number's decimal form is nonempty and all digits.
pub proof fn lemma_dec_digits_props(n: int)
    requires
        0 <= n,
    ensures
        dec_digits(n).len() >= 1,
        forall|i: int| 0 <= i < dec_digits(n).len() ==> is_digit(#[trigger] dec_digits(n)[i]),
    decreases n,
{
    if n >= 10 {
        lemma_dec_digits_props(n / 10);
        assert(0 <= n % 10 < 10);
    }
}

/// Running the digit parser over the decimal form of `n` multiplies the
/// accumulator up and adds `n`.
proof fn lemma_parse_digits_chain(s: Seq<u8>, pos: int, acc: int, n: int)
    requires
        0 <= acc,
        0 <= n,
        0 <= pos,
        pos + dec_digits(n).len() <= s.len(),
        s.subrange(pos, pos + dec_digits(n).len() as int) == dec_digits(n),
        acc * pow10(dec_digits(n).len()) + n <= 0xffff_ffff_ffff_ffffu64,
    ensures
        parse_digits_s(s, pos, acc) == parse_digits_s(
            s,
            pos + dec_digits(n).len(),
            acc * pow10(dec_digits(n).len()) + n,
        ),
    decreases n,
{
    let dd = dec_digits(n);
    let ll = dd.len();
    assert(pow10(0) == 1);
    assert(pow10(1) == 10);
    if n < 10 {
        assert(s[pos] == dd[0]);
        assert(s[pos] == (48 + n) as u8);
        assert(acc * pow10(1) == acc * 10);
        assert(parse_digits_s(s, pos, acc) == parse_digits_s(s, pos + 1, acc * 10 + n));
    } else {
        let head = dec_digits(n / 10);
        let lh = head.len();
        assert(dd == head + seq![(48 + n % 10) as u8]);
        assert(s.subrange(pos, pos + lh as int) =~= head);
        vstd::arithmetic::div_mod::lemma_fundamental_div_mod(n, 10);
        assert(ll == lh + 1);
        assert(pow10(ll) == 10 * pow10(lh));
        let x = acc * pow10(lh) + n / 10;
        assert(x * 10 + n % 10 == acc * pow10(ll) + n) by (nonlinear_arith)
            requires
                x == acc * pow10(lh) + n / 10,
                pow10(ll) == 10 * pow10(lh),
                n == 10 * (n / 10) + n % 10,
        ;
        lemma_pow10_pos(lh);
        assert(0 <= acc * pow10(lh)) by (nonlinear_arith)
            requires
                0 <= acc,
                1 <= pow10(lh),
        ;
        lemma_parse_digits_chain(s, pos, acc, n / 10);
        let p1 = pos + lh;
        assert(s[p1] == dd[lh as int]);
        assert(s[p1] == (48 + n % 10) as u8);
        assert(0 <= n % 10 < 10);
        assert(parse_digits_s(s, p1, x) == parse_digits_s(s, p1 + 1, x * 10 + n % 10));
    }
}

/// `pow10` never sinks below one.
proof fn lemma_pow10_pos(k: nat)
    ensures
        pow10(k) >= 1,
    decreases k,
{
    if k > 0 {
        lemma_pow10_pos((k - 1) as nat);
    }
}

/// Parsing a number at its own decimal form, ended by a non-digit or the end
/// of input, yields the number back.
proof fn lemma_parse_uint_of(s: Seq<u8>, pos: int, n: int)
    requires
        0 <= n <= 0xffff_ffff_ffff_ffffu64,
        0 <= pos,
        pos + dec_digits(n).len() <= s.len(),
        s.subrange(pos, pos + dec_digits(n).len() as int) == dec_digits(n),
        pos + dec_digits(n).len() == s.len() || !is_digit(s[pos + dec_digits(n).len()]),
    ensures
        parse_uint_s(s, pos) == Some((n, pos + dec_digits(n).len())),
{
    lemma_dec_digits_props(n);
    lemma_pow10_pos(dec_digits(n).len());
    assert(s[pos] == dec_digits(n)[0]);
    assert(0 * pow10(dec_digits(n).len()) == 0) by (nonlinear_arith);
    lemma_parse_digits_chain(s, pos, 0, n);
    let pend = pos + dec_digits(n).len();
    assert(parse_digits_s(s, pend, n) == Some((n, pend)));
}

/// Skipping whitespace over a single whitespace byte steps past it.
proof fn lemma_skip_one_ws(s: Seq<u8>, p: int)
    requires
        0 <= p < s.len(),
        is_ws(s[p]),
        p + 1 == s.len() || !is_ws(s[p + 1]),
    ensures
        skip_ws_s(s, p) == p + 1,
{
    assert(skip_ws_s(s, p + 1) == p + 1);
}

/// Digits are not whitespace.
proof fn lemma_digit_not_ws(b: u8)
    requires
        is_digit(b),
    ensures
        !is_ws(b),
{
}

/// Where each piece of a pixel line sits among its bytes.
proof fn lemma_triple_bytes_layout(r: int, g: int, b: int)
    requires
        0 <= r,
        0 <= g,
        0 <= b,
    ensures
        triple_bytes(r, g, b).len() == triple_len(r, g, b),
        forall|j: int|
            0 <= j < dec_digits(r).len() ==> #[trigger] triple_bytes(r, g, b)[j] == dec_digits(
                r,
            )[j],
        forall|j: int|
            j == dec_digits(r).len() ==> #[trigger] triple_bytes(r, g, b)[j] == 32,
        forall|j: int|
            dec_digits(r).len() + 1 <= j < dec_digits(r).len() + 1 + dec_digits(g).len()
                ==> #[trigger] triple_bytes(r, g, b)[j] == dec_digits(g)[j - dec_digits(r).len()
                - 1],
        forall|j: int|
            j == dec_digits(r).len() + 1 + dec_digits(g).len() ==> #[trigger] triple_bytes(
                r,
                g,
                b,
            )[j] == 32,
        forall|j: int|
            dec_digits(r).len() + 1 + dec_digits(g).len() + 1 <= j < triple_len(r, g, b) - 1
                ==> #[trigger] triple_bytes(r, g, b)[j] == dec_digits(b)[j - dec_digits(r).len()
                - dec_digits(g).len() - 2],
        forall|j: int|
            j == triple_len(r, g, b) - 1 ==> #[trigger] triple_bytes(r, g, b)[j] == 10,
{
    let a1 = dec_digits(r) + seq![32u8];
    let a2 = a1 + dec_digits(g);
    let a3 = a2 + seq![32u8];
    let a4 = a3 + dec_digits(b);
    let a5 = a4 + seq![10u8];
    assert(triple_bytes(r, g, b) == a5);
}

/// Parsing one emitted pixel line yields its three channels and stops at the
/// line's closing newline.
proof fn lemma_parse_triple_of(s: Seq<u8>, pos: int, q: int, r: int, g: int, b: int)
    requires
        0 <= r <= 255,
        0 <= g <= 255,
        0 <= b <= 255,
        0 <= pos,
        skip_ws_s(s, pos) == q,
        0 <= q,
        q + triple_len(r, g, b) <= s.len(),
        s.subrange(q, q + triple_len(r, g, b)) == triple_bytes(r, g, b),
    ensures
        parse_triple_s(s, pos) == Some((r as u8, g as u8, b as u8, q + triple_len(r, g, b) - 1)),
{
    let lr = dec_digits(r).len() as int;
    let lg = dec_digits(g).len() as int;
    let lb = dec_digits(b).len() as int;
    let tb = triple_bytes(r, g, b);
    let tl = triple_len(r, g, b);
    lemma_dec_digits_props(r);
    lemma_dec_digits_props(g);
    lemma_dec_digits_props(b);
    lemma_triple_bytes_layout(r, g, b);

    assert forall|i: int| 0 <= i < tl implies s[q + i] == tb[i] by {
        assert(s.subrange(q, q + tl)[i] == s[q + i]);
    }

    assert(s.subrange(q, q + lr) =~= dec_digits(r)) by {
        assert forall|i: int| 0 <= i < lr implies s.subrange(q, q + lr)[i] == dec_digits(r)[i] by {
            assert(s[q + i] == tb[i]);
        }
    }
    assert(s[q + lr] == tb[lr]);
    lemma_parse_uint_of(s, q, r);

    let q2 = q + lr + 1;
    assert(s[q2] == tb[lr + 1]);
    assert(tb[lr + 1] == dec_digits(g)[0]);
    lemma_digit_not_ws(s[q2]);
    lemma_skip_one_ws(s, q + lr);
    assert(s.subrange(q2, q2 + lg) =~= dec_digits(g)) by {
        assert forall|i: int| 0 <= i < lg implies s.subrange(q2, q2 + lg)[i] == dec_digits(
            g,
        )[i] by {
            assert(s[q + (lr + 1 + i)] == tb[lr + 1 + i]);
            assert(s.subrange(q2, q2 + lg)[i] == s[q2 + i]);
            assert(q2 + i == q + (lr + 1 + i));
        }
    }
    assert(s[q2 + lg] == tb[lr + 1 + lg]);
    lemma_parse_uint_of(s, q2, g);

    let q3 = q2 + lg + 1;
    assert(s[q3] == tb[lr + 1 + lg + 1]);
    assert(tb[lr + 1 + lg + 1] == dec_digits(b)[0]);
    lemma_digit_not_ws(s[q3]);
    lemma_skip_one_ws(s, q2 + lg);
    assert(s.subrange(q3, q3 + lb) =~= dec_digits(b)) by {
        assert forall|i: int| 0 <= i < lb implies s.subrange(q3, q3 + lb)[i] == dec_digits(
            b,
        )[i] by {
            assert(s[q + (lr + 1 + lg + 1 + i)] == tb[lr + 1 + lg + 1 + i]);
            assert(s.subrange(q3, q3 + lb)[i] == s[q3 + i]);
            assert(q3 + i == q + (lr + 1 + lg + 1 + i));
        }
    }
    assert(s[q3 + lb] == tb[tl - 1]);
    lemma_parse_uint_of(s, q3, b);
    assert(q3 + lb == q + tl - 1);
}

/// One pixel line's bytes, as three channel values.
pub open spec fn triple_bytes(r: int, g: int, b: int) -> Seq<u8> {
    dec_digits(r) + seq![32u8] + dec_digits(g) + seq![32u8] + dec_digits(b) + seq![10u8]
}

pub open spec fn triple_len(r: int, g: int, b: int) -> int {
    dec_digits(r).len() + 1 + dec_digits(g).len() + 1 + dec_digits(b).len() + 1int
}

/// The RGBA bytes the reader reconstructs from pixel `k` on: the stored
/// channels with the alpha forced opaque.
pub open spec fn opaque_from(pixels: Seq<u8>, k: int, count: int) -> Seq<u8>
    decreases count - k,
{
    if k < 0 || k >= count {
        Seq::empty()
    } else {
        seq![pixels[4 * k], pixels[4 * k + 1], pixels[4 * k + 2], 255u8] + opaque_from(
            pixels,
            k + 1,
            count,
        )
    }
}

/// Parsing the emitted pixel lines from pixel `k` on yields the channels with
/// opaque alpha, ending at the last line's newline.
proof fn lemma_parse_body_of(s: Seq<u8>, pos: int, pixels: Seq<u8>, k: int, count: int)
    requires
        0 <= k < count,
        4 * count <= pixels.len(),
        0 <= pos,
        skip_ws_s(s, pos) == pos_start(s, pos),
        0 <= pos_start(s, pos),
        pos_start(s, pos) + body_from_s(pixels, k, count).len() <= s.len(),
        s.subrange(
            pos_start(s, pos),
            pos_start(s, pos) + body_from_s(pixels, k, count).len() as int,
        ) == body_from_s(pixels, k, count),
    ensures
        parse_body_s(s, pos, count - k) == Some(
            (
                opaque_from(pixels, k, count),
                pos_start(s, pos) + body_from_s(pixels, k, count).len() - 1,
            ),
        ),
    decreases count - k,
{
    let q = pos_start(s, pos);
    let body = body_from_s(pixels, k, count);
    let r = pixels[4 * k] as int;
    let g = pixels[4 * k + 1] as int;
    let b = pixels[4 * k + 2] as int;
    let tb = triple_bytes(r, g, b);
    let tl = triple_len(r, g, b);
    lemma_triple_bytes_layout(r, g, b);
    assert(triple_s(pixels, k) == tb);
    assert(body == tb + body_from_s(pixels, k + 1, count));
    assert forall|j: int| 0 <= j < body.len() implies s[q + j] == body[j] by {
        assert(s.subrange(q, q + body.len() as int)[j] == s[q + j]);
    }
    assert(s.subrange(q, q + tl) =~= tb);
    lemma_parse_triple_of(s, pos, q, r, g, b);
    let p1 = q + tl - 1;
    if k + 1 == count {
        assert(body_from_s(pixels, k + 1, count) =~= Seq::<u8>::empty());
        assert(parse_body_s(s, p1, 0) == Some((Seq::<u8>::empty(), p1)));
        assert(opaque_from(pixels, k + 1, count) =~= Seq::<u8>::empty());
        assert(seq![pixels[4 * k], pixels[4 * k + 1], pixels[4 * k + 2], 255u8]
            + Seq::<u8>::empty() =~= opaque_from(pixels, k, count));
        assert(body.len() == tl);
    } else {
        let rest = body_from_s(pixels, k + 1, count);
        let rtrip = triple_s(pixels, k + 1);
        lemma_triple_bytes_layout(
            pixels[4 * (k + 1)] as int,
            pixels[4 * (k + 1) + 1] as int,
            pixels[4 * (k + 1) + 2] as int,
        );
        lemma_dec_digits_props(pixels[4 * (k + 1)] as int);
        assert(rest == rtrip + body_from_s(pixels, k + 2, count));
        assert(rest[0] == rtrip[0]);
        assert(rtrip[0] == dec_digits(pixels[4 * (k + 1)] as int)[0]);
        assert(is_digit(rest[0]));
        assert(s[p1] == body[tl - 1]);
        assert(body[tl - 1] == tb[tl - 1]);
        assert(s[p1 + 1] == body[tl]);
        assert(body[tl] == rest[0]);
        lemma_digit_not_ws(s[p1 + 1]);
        lemma_skip_one_ws(s, p1);
        assert(pos_start(s, p1) == q + tl);
        assert(s.subrange(q + tl, q + tl + rest.len() as int) =~= rest) by {
            assert forall|i: int| 0 <= i < rest.len() implies s.subrange(
                q + tl,
                q + tl + rest.len() as int,
            )[i] == rest[i] by {
                assert(s[q + (tl + i)] == body[tl + i]);
                assert(body[tl + i] == rest[i]);
                assert(s.subrange(q + tl, q + tl + rest.len() as int)[i] == s[q + tl + i]);
                assert(q + tl + i == q + (tl + i));
            }
        }
        lemma_parse_body_of(s, p1, pixels, k + 1, count);
        let tail = opaque_from(pixels, k + 1, count);
        assert(seq![pixels[4 * k], pixels[4 * k + 1], pixels[4 * k + 2], 255u8] + tail
            =~= opaque_from(pixels, k, count));
    }
}

/// Where the parser will resume: the first non-whitespace byte at or after a
/// position.
pub open spec fn pos_start(s: Seq<u8>, pos: int) -> int {
    skip_ws_s(s, pos)
}

/// The reconstructed bytes keep every RGB channel and force the alpha opaque.
pub proof fn lemma_opaque_channels(pixels: Seq<u8>, k: int, count: int)
    requires
        0 <= k <= count,
        4 * count <= pixels.len(),
    ensures
        opaque_from(pixels, k, count).len() == 4 * (count - k),
        forall|i: int|
            0 <= i < 4 * (count - k) ==> #[trigger] opaque_from(pixels, k, count)[i] == (if i % 4
                == 3 {
                255u8
            } else {
                pixels[4 * k + i]
            }),
    decreases count - k,
{
    if k < count {
        lemma_opaque_channels(pixels, k + 1, count);
        assert forall|i: int| 0 <= i < 4 * (count - k) implies #[trigger] opaque_from(
            pixels,
            k,
            count,
        )[i] == (if i % 4 == 3 {
            255u8
        } else {
            pixels[4 * k + i]
        }) by {
            if i >= 4 {
                assert(opaque_from(pixels, k, count)[i] == opaque_from(pixels, k + 1, count)[i
                    - 4]);
                assert((i - 4) % 4 == i % 4) by (nonlinear_arith)
                    requires
                        4 <= i,
                ;
            } else {
                assert(0int % 4 == 0 && 1int % 4 == 1 && 2int % 4 == 2 && 3int % 4 == 3);
            }
        }
    }
}

/// Round trip: reading back what the writer emitted reproduces the size and
/// every RGB channel exactly; the alpha comes back fully opaque.
pub proof fn lemma_ppm_round_trip(im: ImageS)
    requires
        iwf(im),
        0 <= im.width <= usize::MAX,
        0 <= im.height <= usize::MAX,
        im.width * im.height * 4 <= usize::MAX,
    ensures
        ppm_parse_s(ppm_bytes_s(im)) == Some(
            (im.width, im.height, opaque_from(im.pixels, 0, im.width * im.height)),
        ),
{
    let w = im.width;
    let h = im.height;
    let count = w * h;
    assert(0 <= count && 4 * count <= im.pixels.len()) by (nonlinear_arith)
        requires
            0 <= w,
            0 <= h,
            im.pixels.len() == w * h * 4,
            count == w * h,
    ;
    let s = ppm_bytes_s(im);
    let dw = dec_digits(w);
    let dh = dec_digits(h);
    let dm = dec_digits(255);
    let body = body_from_s(im.pixels, 0, count);
    let lw = dw.len() as int;
    let lh = dh.len() as int;
    lemma_dec_digits_props(w);
    lemma_dec_digits_props(h);
    lemma_dec_digits_props(255);
    assert(dm.len() == 3 && dm[0] == 50 && dm[1] == 53 && dm[2] == 53) by {
        assert(dec_digits(2) == seq![50u8]);
        assert(dec_digits(25) == dec_digits(2) + seq![53u8]);
        assert(dec_digits(255) == dec_digits(25) + seq![53u8]);
    }
    assert(s == seq![80u8, 51u8, 10u8] + dw + seq![32u8] + dh + seq![10u8] + dm + seq![10u8]
        + body);
    let hl = 3 + lw + 1 + lh + 1 + 3 + 1;
    assert(s.len() == hl + body.len());

    // the magic token
    assert(s[0] == 80 && s[1] == 51 && s[2] == 10);
    assert(skip_ws_s(s, 0) == 0);
    assert(is_ws(s[2]));

    // width
    assert(s[3] == dw[0]);
    lemma_digit_not_ws(s[3]);
    lemma_skip_one_ws(s, 2);
    assert(s.subrange(3, 3 + lw) =~= dw);
    assert(s[3 + lw] == 32);
    lemma_parse_uint_of(s, 3, w);
    let p1 = 3 + lw;

    // height
    assert(s[p1 + 1] == dh[0]);
    lemma_digit_not_ws(s[p1 + 1]);
    lemma_skip_one_ws(s, p1);
    assert(s.subrange(p1 + 1, p1 + 1 + lh) =~= dh);
    assert(s[p1 + 1 + lh] == 10);
    lemma_parse_uint_of(s, p1 + 1, h);
    let p2 = p1 + 1 + lh;

    // the maximum channel value
    assert(s[p2 + 1] == dm[0]);
    lemma_digit_not_ws(s[p2 + 1]);
    lemma_skip_one_ws(s, p2);
    assert(s.subrange(p2 + 1, p2 + 4) =~= dm);
    assert(s[p2 + 4] == 10);
    lemma_parse_uint_of(s, p2 + 1, 255);
    let p3 = p2 + 4;
    assert(p3 + 1 == hl);

    // the pixel lines
    if count == 0 {
        assert(parse_body_s(s, p3, 0) == Some((Seq::<u8>::empty(), p3)));
        assert(opaque_from(im.pixels, 0, 0) =~= Seq::<u8>::empty());
    } else {
        let r0 = im.pixels[0] as int;
        assert(body == triple_s(im.pixels, 0) + body_from_s(im.pixels, 1, count));
        lemma_dec_digits_props(r0);
        assert(body[0] == dec_digits(r0)[0]);
        assert(s[hl] == body[0]);
        lemma_digit_not_ws(s[hl]);
        lemma_skip_one_ws(s, p3);
        assert(pos_start(s, p3) == hl);
        assert(s.subrange(hl, hl + body.len() as int) =~= body);
        lemma_parse_body_of(s, p3, im.pixels, 0, count);
    }
}

/// Extending the pixel range by one appends exactly that pixel's line.
pub proof fn lemma_body_snoc(pixels: Seq<u8>, from: int, k: int)
    requires
        0 <= from <= k,
    ensures
        body_from_s(pixels, from, k + 1) == body_from_s(pixels, from, k) + triple_s(pixels, k),
    decreases k - from,
{
    if from == k {
        assert(body_from_s(pixels, k + 1, k + 1) =~= Seq::<u8>::empty());
        assert(body_from_s(pixels, from, k) =~= Seq::<u8>::empty());
        assert(body_from_s(pixels, from, k + 1) =~= body_from_s(pixels, from, k) + triple_s(
            pixels,
            k,
        ));
    } else {
        lemma_body_snoc(pixels, from + 1, k);
        assert(body_from_s(pixels, from, k + 1) =~= body_from_s(pixels, from, k) + triple_s(
            pixels,
            k,
        ));
    }
}

} // verus!
