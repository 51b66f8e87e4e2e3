//! The pixel buffer: a width x height raster of 4-channel 8-bit pixels,
//! row-major, with get/set by coordinate and a vertical flip.

use vstd::prelude::*;
use vstd::pervasive::VecAdditionalExecFns;

verus! {

pub ghost struct ImageS {
    pub width: int,
    pub height: int,
    pub pixels: Seq<u8>,
}

#[derive(Debug)]
pub struct ImageRGBA {
    pub width: usize,
    pub height: usize,
    pub pixels: Vec<u8>,
}

impl View for ImageRGBA {
    type V = ImageS;

    open spec fn view(&self) -> ImageS {
        ImageS { width: self.width as int, height: self.height as int, pixels: self.pixels@ }
    }
}

pub open spec fn iwf(im: ImageS) -> bool {
    im.pixels.len() == im.width * im.height * 4
}

/// The byte offset of pixel `(i, j)` in the row-major buffer.
pub open spec fn px_idx(im: ImageS, i: int, j: int) -> int {
    (j * im.width + i) * 4
}

/// The four channels of pixel `(i, j)`.
pub open spec fn px_s(im: ImageS, i: int, j: int) -> (u8, u8, u8, u8) {
    let idx = px_idx(im, i, j);
    (im.pixels[idx], im.pixels[idx + 1], im.pixels[idx + 2], im.pixels[idx + 3])
}

/// Pack four channels into one word, highest byte first.
pub open spec fn pack_rgba_s(r: u8, g: u8, b: u8, a: u8) -> u32 {
    ((r as u32) << 24) | ((g as u32) << 16) | ((b as u32) << 8) | (a as u32)
}

/// A pixel's byte offset stays within the buffer.
pub proof fn lemma_px_idx_bound(im: ImageS, i: int, j: int)
    requires
        iwf(im),
        0 <= i < im.width,
        0 <= j < im.height,
    ensures
        0 <= px_idx(im, i, j),
        px_idx(im, i, j) + 4 <= im.pixels.len(),
{
    assert(0 <= j * im.width + i && (j * im.width + i) * 4 + 4 <= im.width * im.height * 4)
        by (nonlinear_arith)
        requires
            0 <= i < im.width,
            0 <= j < im.height,
    ;
}

impl ImageRGBA {
    pub fn new(width: usize, height: usize) -> (im: ImageRGBA)
        requires
            width * height * 4 <= usize::MAX,
        ensures
            iwf(im@),
            im@.width == width as int,
            im@.height == height as int,
            forall|i: int, j: int|
                0 <= i < width && 0 <= j < height ==> #[trigger] px_s(im@, i, j) == (
                10u8,
                10u8,
                10u8,
                255u8,
            ),
    {
        assert(width * height <= usize::MAX && (width * height) * 4 == width * height * 4)
            by (nonlinear_arith)
            requires
                width * height * 4 <= usize::MAX,
        ;
        let count: usize = width * height;
        let sz: usize = count * 4;
        let mut pixels: Vec<u8> = Vec::new();
        let mut k: usize = 0;
        while k < sz
            invariant
                k <= sz,
                pixels@.len() == k as int,
                forall|m: int| 0 <= m < k ==> #[trigger] pixels@[m] == init_byte(m),
            decreases sz - k,
        {
            if k % 4 == 3 {
                pixels.push(255);
            } else {
                pixels.push(10);
            }
            k = k + 1;
        }
        let im = ImageRGBA { width, height, pixels };
        proof {
            assert forall|i: int, j: int| 0 <= i < width && 0 <= j < height implies #[trigger] px_s(
                im@,
                i,
                j,
            ) == (10u8, 10u8, 10u8, 255u8) by {
                lemma_px_idx_bound(im@, i, j);
                let idx = px_idx(im@, i, j);
                assert(idx % 4 == 0 && (idx + 1) % 4 == 1 && (idx + 2) % 4 == 2 && (idx + 3) % 4
                    == 3) by (nonlinear_arith)
                    requires
                        idx == (j * im@.width + i) * 4,
                ;
            }
        }
        im
    }

    pub fn at(&self, i: usize, j: usize) -> (px: (u8, u8, u8, u8))
        requires
            iwf(self@),
            i < self@.width,
            j < self@.height,
        ensures
            px == px_s(self@, i as int, j as int),
    {
        let _len: usize = self.pixels.len();
        proof {
            lemma_px_idx_bound(self@, i as int, j as int);
        }
        let idx: usize = (j * self.width + i) * 4;

        (self.pixels[idx], self.pixels[idx + 1], self.pixels[idx + 2], self.pixels[idx + 3])
    }

    pub fn at_u32(&self, i: usize, j: usize) -> (px: u32)
        requires
            iwf(self@),
            i < self@.width,
            j < self@.height,
        ensures
            ({
                let (r, g, b, a) = px_s(self@, i as int, j as int);
                px == pack_rgba_s(r, g, b, a)
            }),
    {
        let (r, g, b, a) = self.at(i, j);

        ((r as u32) << 24) | ((g as u32) << 16) | ((b as u32) << 8) | (a as u32)
    }

    pub fn put(&mut self, i: usize, j: usize, r: u8, g: u8, b: u8, a: u8)
        requires
            iwf(old(self)@),
            i < old(self)@.width,
            j < old(self)@.height,
        ensures
            iwf(final(self)@),
            final(self)@.width == old(self)@.width,
            final(self)@.height == old(self)@.height,
            final(self)@.pixels == old(self)@.pixels.update(
                px_idx(old(self)@, i as int, j as int),
                r,
            ).update(px_idx(old(self)@, i as int, j as int) + 1, g).update(
                px_idx(old(self)@, i as int, j as int) + 2,
                b,
            ).update(px_idx(old(self)@, i as int, j as int) + 3, a),
    {
        let _len: usize = self.pixels.len();
        proof {
            lemma_px_idx_bound(old(self)@, i as int, j as int);
        }
        let idx: usize = (j * self.width + i) * 4;

        self.pixels.set(idx, r);
        self.pixels.set(idx + 1, g);
        self.pixels.set(idx + 2, b);
        self.pixels.set(idx + 3, a);
    }

    pub fn put_u32(&mut self, i: usize, j: usize, rgba: u32)
        requires
            iwf(old(self)@),
            i < old(self)@.width,
            j < old(self)@.height,
        ensures
            iwf(final(self)@),
            final(self)@.width == old(self)@.width,
            final(self)@.height == old(self)@.height,
            final(self)@.pixels == old(self)@.pixels.update(
                px_idx(old(self)@, i as int, j as int),
                ((rgba >> 24) & 0xFF) as u8,
            ).update(
                px_idx(old(self)@, i as int, j as int) + 1,
                ((rgba >> 16) & 0xFF) as u8,
            ).update(px_idx(old(self)@, i as int, j as int) + 2, ((rgba >> 8) & 0xFF) as u8).update(
                px_idx(old(self)@, i as int, j as int) + 3,
                (rgba & 0xFF) as u8,
            ),
    {
        let r: u8 = ((rgba >> 24) & 0xFF) as u8;
        let g: u8 = ((rgba >> 16) & 0xFF) as u8;
        let b: u8 = ((rgba >> 8) & 0xFF) as u8;
        let a: u8 = (rgba & 0xFF) as u8;

        self.put(i, j, r, g, b, a);
    }
}

/// What the constructor writes at offset `m`: opaque alpha every fourth byte,
/// dark gray elsewhere.
pub open spec fn init_byte(m: int) -> u8 {
    if m % 4 == 3 {
        255u8
    } else {
        10u8
    }
}

/// Packing four channels and unpacking them returns the channels unchanged.
pub proof fn lemma_pack_unpack(r: u8, g: u8, b: u8, a: u8)
    ensures
        ((pack_rgba_s(r, g, b, a) >> 24) & 0xFF) as u8 == r,
        ((pack_rgba_s(r, g, b, a) >> 16) & 0xFF) as u8 == g,
        ((pack_rgba_s(r, g, b, a) >> 8) & 0xFF) as u8 == b,
        (pack_rgba_s(r, g, b, a) & 0xFF) as u8 == a,
{
    assert((((((r as u32) << 24) | ((g as u32) << 16) | ((b as u32) << 8) | (a as u32)) >> 24)
        & 0xFF) == r as u32) by (bit_vector);
    assert((((((r as u32) << 24) | ((g as u32) << 16) | ((b as u32) << 8) | (a as u32)) >> 16)
        & 0xFF) == g as u32) by (bit_vector);
    assert((((((r as u32) << 24) | ((g as u32) << 16) | ((b as u32) << 8) | (a as u32)) >> 8)
        & 0xFF) == b as u32) by (bit_vector);
    assert(((((r as u32) << 24) | ((g as u32) << 16) | ((b as u32) << 8) | (a as u32)) & 0xFF)
        == a as u32) by (bit_vector);
}

/// Flip an image vertically: row `j` of the result is row `height - 1 - j` of
/// the input.
pub fn flipv(im: &ImageRGBA) -> (out: ImageRGBA)
    requires
        iwf(im@),
    ensures
        iwf(out@),
        out@.width == im@.width,
        out@.height == im@.height,
        forall|i: int, j: int|
            0 <= i < im@.width && 0 <= j < im@.height ==> #[trigger] px_s(out@, i, j) == px_s(
                im@,
                i,
                im@.height - 1 - j,
            ),
{
    let _len: usize = im.pixels.len();
    let mut out: ImageRGBA = ImageRGBA::new(im.width, im.height);

    let mut j: usize = 0;
    while j < im.height
        invariant
            iwf(im@),
            iwf(out@),
            out@.width == im@.width,
            out@.height == im@.height,
            j <= im@.height,
            forall|x: int, y: int|
                0 <= x < im@.width && im@.height - j <= y < im@.height ==> #[trigger] px_s(
                    out@,
                    x,
                    y,
                ) == px_s(im@, x, im@.height - 1 - y),
        decreases im@.height - j,
    {
        let mut i: usize = 0;
        while i < im.width
            invariant
                iwf(im@),
                iwf(out@),
                out@.width == im@.width,
                out@.height == im@.height,
                j < im@.height,
                i <= im@.width,
                forall|x: int, y: int|
                    0 <= x < im@.width && im@.height - j <= y < im@.height ==> #[trigger] px_s(
                        out@,
                        x,
                        y,
                    ) == px_s(im@, x, im@.height - 1 - y),
                forall|x: int|
                    0 <= x < i ==> #[trigger] px_s(out@, x, im@.height - 1 - j) == px_s(
                        im@,
                        x,
                        j as int,
                    ),
            decreases im@.width - i,
        {
            let px: u32 = im.at_u32(i, j);
            let ghost old_out = out@;
            out.put_u32(i, im.height - 1 - j, px);
            proof {
                let (r, g, b, a) = px_s(im@, i as int, j as int);
                lemma_pack_unpack(r, g, b, a);
                lemma_px_idx_bound(old_out, i as int, im@.height - 1 - j);
                assert forall|x: int, y: int|
                    0 <= x < im@.width && 0 <= y < im@.height && !(x == i as int && y == im@.height
                        - 1 - j) implies #[trigger] px_s(out@, x, y) == px_s(old_out, x, y) by {
                    lemma_px_idx_bound(old_out, x, y);
                    lemma_px_idx_distinct(old_out, x, y, i as int, im@.height - 1 - j);
                }
            }
            i = i + 1;
        }
        proof {
            assert forall|x: int, y: int|
                0 <= x < im@.width && im@.height - (j + 1) <= y < im@.height implies #[trigger]
            px_s(out@, x, y) == px_s(im@, x, im@.height - 1 - y) by {
                if y == im@.height - 1 - j {
                    assert(px_s(out@, x, im@.height - 1 - j) == px_s(im@, x, j as int));
                }
            }
        }
        j = j + 1;
    }
    out
}

/// Distinct coordinates use distinct byte ranges.
pub proof fn lemma_px_idx_distinct(im: ImageS, x: int, y: int, i: int, j: int)
    requires
        iwf(im),
        0 <= x < im.width,
        0 <= y < im.height,
        0 <= i < im.width,
        0 <= j < im.height,
        !(x == i && y == j),
    ensures
        px_idx(im, x, y) + 4 <= px_idx(im, i, j) || px_idx(im, i, j) + 4 <= px_idx(im, x, y),
{
    assert((y * im.width + x) * 4 + 4 <= (j * im.width + i) * 4 || (j * im.width + i) * 4 + 4 <= (y
        * im.width + x) * 4) by (nonlinear_arith)
        requires
            0 <= x < im.width,
            0 <= y < im.height,
            0 <= i < im.width,
            0 <= j < im.height,
            !(x == i && y == j),
    ;
}

} // verus!
