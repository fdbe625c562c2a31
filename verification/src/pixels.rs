//! Pixel format conversions of the encode path.

use vstd::prelude::*;
use vstd::arithmetic::div_mod::lemma_fundamental_div_mod;

verus! {

/// An RGBA image without its alpha bytes: three bytes for each whole pixel.
pub open spec fn without_alpha(rgba: Seq<u8>) -> Seq<u8> {
    Seq::new(((rgba.len() / 4) * 3) as nat, |k: int| rgba[(k / 3) * 4 + k % 3])
}

/// Drops the alpha byte of every pixel: pixel `p` of the source, bytes
/// `4p..4p+3`, goes to bytes `3p..3p+3` of the destination. A source whose
/// length is no multiple of four has its last, incomplete pixel ignored.
/// Destination bytes behind the last pixel written keep their value.
pub fn rgba_to_rgb_inplace(dst_rgb: &mut [u8], src_rgba: &[u8])
    requires
        old(dst_rgb)@.len() >= (src_rgba@.len() / 4) * 3,
    ensures
        final(dst_rgb)@.len() == old(dst_rgb)@.len(),
        forall|k: int|
            0 <= k < final(dst_rgb)@.len() ==> final(dst_rgb)@[k] == if k < (src_rgba@.len() / 4) * 3 {
                src_rgba@[(k / 3) * 4 + k % 3]
            } else {
                old(dst_rgb)@[k]
            },
        final(dst_rgb)@.subrange(0, ((src_rgba@.len() / 4) * 3) as int) == without_alpha(src_rgba@),
{
    let pixels: usize = src_rgba.len() / 4;
    let mut p: usize = 0;
    while p < pixels
        invariant
            p <= pixels,
            pixels == src_rgba.len() / 4,
            dst_rgb.len() == old(dst_rgb).len(),
            dst_rgb.len() >= pixels * 3,
            forall|k: int|
                0 <= k < dst_rgb@.len() ==> dst_rgb@[k] == if k < p * 3 {
                    src_rgba@[(k / 3) * 4 + k % 3]
                } else {
                    old(dst_rgb)@[k]
                },
        decreases pixels - p,
    {
        dst_rgb[p * 3] = src_rgba[p * 4];
        dst_rgb[p * 3 + 1] = src_rgba[p * 4 + 1];
        dst_rgb[p * 3 + 2] = src_rgba[p * 4 + 2];
        p = p + 1;
    }
    assert(dst_rgb@.subrange(0, ((src_rgba@.len() / 4) * 3) as int) =~= without_alpha(src_rgba@));
}

/// Channel `ch` of the pixel in column `x` of row `y` of an image that is
/// `width` pixels wide.
pub open spec fn channel_at(image: Seq<u8>, width: int, x: int, y: int, ch: int) -> u8 {
    image[(y * width + x) * 4 + ch]
}

/// The mean, rounded down, of one channel over the two by two pixels whose
/// top left corner is `(2x, 2y)`.
pub open spec fn box_mean(src: Seq<u8>, width: int, x: int, y: int, ch: int) -> u8 {
    ((channel_at(src, width, 2 * x, 2 * y, ch) + channel_at(src, width, 2 * x + 1, 2 * y, ch)
        + channel_at(src, width, 2 * x, 2 * y + 1, ch) + channel_at(
        src,
        width,
        2 * x + 1,
        2 * y + 1,
        ch,
    )) / 4) as u8
}

/// An image halved in both directions: `width / 2` by `height / 2` pixels,
/// tightly packed, each channel of each pixel the mean of a box of two by
/// two pixels of the source.
pub open spec fn halved(src: Seq<u8>, width: int, height: int) -> Seq<u8> {
    Seq::new(
        ((width / 2) * (height / 2) * 4) as nat,
        |k: int| box_mean(src, width, (k / 4) % (width / 2), (k / 4) / (width / 2), k % 4),
    )
}

/// An image that holds the box means pixel by pixel is the halved image.
proof fn lemma_halved(dst: Seq<u8>, src: Seq<u8>, width: int, height: int)
    requires
        0 <= width,
        0 <= height,
        dst.len() >= (width / 2) * (height / 2) * 4,
        forall|x: int, y: int, ch: int|
            0 <= x < width / 2 && 0 <= y < height / 2 && 0 <= ch < 4 ==> #[trigger] channel_at(
                dst,
                width / 2,
                x,
                y,
                ch,
            ) == box_mean(src, width, x, y, ch),
    ensures
        dst.subrange(0, (width / 2) * (height / 2) * 4) == halved(src, width, height),
{
    let nw = width / 2;
    let nh = height / 2;
    let n = nw * nh * 4;
    assert(nw * nh >= 0) by (nonlinear_arith)
        requires
            nw >= 0,
            nh >= 0,
    ;
    let front = dst.subrange(0, n);
    let want = halved(src, width, height);
    assert forall|k: int| 0 <= k < n implies front[k] == want[k] by {
        let q = k / 4;
        let ch = k % 4;
        if nw > 0 {
            let y = q / nw;
            let x = q % nw;
            lemma_fundamental_div_mod(q, nw);
            assert(0 <= y < nh) by (nonlinear_arith)
                requires
                    0 <= q < nw * nh,
                    q == nw * y + x,
                    0 <= x < nw,
                    nw > 0,
            ;
            assert(y * nw == nw * y) by (nonlinear_arith);
            assert(channel_at(dst, nw, x, y, ch) == box_mean(src, width, x, y, ch));
        } else {
            assert(nw * nh == 0) by (nonlinear_arith)
                requires
                    nw == 0,
            ;
        }
    }
    assert(front =~= want);
}

/// A pixel that comes earlier in row-major order has the smaller offset.
proof fn lemma_pixel_order(width: int, x1: int, y1: int, x2: int, y2: int)
    requires
        0 <= x1 < width,
        0 <= x2 <= width,
        0 <= y1,
        y1 < y2 || (y1 == y2 && x1 < x2),
    ensures
        0 <= (y1 * width + x1) * 4,
        (y1 * width + x1) * 4 + 4 <= (y2 * width + x2) * 4,
{
    assert(0 <= y1 * width) by (nonlinear_arith)
        requires
            0 <= y1,
            0 <= width,
    ;
    if y1 < y2 {
        assert((y1 + 1) * width <= y2 * width) by (nonlinear_arith)
            requires
                y1 + 1 <= y2,
                0 <= width,
        ;
        assert((y1 + 1) * width == y1 * width + width) by (nonlinear_arith);
    }
}

/// Halves an image in both directions. Each pixel of the result is the mean
/// of a box of two by two source pixels, channel by channel, rounded down; an
/// odd last column or row of the source is left out. The result is written
/// to the front of `dst`, tightly packed; the rest of `dst` keeps its
/// value. Returns the new width and height.
pub fn downscale_rgba_box_2x(dst: &mut [u8], src: &[u8], w: usize, h: usize) -> (dims: (usize, usize))
    requires
        src@.len() == w * h * 4,
        old(dst)@.len() >= (w / 2) * (h / 2) * 4,
    ensures
        dims.0 == w / 2,
        dims.1 == h / 2,
        final(dst)@.len() == old(dst)@.len(),
        forall|x: int, y: int, ch: int|
            0 <= x < w / 2 && 0 <= y < h / 2 && 0 <= ch < 4 ==> #[trigger] channel_at(
                final(dst)@,
                (w / 2) as int,
                x,
                y,
                ch,
            ) == box_mean(src@, w as int, x, y, ch),
        forall|k: int|
            (w / 2) * (h / 2) * 4 <= k < final(dst)@.len() ==> final(dst)@[k] == old(dst)@[k],
        final(dst)@.subrange(0, (w / 2) * (h / 2) * 4) == halved(src@, w as int, h as int),
{
    let nw: usize = w / 2;
    let nh: usize = h / 2;
    let mut y: usize = 0;
    proof {
        assert(0 * nw == 0) by (nonlinear_arith);
    }
    while y < nh
        invariant
            y <= nh,
            nw == w / 2,
            nh == h / 2,
            src.len() == w * h * 4,
            dst.len() == old(dst).len(),
            dst.len() >= nw * nh * 4,
            forall|x1: int, y1: int, ch: int|
                0 <= x1 < nw && 0 <= y1 < y && 0 <= ch < 4 ==> #[trigger] channel_at(
                    dst@,
                    nw as int,
                    x1,
                    y1,
                    ch,
                ) == box_mean(src@, w as int, x1, y1, ch),
            forall|k: int| (y * nw) * 4 <= k < dst@.len() ==> dst@[k] == old(dst)@[k],
        decreases nh - y,
    {
        let mut x: usize = 0;
        while x < nw
            invariant
                y < nh,
                x <= nw,
                nw == w / 2,
                nh == h / 2,
                src.len() == w * h * 4,
                dst.len() == old(dst).len(),
                dst.len() >= nw * nh * 4,
                forall|x1: int, y1: int, ch: int|
                    0 <= x1 < nw && 0 <= y1 <= y && (y1 < y || x1 < x) && 0 <= ch < 4
                        ==> #[trigger] channel_at(dst@, nw as int, x1, y1, ch) == box_mean(
                        src@,
                        w as int,
                        x1,
                        y1,
                        ch,
                    ),
                forall|k: int| (y * nw + x) * 4 <= k < dst@.len() ==> dst@[k] == old(dst)@[k],
            decreases nw - x,
        {
            proof {
                lemma_pixel_order(w as int, 2 * x + 1, 2 * y + 1, w as int, 2 * y + 1);
                lemma_pixel_order(w as int, 2 * x + 1, 2 * y, 0, 2 * y + 1);
                lemma_pixel_order(w as int, 2 * x, 2 * y, 2 * x + 1, 2 * y);
                lemma_pixel_order(w as int, 2 * x, 2 * y + 1, 2 * x + 1, 2 * y + 1);
                assert((2 * y + 1) * w + w <= h * w) by (nonlinear_arith)
                    requires
                        2 * y + 2 <= h,
                        0 <= w,
                ;
                assert(h * w == w * h) by (nonlinear_arith);
                lemma_pixel_order(nw as int, x as int, y as int, nw as int, y as int);
                assert(y * nw + nw <= nh * nw) by (nonlinear_arith)
                    requires
                        y + 1 <= nh,
                        0 <= nw,
                ;
                assert(nh * nw == nw * nh) by (nonlinear_arith);
            }
            let i00: usize = ((2 * y) * w + 2 * x) * 4;
            let i01: usize = ((2 * y) * w + (2 * x + 1)) * 4;
            let i10: usize = ((2 * y + 1) * w + 2 * x) * 4;
            let i11: usize = ((2 * y + 1) * w + (2 * x + 1)) * 4;
            let o: usize = (y * nw + x) * 4;
            let ghost before = dst@;
            let mut ch: usize = 0;
            while ch < 4
                invariant
                    ch <= 4,
                    y < nh,
                    x < nw,
                    nw == w / 2,
                    nh == h / 2,
                    src.len() == w * h * 4,
                    dst.len() == old(dst).len(),
                    dst.len() == before.len(),
                    o == (y * nw + x) * 4,
                    o + 4 <= dst.len(),
                    i00 == ((2 * y) * w + 2 * x) * 4,
                    i01 == ((2 * y) * w + (2 * x + 1)) * 4,
                    i10 == ((2 * y + 1) * w + 2 * x) * 4,
                    i11 == ((2 * y + 1) * w + (2 * x + 1)) * 4,
                    i00 + 4 <= src.len(),
                    i01 + 4 <= src.len(),
                    i10 + 4 <= src.len(),
                    i11 + 4 <= src.len(),
                    forall|k: int| 0 <= k < dst@.len() && !(o <= k < o + ch) ==> dst@[k] == before[k],
                    forall|c: int|
                        0 <= c < ch ==> dst@[o + c] == box_mean(src@, w as int, x as int, y as int, c),
                decreases 4 - ch,
            {
                let sum: u32 = src[i00 + ch] as u32 + src[i01 + ch] as u32 + src[i10 + ch] as u32
                    + src[i11 + ch] as u32;
                dst[o + ch] = (sum / 4) as u8;
                ch = ch + 1;
            }
            proof {
                assert forall|x1: int, y1: int, c: int|
                    0 <= x1 < nw && 0 <= y1 <= y && (y1 < y || x1 < x + 1) && 0 <= c < 4
                        implies #[trigger] channel_at(dst@, nw as int, x1, y1, c) == box_mean(
                        src@,
                        w as int,
                        x1,
                        y1,
                        c,
                    ) by {
                    if y1 == y && x1 == x {
                        assert(dst@[o + c] == box_mean(src@, w as int, x as int, y as int, c));
                    } else {
                        lemma_pixel_order(nw as int, x1, y1, x as int, y as int);
                        assert(channel_at(before, nw as int, x1, y1, c) == box_mean(
                            src@,
                            w as int,
                            x1,
                            y1,
                            c,
                        ));
                    }
                }
            }
            x = x + 1;
        }
        proof {
            assert((y + 1) * nw == y * nw + nw) by (nonlinear_arith);
        }
        y = y + 1;
    }
    proof {
        assert(nh * nw == nw * nh) by (nonlinear_arith);
        lemma_halved(dst@, src@, w as int, h as int);
    }
    (nw, nh)
}

} // verus!
