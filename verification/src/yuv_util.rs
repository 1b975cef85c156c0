//! Conversion of packed RGB pixels to YUV 4:2:0, the input of the encoder.
//!
//! Every pixel gives one luma sample. Chroma is taken, not averaged: each odd
//! column of each even row gives one U and one V sample.

use vstd::prelude::*;
use vstd::arithmetic::div_mod::lemma_fundamental_div_mod_converse;

verus! {

/// How the chroma samples follow the luma plane.
#[derive(Clone, Copy, Debug, PartialEq, Eq)]
pub enum ChromaLayout {
    /// All U samples, then all V samples: three planes.
    Planar,
    /// U and V of each sample side by side: two planes, as in NV12.
    Interleaved,
}

/// `val` held to the range of a byte.
pub open spec fn clamped(val: int) -> u8 {
    if val < 0 {
        0u8
    } else if val > 255 {
        255u8
    } else {
        val as u8
    }
}

/// Luma of a pixel.
#[verifier::opaque]
pub open spec fn luma(r: u8, g: u8, b: u8) -> u8 {
    clamped((77 * r + 150 * g + 29 * b + 128) / 256)
}

/// Blue-difference chroma of a pixel.
#[verifier::opaque]
pub open spec fn chroma_u(r: u8, g: u8, b: u8) -> u8 {
    clamped((-43 * r - 84 * g + 127 * b + 128) / 256 + 128)
}

/// Red-difference chroma of a pixel.
#[verifier::opaque]
pub open spec fn chroma_v(r: u8, g: u8, b: u8) -> u8 {
    clamped((127 * r - 106 * g - 21 * b + 128) / 256 + 128)
}

/// Luma of pixel `p` of `img`, whose pixels take `bpp` bytes each and start
/// with red, green and blue.
pub open spec fn pixel_luma(img: Seq<u8>, bpp: nat, p: int) -> u8 {
    luma(img[p * bpp], img[p * bpp + 1], img[p * bpp + 2])
}

/// Blue-difference chroma of pixel `p` of `img`.
pub open spec fn pixel_u(img: Seq<u8>, bpp: nat, p: int) -> u8 {
    chroma_u(img[p * bpp], img[p * bpp + 1], img[p * bpp + 2])
}

/// Red-difference chroma of pixel `p` of `img`.
pub open spec fn pixel_v(img: Seq<u8>, bpp: nat, p: int) -> u8 {
    chroma_v(img[p * bpp], img[p * bpp + 1], img[p * bpp + 2])
}

/// Bytes of a YUV 4:2:0 frame: the luma plane and half as much again.
pub open spec fn yuv_len(width: nat, height: nat) -> nat {
    width * height * 3 / 2
}

/// Bytes of one chroma plane of a planar frame.
pub open spec fn chroma_plane_len(width: nat, height: nat) -> nat {
    width * height / 4
}

/// Number of chroma samples taken: one for each odd column of each even row.
#[verifier::opaque]
pub open spec fn chroma_samples(width: nat, height: nat) -> nat {
    ((height + 1) / 2) * (width / 2)
}

/// The pixel that chroma sample `k` is taken from, rows counted through.
#[verifier::opaque]
pub open spec fn chroma_source(width: nat, k: int) -> int {
    2 * (k / (width as int / 2)) * width + 2 * (k % (width as int / 2)) + 1
}

/// The image holds red, green and blue of every pixel, and the frame's size
/// can be computed in 32 bits.
pub open spec fn image_fits(img_len: nat, width: nat, height: nat, bpp: nat) -> bool {
    &&& width * height * 3 <= u32::MAX
    &&& (width * height == 0 || (width * height - 1) * bpp + 3 <= img_len)
}

/// Every chroma sample taken has its place in the frame. It holds of all
/// frames of even width and even height.
pub open spec fn chroma_fits(width: nat, height: nat, layout: ChromaLayout) -> bool {
    let n = chroma_samples(width, height);
    n == 0 || match layout {
        ChromaLayout::Planar => width * height + n + chroma_plane_len(width, height) <= yuv_len(
            width,
            height,
        ),
        ChromaLayout::Interleaved => width * height + 2 * n <= yuv_len(width, height),
    }
}

/// Byte `q` after the luma plane, once the first `k` chroma samples are stored.
/// In a planar frame U sample `q` stands at `q` and V sample `q` one plane
/// further. Where a U and a V sample fall on one byte, as they can in a frame
/// of odd height, the one stored later stays: the U sample, or the V sample
/// where the plane is empty. In an interleaved frame sample `q / 2` stands at
/// `q`, U before V. A byte that no sample reached is 0.
pub open spec fn chroma_byte(
    img: Seq<u8>,
    width: nat,
    height: nat,
    bpp: nat,
    layout: ChromaLayout,
    k: int,
    q: int,
) -> u8 {
    let plane = chroma_plane_len(width, height) as int;
    match layout {
        ChromaLayout::Planar => if q < k && plane > 0 {
            pixel_u(img, bpp, chroma_source(width, q))
        } else if plane <= q < plane + k {
            pixel_v(img, bpp, chroma_source(width, q - plane))
        } else {
            0u8
        },
        ChromaLayout::Interleaved => if q < 2 * k {
            if q % 2 == 0 {
                pixel_u(img, bpp, chroma_source(width, q / 2))
            } else {
                pixel_v(img, bpp, chroma_source(width, q / 2))
            }
        } else {
            0u8
        },
    }
}

/// The frame `yuv` with one more chroma sample: `u` at `at`, and `v` one
/// plane further in a planar frame, on the next byte in an interleaved one.
pub open spec fn with_sample(
    yuv: Seq<u8>,
    layout: ChromaLayout,
    at: int,
    plane: int,
    u: u8,
    v: u8,
) -> Seq<u8> {
    match layout {
        ChromaLayout::Planar => yuv.update(at, u).update(at + plane, v),
        ChromaLayout::Interleaved => yuv.update(at, u).update(at + 1, v),
    }
}

/// The frame once the first `done` pixels are converted and the first `k`
/// chroma samples stored.
#[verifier::opaque]
pub open spec fn yuv_partial(
    img: Seq<u8>,
    width: nat,
    height: nat,
    bpp: nat,
    layout: ChromaLayout,
    done: int,
    k: int,
) -> Seq<u8> {
    Seq::new(
        yuv_len(width, height),
        |p: int|
            if p < width * height {
                if p < done {
                    pixel_luma(img, bpp, p)
                } else {
                    0u8
                }
            } else {
                chroma_byte(img, width, height, bpp, layout, k, p - width * height)
            },
    )
}

/// The YUV 4:2:0 frame of `img`: the luma of every pixel, row by row, then
/// the chroma samples in the given layout.
pub open spec fn spec_yuv420(
    img: Seq<u8>,
    width: nat,
    height: nat,
    bpp: nat,
    layout: ChromaLayout,
) -> Seq<u8> {
    yuv_partial(
        img,
        width,
        height,
        bpp,
        layout,
        (width * height) as int,
        chroma_samples(width, height) as int,
    )
}

/// A frame of even width and even height has a chroma sample for every fourth
/// pixel, and room for all of them in either layout.
pub proof fn lemma_even_frame_fits(width: nat, height: nat, layout: ChromaLayout)
    requires
        width % 2 == 0,
        height % 2 == 0,
    ensures
        chroma_samples(width, height) == chroma_plane_len(width, height),
        yuv_len(width, height) == width * height + 2 * chroma_samples(width, height),
        chroma_fits(width, height, layout),
{
    reveal(chroma_samples);
    let w = (width / 2) as int;
    let h = (height / 2) as int;
    assert(width == 2 * w && height == 2 * h);
    assert((height + 1) / 2 == h);
    assert(width * height == 4 * (h * w)) by (nonlinear_arith)
        requires
            width == 2 * w,
            height == 2 * h,
    ;
    assert(h * w >= 0) by (nonlinear_arith)
        requires
            h >= 0,
            w >= 0,
    ;
}

/// A statement for callers, who read a converted frame through it: in the
/// frame of an image of even width and even height, the luma of pixel `p`
/// stands at `p`. In a planar frame U sample `q` stands `q` bytes behind
/// the luma plane and V sample `q` a quarter of the pixels further; in an
/// interleaved frame they stand side by side, `2 * q` bytes behind the luma
/// plane.
pub proof fn lemma_even_frame_layout(
    img: Seq<u8>,
    width: nat,
    height: nat,
    bpp: nat,
    layout: ChromaLayout,
    p: int,
    q: int,
)
    requires
        width % 2 == 0,
        height % 2 == 0,
        0 <= p < width * height,
        0 <= q < width * height / 4,
    ensures
        ({
            let yuv = spec_yuv420(img, width, height, bpp, layout);
            let pixels = (width * height) as int;
            let source = chroma_source(width, q);
            &&& yuv.len() == pixels + 2 * (pixels / 4)
            &&& yuv[p] == pixel_luma(img, bpp, p)
            &&& layout == ChromaLayout::Planar ==> yuv[pixels + q] == pixel_u(img, bpp, source)
                && yuv[pixels + pixels / 4 + q] == pixel_v(img, bpp, source)
            &&& layout == ChromaLayout::Interleaved ==> yuv[pixels + 2 * q] == pixel_u(
                img,
                bpp,
                source,
            ) && yuv[pixels + 2 * q + 1] == pixel_v(img, bpp, source)
        }),
{
    lemma_even_frame_fits(width, height, layout);
    reveal(yuv_partial);
    assert((2 * q) / 2 == q && (2 * q + 1) / 2 == q);
}

/// A statement for callers, who get the plain formulas from it: luma and
/// chroma never leave the range of a byte, so clamping changes none of them.
pub proof fn lemma_samples_in_range(r: u8, g: u8, b: u8)
    ensures
        luma(r, g, b) == (77 * r + 150 * g + 29 * b + 128) / 256,
        chroma_u(r, g, b) == (-43 * r - 84 * g + 127 * b + 128) / 256 + 128,
        chroma_v(r, g, b) == (127 * r - 106 * g - 21 * b + 128) / 256 + 128,
        1 <= chroma_u(r, g, b),
        1 <= chroma_v(r, g, b),
{
    reveal(luma);
    reveal(chroma_u);
    reveal(chroma_v);
}

/// Tells whether `img` can be converted as a frame of `width` by `height`
/// pixels of `bytes_per_pixel` bytes each, into the given layout.
pub fn can_convert(
    img: &[u8],
    width: u32,
    height: u32,
    bytes_per_pixel: usize,
    layout: ChromaLayout,
) -> (ok: bool)
    ensures
        ok == (image_fits(img@.len(), width as nat, height as nat, bytes_per_pixel as nat)
            && chroma_fits(width as nat, height as nat, layout)),
{
    proof {
        reveal(chroma_samples);
        assert(width * height <= 0xffff_ffff * 0xffff_ffff) by (nonlinear_arith)
            requires
                width <= 0xffff_ffff,
                height <= 0xffff_ffff,
        ;
        assert(((height + 1) / 2) * (width / 2) <= 0x8000_0000 * 0x8000_0000) by (nonlinear_arith)
            requires
                0 <= (height + 1) / 2 <= 0x8000_0000,
                0 <= width / 2 <= 0x8000_0000,
        ;
        assert(0 <= ((height + 1) / 2) * (width / 2)) by (nonlinear_arith);
    }
    let frame: u64 = width as u64 * height as u64;
    if frame > (u32::MAX / 3) as u64 {
        return false;
    }
    if frame > 0 {
        proof {
            assert((frame - 1) * bytes_per_pixel <= 0xffff_ffff * 0xffff_ffff_ffff_ffff)
                by (nonlinear_arith)
                requires
                    0 <= frame - 1 <= 0xffff_ffff,
                    bytes_per_pixel <= 0xffff_ffff_ffff_ffff,
            ;
            assert(0 <= (frame - 1) * bytes_per_pixel) by (nonlinear_arith)
                requires
                    0 <= frame - 1,
            ;
        }
        let need: u128 = (frame - 1) as u128 * bytes_per_pixel as u128 + 3;
        if need > img.len() as u128 {
            return false;
        }
    }
    let samples: u64 = ((height as u64 + 1) / 2) * (width as u64 / 2);
    if samples == 0 {
        return true;
    }
    match layout {
        ChromaLayout::Planar => frame + samples + frame / 4 <= frame * 3 / 2,
        ChromaLayout::Interleaved => frame + 2 * samples <= frame * 3 / 2,
    }
}

/// Holds `val` to the range of a byte.
pub fn clamp(val: i32) -> (out: u8)
    ensures
        out == clamped(val as int),
{
    if val < 0 {
        0
    } else if val > 255 {
        255
    } else {
        val as u8
    }
}

/// Computes the luma of a pixel.
fn luma_of(r: u8, g: u8, b: u8) -> (y: u8)
    ensures
        y == luma(r, g, b),
{
    let ri: i32 = r as i32;
    let gi: i32 = g as i32;
    let bi: i32 = b as i32;
    let sum: i32 = 77 * ri + 150 * gi + 29 * bi + 128;
    assert(sum >> 8 == sum / 256) by (bit_vector)
        requires
            0 <= sum <= 70000,
    ;
    proof {
        reveal(luma);
    }
    clamp(sum >> 8)
}

/// Computes the blue-difference chroma of a pixel.
fn chroma_u_of(r: u8, g: u8, b: u8) -> (u: u8)
    ensures
        u == chroma_u(r, g, b),
{
    let ri: i32 = r as i32;
    let gi: i32 = g as i32;
    let bi: i32 = b as i32;
    let sum: i32 = 127 * bi - 43 * ri - 84 * gi + 128;
    assert(sum >> 8 == sum / 256) by (bit_vector)
        requires
            -40000 <= sum <= 40000,
    ;
    proof {
        reveal(chroma_u);
    }
    clamp((sum >> 8) + 128)
}

/// Computes the red-difference chroma of a pixel.
fn chroma_v_of(r: u8, g: u8, b: u8) -> (v: u8)
    ensures
        v == chroma_v(r, g, b),
{
    let ri: i32 = r as i32;
    let gi: i32 = g as i32;
    let bi: i32 = b as i32;
    let sum: i32 = 127 * ri - 106 * gi - 21 * bi + 128;
    assert(sum >> 8 == sum / 256) by (bit_vector)
        requires
            -40000 <= sum <= 40000,
    ;
    proof {
        reveal(chroma_v);
    }
    clamp((sum >> 8) + 128)
}

/// Stores one chroma sample behind those stored so far, and moves `uv_index`
/// on: by one in a planar frame, by two in an interleaved one.
fn store_uv(
    yuv: &mut Vec<u8>,
    uv_index: &mut usize,
    chroma_size: usize,
    u: u8,
    v: u8,
    layout: ChromaLayout,
)
    requires
        match layout {
            ChromaLayout::Planar => *old(uv_index) + chroma_size < old(yuv)@.len(),
            ChromaLayout::Interleaved => *old(uv_index) + 1 < old(yuv)@.len(),
        },
    ensures
        *final(uv_index) == *old(uv_index) + (if layout == ChromaLayout::Planar {
            1int
        } else {
            2int
        }),
        final(yuv)@ == with_sample(
            old(yuv)@,
            layout,
            *old(uv_index) as int,
            chroma_size as int,
            u,
            v,
        ),
{
    let at: usize = *uv_index;
    proof {
        assert(yuv.len() == yuv@.len());
    }
    match layout {
        ChromaLayout::Planar => {
            yuv[at] = u;
            yuv[at + chroma_size] = v;
            *uv_index = at + 1;
        },
        ChromaLayout::Interleaved => {
            yuv[at] = u;
            yuv[at + 1] = v;
            *uv_index = at + 2;
        },
    }
}

/// In an even row, the chroma sample of an odd column is the next one to
/// store, it is one of those counted, and its source is that very pixel.
proof fn lemma_sample_position(width: nat, height: nat, row: nat, col: nat)
    requires
        row < height,
        col < width,
        row % 2 == 0,
        col % 2 == 1,
    ensures
        ({
            let k = (row / 2) * (width / 2) + col / 2;
            &&& k < chroma_samples(width, height)
            &&& chroma_source(width, k as int) == row * width + col
        }),
{
    reveal(chroma_samples);
    reveal(chroma_source);
    let half = (width / 2) as int;
    let a = (row / 2) as int;
    let b = (col / 2) as int;
    let k = a * half + b;
    assert(0 <= b < half);
    assert(row == 2 * a && col == 2 * b + 1);
    assert(a + 1 <= (height + 1) / 2);
    assert(k < (a + 1) * half) by (nonlinear_arith)
        requires
            k == a * half + b,
            b < half,
    ;
    assert((a + 1) * half <= ((height + 1) / 2) * half) by (nonlinear_arith)
        requires
            a + 1 <= (height + 1) / 2,
            0 <= half,
    ;
    assert(0 <= k) by (nonlinear_arith)
        requires
            k == a * half + b,
            0 <= a,
            0 <= half,
            0 <= b,
    ;
    lemma_fundamental_div_mod_converse(k, half, a, b);
    assert(2 * a * width + 2 * b + 1 == row * width + col) by (nonlinear_arith)
        requires
            row == 2 * a,
            col == 2 * b + 1,
    ;
}

/// The sizes that the conversion works with, and what it asks of its input:
/// `frame` pixels, chroma planes of `plane` bytes, and `len` bytes in all.
#[verifier::opaque]
spec fn frame_fits(
    img_len: nat,
    width: nat,
    height: nat,
    bpp: nat,
    layout: ChromaLayout,
    frame: nat,
    plane: nat,
    len: nat,
) -> bool {
    &&& image_fits(img_len, width, height, bpp)
    &&& chroma_fits(width, height, layout)
    &&& frame == width * height
    &&& plane == chroma_plane_len(width, height)
    &&& len == yuv_len(width, height)
}

/// Above row `row` there are `pixels` pixels, and they gave `samples` chroma
/// samples.
#[verifier::opaque]
spec fn at_row(width: nat, row: nat, pixels: nat, samples: nat) -> bool {
    &&& pixels == row * width
    &&& samples == ((row + 1) / 2) * (width / 2)
}

/// Above the first row there is nothing.
proof fn lemma_first_row(width: nat)
    ensures
        at_row(width, 0, 0, 0),
{
    reveal(at_row);
    assert(0 * width == 0 && ((0 + 1) / 2) * (width / 2) == 0) by (nonlinear_arith);
}

/// A row adds its pixels, and an even row a chroma sample for every second of
/// them. The pixels above an even row are even in number.
proof fn lemma_next_row(width: nat, row: nat, pixels: nat, samples: nat)
    requires
        at_row(width, row, pixels, samples),
    ensures
        at_row(
            width,
            row + 1,
            pixels + width,
            samples + (if row % 2 == 0 {
                width / 2
            } else {
                0
            }),
        ),
        row % 2 == 0 ==> pixels % 2 == 0,
{
    reveal(at_row);
    let half = (width / 2) as int;
    let a = (row / 2) as int;
    assert((row + 1) * width == row * width + width) by (nonlinear_arith);
    if row % 2 == 0 {
        assert((row + 1) / 2 == a && (row + 2) / 2 == a + 1);
        assert((a + 1) * half == a * half + half) by (nonlinear_arith);
        assert(row * width == 2 * (a * width)) by (nonlinear_arith)
            requires
                row == 2 * a,
        ;
    } else {
        assert((row + 2) / 2 == (row + 1) / 2);
    }
}

/// Above the row after the last one is the whole frame, with all its chroma
/// samples.
proof fn lemma_last_row(
    img_len: nat,
    width: nat,
    height: nat,
    bpp: nat,
    layout: ChromaLayout,
    frame: nat,
    plane: nat,
    len: nat,
    pixels: nat,
    samples: nat,
)
    requires
        frame_fits(img_len, width, height, bpp, layout, frame, plane, len),
        at_row(width, height, pixels, samples),
    ensures
        pixels == width * height,
        frame == width * height,
        samples == chroma_samples(width, height),
        len == yuv_len(width, height),
{
    reveal(frame_fits);
    reveal(at_row);
    reveal(chroma_samples);
    assert(height * width == width * height) by (nonlinear_arith);
}

/// Pixel `col` of row `row` is a pixel of the frame, and the image holds its
/// red, green and blue.
proof fn lemma_pixel_in_image(
    img_len: nat,
    width: nat,
    height: nat,
    bpp: nat,
    layout: ChromaLayout,
    frame: nat,
    plane: nat,
    len: nat,
    row: nat,
    col: nat,
    pixels: nat,
    samples: nat,
    pixel: nat,
)
    requires
        frame_fits(img_len, width, height, bpp, layout, frame, plane, len),
        at_row(width, row, pixels, samples),
        row < height,
        col < width,
        pixel == pixels + col,
    ensures
        pixel < frame,
        frame <= len,
        pixel * bpp + 3 <= img_len,
{
    reveal(frame_fits);
    reveal(at_row);
    let p = row * width + col;
    assert(row * width + col < width * height) by (nonlinear_arith)
        requires
            row < height,
            col < width,
    ;
    assert(p * bpp <= (width * height - 1) * bpp) by (nonlinear_arith)
        requires
            p <= width * height - 1,
            0 <= bpp,
    ;
    assert(width * height <= width * height * 3 / 2) by (nonlinear_arith);
}

/// Storing the luma of the next pixel takes the frame one pixel further.
proof fn lemma_luma_step(
    img: Seq<u8>,
    width: nat,
    height: nat,
    bpp: nat,
    layout: ChromaLayout,
    frame: nat,
    plane: nat,
    len: nat,
    done: int,
    k: int,
    before: Seq<u8>,
    after: Seq<u8>,
)
    requires
        frame_fits(img.len(), width, height, bpp, layout, frame, plane, len),
        0 <= done < frame,
        before == yuv_partial(img, width, height, bpp, layout, done, k),
        after == before.update(done, pixel_luma(img, bpp, done)),
    ensures
        after == yuv_partial(img, width, height, bpp, layout, done + 1, k),
{
    reveal(frame_fits);
    reveal(yuv_partial);
    assert(after =~= yuv_partial(img, width, height, bpp, layout, done + 1, k));
}

/// The chroma sample of an odd column of an even row has room in the frame.
proof fn lemma_sample_has_room(
    img_len: nat,
    width: nat,
    height: nat,
    bpp: nat,
    layout: ChromaLayout,
    frame: nat,
    plane: nat,
    len: nat,
    row: nat,
    col: nat,
    pixels: nat,
    samples: nat,
)
    requires
        frame_fits(img_len, width, height, bpp, layout, frame, plane, len),
        at_row(width, row, pixels, samples),
        row < height,
        col < width,
        row % 2 == 0,
        col % 2 == 1,
    ensures
        layout == ChromaLayout::Planar ==> frame + (samples + col / 2) + plane < len,
        layout == ChromaLayout::Interleaved ==> frame + 2 * (samples + col / 2) + 1 < len,
{
    reveal(frame_fits);
    reveal(at_row);
    lemma_sample_position(width, height, row, col);
    assert((row + 1) / 2 == row / 2);
}

/// Storing the chroma of the pixel just converted, in an odd column of an even
/// row, takes the frame one sample further.
proof fn lemma_chroma_step(
    img: Seq<u8>,
    width: nat,
    height: nat,
    bpp: nat,
    layout: ChromaLayout,
    frame: nat,
    plane: nat,
    len: nat,
    row: nat,
    col: nat,
    pixels: nat,
    samples: nat,
    pixel: nat,
    before: Seq<u8>,
    after: Seq<u8>,
    at: int,
    r: u8,
    g: u8,
    b: u8,
)
    requires
        frame_fits(img.len(), width, height, bpp, layout, frame, plane, len),
        at_row(width, row, pixels, samples),
        row < height,
        col < width,
        row % 2 == 0,
        col % 2 == 1,
        pixel == pixels + col,
        before == yuv_partial(
            img,
            width,
            height,
            bpp,
            layout,
            pixel as int + 1,
            (samples + col / 2) as int,
        ),
        at == frame + (if layout == ChromaLayout::Planar {
            samples + col / 2
        } else {
            2 * (samples + col / 2)
        }),
        r == img[pixel as int * bpp],
        g == img[pixel as int * bpp + 1],
        b == img[pixel as int * bpp + 2],
        after == with_sample(
            before,
            layout,
            at,
            plane as int,
            chroma_u(r, g, b),
            chroma_v(r, g, b),
        ),
    ensures
        after == yuv_partial(
            img,
            width,
            height,
            bpp,
            layout,
            pixel as int + 1,
            (samples + col / 2) as int + 1,
        ),
{
    let k = (samples + col / 2) as int;
    let f = frame as int;
    let target = yuv_partial(img, width, height, bpp, layout, pixel as int + 1, k + 1);
    lemma_sample_position(width, height, row, col);
    lemma_sample_has_room(
        img.len(),
        width,
        height,
        bpp,
        layout,
        frame,
        plane,
        len,
        row,
        col,
        pixels,
        samples,
    );
    assert(pixels == row * width && k == (row / 2) * (width / 2) + col / 2 && frame == width
        * height && plane == chroma_plane_len(width, height) && len == yuv_len(width, height)) by {
        reveal(frame_fits);
        reveal(at_row);
        assert((row + 1) / 2 == row / 2);
    }
    reveal(yuv_partial);
    assert forall|p: int| 0 <= p < after.len() implies after[p] == target[p] by {
        if p >= f {
            let q = p - f;
            if layout == ChromaLayout::Interleaved {
                if q == 2 * k || q == 2 * k + 1 {
                    assert(q / 2 == k);
                }
            }
        }
    }
    assert(after =~= target);
}

/// Converts `img` to YUV 4:2:0 with the chroma samples in the given layout.
pub fn convert_rgb_to_yuv420(
    img: &[u8],
    width: u32,
    height: u32,
    bytes_per_pixel: usize,
    layout: ChromaLayout,
) -> (yuv: Vec<u8>)
    requires
        image_fits(img@.len(), width as nat, height as nat, bytes_per_pixel as nat),
        chroma_fits(width as nat, height as nat, layout),
    ensures
        yuv@ == spec_yuv420(img@, width as nat, height as nat, bytes_per_pixel as nat, layout),
        yuv@.len() == yuv_len(width as nat, height as nat),
{
    let ghost w = width as nat;
    let ghost h = height as nat;
    let ghost bpp = bytes_per_pixel as nat;
    let ghost frame = w * h;
    let ghost plane = chroma_plane_len(w, h);
    let ghost len = yuv_len(w, h);
    proof {
        assert(w * h <= w * h * 3) by (nonlinear_arith);
        assert(img.len() == img@.len());
        assert(frame_fits(img@.len(), w, h, bpp, layout, frame, plane, len)) by {
            reveal(frame_fits);
        }
    }
    let frame_size: usize = (width * height) as usize;
    let chroma_size: usize = frame_size / 4;

    let mut y_index: usize = 0;
    let mut uv_index: usize = frame_size;
    let mut yuv: Vec<u8> = vec![0u8; (width * height * 3 / 2) as usize];
    let mut index: usize = 0;
    // pixels above the current row, chroma samples they gave, and chroma
    // samples stored so far
    let ghost mut pixels: nat = 0;
    let ghost mut samples: nat = 0;
    let ghost mut stored: nat = 0;
    proof {
        assert(yuv@ =~= yuv_partial(img@, w, h, bpp, layout, 0, 0)) by {
            reveal(yuv_partial);
        }
        lemma_first_row(w);
    }

    let mut j: u32 = 0;
    while j < height
        invariant
            j <= height,
            w == width,
            h == height,
            bpp == bytes_per_pixel,
            img@.len() <= usize::MAX,
            frame_fits(img@.len(), w, h, bpp, layout, frame, plane, len),
            at_row(w, j as nat, pixels, samples),
            frame_size == frame,
            chroma_size == plane,
            yuv@.len() == len,
            index == pixels,
            y_index == index,
            stored == samples,
            uv_index == frame + (if layout == ChromaLayout::Planar {
                stored
            } else {
                2 * stored
            }),
            yuv@ == yuv_partial(img@, w, h, bpp, layout, index as int, stored as int),
        decreases height - j,
    {
        let mut i: u32 = 0;
        proof {
            lemma_next_row(w, j as nat, pixels, samples);
        }
        while i < width
            invariant
                i <= width,
                j < height,
                w == width,
                h == height,
                bpp == bytes_per_pixel,
                img@.len() <= usize::MAX,
                frame_fits(img@.len(), w, h, bpp, layout, frame, plane, len),
                at_row(w, j as nat, pixels, samples),
                frame_size == frame,
                chroma_size == plane,
                yuv@.len() == len,
                j % 2 == 0 ==> pixels % 2 == 0,
                index == pixels + i,
                y_index == index,
                stored == samples + (if j % 2 == 0 {
                    i as nat / 2
                } else {
                    0
                }),
                uv_index == frame + (if layout == ChromaLayout::Planar {
                    stored
                } else {
                    2 * stored
                }),
                yuv@ == yuv_partial(img@, w, h, bpp, layout, index as int, stored as int),
            decreases width - i,
        {
            proof {
                lemma_pixel_in_image(
                    img@.len(),
                    w,
                    h,
                    bpp,
                    layout,
                    frame,
                    plane,
                    len,
                    j as nat,
                    i as nat,
                    pixels,
                    samples,
                    index as nat,
                );
            }
            let ghost pixel = index as nat;
            let r: u8 = img[index * bytes_per_pixel];
            let g: u8 = img[index * bytes_per_pixel + 1];
            let b: u8 = img[index * bytes_per_pixel + 2];
            let ghost before = yuv@;
            index += 1;
            yuv[y_index] = luma_of(r, g, b);
            y_index += 1;
            proof {
                lemma_luma_step(
                    img@,
                    w,
                    h,
                    bpp,
                    layout,
                    frame,
                    plane,
                    len,
                    pixel as int,
                    stored as int,
                    before,
                    yuv@,
                );
            }
            if j % 2 == 0 && index % 2 == 0 {
                proof {
                    lemma_sample_has_room(
                        img@.len(),
                        w,
                        h,
                        bpp,
                        layout,
                        frame,
                        plane,
                        len,
                        j as nat,
                        i as nat,
                        pixels,
                        samples,
                    );
                }
                let ghost luma_done = yuv@;
                let ghost at = uv_index;
                store_uv(
                    &mut yuv,
                    &mut uv_index,
                    chroma_size,
                    chroma_u_of(r, g, b),
                    chroma_v_of(r, g, b),
                    layout,
                );
                proof {
                    lemma_chroma_step(
                        img@,
                        w,
                        h,
                        bpp,
                        layout,
                        frame,
                        plane,
                        len,
                        j as nat,
                        i as nat,
                        pixels,
                        samples,
                        pixel,
                        luma_done,
                        yuv@,
                        at as int,
                        r,
                        g,
                        b,
                    );
                    stored = stored + 1;
                }
            }
            i += 1;
        }
        proof {
            pixels = pixels + w;
            samples = stored;
        }
        j += 1;
    }
    proof {
        lemma_last_row(img@.len(), w, h, bpp, layout, frame, plane, len, pixels, samples);
    }
    yuv
}

/// Converts an RGB image to planar YUV 4:2:0: the luma plane, then all U
/// samples, then all V samples.
///
/// `img` holds the pixels row by row; each takes `bytes_per_pixel` bytes and
/// starts with red, green and blue.
pub fn convert_rgb_to_yuv420p(img: &[u8], width: u32, height: u32, bytes_per_pixel: usize) -> (yuv:
    Vec<u8>)
    requires
        image_fits(img@.len(), width as nat, height as nat, bytes_per_pixel as nat),
        chroma_fits(width as nat, height as nat, ChromaLayout::Planar),
    ensures
        yuv@ == spec_yuv420(
            img@,
            width as nat,
            height as nat,
            bytes_per_pixel as nat,
            ChromaLayout::Planar,
        ),
        yuv@.len() == yuv_len(width as nat, height as nat),
{
    convert_rgb_to_yuv420(img, width, height, bytes_per_pixel, ChromaLayout::Planar)
}

/// Converts an RGB image to semi-planar YUV 4:2:0 (NV12): the luma plane, then
/// U and V of each chroma sample side by side.
///
/// `img` holds the pixels row by row; each takes `bytes_per_pixel` bytes and
/// starts with red, green and blue.
pub fn convert_rgb_to_yuv420sp_nv12(
    img: &[u8],
    width: u32,
    height: u32,
    bytes_per_pixel: usize,
) -> (yuv: Vec<u8>)
    requires
        image_fits(img@.len(), width as nat, height as nat, bytes_per_pixel as nat),
        chroma_fits(width as nat, height as nat, ChromaLayout::Interleaved),
    ensures
        yuv@ == spec_yuv420(
            img@,
            width as nat,
            height as nat,
            bytes_per_pixel as nat,
            ChromaLayout::Interleaved,
        ),
        yuv@.len() == yuv_len(width as nat, height as nat),
{
    convert_rgb_to_yuv420(img, width, height, bytes_per_pixel, ChromaLayout::Interleaved)
}

} // verus!
