//! RGBA pixel buffers (row-major, one `Rgba` per pixel) and copying one
//! buffer onto another at an offset.

use vstd::prelude::*;
use crate::canvas;

verus! {

/// One pixel: red, green, blue and alpha.
#[derive(Clone, Copy, Debug, PartialEq, Eq, Structural)]
pub struct Rgba {
    pub r: u8,
    pub g: u8,
    pub b: u8,
    pub a: u8,
}

/// A `width` × `height` image, row by row.
#[derive(Debug)]
pub struct PixelBuffer {
    pub width: u32,
    pub height: u32,
    pub pixels: Vec<Rgba>,
}

impl PixelBuffer {
    /// The buffer holds exactly one pixel per position.
    pub open spec fn wf(&self) -> bool {
        self.pixels@.len() == self.width as int * self.height as int
    }

    /// The pixel at column `x`, row `y`.
    pub open spec fn pixel(&self, x: int, y: int) -> Rgba {
        self.pixels@[y * self.width + x]
    }

    /// Whether (`x`, `y`) is a position of the buffer.
    pub open spec fn contains(&self, x: int, y: int) -> bool {
        0 <= x < self.width && 0 <= y < self.height
    }
}

/// The fully transparent black pixel.
pub open spec fn transparent() -> Rgba {
    Rgba { r: 0, g: 0, b: 0, a: 0 }
}

/// Row-major positions of a `w`-wide buffer lie in the buffer.
pub proof fn lemma_index_in_bounds(w: int, h: int, x: int, y: int)
    requires
        0 <= x < w,
        0 <= y < h,
    ensures
        0 <= y * w + x < w * h,
{
    assert(0 <= y * w) by (nonlinear_arith)
        requires
            0 <= y,
            0 <= w,
    ;
    assert((y + 1) * w <= h * w) by (nonlinear_arith)
        requires
            y + 1 <= h,
            0 <= w,
    ;
    assert((y + 1) * w == y * w + w) by (nonlinear_arith);
    assert(h * w == w * h) by (nonlinear_arith);
}

/// Distinct positions of a `w`-wide buffer have distinct row-major indices.
pub proof fn lemma_index_injective(w: int, x1: int, y1: int, x2: int, y2: int)
    requires
        0 <= x1 < w,
        0 <= x2 < w,
        0 <= y1,
        0 <= y2,
        y1 * w + x1 == y2 * w + x2,
    ensures
        x1 == x2,
        y1 == y2,
{
    if y1 < y2 {
        assert(y2 * w >= (y1 + 1) * w) by (nonlinear_arith)
            requires
                y1 + 1 <= y2,
                0 <= w,
        ;
        assert((y1 + 1) * w == y1 * w + w) by (nonlinear_arith);
    } else if y2 < y1 {
        assert(y1 * w >= (y2 + 1) * w) by (nonlinear_arith)
            requires
                y2 + 1 <= y1,
                0 <= w,
        ;
        assert((y2 + 1) * w == y2 * w + w) by (nonlinear_arith);
    }
}

/// Channel `k` (0 red, 1 green, 2 blue, 3 alpha) of a pixel.
pub open spec fn channel(p: Rgba, k: int) -> u8 {
    if k == 0 {
        p.r
    } else if k == 1 {
        p.g
    } else if k == 2 {
        p.b
    } else {
        p.a
    }
}

/// The row-major RGBA bytes of `pixels`, four per pixel.
pub open spec fn encode_rgba(pixels: Seq<Rgba>) -> Seq<u8> {
    Seq::new(4 * pixels.len(), |i: int| channel(pixels[i / 4], i % 4))
}

/// The pixels that RGBA bytes describe, four bytes each.
pub open spec fn decode_rgba(bytes: Seq<u8>) -> Seq<Rgba> {
    Seq::new(
        bytes.len() / 4,
        |i: int| Rgba { r: bytes[4 * i], g: bytes[4 * i + 1], b: bytes[4 * i + 2], a: bytes[4 * i + 3] },
    )
}

/// Decoding RGBA bytes and encoding the pixels gives the bytes back, and
/// encoding pixels and decoding the bytes gives the pixels back.
pub proof fn lemma_rgba_round_trip(bytes: Seq<u8>, pixels: Seq<Rgba>)
    ensures
        bytes.len() % 4 == 0 ==> encode_rgba(decode_rgba(bytes)) == bytes,
        decode_rgba(encode_rgba(pixels)) == pixels,
{
    if bytes.len() % 4 == 0 {
        let d = decode_rgba(bytes);
        let e = encode_rgba(d);
        assert forall|i: int| 0 <= i < bytes.len() implies e[i] == bytes[i] by {
            let q = i / 4;
            let k = i % 4;
            assert(i == 4 * q + k);
        }
        assert(e =~= bytes);
    }
    let e = encode_rgba(pixels);
    let d = decode_rgba(e);
    assert forall|i: int| 0 <= i < pixels.len() implies d[i] == pixels[i] by {
        assert((4 * i) / 4 == i && (4 * i) % 4 == 0);
        assert((4 * i + 1) / 4 == i && (4 * i + 1) % 4 == 1);
        assert((4 * i + 2) / 4 == i && (4 * i + 2) % 4 == 2);
        assert((4 * i + 3) / 4 == i && (4 * i + 3) % 4 == 3);
    }
    assert(d =~= pixels);
}

impl PixelBuffer {
    /// A `width` × `height` buffer of transparent black pixels.
    pub fn new(width: u32, height: u32) -> (b: PixelBuffer)
        requires
            width as int * height as int <= usize::MAX,
        ensures
            b.wf(),
            b.width == width,
            b.height == height,
            forall|i: int| 0 <= i < b.pixels@.len() ==> #[trigger] b.pixels@[i] == transparent(),
    {
        let n: usize = (width as usize) * (height as usize);
        let mut pixels: Vec<Rgba> = Vec::new();
        let mut i: usize = 0;
        while i < n
            invariant
                i <= n,
                pixels@.len() == i,
                forall|k: int| 0 <= k < i ==> #[trigger] pixels@[k] == transparent(),
            decreases n - i,
        {
            pixels.push(Rgba { r: 0, g: 0, b: 0, a: 0 });
            i = i + 1;
        }
        PixelBuffer { width, height, pixels }
    }

    /// Reads a `width` × `height` buffer from row-major RGBA bytes, four per
    /// pixel; `None` when `rgba` does not hold exactly that many bytes.
    pub fn from_rgba(width: u32, height: u32, rgba: &Vec<u8>) -> (r: Option<PixelBuffer>)
        ensures
            r is Some <==> rgba@.len() == 4 * (width as int * height as int),
            r matches Some(b) ==> {
                &&& b.wf()
                &&& b.width == width
                &&& b.height == height
                &&& b.pixels@ == decode_rgba(rgba@)
            },
    {
        let len = rgba.len();
        let w = width as usize;
        let h = height as usize;
        let n = match w.checked_mul(h) {
            Some(n) => n,
            None => {
                assert(width as int * height as int > usize::MAX);
                return None;
            },
        };
        if len % 4 != 0 || len / 4 != n {
            return None;
        }
        let mut pixels: Vec<Rgba> = Vec::new();
        let mut i: usize = 0;
        while i < n
            invariant
                i <= n,
                rgba@.len() == 4 * n,
                len == rgba@.len(),
                pixels@.len() == i,
                forall|k: int| 0 <= k < i ==> #[trigger] pixels@[k] == (Rgba {
                    r: rgba@[4 * k],
                    g: rgba@[4 * k + 1],
                    b: rgba@[4 * k + 2],
                    a: rgba@[4 * k + 3],
                }),
            decreases n - i,
        {
            pixels.push(Rgba { r: rgba[4 * i], g: rgba[4 * i + 1], b: rgba[4 * i + 2], a: rgba[4 * i + 3] });
            i = i + 1;
        }
        assert(pixels@ =~= decode_rgba(rgba@));
        Some(PixelBuffer { width, height, pixels })
    }

    /// The row-major RGBA bytes of the buffer, four per pixel.
    pub fn to_rgba(&self) -> (out: Vec<u8>)
        requires
            self.pixels@.len() * 4 <= usize::MAX,
        ensures
            out@ == encode_rgba(self.pixels@),
    {
        let mut out: Vec<u8> = Vec::new();
        let mut i: usize = 0;
        while i < self.pixels.len()
            invariant
                i <= self.pixels@.len(),
                out@.len() == 4 * i,
                forall|k: int| 0 <= k < i ==> {
                    &&& out@[4 * k] == (#[trigger] self.pixels@[k]).r
                    &&& out@[4 * k + 1] == self.pixels@[k].g
                    &&& out@[4 * k + 2] == self.pixels@[k].b
                    &&& out@[4 * k + 3] == self.pixels@[k].a
                },
            decreases self.pixels@.len() - i,
        {
            let p = self.pixels[i];
            out.push(p.r);
            out.push(p.g);
            out.push(p.b);
            out.push(p.a);
            i = i + 1;
        }
        assert forall|m: int| 0 <= m < out@.len() implies out@[m] == encode_rgba(self.pixels@)[m] by {
            let q = m / 4;
            let k = m % 4;
            assert(m == 4 * q + k);
        }
        assert(out@ =~= encode_rgba(self.pixels@));
        out
    }
}

/// `u16::try_from(v).unwrap_or(u16::MAX)`: `v` when it fits, else the maximum.
pub fn saturate_u16(v: u32) -> (r: u16)
    ensures
        r == (if v <= u16::MAX { v } else { u16::MAX as u32 }),
{
    if v <= 65535 {
        v as u16
    } else {
        65535
    }
}

/// Snapshot of a buffer as an output image: its bytes, and its size clamped
/// to what an image can hold.
pub fn snapshot_image(b: &PixelBuffer) -> (img: canvas::Image)
    requires
        b.pixels@.len() * 4 <= usize::MAX,
    ensures
        img.width == (if b.width <= u16::MAX { b.width } else { u16::MAX as u32 }),
        img.height == (if b.height <= u16::MAX { b.height } else { u16::MAX as u32 }),
        img.rgba@ == encode_rgba(b.pixels@),
        b.wf() && b.width <= u16::MAX && b.height <= u16::MAX ==> img.rgba@.len() == 4 * (img.width as int
            * img.height as int),
{
    canvas::Image { width: saturate_u16(b.width), height: saturate_u16(b.height), rgba: b.to_rgba() }
}

/// Whether some of the `n` consecutive positions starting at `start` lie in
/// `0..limit`.
pub open spec fn span_hits(start: int, n: int, limit: int) -> bool {
    n > 0 && limit > 0 && start < limit && start + n > 0
}

/// The pixel at (`x`, `y`) of `dst` after `src` is copied onto it with its
/// top-left corner at (`ox`, `oy`): the source pixel over it, if any, else the
/// pixel that was there.
pub open spec fn blit_pixel(dst: PixelBuffer, src: PixelBuffer, ox: int, oy: int, x: int, y: int) -> Rgba {
    if src.contains(x - ox, y - oy) {
        src.pixel(x - ox, y - oy)
    } else {
        dst.pixel(x, y)
    }
}

/// Copies every pixel of `src` whose destination (its position plus
/// (`offset_x`, `offset_y`)) lies in `dst` there, and tells whether any did.
pub fn blit(dst: &mut PixelBuffer, src: &PixelBuffer, offset_x: i32, offset_y: i32) -> (drew: bool)
    requires
        old(dst).wf(),
        src.wf(),
        src.width <= i32::MAX,
        src.height <= i32::MAX,
        offset_x + src.width <= i32::MAX + 1,
        offset_y + src.height <= i32::MAX + 1,
    ensures
        final(dst).wf(),
        final(dst).width == old(dst).width,
        final(dst).height == old(dst).height,
        forall|x: int, y: int| final(dst).contains(x, y) ==> #[trigger] final(dst).pixel(x, y) == blit_pixel(
            *old(dst),
            *src,
            offset_x as int,
            offset_y as int,
            x,
            y,
        ),
        drew == (span_hits(offset_x as int, src.width as int, old(dst).width as int) && span_hits(
            offset_y as int,
            src.height as int,
            old(dst).height as int,
        )),
{
    let ghost orig = *dst;
    let ghost ox = offset_x as int;
    let ghost oy = offset_y as int;
    let mut drew = false;
    let mut y: u32 = 0;
    while y < src.height
        invariant
            orig.wf(),
            src.wf(),
            src.width <= i32::MAX,
            src.height <= i32::MAX,
            offset_x + src.width <= i32::MAX + 1,
            offset_y + src.height <= i32::MAX + 1,
            ox == offset_x,
            oy == offset_y,
            y <= src.height,
            dst.wf(),
            dst.width == orig.width,
            dst.height == orig.height,
            forall|px: int, py: int| dst.contains(px, py) ==> #[trigger] dst.pixel(px, py) == (if src.contains(
                px - ox,
                py - oy,
            ) && py - oy < y {
                src.pixel(px - ox, py - oy)
            } else {
                orig.pixel(px, py)
            }),
            drew == (span_hits(ox, src.width as int, orig.width as int) && span_hits(
                oy,
                y as int,
                orig.height as int,
            )),
        decreases src.height - y,
    {
        let mut x: u32 = 0;
        while x < src.width
            invariant
                orig.wf(),
                src.wf(),
                src.width <= i32::MAX,
                src.height <= i32::MAX,
                offset_x + src.width <= i32::MAX + 1,
                offset_y + src.height <= i32::MAX + 1,
                ox == offset_x,
                oy == offset_y,
                y < src.height,
                x <= src.width,
                dst.wf(),
                dst.width == orig.width,
                dst.height == orig.height,
                forall|px: int, py: int| dst.contains(px, py) ==> #[trigger] dst.pixel(px, py) == (if src.contains(
                    px - ox,
                    py - oy,
                ) && (py - oy < y || (py - oy == y && px - ox < x)) {
                    src.pixel(px - ox, py - oy)
                } else {
                    orig.pixel(px, py)
                }),
                drew == ((span_hits(ox, src.width as int, orig.width as int) && span_hits(
                    oy,
                    y as int,
                    orig.height as int,
                )) || (0 <= oy + y < orig.height && span_hits(ox, x as int, orig.width as int))),
            decreases src.width - x,
        {
            proof {
                assert(src.pixels@.len() == src.pixels.len());
                assert(dst.pixels@.len() == dst.pixels.len());
                lemma_index_in_bounds(src.width as int, src.height as int, x as int, y as int);
            }
            let p = src.pixels[(y as usize) * (src.width as usize) + (x as usize)];
            let dst_x: i32 = offset_x + (x as i32);
            let dst_y: i32 = offset_y + (y as i32);
            if dst_x >= 0 && dst_y >= 0 && (dst_x as u32) < dst.width && (dst_y as u32) < dst.height {
                proof {
                    lemma_index_in_bounds(dst.width as int, dst.height as int, dst_x as int, dst_y as int);
                }
                let idx: usize = (dst_y as usize) * (dst.width as usize) + (dst_x as usize);
                let ghost before = *dst;
                dst.pixels.set(idx, p);
                proof {
                    assert forall|px: int, py: int| dst.contains(px, py) implies #[trigger] dst.pixel(px, py) == (
                    if src.contains(px - ox, py - oy) && (py - oy < y || (py - oy == y && px - ox < x + 1)) {
                        src.pixel(px - ox, py - oy)
                    } else {
                        orig.pixel(px, py)
                    }) by {
                        lemma_index_in_bounds(dst.width as int, dst.height as int, px, py);
                        if px != dst_x || py != dst_y {
                            if py * dst.width + px == dst_y * dst.width + dst_x {
                                lemma_index_injective(dst.width as int, px, py, dst_x as int, dst_y as int);
                            }
                            assert(dst.pixel(px, py) == before.pixel(px, py));
                        }
                    }
                }
                drew = true;
            } else {
                proof {
                    assert forall|px: int, py: int| dst.contains(px, py) implies #[trigger] dst.pixel(px, py) == (
                    if src.contains(px - ox, py - oy) && (py - oy < y || (py - oy == y && px - ox < x + 1)) {
                        src.pixel(px - ox, py - oy)
                    } else {
                        orig.pixel(px, py)
                    }) by {
                        if px - ox == x && py - oy == y {
                            assert(px == dst_x && py == dst_y);
                        }
                    }
                }
            }
            x = x + 1;
        }
        y = y + 1;
    }
    proof {
        assert forall|px: int, py: int| dst.contains(px, py) implies #[trigger] dst.pixel(px, py) == blit_pixel(
            orig,
            *src,
            ox,
            oy,
            px,
            py,
        ) by {}
    }
    drew
}

/// Copying a source of the destination's size to the origin replaces every
/// pixel by the source's.
pub proof fn lemma_blit_same_size_at_origin(dst: PixelBuffer, src: PixelBuffer, x: int, y: int)
    requires
        dst.width == src.width,
        dst.height == src.height,
        dst.contains(x, y),
    ensures
        blit_pixel(dst, src, 0, 0, x, y) == src.pixel(x, y),
{
}

/// When the placed source does not overlap the destination (so `blit`
/// reports that it drew nothing), every pixel keeps its value.
pub proof fn lemma_blit_no_overlap(dst: PixelBuffer, src: PixelBuffer, ox: int, oy: int, x: int, y: int)
    requires
        !(span_hits(ox, src.width as int, dst.width as int) && span_hits(oy, src.height as int, dst.height as int)),
        dst.contains(x, y),
    ensures
        blit_pixel(dst, src, ox, oy, x, y) == dst.pixel(x, y),
{
}

/// A copied source pixel lands at its position plus the offset: wherever
/// that position lies in the destination, the blit puts the source pixel there.
pub proof fn lemma_blit_places_source(dst: PixelBuffer, src: PixelBuffer, ox: int, oy: int, sx: int, sy: int)
    requires
        src.contains(sx, sy),
        dst.contains(sx + ox, sy + oy),
    ensures
        blit_pixel(dst, src, ox, oy, sx + ox, sy + oy) == src.pixel(sx, sy),
{
}

/// RGBA bytes hold each pixel's red, green, blue and alpha, in that order,
/// four bytes per pixel.
pub proof fn lemma_encode_rgba_channels(pixels: Seq<Rgba>, i: int)
    requires
        0 <= i < pixels.len(),
    ensures
        encode_rgba(pixels).len() == 4 * pixels.len(),
        encode_rgba(pixels)[4 * i] == pixels[i].r,
        encode_rgba(pixels)[4 * i + 1] == pixels[i].g,
        encode_rgba(pixels)[4 * i + 2] == pixels[i].b,
        encode_rgba(pixels)[4 * i + 3] == pixels[i].a,
{
    assert((4 * i) / 4 == i && (4 * i) % 4 == 0);
    assert((4 * i + 1) / 4 == i && (4 * i + 1) % 4 == 1);
    assert((4 * i + 2) / 4 == i && (4 * i + 2) % 4 == 2);
    assert((4 * i + 3) / 4 == i && (4 * i + 3) % 4 == 3);
}

} // verus!
