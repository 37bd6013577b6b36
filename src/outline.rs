//! Outline synthesis: a one-pixel black border around a cursor's visible
//! pixels, so that a glyph stays visible on a background of its own colour.
use crate::pixels::{lemma_pixel_index, pixel, Rgba};
use vstd::prelude::*;

verus! {

/// Source pixel (sx, sy) of a `w` x `h` image exists and is visible.
pub open spec fn source_visible(c: Seq<u8>, w: int, h: int, sx: int, sy: int) -> bool {
    0 <= sx < w && 0 <= sy < h && pixel(c, sy * w + sx).3 != 0
}

/// Some visible source pixel lies in row `sy`, at column `sx - 1`, `sx` or
/// `sx + 1`.
pub open spec fn row_near_visible(c: Seq<u8>, w: int, h: int, sx: int, sy: int) -> bool {
    source_visible(c, w, h, sx - 1, sy) || source_visible(c, w, h, sx, sy) || source_visible(
        c,
        w,
        h,
        sx + 1,
        sy,
    )
}

/// Some visible source pixel is (sx, sy) itself or one of its eight
/// neighbours.
pub open spec fn near_visible(c: Seq<u8>, w: int, h: int, sx: int, sy: int) -> bool {
    row_near_visible(c, w, h, sx, sy - 1) || row_near_visible(c, w, h, sx, sy)
        || row_near_visible(c, w, h, sx, sy + 1)
}

/// Pixel (ox, oy) of the outlined image, which is one pixel larger than the
/// source on every side, so that it sits over source pixel (ox - 1, oy - 1).
/// A visible source pixel is copied; a pixel next to a visible one is opaque
/// black; every other pixel is fully transparent.
pub open spec fn outlined_pixel(c: Seq<u8>, w: int, h: int, ox: int, oy: int) -> Rgba {
    if source_visible(c, w, h, ox - 1, oy - 1) {
        pixel(c, (oy - 1) * w + (ox - 1))
    } else if near_visible(c, w, h, ox - 1, oy - 1) {
        (0u8, 0u8, 0u8, 255u8)
    } else {
        (0u8, 0u8, 0u8, 0u8)
    }
}

/// `r` is the outlined image of the `w` x `h` image `c`.
pub open spec fn is_outline_of(r: Seq<u8>, c: Seq<u8>, w: int, h: int) -> bool {
    &&& r.len() == 4 * ((w + 2) * (h + 2))
    &&& forall|i: int|
        0 <= i < (w + 2) * (h + 2) ==> #[trigger] pixel(r, i) == outlined_pixel(
            c,
            w,
            h,
            i % (w + 2),
            i / (w + 2),
        )
}

/// Whether the source pixel under outlined pixel (ox, oy) is visible.
fn visible_under(c: &Vec<u8>, width: usize, height: usize, ox: usize, oy: usize) -> (r: bool)
    requires
        c.len() == 4 * (width * height),
    ensures
        r == source_visible(c@, width as int, height as int, ox - 1, oy - 1),
{
    if ox == 0 || oy == 0 || ox - 1 >= width || oy - 1 >= height {
        false
    } else {
        proof {
            lemma_pixel_index(ox - 1, oy - 1, width as int, height as int);
        }
        c[4 * ((oy - 1) * width + (ox - 1)) + 3] != 0
    }
}

/// Whether the source pixel under outlined pixel (ox, oy), or one of its
/// neighbours, is visible.
fn near_visible_under(c: &Vec<u8>, width: usize, height: usize, ox: usize, oy: usize) -> (r: bool)
    requires
        c.len() == 4 * (width * height),
        ox < usize::MAX,
        oy < usize::MAX,
    ensures
        r == near_visible(c@, width as int, height as int, ox - 1, oy - 1),
{
    let left = ox >= 1;
    let up = oy >= 1;
    let above = (up && left && visible_under(c, width, height, ox - 1, oy - 1)) || (up
        && visible_under(c, width, height, ox, oy - 1)) || (up && visible_under(
        c,
        width,
        height,
        ox + 1,
        oy - 1,
    ));
    let level = (left && visible_under(c, width, height, ox - 1, oy)) || visible_under(
        c,
        width,
        height,
        ox,
        oy,
    ) || visible_under(c, width, height, ox + 1, oy);
    let below = (left && visible_under(c, width, height, ox - 1, oy + 1)) || visible_under(
        c,
        width,
        height,
        ox,
        oy + 1,
    ) || visible_under(c, width, height, ox + 1, oy + 1);
    above || level || below
}

/// Draws a one-pixel outline around the visible pixels of a `width` x
/// `height` RGBA image. The result is `width + 2` pixels wide and
/// `height + 2` high; the source sits one pixel in from each edge.
pub fn draw_outline(c: &Vec<u8>, width: usize, height: usize) -> (r: Vec<u8>)
    requires
        c.len() == 4 * (width * height),
        4 * ((width + 2) * (height + 2)) <= usize::MAX,
    ensures
        is_outline_of(r@, c@, width as int, height as int),
{
    let ghost w = width as int;
    let ghost h = height as int;
    proof {
        assert(width + 2 <= (width + 2) * (height + 2)) by (nonlinear_arith);
        assert(height + 2 <= (width + 2) * (height + 2)) by (nonlinear_arith);
    }
    let ow = width + 2;
    let oh = height + 2;
    let mut out: Vec<u8> = Vec::new();
    let mut oy: usize = 0;
    while oy < oh
        invariant
            c.len() == 4 * (width * height),
            4 * (ow * oh) <= usize::MAX,
            w == width,
            h == height,
            ow == width + 2,
            oh == height + 2,
            oy <= oh,
            out.len() == 4 * (oy * ow),
            forall|k: int|
                0 <= k < oy * ow ==> #[trigger] pixel(out@, k) == outlined_pixel(
                    c@,
                    w,
                    h,
                    k % (ow as int),
                    k / (ow as int),
                ),
        decreases oh - oy,
    {
        let mut ox: usize = 0;
        while ox < ow
            invariant
                c.len() == 4 * (width * height),
                4 * (ow * oh) <= usize::MAX,
                w == width,
                h == height,
                ow == width + 2,
                oh == height + 2,
                oy < oh,
                ox <= ow,
                out.len() == 4 * (oy * ow + ox),
                forall|k: int|
                    0 <= k < oy * ow + ox ==> #[trigger] pixel(out@, k) == outlined_pixel(
                        c@,
                        w,
                        h,
                        k % (ow as int),
                        k / (ow as int),
                    ),
            decreases ow - ox,
        {
            proof {
                lemma_pixel_index(ox as int, oy as int, ow as int, oh as int);
            }
            let (r0, r1, r2, r3): Rgba = if visible_under(c, width, height, ox, oy) {
                proof {
                    lemma_pixel_index(ox - 1, oy - 1, w, h);
                }
                let base = 4 * ((oy - 1) * width + (ox - 1));
                (c[base], c[base + 1], c[base + 2], c[base + 3])
            } else if near_visible_under(c, width, height, ox, oy) {
                (0, 0, 0, 255)
            } else {
                (0, 0, 0, 0)
            };
            let ghost before = out@;
            let ghost i = oy * ow + ox;
            out.push(r0);
            out.push(r1);
            out.push(r2);
            out.push(r3);
            proof {
                assert(pixel(out@, i) == outlined_pixel(c@, w, h, ox as int, oy as int));
                assert forall|k: int| 0 <= k < i implies #[trigger] pixel(out@, k) == pixel(
                    before,
                    k,
                ) by {}
            }
            ox += 1;
        }
        proof {
            assert((oy + 1) * ow == oy * ow + ow) by (nonlinear_arith);
        }
        oy += 1;
    }
    proof {
        assert(oh * ow == (w + 2) * (h + 2)) by (nonlinear_arith)
            requires
                ow == w + 2,
                oh == h + 2,
        ;
    }
    out
}

} // verus!
