//! Expansion of monochrome cursors, whose mask bitmap stacks the AND plane
//! over the XOR plane, into RGBA.
use crate::pixels::{
    column_bit, lemma_column_byte, lemma_pixel_index, lemma_row_byte_index, packed_row_bytes,
    pixel, plane_bit, Rgba,
};
use vstd::prelude::*;

verus! {

/// The RGBA pixel for one combination of AND and XOR bits.
///
/// AND clear, XOR clear: opaque black. AND clear, XOR set: opaque white.
/// AND set, XOR clear: fully transparent. AND set, XOR set asks the display to
/// invert the screen beneath, which a remote viewer cannot do: the pixel is
/// drawn opaque white, and the cursor is given an outline so that it stays
/// visible on light backgrounds.
pub open spec fn mono_pixel(and_bit: bool, xor_bit: bool) -> Rgba {
    if !and_bit && !xor_bit {
        (0u8, 0u8, 0u8, 255u8)
    } else if !and_bit {
        (255u8, 255u8, 255u8, 255u8)
    } else if !xor_bit {
        (0u8, 0u8, 0u8, 0u8)
    } else {
        (255u8, 255u8, 255u8, 255u8)
    }
}

/// The AND bit of pixel `i` of a `w` x `h` monochrome cursor: its plane
/// takes the first `h` rows of the mask.
pub open spec fn and_bit(m: Seq<u8>, stride: int, w: int, i: int) -> bool {
    plane_bit(m, stride, i % w, i / w)
}

/// The XOR bit of pixel `i` of a `w` x `h` monochrome cursor: its plane
/// takes the `h` rows after the AND plane.
pub open spec fn xor_bit(m: Seq<u8>, stride: int, w: int, h: int, i: int) -> bool {
    plane_bit(m, stride, i % w, i / w + h)
}

/// Pixel `i` asks the display to invert the screen.
pub open spec fn inverts(m: Seq<u8>, stride: int, w: int, h: int, i: int) -> bool {
    and_bit(m, stride, w, i) && xor_bit(m, stride, w, h, i)
}

/// `r` is the RGBA expansion of the `w` x `h` monochrome mask `m`.
pub open spec fn is_mono_expansion(r: Seq<u8>, m: Seq<u8>, stride: int, w: int, h: int) -> bool {
    &&& r.len() == 4 * (w * h)
    &&& forall|i: int|
        0 <= i < w * h ==> #[trigger] pixel(r, i) == mono_pixel(
            and_bit(m, stride, w, i),
            xor_bit(m, stride, w, h, i),
        )
}

/// Expands a monochrome cursor's AND and XOR planes into RGBA pixels, and
/// says whether any pixel inverts the screen, in which case the cursor needs
/// an outline.
///
/// `mask` holds both planes, rows `stride` bytes apart: `height` rows of the
/// AND plane, then `height` rows of the XOR plane.
pub fn expand_monochrome(mask: &Vec<u8>, width: usize, height: usize, stride: usize) -> (r: (
    Vec<u8>,
    bool,
))
    requires
        packed_row_bytes(width as int) <= stride,
        stride * (2 * height) <= mask.len(),
        4 * (width * height) <= usize::MAX,
    ensures
        is_mono_expansion(r.0@, mask@, stride as int, width as int, height as int),
        r.1 == exists|i: int|
            0 <= i < width * height && #[trigger] inverts(
                mask@,
                stride as int,
                width as int,
                height as int,
                i,
            ),
{
    let ghost w = width as int;
    let ghost h = height as int;
    let ghost s = stride as int;
    let mut out: Vec<u8> = Vec::new();
    let mut outline = false;
    let mut y: usize = 0;
    while y < height
        invariant
            packed_row_bytes(w) <= stride,
            stride * (2 * height) <= mask.len(),
            4 * (width * height) <= usize::MAX,
            w == width,
            h == height,
            s == stride,
            y <= height,
            out.len() == 4 * (y * width),
            forall|k: int|
                0 <= k < y * width ==> #[trigger] pixel(out@, k) == mono_pixel(
                    and_bit(mask@, s, w, k),
                    xor_bit(mask@, s, w, h, k),
                ),
            outline == exists|k: int| 0 <= k < y * width && #[trigger] inverts(mask@, s, w, h, k),
        decreases height - y,
    {
        let mut x: usize = 0;
        while x < width
            invariant
                packed_row_bytes(w) <= stride,
                stride * (2 * height) <= mask.len(),
                4 * (width * height) <= usize::MAX,
                w == width,
                h == height,
                s == stride,
                y < height,
                x <= width,
                out.len() == 4 * (y * width + x),
                forall|k: int|
                    0 <= k < y * width + x ==> #[trigger] pixel(out@, k) == mono_pixel(
                        and_bit(mask@, s, w, k),
                        xor_bit(mask@, s, w, h, k),
                    ),
                outline == exists|k: int|
                    0 <= k < y * width + x && #[trigger] inverts(mask@, s, w, h, k),
            decreases width - x,
        {
            proof {
                lemma_pixel_index(x as int, y as int, w, h);
                lemma_column_byte(x as int, w);
                lemma_row_byte_index(y as int, x as int / 8, s, 2 * h);
                lemma_row_byte_index(y + h, x as int / 8, s, 2 * h);
                assert(2 * h <= s * (2 * h)) by (nonlinear_arith)
                    requires
                        s >= 1,
                        h >= 0,
                ;
            }
            let bit = column_bit(x);
            let and_set = mask[y * stride + x / 8] & bit != 0;
            let xor_set = mask[(height + y) * stride + x / 8] & bit != 0;
            let ghost i = y * w + x;
            proof {
                assert(and_set == and_bit(mask@, s, w, i));
                assert((height + y) * stride == (y + h) * s);
                assert(xor_set == xor_bit(mask@, s, w, h, i));
            }
            let (v, a): (u8, u8) = if !and_set && !xor_set {
                (0, 255)
            } else if !and_set {
                (255, 255)
            } else if !xor_set {
                (0, 0)
            } else {
                (255, 255)
            };
            let ghost before = out@;
            out.push(v);
            out.push(v);
            out.push(v);
            out.push(a);
            if and_set && xor_set {
                outline = true;
            }
            proof {
                assert(pixel(out@, i) == mono_pixel(and_set, xor_set));
                assert forall|k: int| 0 <= k < i implies #[trigger] pixel(out@, k) == pixel(
                    before,
                    k,
                ) by {}
                if and_set && xor_set {
                    assert(inverts(mask@, s, w, h, i));
                }
                if outline && !(and_set && xor_set) {
                    let k = choose|k: int| 0 <= k < i && #[trigger] inverts(mask@, s, w, h, k);
                    assert(0 <= k < i + 1 && inverts(mask@, s, w, h, k));
                }
                if !outline {
                    assert forall|k: int| 0 <= k < i + 1 implies !#[trigger] inverts(
                        mask@,
                        s,
                        w,
                        h,
                        k,
                    ) by {
                        if k < i {
                        }
                    }
                }
            }
            x += 1;
        }
        proof {
            assert((y + 1) * width == y * width + width) by (nonlinear_arith);
        }
        y += 1;
    }
    proof {
        assert(height * width == width * height) by (nonlinear_arith);
    }
    (out, outline)
}

} // verus!
