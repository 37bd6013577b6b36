//! Mask reconciliation for colour cursors: turns the colour bitmap and the
//! AND mask that the OS hands out into a plain RGBA image.
use crate::pixels::{
    column_bit, lemma_column_byte, lemma_inverted_bit, lemma_pixel_index, lemma_row_byte_index,
    packed_row_bytes, pixel, plane_bit, row_byte, Rgba,
};
use vstd::prelude::*;

verus! {

/// Whether any of the first `n` pixels of `c` carries a non-zero alpha byte.
pub open spec fn has_alpha(c: Seq<u8>, n: int) -> bool {
    exists|i: int| 0 <= i < n && (#[trigger] pixel(c, i)).3 != 0
}

/// What reconciliation makes of one pixel whose colour came without alpha,
/// given its bit in the AND mask.
///
/// A pixel whose AND bit is clear belongs to the cursor's shape: it keeps its
/// colour, swapped from device BGR to RGB order, and becomes fully opaque.
/// A pixel whose AND bit is set is background. If one of its colour bytes is
/// non-zero it stands for the screen-inverting trick: that first non-zero
/// byte and every byte after it are cleared, and the bytes before it were zero
/// already, so the pixel becomes solid opaque black. A background pixel with
/// no colour stays fully transparent.
pub open spec fn reconciled_pixel(p: Rgba, and_bit: bool) -> Rgba {
    if !and_bit {
        (p.2, p.1, p.0, 255u8)
    } else if p.0 != 0 || p.1 != 0 || p.2 != 0 {
        (0u8, 0u8, 0u8, 255u8)
    } else {
        (0u8, 0u8, 0u8, 0u8)
    }
}

/// `r` is the reconciliation of the `w` x `h` colour buffer `c` against the
/// AND mask `m`, whose rows lie `stride` bytes apart.
pub open spec fn is_reconciliation(
    r: Seq<u8>,
    c: Seq<u8>,
    m: Seq<u8>,
    stride: int,
    w: int,
    h: int,
) -> bool {
    &&& r.len() == c.len()
    &&& forall|i: int|
        0 <= i < w * h ==> #[trigger] pixel(r, i) == reconciled_pixel(
            pixel(c, i),
            plane_bit(m, stride, i % w, i / w),
        )
}

/// Reconciliation turns pixel `i` solid black: its AND bit is set and it
/// holds colour.
pub open spec fn blackened(c: Seq<u8>, m: Seq<u8>, stride: int, w: int, i: int) -> bool {
    let p = pixel(c, i);
    plane_bit(m, stride, i % w, i / w) && (p.0 != 0 || p.1 != 0 || p.2 != 0)
}

/// After reconciliation every pixel's alpha is exactly 0 or 255, and every
/// pixel that was not turned solid black has its colour bytes 0 and 2
/// swapped relative to the extracted colour, byte 1 kept.
pub proof fn lemma_reconciled_alpha_and_order(
    r: Seq<u8>,
    c: Seq<u8>,
    m: Seq<u8>,
    stride: int,
    w: int,
    h: int,
)
    requires
        is_reconciliation(r, c, m, stride, w, h),
    ensures
        forall|i: int|
            0 <= i < w * h ==> (#[trigger] pixel(r, i)).3 == 0 || pixel(r, i).3 == 255,
        forall|i: int|
            0 <= i < w * h && !blackened(c, m, stride, w, i) ==> {
                let p = #[trigger] pixel(r, i);
                let q = pixel(c, i);
                p.0 == q.2 && p.1 == q.1 && p.2 == q.0
            },
{
}

/// The number of bytes in a tightly packed one-bit row of `width` pixels.
pub fn packed_width(width: usize) -> (r: usize)
    ensures
        r == packed_row_bytes(width as int),
{
    if width % 8 == 0 {
        width / 8
    } else {
        width / 8 + 1
    }
}

/// Copies the leading `ceil(width / 8)` bytes of each of the first `height`
/// rows of `mbits` (rows `stride` bytes apart) into tightly packed rows,
/// inverting every byte on the way.
pub fn pack_inverted(mbits: &Vec<u8>, width: usize, height: usize, stride: usize) -> (r: Vec<u8>)
    requires
        packed_row_bytes(width as int) <= stride,
        stride * height <= mbits.len(),
    ensures
        r.len() == packed_row_bytes(width as int) * height,
        forall|y: int, j: int|
            0 <= y < height && 0 <= j < packed_row_bytes(width as int) ==> #[trigger] row_byte(
                r@,
                packed_row_bytes(width as int),
                y,
                j,
            ) == !row_byte(mbits@, stride as int, y, j),
{
    let pw = packed_width(width);
    let mut r: Vec<u8> = Vec::new();
    let mut y: usize = 0;
    while y < height
        invariant
            pw == packed_row_bytes(width as int),
            pw <= stride,
            stride * height <= mbits.len(),
            y <= height,
            r.len() == pw * y,
            forall|yy: int, j: int|
                0 <= yy < y && 0 <= j < pw ==> #[trigger] row_byte(r@, pw as int, yy, j) == !row_byte(
                    mbits@,
                    stride as int,
                    yy,
                    j,
                ),
        decreases height - y,
    {
        let mut j: usize = 0;
        while j < pw
            invariant
                pw == packed_row_bytes(width as int),
                pw <= stride,
                stride * height <= mbits.len(),
                y < height,
                j <= pw,
                r.len() == pw * y + j,
                forall|yy: int, jj: int|
                    0 <= yy < y && 0 <= jj < pw ==> #[trigger] row_byte(r@, pw as int, yy, jj)
                        == !row_byte(mbits@, stride as int, yy, jj),
                forall|jj: int|
                    0 <= jj < j ==> #[trigger] r@[pw * y + jj] == !row_byte(
                        mbits@,
                        stride as int,
                        y as int,
                        jj,
                    ),
            decreases pw - j,
        {
            proof {
                lemma_row_byte_index(y as int, j as int, stride as int, height as int);
            }
            let b = mbits[y * stride + j];
            let ghost before = r@;
            r.push(!b);
            proof {
                assert forall|yy: int, jj: int| 0 <= yy < y && 0 <= jj < pw implies #[trigger] row_byte(
                    r@,
                    pw as int,
                    yy,
                    jj,
                ) == !row_byte(mbits@, stride as int, yy, jj) by {
                    lemma_row_byte_index(yy, jj, pw as int, y as int);
                    assert(row_byte(r@, pw as int, yy, jj) == row_byte(before, pw as int, yy, jj));
                }
            }
            j += 1;
        }
        proof {
            assert(pw * (y + 1) == pw * y + pw) by (nonlinear_arith);
            assert forall|yy: int, jj: int| 0 <= yy < y + 1 && 0 <= jj < pw implies #[trigger] row_byte(
                r@,
                pw as int,
                yy,
                jj,
            ) == !row_byte(mbits@, stride as int, yy, jj) by {
                if yy == y {
                    assert(r@[pw * y + jj] == !row_byte(mbits@, stride as int, y as int, jj));
                    assert(yy * pw + jj == pw * y + jj) by (nonlinear_arith)
                        requires
                            yy == y,
                    ;
                }
            }
        }
        y += 1;
    }
    r
}

/// Reconciles a colour cursor's colour buffer with its AND mask, in place.
///
/// `cbits` holds `width * height` pixels of four bytes in device order;
/// `mbits` holds the AND mask, one bit per pixel, rows `bm_width_bytes` bytes
/// apart. If any pixel already carries alpha, the colour bitmap is taken as it
/// is: the buffer is left untouched and no outline is asked for. Otherwise the
/// mask is packed and inverted, background pixels that hold colour become
/// opaque black, channels are swapped to RGB, and alpha is set from the mask;
/// the result asks for an outline.
pub fn fix_cursor_mask(
    mbits: &Vec<u8>,
    cbits: &mut Vec<u8>,
    width: usize,
    height: usize,
    bm_width_bytes: usize,
) -> (outline: bool)
    requires
        old(cbits).len() == 4 * (width * height),
        packed_row_bytes(width as int) <= bm_width_bytes,
        bm_width_bytes * height <= mbits.len(),
    ensures
        outline == !has_alpha(old(cbits)@, width * height),
        !outline ==> final(cbits)@ == old(cbits)@,
        outline ==> is_reconciliation(
            final(cbits)@,
            old(cbits)@,
            mbits@,
            bm_width_bytes as int,
            width as int,
            height as int,
        ),
{
    let n = width * height;
    let mut i: usize = 0;
    while i < n
        invariant
            n == width * height,
            cbits@ == old(cbits)@,
            cbits.len() == 4 * n,
            i <= n,
            forall|k: int| 0 <= k < i ==> (#[trigger] pixel(cbits@, k)).3 == 0,
        decreases n - i,
    {
        if cbits[4 * i + 3] != 0 {
            assert(pixel(cbits@, i as int).3 != 0);
            return false;
        }
        i += 1;
    }

    let packed = pack_inverted(mbits, width, height, bm_width_bytes);
    let pw = packed_width(width);
    let ghost orig = cbits@;
    let mut y: usize = 0;
    while y < height
        invariant
            n == width * height,
            orig == old(cbits)@,
            cbits.len() == 4 * n,
            y <= height,
            pw == packed_row_bytes(width as int),
            packed.len() == pw * height,
            forall|yy: int, j: int|
                0 <= yy < height && 0 <= j < pw ==> #[trigger] row_byte(packed@, pw as int, yy, j)
                    == !row_byte(mbits@, bm_width_bytes as int, yy, j),
            forall|k: int| 0 <= k < n ==> (#[trigger] pixel(orig, k)).3 == 0,
            forall|k: int|
                0 <= k < y * width ==> #[trigger] pixel(cbits@, k) == reconciled_pixel(
                    pixel(orig, k),
                    plane_bit(mbits@, bm_width_bytes as int, k % width as int, k / width as int),
                ),
            forall|k: int| y * width <= k < n ==> #[trigger] pixel(cbits@, k) == pixel(orig, k),
        decreases height - y,
    {
        let mut x: usize = 0;
        while x < width
            invariant
                n == width * height,
                orig == old(cbits)@,
                cbits.len() == 4 * n,
                y < height,
                x <= width,
                pw == packed_row_bytes(width as int),
                packed.len() == pw * height,
                forall|yy: int, j: int|
                    0 <= yy < height && 0 <= j < pw ==> #[trigger] row_byte(
                        packed@,
                        pw as int,
                        yy,
                        j,
                    ) == !row_byte(mbits@, bm_width_bytes as int, yy, j),
                forall|k: int| 0 <= k < n ==> (#[trigger] pixel(orig, k)).3 == 0,
                forall|k: int|
                    0 <= k < y * width + x ==> #[trigger] pixel(cbits@, k) == reconciled_pixel(
                        pixel(orig, k),
                        plane_bit(
                            mbits@,
                            bm_width_bytes as int,
                            k % width as int,
                            k / width as int,
                        ),
                    ),
                forall|k: int| y * width + x <= k < n ==> #[trigger] pixel(cbits@, k) == pixel(orig, k),
            decreases width - x,
        {
            proof {
                lemma_pixel_index(x as int, y as int, width as int, height as int);
                lemma_column_byte(x as int, width as int);
                lemma_row_byte_index(y as int, x as int / 8, pw as int, height as int);
            }
            let i = y * width + x;
            let base = 4 * i;
            let packed_byte = packed[y * pw + x / 8];
            let mut opaque = packed_byte & column_bit(x) != 0;
            proof {
                let mb = row_byte(mbits@, bm_width_bytes as int, y as int, x as int / 8);
                assert(packed_byte == row_byte(packed@, pw as int, y as int, x as int / 8));
                lemma_inverted_bit(mb, x as int);
                assert(opaque == !plane_bit(mbits@, bm_width_bytes as int, x as int, y as int));
                assert(pixel(cbits@, i as int) == pixel(orig, i as int));
                assert(pixel(orig, i as int).3 == 0);
            }
            let ghost before = cbits@;
            let mut b0 = cbits[base];
            let mut b1 = cbits[base + 1];
            let mut b2 = cbits[base + 2];
            let mut b3 = cbits[base + 3];
            if !opaque {
                // Background pixel that still holds colour: clearing from its
                // first non-zero byte onward clears all of it, since the bytes
                // before that one are zero.
                if b0 != 0 || b1 != 0 || b2 != 0 || b3 != 0 {
                    b0 = 0;
                    b1 = 0;
                    b2 = 0;
                    b3 = 0;
                    opaque = true;
                }
            }
            cbits[base] = b2;
            cbits[base + 1] = b1;
            cbits[base + 2] = b0;
            cbits[base + 3] = if opaque {
                255
            } else {
                0
            };
            proof {
                assert(pixel(cbits@, i as int) == reconciled_pixel(
                    pixel(orig, i as int),
                    plane_bit(mbits@, bm_width_bytes as int, x as int, y as int),
                ));
                assert forall|k: int| 0 <= k < n && k != i implies #[trigger] pixel(cbits@, k)
                    == pixel(before, k) by {}
            }
            x += 1;
        }
        proof {
            assert((y + 1) * width == y * width + width) by (nonlinear_arith);
        }
        y += 1;
    }
    proof {
        assert(height * width == n) by (nonlinear_arith)
            requires
                n == width * height,
        ;
    }
    true
}

} // verus!
