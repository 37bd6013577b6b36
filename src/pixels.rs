//! Views of the byte buffers that cursor images travel in: four-byte pixels
//! and one-bit-per-pixel planes, and the index arithmetic that ties them to
//! columns and rows.
use vstd::arithmetic::div_mod::lemma_fundamental_div_mod_converse;
use vstd::prelude::*;

verus! {

/// One pixel as its four bytes, in buffer order.
pub type Rgba = (u8, u8, u8, u8);

/// Pixel `i` of a buffer that holds four bytes per pixel.
pub open spec fn pixel(s: Seq<u8>, i: int) -> Rgba {
    (s[4 * i], s[4 * i + 1], s[4 * i + 2], s[4 * i + 3])
}

/// Byte `j` of row `y` in a buffer whose rows start every `stride` bytes.
pub open spec fn row_byte(m: Seq<u8>, stride: int, y: int, j: int) -> u8 {
    m[y * stride + j]
}

/// The single-bit mask that selects column `x` within its byte (most
/// significant bit first).
pub open spec fn column_mask(x: int) -> u8 {
    0x80u8 >> ((x % 8) as u8)
}

/// Whether the bit for column `x` is set in byte `b`.
pub open spec fn bit_in_byte(b: u8, x: int) -> bool {
    b & column_mask(x) != 0
}

/// The bit of pixel (x, y) in a one-bit-per-pixel plane with rows `stride`
/// bytes apart.
pub open spec fn plane_bit(m: Seq<u8>, stride: int, x: int, y: int) -> bool {
    bit_in_byte(row_byte(m, stride, y, x / 8), x)
}

/// Bytes in a tightly packed one-bit-per-pixel row of `width` pixels.
pub open spec fn packed_row_bytes(width: int) -> int {
    (width + 7) / 8
}

/// The opacity mask for column `x`.
pub fn column_bit(x: usize) -> (r: u8)
    ensures
        r == column_mask(x as int),
{
    0x80u8 >> ((x % 8) as u8)
}

/// Pixel (x, y) of a `w`-wide image is pixel `y * w + x`, which lies inside
/// an image of `h` rows and sits in column `x` of row `y`.
pub proof fn lemma_pixel_index(x: int, y: int, w: int, h: int)
    requires
        0 <= x < w,
        0 <= y < h,
    ensures
        0 <= y * w + x < w * h,
        4 * (y * w + x) + 4 <= 4 * (w * h),
        (y * w + x) % w == x,
        (y * w + x) / w == y,
{
    assert(0 <= y * w + x < w * h) by (nonlinear_arith)
        requires
            0 <= x < w,
            0 <= y < h,
    ;
    lemma_fundamental_div_mod_converse(y * w + x, w, y, x);
}

/// Byte `j < stride` of row `y < h` lies inside a plane of `h` rows.
pub proof fn lemma_row_byte_index(y: int, j: int, stride: int, h: int)
    requires
        0 <= j < stride,
        0 <= y < h,
    ensures
        0 <= y * stride + j < stride * h,
{
    assert(0 <= y * stride + j < stride * h) by (nonlinear_arith)
        requires
            0 <= j < stride,
            0 <= y < h,
    ;
}

/// The byte that holds column `x < w` is inside a packed row of `w` pixels.
pub proof fn lemma_column_byte(x: int, w: int)
    requires
        0 <= x < w,
    ensures
        0 <= x / 8 < packed_row_bytes(w),
{
}

/// Inverting a byte inverts each of its bits.
pub proof fn lemma_inverted_bit(b: u8, x: int)
    ensures
        bit_in_byte(!b, x) == !bit_in_byte(b, x),
{
    let k = (x % 8) as u8;
    assert((!b) & (0x80u8 >> k) != 0 <==> b & (0x80u8 >> k) == 0) by (bit_vector)
        requires
            k < 8,
    ;
}

} // verus!
