//! The cursor capture pipeline: checks the mask bitmap's geometry, checks
//! what the OS copied out of it, and assembles the RGBA snapshot.
use crate::mask::{fix_cursor_mask, has_alpha, is_reconciliation};
use crate::mono::{expand_monochrome, inverts, is_mono_expansion};
use crate::outline::{draw_outline, is_outline_of};
use crate::pixels::packed_row_bytes;
use vstd::prelude::*;

verus! {

/// The largest buffer, in bytes, that one capture may use: the OS reports
/// bitmap byte counts as signed 32-bit values.
pub const MAX_BUFFER_BYTES: u64 = 0x7fff_ffff;

/// Why a cursor could not be captured.
#[derive(Clone, Copy, Debug, PartialEq, Eq, Structural)]
pub enum CaptureError {
    /// The cursor reference does not resolve to an icon.
    InvalidHandle,
    /// The mask bitmap is not a single plane of one bit per pixel.
    UnsupportedFormat,
    /// The icon is degenerate: too small, or too large to hold.
    InvalidIcon,
    /// The OS copied a different number of mask bytes than were asked for.
    SizeMismatch,
    /// An OS call failed, with the OS's error code.
    OsCallFailed(u32),
}

/// The geometry of a cursor's mask bitmap as the OS reports it.
#[derive(Clone, Copy, Debug, PartialEq, Eq, Structural)]
pub struct MaskBitmap {
    pub width: i32,
    pub height: i32,
    /// Bytes from the start of one row to the start of the next.
    pub width_bytes: i32,
    pub planes: u16,
    pub bits_pixel: u16,
}

/// The layout of one capture, once the mask bitmap has been checked.
#[derive(Clone, Copy, Debug, PartialEq, Eq, Structural)]
pub struct CursorGeometry {
    /// Cursor width in pixels.
    pub width: u32,
    /// Cursor height in pixels.
    pub height: u32,
    /// Row stride of the mask bitmap, in bytes.
    pub stride: u32,
    /// Rows in the mask bitmap: `height` for a colour cursor, the AND plane
    /// over the XOR plane for a monochrome one.
    pub mask_rows: u32,
    /// Whether the cursor has a colour bitmap.
    pub is_color: bool,
}

/// A captured cursor: RGBA rows, top to bottom.
#[derive(Debug)]
pub struct CursorSnapshot {
    pub id: u64,
    pub width: u32,
    pub height: u32,
    /// Hotspot column.
    pub hot_x: u32,
    /// Hotspot row.
    pub hot_y: u32,
    pub pixels: Vec<u8>,
}

/// The cursor height that a mask bitmap of `rows` rows gives: all of them
/// for a colour cursor, half for a monochrome one.
pub open spec fn cursor_rows(rows: int, has_color: bool) -> int {
    if has_color {
        rows
    } else {
        rows / 2
    }
}

/// What checking a mask bitmap's geometry gives.
///
/// The mask must be one plane of one bit per pixel, with rows long enough
/// for its width. The icon is degenerate, and refused, when a dimension is
/// not positive or `width * height * 4 < 16`, and when a buffer of the
/// capture (the outlined image, or the mask) would exceed
/// `MAX_BUFFER_BYTES`.
pub open spec fn geometry_of(m: MaskBitmap, has_color: bool) -> Result<CursorGeometry, CaptureError> {
    let w = m.width as int;
    let h = cursor_rows(m.height as int, has_color);
    if m.planes != 1 || m.bits_pixel != 1 {
        Err(CaptureError::UnsupportedFormat)
    } else if w <= 0 || m.height <= 0 || h <= 0 || 4 * (w * h) < 16 {
        Err(CaptureError::InvalidIcon)
    } else if (m.width_bytes as int) < packed_row_bytes(w) {
        Err(CaptureError::UnsupportedFormat)
    } else if 4 * ((w + 2) * (h + 2)) > MAX_BUFFER_BYTES || m.width_bytes * m.height
        > MAX_BUFFER_BYTES {
        Err(CaptureError::InvalidIcon)
    } else {
        Ok(
            CursorGeometry {
                width: w as u32,
                height: h as u32,
                stride: m.width_bytes as u32,
                mask_rows: m.height as u32,
                is_color: has_color,
            },
        )
    }
}

impl CursorGeometry {
    /// The geometry describes a capture that the pipeline can carry out.
    pub open spec fn wf(self) -> bool {
        &&& self.width >= 1
        &&& self.height >= 1
        &&& 4 * (self.width * self.height) >= 16
        &&& packed_row_bytes(self.width as int) <= self.stride
        &&& self.height == cursor_rows(self.mask_rows as int, self.is_color)
        &&& 4 * ((self.width + 2) * (self.height + 2)) <= MAX_BUFFER_BYTES
        &&& self.stride * self.mask_rows <= MAX_BUFFER_BYTES
    }

    /// Bytes in the mask bitmap.
    pub open spec fn mask_bytes(self) -> int {
        self.stride * self.mask_rows
    }

    /// Bytes in the cursor's RGBA image, before any outline.
    pub open spec fn image_bytes(self) -> int {
        4 * (self.width * self.height)
    }

    /// The size of the buffer that the mask bits are read into.
    pub fn mask_len(&self) -> (r: usize)
        requires
            self.wf(),
        ensures
            r == self.mask_bytes(),
    {
        self.stride as usize * self.mask_rows as usize
    }

    /// The size of the buffer that a colour bitmap is extracted into.
    pub fn image_len(&self) -> (r: usize)
        requires
            self.wf(),
        ensures
            r == self.image_bytes(),
    {
        proof {
            assert(self.width * self.height <= (self.width + 2) * (self.height + 2))
                by (nonlinear_arith);
        }
        4 * (self.width as usize * self.height as usize)
    }
}

/// Checks a mask bitmap's geometry and works out the capture's layout.
pub fn mask_geometry(mask: &MaskBitmap, has_color: bool) -> (r: Result<CursorGeometry, CaptureError>)
    ensures
        r == geometry_of(*mask, has_color),
        r matches Ok(g) ==> g.wf(),
{
    if mask.planes != 1 || mask.bits_pixel != 1 {
        return Err(CaptureError::UnsupportedFormat);
    }
    if mask.width <= 0 || mask.height <= 0 {
        return Err(CaptureError::InvalidIcon);
    }
    let w = mask.width as u64;
    let rows = mask.height as u64;
    let h: u64 = if has_color {
        rows
    } else {
        rows / 2
    };
    proof {
        assert(w * h <= 0x7fff_ffff * 0x7fff_ffff) by (nonlinear_arith)
            requires
                w <= 0x7fff_ffff,
                h <= 0x7fff_ffff,
        ;
    }
    if h == 0 || 4 * (w * h) < 16 {
        return Err(CaptureError::InvalidIcon);
    }
    if (mask.width_bytes as i64) < ((w + 7) / 8) as i64 {
        return Err(CaptureError::UnsupportedFormat);
    }
    let stride = mask.width_bytes as u64;
    proof {
        assert((w + 2) * (h + 2) <= 0x8000_0001 * 0x8000_0001) by (nonlinear_arith)
            requires
                w <= 0x7fff_ffff,
                h <= 0x7fff_ffff,
        ;
        assert(stride * rows <= 0x7fff_ffff * 0x7fff_ffff) by (nonlinear_arith)
            requires
                stride <= 0x7fff_ffff,
                rows <= 0x7fff_ffff,
        ;
    }
    if (w + 2) * (h + 2) > MAX_BUFFER_BYTES / 4 || stride * rows > MAX_BUFFER_BYTES {
        return Err(CaptureError::InvalidIcon);
    }
    Ok(
        CursorGeometry {
            width: w as u32,
            height: h as u32,
            stride: stride as u32,
            mask_rows: rows as u32,
            is_color: has_color,
        },
    )
}

/// Checks the byte count that the OS reports after copying `expected`
/// bytes of mask bits: zero means the copy failed, with `os_error` as the
/// reason; any other count but `expected` is a size mismatch.
pub fn check_mask_read(expected: usize, copied: i32, os_error: u32) -> (r: Result<(), CaptureError>)
    ensures
        copied == 0 ==> r == Err::<(), CaptureError>(CaptureError::OsCallFailed(os_error)),
        copied != 0 && copied != expected ==> r == Err::<(), CaptureError>(
            CaptureError::SizeMismatch,
        ),
        copied != 0 && copied == expected ==> r is Ok,
{
    if copied == 0 {
        Err(CaptureError::OsCallFailed(os_error))
    } else if copied < 0 || copied as usize != expected {
        Err(CaptureError::SizeMismatch)
    } else {
        Ok(())
    }
}

/// One step right or down of a hotspot coordinate, wrapping as a `u32`
/// does.
pub open spec fn next_coord(v: u32) -> u32 {
    if v < u32::MAX {
        (v + 1) as u32
    } else {
        0
    }
}

/// The bytes of an optional buffer.
pub open spec fn opt_bytes(o: Option<Vec<u8>>) -> Option<Seq<u8>> {
    match o {
        Some(v) => Some(v@),
        None => None,
    }
}

/// `img` is the RGBA image that the cursor's bitmaps give before any
/// outline, and `outline` whether the cursor asks for one.
pub open spec fn is_base_image(
    g: CursorGeometry,
    mask: Seq<u8>,
    color: Option<Seq<u8>>,
    img: Seq<u8>,
    outline: bool,
) -> bool {
    let w = g.width as int;
    let h = g.height as int;
    let s = g.stride as int;
    match color {
        Some(c) => if has_alpha(c, w * h) {
            img == c && !outline
        } else {
            is_reconciliation(img, c, mask, s, w, h) && outline
        },
        None => is_mono_expansion(img, mask, s, w, h) && outline == exists|i: int|
            0 <= i < w * h && #[trigger] inverts(mask, s, w, h, i),
    }
}

/// `r` is the snapshot that capture makes of a cursor with base image `img`:
/// with an outline, one pixel larger on every side and the hotspot moved
/// with it; without one, the image as it is.
pub open spec fn is_snapshot_of(
    r: CursorSnapshot,
    id: u64,
    g: CursorGeometry,
    hotspot: (u32, u32),
    img: Seq<u8>,
    outline: bool,
) -> bool {
    &&& r.id == id
    &&& if outline {
        &&& r.width == g.width + 2
        &&& r.height == g.height + 2
        &&& r.hot_x == next_coord(hotspot.0)
        &&& r.hot_y == next_coord(hotspot.1)
        &&& is_outline_of(r.pixels@, img, g.width as int, g.height as int)
    } else {
        &&& r.width == g.width
        &&& r.height == g.height
        &&& r.hot_x == hotspot.0
        &&& r.hot_y == hotspot.1
        &&& r.pixels@ == img
    }
}

/// When capture adds an outline, the snapshot is two pixels wider and two
/// higher than the cursor, its hotspot moves one pixel right and one down,
/// and it still holds four bytes per pixel.
pub proof fn lemma_outline_grows_snapshot(
    r: CursorSnapshot,
    id: u64,
    g: CursorGeometry,
    hotspot: (u32, u32),
    img: Seq<u8>,
)
    requires
        is_snapshot_of(r, id, g, hotspot, img, true),
    ensures
        r.width == g.width + 2,
        r.height == g.height + 2,
        r.hot_x == next_coord(hotspot.0),
        r.hot_y == next_coord(hotspot.1),
        hotspot.0 < u32::MAX ==> r.hot_x == hotspot.0 + 1,
        hotspot.1 < u32::MAX ==> r.hot_y == hotspot.1 + 1,
        r.pixels.len() == 4 * (r.width * r.height),
{
}

/// Builds the snapshot of a cursor from its mask bits and, for a colour
/// cursor, its extracted colour bits (four bytes per pixel, device order).
///
/// A colour cursor goes through mask reconciliation, a monochrome one through
/// expansion of its AND and XOR planes; if either asks for an outline, the
/// image gets one and the hotspot moves one pixel right and down.
pub fn assemble_cursor(
    id: u64,
    geometry: &CursorGeometry,
    hotspot: (u32, u32),
    mask_bits: &Vec<u8>,
    color: Option<Vec<u8>>,
) -> (r: CursorSnapshot)
    requires
        geometry.wf(),
        mask_bits.len() == geometry.mask_bytes(),
        color is Some == geometry.is_color,
        color matches Some(c) ==> c.len() == geometry.image_bytes(),
    ensures
        r.pixels.len() == 4 * (r.width * r.height),
        exists|img: Seq<u8>, outline: bool|
            is_base_image(*geometry, mask_bits@, opt_bytes(color), img, outline)
                && is_snapshot_of(r, id, *geometry, hotspot, img, outline),
{
    let w = geometry.width as usize;
    let h = geometry.height as usize;
    let stride = geometry.stride as usize;
    let ghost color_view = opt_bytes(color);
    proof {
        assert(stride * h <= stride * geometry.mask_rows) by (nonlinear_arith)
            requires
                h <= geometry.mask_rows,
        ;
        if !geometry.is_color {
            assert(stride * (2 * h) <= stride * geometry.mask_rows) by (nonlinear_arith)
                requires
                    2 * h <= geometry.mask_rows,
            ;
        }
        assert(w * h <= (w + 2) * (h + 2)) by (nonlinear_arith);
        assert(w + 2 <= (w + 2) * (h + 2)) by (nonlinear_arith);
        assert(h + 2 <= (w + 2) * (h + 2)) by (nonlinear_arith);
    }
    let (img, outline) = match color {
        Some(c) => {
            let mut c = c;
            let outline = fix_cursor_mask(mask_bits, &mut c, w, h, stride);
            (c, outline)
        },
        None => expand_monochrome(mask_bits, w, h, stride),
    };
    assert(is_base_image(*geometry, mask_bits@, color_view, img@, outline));
    if outline {
        let pixels = draw_outline(&img, w, h);
        let hx = if hotspot.0 < u32::MAX {
            hotspot.0 + 1
        } else {
            0
        };
        let hy = if hotspot.1 < u32::MAX {
            hotspot.1 + 1
        } else {
            0
        };
        let r = CursorSnapshot {
            id,
            width: geometry.width + 2,
            height: geometry.height + 2,
            hot_x: hx,
            hot_y: hy,
            pixels,
        };
        assert(is_base_image(*geometry, mask_bits@, color_view, img@, outline) && is_snapshot_of(
            r,
            id,
            *geometry,
            hotspot,
            img@,
            outline,
        ));
        r
    } else {
        let r = CursorSnapshot {
            id,
            width: geometry.width,
            height: geometry.height,
            hot_x: hotspot.0,
            hot_y: hotspot.1,
            pixels: img,
        };
        assert(is_base_image(*geometry, mask_bits@, color_view, r.pixels@, outline)
            && is_snapshot_of(r, id, *geometry, hotspot, r.pixels@, outline));
        r
    }
}

} // verus!
