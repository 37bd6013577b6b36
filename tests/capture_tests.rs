use desk_platform::capture::{
    assemble_cursor, check_mask_read, mask_geometry, CaptureError, CursorGeometry, MaskBitmap,
};
use desk_platform::mask::{fix_cursor_mask, pack_inverted, packed_width};
use desk_platform::mono::expand_monochrome;
use desk_platform::outline::draw_outline;

fn bitmap(width: i32, height: i32, width_bytes: i32) -> MaskBitmap {
    MaskBitmap { width, height, width_bytes, planes: 1, bits_pixel: 1 }
}

fn color_geometry_32() -> CursorGeometry {
    mask_geometry(&bitmap(32, 32, 4), true).unwrap()
}

fn px(buf: &[u8], i: usize) -> [u8; 4] {
    [buf[4 * i], buf[4 * i + 1], buf[4 * i + 2], buf[4 * i + 3]]
}

#[test]
fn geometry_of_color_cursor() {
    let g = color_geometry_32();
    assert_eq!(g.width, 32);
    assert_eq!(g.height, 32);
    assert_eq!(g.stride, 4);
    assert_eq!(g.mask_rows, 32);
    assert!(g.is_color);
    assert_eq!(g.mask_len(), 128);
    assert_eq!(g.image_len(), 4096);
}

#[test]
fn geometry_of_monochrome_cursor_halves_height() {
    let g = mask_geometry(&bitmap(32, 64, 4), false).unwrap();
    assert_eq!(g.width, 32);
    assert_eq!(g.height, 32);
    assert_eq!(g.mask_rows, 64);
    assert!(!g.is_color);
    assert_eq!(g.mask_len(), 256);
    assert_eq!(g.image_len(), 4096);
}

#[test]
fn geometry_refuses_multi_plane() {
    let mut m = bitmap(32, 32, 4);
    m.planes = 2;
    assert_eq!(mask_geometry(&m, true), Err(CaptureError::UnsupportedFormat));
}

#[test]
fn geometry_refuses_deep_mask() {
    let mut m = bitmap(32, 32, 4);
    m.bits_pixel = 32;
    assert_eq!(mask_geometry(&m, true), Err(CaptureError::UnsupportedFormat));
}

#[test]
fn geometry_refuses_short_rows() {
    assert_eq!(mask_geometry(&bitmap(32, 32, 3), true), Err(CaptureError::UnsupportedFormat));
    assert_eq!(mask_geometry(&bitmap(9, 9, 1), true), Err(CaptureError::UnsupportedFormat));
    assert!(mask_geometry(&bitmap(9, 9, 2), true).is_ok());
}

#[test]
fn geometry_refuses_tiny_icon() {
    // 1 x 3 pixels: 12 bytes, under 16.
    assert_eq!(mask_geometry(&bitmap(1, 3, 2), true), Err(CaptureError::InvalidIcon));
    // 2 x 2 pixels: exactly 16 bytes, accepted.
    assert!(mask_geometry(&bitmap(2, 2, 2), true).is_ok());
    // A monochrome mask of one row leaves no cursor rows.
    assert_eq!(mask_geometry(&bitmap(32, 1, 4), false), Err(CaptureError::InvalidIcon));
}

#[test]
fn geometry_refuses_non_positive_dimensions() {
    assert_eq!(mask_geometry(&bitmap(0, 32, 4), true), Err(CaptureError::InvalidIcon));
    assert_eq!(mask_geometry(&bitmap(-4, -4, 4), true), Err(CaptureError::InvalidIcon));
}

#[test]
fn geometry_refuses_oversized_icon() {
    assert_eq!(
        mask_geometry(&bitmap(40000, 40000, 5000), true),
        Err(CaptureError::InvalidIcon)
    );
}

#[test]
fn mask_read_errors() {
    assert_eq!(check_mask_read(128, 0, 5), Err(CaptureError::OsCallFailed(5)));
    assert_eq!(check_mask_read(128, 64, 0), Err(CaptureError::SizeMismatch));
    assert_eq!(check_mask_read(128, -1, 0), Err(CaptureError::SizeMismatch));
    assert_eq!(check_mask_read(128, 128, 0), Ok(()));
}

#[test]
fn packing_inverts_and_drops_row_padding() {
    let mbits = vec![0x0f, 0xaa, 0x55, 0x77, 0xf0, 0x12, 0x34, 0x56];
    assert_eq!(packed_width(12), 2);
    assert_eq!(packed_width(16), 2);
    assert_eq!(packed_width(17), 3);
    let packed = pack_inverted(&mbits, 12, 2, 4);
    assert_eq!(packed, vec![0xf0, 0x55, 0x0f, 0xed]);
}

#[test]
fn color_cursor_with_alpha_is_left_alone() {
    let g = color_geometry_32();
    let mut color = vec![0u8; 4096];
    for i in 0..1024 {
        color[4 * i] = (i % 251) as u8;
        color[4 * i + 1] = 7;
        color[4 * i + 2] = 9;
    }
    color[4 * 77 + 3] = 200;
    let mask = vec![0x5au8; 128];

    let mut direct = color.clone();
    assert!(!fix_cursor_mask(&mask, &mut direct, 32, 32, 4));
    assert_eq!(direct, color);

    let snap = assemble_cursor(11, &g, (3, 4), &mask, Some(color.clone()));
    assert_eq!(snap.id, 11);
    assert_eq!(snap.width, 32);
    assert_eq!(snap.height, 32);
    assert_eq!((snap.hot_x, snap.hot_y), (3, 4));
    assert_eq!(snap.pixels, color);
}

#[test]
fn inverted_background_pixel_becomes_black() {
    let mut color = vec![0u8; 4096];
    // Pixel (5, 2): red only, in device BGRA order.
    let target = 2 * 32 + 5;
    color[4 * target + 2] = 0x80;
    // Every AND bit set: all background.
    let mask = vec![0xffu8; 128];
    let mut out = color.clone();
    assert!(fix_cursor_mask(&mask, &mut out, 32, 32, 4));
    assert_eq!(px(&out, target), [0, 0, 0, 255]);
    for i in 0..1024 {
        if i != target {
            assert_eq!(px(&out, i), [0, 0, 0, 0]);
        }
    }
}

#[test]
fn reconciliation_swaps_channels_and_sets_alpha_from_mask() {
    // 8 x 2 cursor, stride 2: row 0 shape everywhere but column 7,
    // row 1 background everywhere.
    let mask = vec![0x01, 0xee, 0xff, 0x00];
    let mut color = vec![0u8; 64];
    for i in 0..16 {
        color[4 * i] = 10 + i as u8;
        color[4 * i + 1] = 20;
        color[4 * i + 2] = 30;
    }
    // Background pixel (3, 1) with no colour stays transparent.
    let quiet = 8 + 3;
    color[4 * quiet] = 0;
    color[4 * quiet + 1] = 0;
    color[4 * quiet + 2] = 0;
    // Background pixel (4, 1) with only green is blackened.
    let green = 8 + 4;
    color[4 * green] = 0;
    color[4 * green + 2] = 0;
    let mut out = color.clone();
    assert!(fix_cursor_mask(&mask, &mut out, 8, 2, 2));
    for x in 0..7 {
        assert_eq!(px(&out, x), [30, 20, 10 + x as u8, 255]);
    }
    assert_eq!(px(&out, 7), [0, 0, 0, 255]);
    assert_eq!(px(&out, quiet), [0, 0, 0, 0]);
    assert_eq!(px(&out, green), [0, 0, 0, 255]);
    for i in 0..16 {
        let a = px(&out, i)[3];
        assert!(a == 0 || a == 255);
    }
}

#[test]
fn transparent_cursor_gets_outline() {
    let g = color_geometry_32();
    let color = vec![0u8; 4096];
    let mask = vec![0xffu8; 128];
    let snap = assemble_cursor(1, &g, (10, 12), &mask, Some(color));
    assert_eq!(snap.width, 34);
    assert_eq!(snap.height, 34);
    assert_eq!((snap.hot_x, snap.hot_y), (11, 13));
    assert_eq!(snap.pixels.len(), 34 * 34 * 4);
    assert!(snap.pixels.iter().all(|b| *b == 0));
}

#[test]
fn outlined_color_cursor_keeps_pixel_length() {
    let g = color_geometry_32();
    let mut color = vec![0u8; 4096];
    color[0] = 1;
    color[1] = 2;
    color[2] = 3;
    // AND bit clear for pixel (0, 0) only.
    let mut mask = vec![0xffu8; 128];
    mask[0] = 0x7f;
    let snap = assemble_cursor(2, &g, (0, 0), &mask, Some(color));
    assert_eq!(snap.width, 34);
    assert_eq!(snap.height, 34);
    assert_eq!(snap.pixels.len(), (snap.width * snap.height * 4) as usize);
    // The shape pixel sits one in from the corner, in RGB order.
    assert_eq!(px(&snap.pixels, 34 + 1), [3, 2, 1, 255]);
    // Its neighbours are outline.
    assert_eq!(px(&snap.pixels, 0), [0, 0, 0, 255]);
    assert_eq!(px(&snap.pixels, 2 * 34 + 2), [0, 0, 0, 255]);
    // Further away stays transparent.
    assert_eq!(px(&snap.pixels, 3 * 34 + 3), [0, 0, 0, 0]);
}

#[test]
fn hotspot_wraps_at_the_largest_coordinate() {
    let g = color_geometry_32();
    let snap = assemble_cursor(3, &g, (u32::MAX, 0), &vec![0xffu8; 128], Some(vec![0u8; 4096]));
    assert_eq!((snap.hot_x, snap.hot_y), (0, 1));
}

#[test]
fn monochrome_expansion_follows_the_four_combinations() {
    // 8 x 2 cursor, stride 2: AND rows, then XOR rows.
    let mask = vec![0x0f, 0x00, 0xff, 0x00, 0x55, 0x00, 0x01, 0x00];
    let (img, outline) = expand_monochrome(&mask, 8, 2, 2);
    assert!(outline);
    assert_eq!(img.len(), 64);
    let black = [0, 0, 0, 255];
    let white = [255, 255, 255, 255];
    let clear = [0, 0, 0, 0];
    let row0 = [black, white, black, white, clear, white, clear, white];
    for x in 0..8 {
        assert_eq!(px(&img, x), row0[x]);
    }
    for x in 0..7 {
        assert_eq!(px(&img, 8 + x), clear);
    }
    assert_eq!(px(&img, 15), white);
}

#[test]
fn monochrome_without_inversion_needs_no_outline() {
    let mask = vec![0x0f, 0x00, 0xff, 0x00, 0xf0, 0x00, 0x00, 0x00];
    let (img, outline) = expand_monochrome(&mask, 8, 2, 2);
    assert!(!outline);
    assert_eq!(px(&img, 0), [255, 255, 255, 255]);
    assert_eq!(px(&img, 4), [0, 0, 0, 0]);
}

#[test]
fn monochrome_capture_through_the_pipeline() {
    let g = mask_geometry(&bitmap(8, 4, 2), false).unwrap();
    assert_eq!(g.height, 2);
    let mask = vec![0x0f, 0x00, 0xff, 0x00, 0x55, 0x00, 0x01, 0x00];
    let snap = assemble_cursor(9, &g, (1, 1), &mask, None);
    assert_eq!(snap.width, 10);
    assert_eq!(snap.height, 4);
    assert_eq!((snap.hot_x, snap.hot_y), (2, 2));
    assert_eq!(snap.pixels.len(), 10 * 4 * 4);
    // Source pixel (0, 0) is opaque black, copied one in from the corner.
    assert_eq!(px(&snap.pixels, 10 + 1), [0, 0, 0, 255]);
    // Source pixel (1, 0) is white.
    assert_eq!(px(&snap.pixels, 10 + 2), [255, 255, 255, 255]);
}

#[test]
fn monochrome_capture_without_outline_keeps_size() {
    let g = mask_geometry(&bitmap(8, 4, 2), false).unwrap();
    let mask = vec![0x0f, 0x00, 0xff, 0x00, 0xf0, 0x00, 0x00, 0x00];
    let snap = assemble_cursor(9, &g, (1, 1), &mask, None);
    assert_eq!(snap.width, 8);
    assert_eq!(snap.height, 2);
    assert_eq!((snap.hot_x, snap.hot_y), (1, 1));
    assert_eq!(snap.pixels.len(), 64);
}

#[test]
fn outline_of_single_visible_pixel() {
    // 2 x 2 image, only pixel (1, 1) visible.
    let mut img = vec![0u8; 16];
    img[12] = 9;
    img[13] = 8;
    img[14] = 7;
    img[15] = 6;
    // A transparent pixel's colour is not copied.
    img[0] = 50;
    let out = draw_outline(&img, 2, 2);
    assert_eq!(out.len(), 4 * 4 * 4);
    let black = [0, 0, 0, 255];
    let clear = [0, 0, 0, 0];
    let expected = [
        [clear, clear, clear, clear],
        [clear, black, black, black],
        [clear, black, [9, 8, 7, 6], black],
        [clear, black, black, black],
    ];
    for y in 0..4 {
        for x in 0..4 {
            assert_eq!(px(&out, y * 4 + x), expected[y][x]);
        }
    }
}
