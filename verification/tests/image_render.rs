use base64::Engine;
use siggy::{
    cell_pixel_size, crop_png_vertical, crop_rows, find_preamble_end, halfblock_cells,
    decode_base64, kitty_id_rgb, placeholder_symbol, png_to_base64, select_protocol, slice_sixel_bands, CellColor, HalfBlock,
    ImageProtocol, WindowSize,
};

/// Build a synthetic Sixel DCS string with the given number of bands.
/// Each band is a simple pixel row for testing.
fn make_sixel(num_bands: usize) -> String {
    // DCS header + raster attrs + 2 color definitions + bands + ST
    let mut s = String::from("\x1bPq\"1;1;10;");
    s.push_str(&(num_bands * 6).to_string()); // vertical pixel count
    s.push_str("#0;2;100;0;0#1;2;0;100;0"); // two color definitions
    for i in 0..num_bands {
        if i > 0 {
            s.push('-');
        }
        // Each band: select color 0, write some pixel data
        s.push_str("#0???");
    }
    s.push_str("\x1b\\");
    s
}

fn band_count(result: &str) -> usize {
    let body_start = result.find('q').unwrap() + 1;
    let body_end = result.rfind("\x1b\\").unwrap();
    let body = &result[body_start..body_end];
    let preamble_end = find_preamble_end(body);
    let pixel_data = &body[preamble_end..];
    pixel_data.split('-').count()
}

#[test]
fn slice_no_crop_exact_bands() {
    // cell_px_h=6, 10 cells = 60px = 10 bands. Sixel has exactly 10 bands.
    // Raster is stripped but all 10 bands are preserved.
    let sixel = make_sixel(10);
    let result = slice_sixel_bands(&sixel, 6, 10, 0, 10).unwrap();
    let body_start = result.find('q').unwrap() + 1;
    let body_end = result.rfind("\x1b\\").unwrap();
    let body = &result[body_start..body_end];
    let preamble_end = find_preamble_end(body);
    let pixel_data = &body[preamble_end..];
    assert_eq!(pixel_data.split('-').count(), 10);
    // Raster attributes are stripped
    assert!(!result.contains("\"1;1;"));
    // Color definitions preserved
    assert!(result.contains("#0;2;100;0;0"));
}

#[test]
fn slice_crop_top() {
    // 10 bands, cell_px_h=6, so 1 band per cell.
    // Crop top 3 cells = skip 3 bands, take remaining 7.
    let sixel = make_sixel(10);
    let result = slice_sixel_bands(&sixel, 6, 10, 3, 7).unwrap();
    assert_eq!(band_count(&result), 7);
}

#[test]
fn slice_crop_bottom() {
    // 10 bands, take only 4 from top.
    let sixel = make_sixel(10);
    let result = slice_sixel_bands(&sixel, 6, 10, 0, 4).unwrap();
    assert_eq!(band_count(&result), 4);
}

#[test]
fn slice_middle() {
    // 20 bands, cell_px_h=6 (1 band per cell). Skip 5, take 8.
    let sixel = make_sixel(20);
    let result = slice_sixel_bands(&sixel, 6, 20, 5, 8).unwrap();
    assert_eq!(band_count(&result), 8);
}

#[test]
fn slice_preserves_color_defs() {
    let sixel = make_sixel(5);
    let result = slice_sixel_bands(&sixel, 6, 5, 2, 3).unwrap();
    // Color definitions should be preserved
    assert!(result.contains("#0;2;100;0;0"));
    assert!(result.contains("#1;2;0;100;0"));
}

#[test]
fn slice_empty_crop_returns_none() {
    let sixel = make_sixel(5);
    // Skip all bands
    let result = slice_sixel_bands(&sixel, 6, 5, 5, 0);
    assert!(result.is_none());
}

#[test]
fn find_preamble_end_basic() {
    let body = "\"1;1;10;60#0;2;100;0;0#1;2;0;100;0#0???-#0???";
    let end = find_preamble_end(body);
    // Should stop at the #0 that's a color selection (no ; after digits)
    assert_eq!(&body[end..end + 2], "#0");
    // And the char after the digits should be '?' (pixel data)
    assert_eq!(body.as_bytes()[end + 2], b'?');
}

#[test]
fn slice_with_larger_cell_px() {
    // cell_px_h=20, full_height=5 cells = 100px = 17 bands (ceil(100/6))
    // crop_top=2 cells = 40px = skip 6 bands (40/6=6.67, floor=6)
    // visible=3 cells = 60px = take 10 bands (floor(60/6)=10)
    let sixel = make_sixel(17);
    let result = slice_sixel_bands(&sixel, 20, 5, 2, 3).unwrap();
    assert_eq!(band_count(&result), 10);
}

#[test]
fn slice_clips_overflow_band() {
    // Simulate icy_sixel adding an extra band: 18 cells * 20px = 360px
    // = 60 bands needed, but Sixel has 61 bands (366px).
    // Floor division should clip to 60 bands, not 61.
    let sixel = make_sixel(61); // 61 bands like real icy_sixel output
    let result = slice_sixel_bands(&sixel, 20, 18, 0, 18).unwrap();
    // 18 cells * 20px = 360px. floor(360/6) = 60 bands, NOT 61.
    assert_eq!(band_count(&result), 60);
}

#[test]
fn slice_clips_full_image_overflow() {
    // Full image (no crop) should still clip the extra band.
    // 30 cells * 20px = 600px = 100 bands, but Sixel has 101.
    let sixel = make_sixel(101);
    let result = slice_sixel_bands(&sixel, 20, 30, 0, 30).unwrap();
    assert_eq!(band_count(&result), 100);
}

#[test]
fn slice_exact_output() {
    let sixel = "\x1bP0;1q\"1;1;4;12#0;2;1;2;3#0AA-#0BB-\x1b\\";
    let result = slice_sixel_bands(sixel, 6, 2, 1, 1).unwrap();
    assert_eq!(result, "\x1bP0;1q#0;2;1;2;3#0BB\x1b\\");
}

#[test]
fn slice_without_raster_keeps_preamble() {
    let sixel = "\x1bPq#1;2;9;9;9#1AA-#1BB-#1CC\x1b\\";
    let result = slice_sixel_bands(sixel, 12, 3, 0, 1).unwrap();
    assert_eq!(result, "\x1bPq#1;2;9;9;9#1AA-#1BB\x1b\\");
}

#[test]
fn slice_rejects_missing_parts() {
    assert!(slice_sixel_bands("no dcs here \x1b\\", 6, 1, 0, 1).is_none());
    assert!(slice_sixel_bands("\x1bPq#0AA", 6, 1, 0, 1).is_none());
    assert!(slice_sixel_bands("\x1bPq\x1b\\", 6, 1, 0, 1).is_none());
    assert!(slice_sixel_bands("\x1bPq#0;2;1;1;1\x1b\\", 6, 1, 0, 1).is_none());
    assert!(slice_sixel_bands("\x1bPq---\x1b\\", 6, 1, 0, 1).is_none());
}

#[test]
fn slice_drops_empty_bands() {
    let sixel = "\x1bPq#0A--#0B-\x1b\\";
    let result = slice_sixel_bands(sixel, 6, 2, 0, 2).unwrap();
    assert_eq!(result, "\x1bPq#0A-#0B\x1b\\");
}

#[test]
fn preamble_end_edge_cases() {
    assert_eq!(find_preamble_end(""), 0);
    assert_eq!(find_preamble_end("\"1;2"), 4);
    assert_eq!(find_preamble_end("#12;3#4?"), 5);
    assert_eq!(find_preamble_end("???"), 0);
}

#[test]
fn protocol_selection() {
    assert_eq!(select_protocol(true, Some("iTerm.app"), true), ImageProtocol::Kitty);
    assert_eq!(select_protocol(false, Some("ghostty"), true), ImageProtocol::Kitty);
    assert_eq!(select_protocol(false, Some("iTerm.app"), true), ImageProtocol::Iterm2);
    assert_eq!(select_protocol(false, Some("WezTerm"), false), ImageProtocol::Iterm2);
    assert_eq!(select_protocol(false, Some("xterm"), true), ImageProtocol::Sixel);
    assert_eq!(select_protocol(false, None, false), ImageProtocol::Halfblock);
}

#[test]
fn cell_size_from_window_or_default() {
    let ws = WindowSize { rows: 40, columns: 100, width: 1000, height: 800 };
    assert_eq!(cell_pixel_size(Some(ws), true), (10, 20));
    let zero = WindowSize { rows: 40, columns: 100, width: 0, height: 800 };
    assert_eq!(cell_pixel_size(Some(zero), true), (10, 20));
    assert_eq!(cell_pixel_size(Some(zero), false), (8, 16));
    assert_eq!(cell_pixel_size(None, false), (8, 16));
    let odd = WindowSize { rows: 3, columns: 7, width: 100, height: 50 };
    assert_eq!(cell_pixel_size(Some(odd), false), (14, 16));
}

#[test]
fn placeholder_symbols() {
    assert_eq!(placeholder_symbol(0, 0), "\u{10EEEE}\u{0305}\u{0305}");
    assert_eq!(placeholder_symbol(1, 2), "\u{10EEEE}\u{030D}\u{030E}");
    assert_eq!(placeholder_symbol(255, 300), "\u{10EEEE}\u{A8E5}\u{A8E5}");
    assert_ne!(placeholder_symbol(3, 4), placeholder_symbol(4, 3));
}

#[test]
fn kitty_rgb_bytes() {
    assert_eq!(kitty_id_rgb(0x123456), (0x12, 0x34, 0x56));
    assert_eq!(kitty_id_rgb(0xFF00_00FF), (0, 0, 0xFF));
}

#[test]
fn crop_rows_proportional() {
    assert_eq!(crop_rows(100, 10, 2, 3), (20, 30));
    assert_eq!(crop_rows(100, 10, 9, 5), (90, 10));
    assert_eq!(crop_rows(5, 10, 0, 1), (0, 1));
    assert_eq!(crop_rows(100, 0, 3, 3), (0, 100));
    assert_eq!(crop_rows(100, 10, 12, 3), (120, 0));
}

#[test]
fn crop_png_rejects_bad_input() {
    assert!(crop_png_vertical("not base64!!", 10, 1, 0, 1).is_none());
    assert!(crop_png_vertical("aGVsbG8=", 10, 1, 0, 1).is_none());
}

fn tiny_png_base64() -> String {
    let mut img = image::RgbaImage::new(2, 4);
    for (x, y, p) in img.enumerate_pixels_mut() {
        *p = image::Rgba([x as u8 * 100, y as u8 * 50, 7, 255]);
    }
    let mut buf = std::io::Cursor::new(Vec::new());
    image::DynamicImage::ImageRgba8(img).write_to(&mut buf, image::ImageFormat::Png).unwrap();
    base64::engine::general_purpose::STANDARD.encode(buf.into_inner())
}

#[test]
fn crop_png_keeps_visible_rows() {
    let full = tiny_png_base64();
    let cropped = crop_png_vertical(&full, 4, 2, 1, 1).unwrap();
    assert_ne!(cropped, full);
    let bytes = base64::engine::general_purpose::STANDARD.decode(&cropped).unwrap();
    let img = image::load_from_memory(&bytes).unwrap().to_rgba8();
    assert_eq!(img.dimensions(), (2, 2));
    assert_eq!(img.get_pixel(1, 0).0, [100, 100, 7, 255]);
}

#[test]
fn halfblocks_pair_rows() {
    // 2x3 image: rows 0 and 1 pair up, row 2 has the default colour below.
    let mut rgba = Vec::new();
    for y in 0..3u8 {
        for x in 0..2u8 {
            let alpha = if x == 1 && y == 1 { 10 } else { 200 };
            rgba.extend_from_slice(&[x, y, 9, alpha]);
        }
    }
    let rows = halfblock_cells(&rgba, 2, 3);
    assert_eq!(rows.len(), 2);
    assert_eq!(rows[0].len(), 2);
    assert_eq!(
        rows[0][0],
        HalfBlock { top: CellColor::Rgb(0, 0, 9), bottom: CellColor::Rgb(0, 1, 9) }
    );
    assert_eq!(rows[0][1], HalfBlock { top: CellColor::Rgb(1, 0, 9), bottom: CellColor::Reset });
    assert_eq!(rows[1][1], HalfBlock { top: CellColor::Rgb(1, 2, 9), bottom: CellColor::Reset });
    assert!(halfblock_cells(&[], 0, 0).is_empty());
}

#[test]
fn kitty_rgb_round_trip() {
    for id in [0u32, 1, 255, 256, 0x00AB_CDEF, 0x0100_0001, u32::MAX] {
        let (r, g, b) = kitty_id_rgb(id);
        assert_eq!(((r as u32) << 16) | ((g as u32) << 8) | b as u32, id & 0x00FF_FFFF);
    }
}

#[test]
fn crop_rows_stay_inside_image() {
    for full in 0..6u16 {
        for top in 0..8u16 {
            for visible in 0..8u16 {
                let (y, h) = crop_rows(37, full, top, visible);
                if y < 37 {
                    assert!(h >= 1 && y + h <= 37);
                } else {
                    assert_eq!(h, 0);
                }
            }
        }
    }
}

#[test]
fn crop_png_full_height_keeps_image() {
    let full = tiny_png_base64();
    let original = image::load_from_memory(
        &base64::engine::general_purpose::STANDARD.decode(&full).unwrap(),
    )
    .unwrap()
    .to_rgba8();
    for (cells, top, visible) in [(0u16, 3u16, 1u16), (2, 0, 2)] {
        let cropped = crop_png_vertical(&full, 4, cells, top, visible).unwrap();
        let bytes = base64::engine::general_purpose::STANDARD.decode(&cropped).unwrap();
        let img = image::load_from_memory(&bytes).unwrap().to_rgba8();
        assert_eq!(img, original);
    }
}

#[test]
fn png_bytes_to_base64() {
    assert_eq!(png_to_base64(b"hello").as_deref(), Some("aGVsbG8="));
    assert_eq!(png_to_base64(b"").as_deref(), Some(""));
}

#[test]
fn base64_text_to_bytes() {
    assert_eq!(decode_base64("aGVsbG8="), Some(b"hello".to_vec()));
    assert_eq!(decode_base64(""), Some(Vec::new()));
    assert_eq!(decode_base64("not base64!!"), None);
}
