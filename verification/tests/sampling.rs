use color_sampler::color::{
    decode_raw, decode_region, get_color, get_colors, region_rect, row_stride, Pos, Rgb,
};
use color_sampler::fake_gdi::FakeGdi;
use color_sampler::ApiError;

/// A fake device whose pixels follow a simple arithmetic pattern, so every
/// coordinate has a distinct, predictable color.
fn patterned_screen(width: u32, height: u32) -> FakeGdi {
    let mut cells = Vec::new();
    for y in 0..height {
        for x in 0..width {
            cells.push(Rgb {
                r: (x % 251) as u8,
                g: (y % 249) as u8,
                b: ((x + 2 * y) % 247) as u8,
            });
        }
    }
    FakeGdi::new(width, height, cells)
}

fn pattern_at(x: u32, y: u32) -> Rgb {
    Rgb {
        r: (x % 251) as u8,
        g: (y % 249) as u8,
        b: ((x + 2 * y) % 247) as u8,
    }
}

#[test]
fn test_get_color() {
    let mut gdi = patterned_screen(1, 1);
    let color = get_color(&mut gdi, Pos { x: 0, y: 0 });
    println!("color: {:?}", color);
    assert!(color.is_ok());
}

#[test]
fn test_get_color_reports_screen_color() {
    let mut gdi = patterned_screen(64, 48);
    assert_eq!(get_color(&mut gdi, Pos { x: 5, y: 7 }), Ok(pattern_at(5, 7)));
    assert_eq!(get_color(&mut gdi, Pos { x: 63, y: 47 }), Ok(pattern_at(63, 47)));
    assert_eq!(get_color(&mut gdi, Pos { x: 0, y: 0 }), Ok(pattern_at(0, 0)));
}

#[test]
fn test_get_color_off_screen_is_sample_error() {
    let mut gdi = patterned_screen(64, 48);
    assert_eq!(get_color(&mut gdi, Pos { x: 64, y: 0 }), Err(ApiError::Sample));
    assert_eq!(get_color(&mut gdi, Pos { x: -1, y: 10 }), Err(ApiError::Sample));
    assert_eq!(get_color(&mut gdi, Pos { x: 10, y: 48 }), Err(ApiError::Sample));
}

#[test]
fn test_get_colors_returns_441_row_major() {
    let mut gdi = patterned_screen(40, 40);
    let v = get_colors(&mut gdi, Pos { x: 20, y: 20 }).unwrap();
    assert_eq!(v.len(), 441);
    // Row-major: index i is screen pixel (20 - 10 + i % 21, 20 - 10 + i / 21).
    for i in 0..441u32 {
        assert_eq!(v[i as usize], pattern_at(10 + i % 21, 10 + i / 21));
    }
}

#[test]
fn test_region_center_matches_single_pixel() {
    let mut gdi = patterned_screen(40, 40);
    let p = Pos { x: 17, y: 23 };
    let v = get_colors(&mut gdi, p).unwrap();
    let center = get_color(&mut gdi, p).unwrap();
    assert_eq!(v[220], center);
}

#[test]
fn test_get_colors_near_edge_is_blit_error() {
    let mut gdi = patterned_screen(40, 40);
    assert!(matches!(get_colors(&mut gdi, Pos { x: 9, y: 20 }), Err(ApiError::Blit(_))));
    assert!(matches!(get_colors(&mut gdi, Pos { x: 20, y: 30 }), Err(ApiError::Blit(_))));
    assert!(matches!(get_colors(&mut gdi, Pos { x: -5, y: -5 }), Err(ApiError::Blit(_))));
}

#[test]
fn test_handles_released_after_every_call() {
    let mut gdi = patterned_screen(40, 40);
    assert_eq!(gdi.open_handles(), 0);
    let _ = get_color(&mut gdi, Pos { x: 3, y: 3 });
    assert_eq!(gdi.open_handles(), 0);
    let _ = get_color(&mut gdi, Pos { x: -1, y: -1 });
    assert_eq!(gdi.open_handles(), 0);
    let _ = get_colors(&mut gdi, Pos { x: 20, y: 20 });
    assert_eq!(gdi.open_handles(), 0);
    let _ = get_colors(&mut gdi, Pos { x: 0, y: 0 });
    assert_eq!(gdi.open_handles(), 0);
}

#[test]
fn test_decode_raw_channel_order() {
    // Raw value 0x00BBGGRR: red in the low byte.
    let c = decode_raw(0x0030_2010);
    assert_eq!(c, Rgb { r: 0x10, g: 0x20, b: 0x30 });
}

#[test]
fn test_row_stride_pads_to_four_bytes() {
    // 21 pixels: 63 data bytes pad to 64, not 63.
    assert_eq!(row_stride(21), 64);
    // 9 pixels: 27 data bytes pad to 28.
    assert_eq!(row_stride(9), 28);
    assert_eq!(row_stride(1), 4);
    assert_eq!(row_stride(4), 12);
}

#[test]
fn test_decode_region_channel_reorder() {
    // One pixel stored natively as (blue, green, red) = (0x10, 0x20, 0x30)
    // decodes to r = 0x30, g = 0x20, b = 0x10.
    let buf = vec![0x10u8, 0x20, 0x30, 0x00];
    let v = decode_region(&buf, 1, 1);
    assert_eq!(v, vec![Rgb { r: 0x30, g: 0x20, b: 0x10 }]);
}

#[test]
fn test_decode_region_respects_row_stride() {
    // A synthetic 21-pixel-wide, 2-row buffer: pixel (col, row)'s blue byte
    // sits at row * 64 + col * 3, not row * 63 + col * 3.
    let mut buf = vec![0u8; 128];
    let (col, row) = (20usize, 1usize);
    buf[row * 64 + col * 3] = 0xAB; // blue
    buf[row * 64 + col * 3 + 1] = 0xCD; // green
    buf[row * 64 + col * 3 + 2] = 0xEF; // red
    let v = decode_region(&buf, 21, 2);
    assert_eq!(v.len(), 42);
    assert_eq!(v[row * 21 + col], Rgb { r: 0xEF, g: 0xCD, b: 0xAB });
    // With the unpadded stride the bytes would have landed on pixel (21*63+... ) elsewhere:
    assert_eq!(v[row * 21 + col - 1], Rgb { r: 0, g: 0, b: 0 });
}

#[test]
fn test_region_rect_is_centered_21_square() {
    let r = region_rect(Pos { x: 100, y: 50 });
    assert_eq!((r.x, r.y, r.w, r.h), (90, 40, 21, 21));
}
