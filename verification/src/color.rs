//! Screen coordinates, sampled colors, the raw-buffer decoding that turns the
//! platform's native pixel packing into red-green-blue channel triples, and
//! the two sampling operations, verified against the graphics-device
//! capability in [`crate::gdi`].

use crate::gdi::{lemma_bits_index, matches_capture, Capture, GdiApi, ScreenModel};
use crate::ApiError;
use vstd::prelude::*;

verus! {

/// A screen-space cursor position, origin at the top-left of the virtual
/// desktop, units of device pixels.
#[derive(Clone, Copy, Debug, PartialEq, Eq, Structural)]
pub struct Pos {
    pub x: i32,
    pub y: i32,
}

/// A sampling region in screen coordinates.
#[derive(Clone, Copy, Debug, PartialEq, Eq, Structural)]
pub struct Rect {
    pub x: i32,
    pub y: i32,
    pub w: i32,
    pub h: i32,
}

/// One sampled color: 8-bit red, green and blue channels.
#[derive(Clone, Copy, Debug, PartialEq, Eq, Structural)]
pub struct Rgb {
    pub r: u8,
    pub g: u8,
    pub b: u8,
}

/// The platform's designated invalid-pixel sentinel: a raw value reserved to
/// mean "query failed", never a legitimate color.
pub const CLR_INVALID: u32 = 0xFFFF_FFFF;

/// Half-width of the square sampling neighborhood around a point.
pub const REGION_HALF: i32 = 10;

/// Side length of the square sampling neighborhood, in pixels.
pub const REGION_SIDE: i32 = 21;

/// The raw pixel value that encodes a color: red in the low byte, then green,
/// then blue, with the top byte zero.
pub open spec fn raw_of(c: Rgb) -> u32 {
    (c.r as u32) | ((c.g as u32) << 8) | ((c.b as u32) << 16)
}

/// The color encoded by a raw pixel value: the low byte is red, the next
/// byte green, the byte above that blue.
pub open spec fn decoded(raw: u32) -> Rgb {
    Rgb { r: (raw & 0xFF) as u8, g: ((raw >> 8) & 0xFF) as u8, b: ((raw >> 16) & 0xFF) as u8 }
}

/// Decoding inverts encoding, and no encoded color collides with the
/// invalid-pixel sentinel.
pub proof fn lemma_raw_roundtrip(c: Rgb)
    ensures
        decoded(raw_of(c)) == c,
        raw_of(c) != CLR_INVALID,
{
    let r = c.r;
    let g = c.g;
    let b = c.b;
    assert(((((r as u32) | ((g as u32) << 8) | ((b as u32) << 16)) & 0xFF) as u8) == r)
        by (bit_vector);
    assert((((((r as u32) | ((g as u32) << 8) | ((b as u32) << 16)) >> 8) & 0xFF) as u8) == g)
        by (bit_vector);
    assert((((((r as u32) | ((g as u32) << 8) | ((b as u32) << 16)) >> 16) & 0xFF) as u8) == b)
        by (bit_vector);
    assert(((r as u32) | ((g as u32) << 8) | ((b as u32) << 16)) != 0xFFFF_FFFFu32)
        by (bit_vector);
    assert(decoded(raw_of(c)) == Rgb { r: c.r, g: c.g, b: c.b });
}

/// No decoded color is ever the invalid-pixel sentinel: every color the
/// sampler can hand out re-encodes to a raw value below it, so a caller can
/// never observe the sentinel as data.
pub proof fn lemma_color_never_sentinel(c: Rgb)
    ensures
        raw_of(c) != CLR_INVALID,
{
    lemma_raw_roundtrip(c);
}

/// Decode a raw pixel value into its red, green and blue channels.
pub fn decode_raw(raw: u32) -> (c: Rgb)
    ensures
        c == decoded(raw),
{
    Rgb { r: (raw & 0xFF) as u8, g: ((raw >> 8) & 0xFF) as u8, b: ((raw >> 16) & 0xFF) as u8 }
}

/// The byte length of one stored image row: three bytes per pixel, padded up
/// to the next multiple of four bytes.
pub open spec fn spec_stride(w: int) -> int {
    ((w * 3 + 3) / 4) * 4
}

/// A row's stride covers its pixel bytes: `3 * w <= spec_stride(w)`, and the
/// pad is less than four bytes wide.
pub proof fn lemma_stride_bounds(w: int)
    requires
        0 <= w,
    ensures
        3 * w <= spec_stride(w),
        spec_stride(w) < 3 * w + 4,
{
    let x = w * 3 + 3;
    vstd::arithmetic::div_mod::lemma_fundamental_div_mod(x, 4);
    vstd::arithmetic::div_mod::lemma_mod_bound(x, 4);
    assert(spec_stride(w) == x - x % 4);
}

/// Compute the padded row stride in bytes for an image `w` pixels wide.
pub fn row_stride(w: usize) -> (s: usize)
    requires
        w * 3 + 3 <= usize::MAX,
    ensures
        s == spec_stride(w as int),
{
    ((w * 3 + 3) / 4) * 4
}

/// The sampling region for a point: a square of side `REGION_SIDE` centered
/// on it, `REGION_HALF` pixels in each direction.
pub fn region_rect(p: Pos) -> (r: Rect)
    requires
        p.x - 10 >= i32::MIN,
        p.y - 10 >= i32::MIN,
    ensures
        r.x == p.x - 10,
        r.y == p.y - 10,
        r.w == 21,
        r.h == 21,
{
    Rect { x: p.x - REGION_HALF, y: p.y - REGION_HALF, w: REGION_SIDE, h: REGION_SIDE }
}

/// The color stored for flat row-major index `i` in a raw buffer of rows `w`
/// pixels wide: three bytes per pixel in blue-green-red order, rows padded to
/// a stride of `spec_stride(w)` bytes.
pub open spec fn buffer_color(buf: Seq<u8>, w: int, i: int) -> Rgb {
    Rgb {
        r: buf[(i / w) * spec_stride(w) + (i % w) * 3 + 2],
        g: buf[(i / w) * spec_stride(w) + (i % w) * 3 + 1],
        b: buf[(i / w) * spec_stride(w) + (i % w) * 3],
    }
}

/// Decode a raw image buffer of `h` rows, each `w` pixels stored as three
/// bytes in blue-green-red order and padded to a stride of `spec_stride(w)`
/// bytes, into row-major colors with channels reordered to red-green-blue.
pub fn decode_region(buf: &Vec<u8>, w: usize, h: usize) -> (v: Vec<Rgb>)
    requires
        w * 3 + 3 <= usize::MAX,
        w * h <= usize::MAX,
        spec_stride(w as int) * (h as int) <= buf@.len(),
    ensures
        v@.len() == w * h,
        forall|i: int| 0 <= i < v@.len() ==> #[trigger] v@[i] == buffer_color(buf@, w as int, i),
{
    let stride = row_stride(w);
    let n = buf.len();
    let ghost st = spec_stride(w as int);
    let mut v: Vec<Rgb> = Vec::new();
    let mut row: usize = 0;
    while row < h
        invariant
            row <= h,
            st == spec_stride(w as int),
            stride == st,
            n == buf@.len(),
            w * 3 + 3 <= usize::MAX,
            w * h <= usize::MAX,
            st * (h as int) <= buf@.len(),
            v@.len() == row * w,
            forall|i: int|
                0 <= i < v@.len() ==> #[trigger] v@[i] == buffer_color(buf@, w as int, i),
        decreases h - row,
    {
        proof {
            lemma_stride_bounds(w as int);
            assert((row as int) * st + st <= (h as int) * st) by (nonlinear_arith)
                requires
                    0 <= row as int,
                    row < h,
                    0 <= st,
            ;
            assert((row as int) * w + w <= (h as int) * w) by (nonlinear_arith)
                requires
                    0 <= row as int,
                    row < h,
                    0 <= w,
            ;
            assert((row as int) * st + st <= buf@.len());
        }
        let base = row * stride;
        let mut col: usize = 0;
        while col < w
            invariant
                row < h,
                col <= w,
                st == spec_stride(w as int),
                stride == st,
                base == row * stride,
                n == buf@.len(),
                w * 3 + 3 <= usize::MAX,
                w * h <= usize::MAX,
                st * (h as int) <= buf@.len(),
                (row as int) * st + st <= buf@.len(),
                3 * w <= st,
                (row as int) * st + st <= (h as int) * st,
                (row as int) * w + w <= (h as int) * w,
                v@.len() == row * w + col,
                forall|i: int|
                    0 <= i < v@.len() ==> #[trigger] v@[i] == buffer_color(buf@, w as int, i),
            decreases w - col,
        {
            let i = base + col * 3;
            proof {
                assert(i + 2 < (row as int) * st + st);
            }
            let bch = buf[i];
            let gch = buf[i + 1];
            let rch = buf[i + 2];
            v.push(Rgb { r: rch, g: gch, b: bch });
            proof {
                let idx = (row as int) * (w as int) + (col as int);
                vstd::arithmetic::div_mod::lemma_fundamental_div_mod_converse(
                    idx,
                    w as int,
                    row as int,
                    col as int,
                );
                assert(v@[idx] == buffer_color(buf@, w as int, idx));
            }
            col = col + 1;
        }
        proof {
            assert(((row as int) + 1) * (w as int) == (row as int) * (w as int) + w)
                by (nonlinear_arith);
        }
        row = row + 1;
    }
    proof {
        assert((h as int) * w == w * h) by (nonlinear_arith);
    }
    v
}

/// The point is at least `REGION_HALF` pixels from every screen edge, so the
/// whole sampling neighborhood lies on the visible desktop.
pub open spec fn region_in_screen(s: ScreenModel, p: Pos) -> bool {
    p.x - 10 >= 0 && p.y - 10 >= 0 && p.x + 11 <= s.width && p.y + 11 <= s.height
}

/// The colors of the 21-by-21 neighborhood centered on a point, row-major:
/// index `i` is the screen pixel `(p.x - 10 + i % 21, p.y - 10 + i / 21)`.
pub open spec fn region_colors(s: ScreenModel, p: Pos) -> Seq<Rgb> {
    Seq::new(441, |i: int| s.at(p.x - 10 + i % 21, p.y - 10 + i / 21))
}

/// The center of the sampling neighborhood is the sampled point itself: for
/// any point at least 10 pixels from every screen edge, the region color at
/// row-major index 220 is the color the single-pixel sampler reports there.
pub proof fn lemma_region_center(s: ScreenModel, p: Pos)
    requires
        region_in_screen(s, p),
    ensures
        region_colors(s, p)[220] == s.at(p.x as int, p.y as int),
{
    assert(220int % 21 == 10 && 220int / 21 == 10) by (nonlinear_arith);
}

/// Read the color of the single screen pixel under `pos`.
///
/// Acquires a device context on the desktop surface, queries the raw pixel
/// value, and releases the context before returning, on every path. A
/// successful read is exactly the screen's color under the point; the raw
/// query yields the invalid-pixel sentinel off the visible desktop, and may
/// for an unreadable on-screen pixel, and then the call fails with
/// `ApiError::Sample` rather than surfacing the sentinel as data.
pub fn get_color<G: GdiApi>(gdi: &mut G, pos: Pos) -> (r: Result<Rgb, ApiError>)
    requires
        !old(gdi).dc_open(),
    ensures
        !final(gdi).dc_open(),
        final(gdi).screen() == old(gdi).screen(),
        final(gdi).mem_dc_open() == old(gdi).mem_dc_open(),
        final(gdi).bitmap_open() == old(gdi).bitmap_open(),
        old(gdi).screen().contains(pos.x as int, pos.y as int) ==> (r == Ok::<Rgb, ApiError>(
            old(gdi).screen().at(pos.x as int, pos.y as int),
        ) || r == Err::<Rgb, ApiError>(ApiError::Sample)),
        r matches Ok(c) ==> old(gdi).screen().contains(pos.x as int, pos.y as int) && c == old(
            gdi,
        ).screen().at(pos.x as int, pos.y as int),
        !old(gdi).screen().contains(pos.x as int, pos.y as int) ==> r == Err::<Rgb, ApiError>(
            ApiError::Sample,
        ),
{
    gdi.acquire_dc();
    let raw = gdi.get_pixel(pos.x, pos.y);
    gdi.release_dc();
    proof {
        let s = old(gdi).screen();
        if s.contains(pos.x as int, pos.y as int) {
            lemma_raw_roundtrip(s.at(pos.x as int, pos.y as int));
        }
    }
    if raw == CLR_INVALID {
        Err(ApiError::Sample)
    } else {
        Ok(decode_raw(raw))
    }
}

/// Sample the 21-by-21 neighborhood centered on `pos` in one bulk operation.
///
/// Acquires a device context on the desktop surface, copies the neighborhood
/// into an off-screen bitmap, extracts the bitmap's raw bytes, and decodes
/// them into exactly 441 colors in row-major order. Every acquired handle --
/// the context, the off-screen context and the bitmap -- is released on every
/// exit path. Fails with `ApiError::Blit` whenever the neighborhood reaches
/// off the visible desktop -- and on a refused device copy -- and with
/// `ApiError::Extract` when the raw extraction reports failure, each
/// carrying the device's diagnostic; it never returns a partial result, and
/// success always carries the screen's own colors.
pub fn get_colors<G: GdiApi>(gdi: &mut G, pos: Pos) -> (r: Result<Vec<Rgb>, ApiError>)
    requires
        !old(gdi).dc_open(),
        !old(gdi).mem_dc_open(),
        !old(gdi).bitmap_open(),
        pos.x - 10 >= i32::MIN,
        pos.y - 10 >= i32::MIN,
    ensures
        !final(gdi).dc_open(),
        !final(gdi).mem_dc_open(),
        !final(gdi).bitmap_open(),
        final(gdi).screen() == old(gdi).screen(),
        (r matches Err(e) ==> e is Blit || e is Extract),
        !region_in_screen(old(gdi).screen(), pos) ==> (r matches Err(e) && e is Blit),
        r matches Ok(v) ==> region_in_screen(old(gdi).screen(), pos) && v@ == region_colors(
            old(gdi).screen(),
            pos,
        ) && v@.len() == 441,
{
    let rect = region_rect(pos);
    let ghost s = old(gdi).screen();
    let ghost cap = Capture { x: rect.x as int, y: rect.y as int, w: 21, h: 21 };

    gdi.acquire_dc();
    gdi.create_mem_dc();
    gdi.create_bitmap(rect.w, rect.h);
    gdi.select_bitmap();

    match gdi.bitblt(rect.x, rect.y, rect.w, rect.h) {
        Err(msg) => {
            gdi.delete_bitmap();
            gdi.delete_mem_dc();
            gdi.release_dc();
            return Err(ApiError::Blit(msg));
        },
        Ok(()) => {},
    }

    let bits = gdi.read_bits();

    gdi.delete_bitmap();
    gdi.delete_mem_dc();
    gdi.release_dc();

    match bits {
        Err(msg) => Err(ApiError::Extract(msg)),
        Ok(buf) => {
            proof {
                assert(buf@.len() == spec_stride(21) * 21);
            }
            let v = decode_region(&buf, 21, 21);
            proof {
                assert forall|i: int| 0 <= i < 441 implies v@[i] == region_colors(s, pos)[i] by {
                    assert(0 <= i / 21 < 21 && 0 <= i % 21 < 21) by (nonlinear_arith)
                        requires
                            0 <= i < 441,
                    ;
                    lemma_bits_index(s, cap, i / 21, i % 21, 0);
                    lemma_bits_index(s, cap, i / 21, i % 21, 1);
                    lemma_bits_index(s, cap, i / 21, i % 21, 2);
                    assert((i % 21) * 3 + 2 < 3 * 21);
                    let p = s.at(cap.x + i % 21, cap.y + i / 21);
                    assert(v@[i] == buffer_color(buf@, 21, i));
                    assert(buffer_color(buf@, 21, i) == Rgb { r: p.r, g: p.g, b: p.b });
                    assert(p == Rgb { r: p.r, g: p.g, b: p.b });
                }
                assert(v@ =~= region_colors(s, pos));
            }
            Ok(v)
        },
    }
}

} // verus!
