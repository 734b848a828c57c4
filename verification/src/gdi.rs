//! The graphics-device capability that the sampling engine runs against: a
//! ghost model of the visible desktop, and a trait for acquiring a device
//! context, blitting a screen block into an off-screen bitmap, and extracting
//! its raw bytes. A real platform binding implements the trait outside the
//! library; an in-memory fake inside it serves tests.

use crate::color::{spec_stride, raw_of, Rgb, CLR_INVALID};
use vstd::prelude::*;

verus! {

/// Ghost model of the visible desktop: its dimensions and the color of every
/// pixel, row-major from the top-left origin.
pub ghost struct ScreenModel {
    pub width: int,
    pub height: int,
    pub cells: Seq<Rgb>,
}

impl ScreenModel {
    /// A coordinate lies on the visible desktop.
    pub open spec fn contains(self, x: int, y: int) -> bool {
        0 <= x < self.width && 0 <= y < self.height
    }

    /// The color of the pixel at a screen coordinate.
    pub open spec fn at(self, x: int, y: int) -> Rgb {
        self.cells[y * self.width + x]
    }
}

/// The source rectangle most recently blitted into the off-screen bitmap.
pub ghost struct Capture {
    pub x: int,
    pub y: int,
    pub w: int,
    pub h: int,
}

/// The capture rectangle is non-empty and lies entirely on the screen.
pub open spec fn capture_in(s: ScreenModel, c: Capture) -> bool {
    0 < c.w && 0 < c.h && 0 <= c.x && 0 <= c.y && c.x + c.w <= s.width && c.y + c.h <= s.height
}

/// The raw byte image of a captured screen block, as the bitmap extraction
/// delivers it: rows first-row-first, three bytes per pixel in
/// blue-green-red order, each row padded with zero bytes to a stride of
/// `spec_stride(c.w)` bytes.
pub open spec fn bits_of(s: ScreenModel, c: Capture) -> Seq<u8> {
    Seq::new(
        (spec_stride(c.w) * c.h) as nat,
        |i: int|
            {
                let row = i / spec_stride(c.w);
                let off = i % spec_stride(c.w);
                let col = off / 3;
                let ch = off % 3;
                if col < c.w {
                    let p = s.at(c.x + col, c.y + row);
                    if ch == 0 {
                        p.b
                    } else if ch == 1 {
                        p.g
                    } else {
                        p.r
                    }
                } else {
                    0u8
                }
            },
    )
}

/// An extracted buffer agrees with the ideal byte image of the capture on
/// every pixel byte; the pad bytes at the end of each stored row are left
/// unspecified, as the platform's extraction leaves them.
pub open spec fn matches_capture(s: ScreenModel, c: Capture, buf: Seq<u8>) -> bool {
    &&& buf.len() == spec_stride(c.w) * c.h
    &&& forall|i: int|
        0 <= i < buf.len() && i % spec_stride(c.w) < 3 * c.w ==> #[trigger] buf[i] == bits_of(
            s,
            c,
        )[i]
}

/// Where each channel of each captured pixel sits in the raw byte image: the
/// blue channel of pixel `(col, row)` is at byte `row * stride + col * 3`,
/// green and red just after it, all inside the buffer and clear of the pads.
pub proof fn lemma_bits_index(s: ScreenModel, c: Capture, row: int, col: int, ch: int)
    requires
        capture_in(s, c),
        0 <= row < c.h,
        0 <= col < c.w,
        0 <= ch < 3,
    ensures
        0 <= row * spec_stride(c.w) + col * 3 + ch < spec_stride(c.w) * c.h,
        (row * spec_stride(c.w) + col * 3 + ch) % spec_stride(c.w) == col * 3 + ch,
        bits_of(s, c)[row * spec_stride(c.w) + col * 3 + ch] == (if ch == 0 {
            s.at(c.x + col, c.y + row).b
        } else if ch == 1 {
            s.at(c.x + col, c.y + row).g
        } else {
            s.at(c.x + col, c.y + row).r
        }),
{
    let st = spec_stride(c.w);
    crate::color::lemma_stride_bounds(c.w);
    let off = col * 3 + ch;
    assert(off < st);
    let idx = row * st + off;
    assert(row * st + st <= c.h * st) by (nonlinear_arith)
        requires
            0 <= row,
            row < c.h,
            0 <= st,
    ;
    assert(0 <= row * st) by (nonlinear_arith)
        requires
            0 <= row,
            0 <= st,
    ;
    assert(0 <= idx < st * c.h);
    vstd::arithmetic::div_mod::lemma_fundamental_div_mod_converse(idx, st, row, off);
    vstd::arithmetic::div_mod::lemma_fundamental_div_mod_converse(off, 3, col, ch);
}

/// The pad bytes at the end of each stored row are zero.
pub proof fn lemma_bits_pad(s: ScreenModel, c: Capture, row: int, off: int)
    requires
        capture_in(s, c),
        0 <= row < c.h,
        3 * c.w <= off < spec_stride(c.w),
    ensures
        bits_of(s, c)[row * spec_stride(c.w) + off] == 0,
{
    let st = spec_stride(c.w);
    let idx = row * st + off;
    assert(row * st + st <= c.h * st) by (nonlinear_arith)
        requires
            0 <= row,
            row < c.h,
            0 <= st,
    ;
    assert(0 <= row * st) by (nonlinear_arith)
        requires
            0 <= row,
            0 <= st,
    ;
    assert(0 <= idx < st * c.h);
    vstd::arithmetic::div_mod::lemma_fundamental_div_mod_converse(idx, st, row, off);
    assert(off / 3 >= c.w) by (nonlinear_arith)
        requires
            3 * c.w <= off,
    ;
}

/// The platform graphics-device capability. The spec state models the screen
/// contents, which graphics handles the caller currently holds open, and what
/// the off-screen bitmap holds; every method frames the parts it leaves
/// alone, so an engine verified against this trait provably releases every
/// handle it acquires, on every exit path.
pub trait GdiApi: Sized {
    /// The visible desktop this device draws from.
    spec fn screen(&self) -> ScreenModel;

    /// A device context on the desktop surface is held open.
    spec fn dc_open(&self) -> bool;

    /// An off-screen (memory) device context is held open.
    spec fn mem_dc_open(&self) -> bool;

    /// An off-screen bitmap is held open.
    spec fn bitmap_open(&self) -> bool;

    /// The off-screen bitmap is bound as the memory context's render target.
    spec fn bitmap_selected(&self) -> bool;

    /// A blit has filled the off-screen bitmap.
    spec fn has_capture(&self) -> bool;

    /// The screen rectangle the off-screen bitmap holds.
    spec fn capture(&self) -> Capture;

    /// Acquire a device context on the desktop surface.
    fn acquire_dc(&mut self)
        requires
            !old(self).dc_open(),
        ensures
            final(self).dc_open(),
            final(self).screen() == old(self).screen(),
            final(self).mem_dc_open() == old(self).mem_dc_open(),
            final(self).bitmap_open() == old(self).bitmap_open(),
            final(self).bitmap_selected() == old(self).bitmap_selected(),
            final(self).has_capture() == old(self).has_capture(),
            final(self).capture() == old(self).capture(),
    ;

    /// Release the desktop device context.
    fn release_dc(&mut self)
        requires
            old(self).dc_open(),
        ensures
            !final(self).dc_open(),
            final(self).screen() == old(self).screen(),
            final(self).mem_dc_open() == old(self).mem_dc_open(),
            final(self).bitmap_open() == old(self).bitmap_open(),
            final(self).bitmap_selected() == old(self).bitmap_selected(),
            final(self).has_capture() == old(self).has_capture(),
            final(self).capture() == old(self).capture(),
    ;

    /// Create an off-screen device context compatible with the desktop one.
    fn create_mem_dc(&mut self)
        requires
            old(self).dc_open(),
            !old(self).mem_dc_open(),
        ensures
            final(self).mem_dc_open(),
            final(self).screen() == old(self).screen(),
            final(self).dc_open() == old(self).dc_open(),
            final(self).bitmap_open() == old(self).bitmap_open(),
            final(self).bitmap_selected() == old(self).bitmap_selected(),
            final(self).has_capture() == old(self).has_capture(),
            final(self).capture() == old(self).capture(),
    ;

    /// Delete the off-screen device context.
    fn delete_mem_dc(&mut self)
        requires
            old(self).mem_dc_open(),
        ensures
            !final(self).mem_dc_open(),
            final(self).screen() == old(self).screen(),
            final(self).dc_open() == old(self).dc_open(),
            final(self).bitmap_open() == old(self).bitmap_open(),
            final(self).bitmap_selected() == old(self).bitmap_selected(),
            final(self).has_capture() == old(self).has_capture(),
            final(self).capture() == old(self).capture(),
    ;

    /// Create an off-screen bitmap of the given pixel size.
    fn create_bitmap(&mut self, w: i32, h: i32)
        requires
            old(self).dc_open(),
            !old(self).bitmap_open(),
            0 < w,
            0 < h,
        ensures
            final(self).bitmap_open(),
            final(self).screen() == old(self).screen(),
            final(self).dc_open() == old(self).dc_open(),
            final(self).mem_dc_open() == old(self).mem_dc_open(),
            final(self).bitmap_selected() == old(self).bitmap_selected(),
            final(self).has_capture() == old(self).has_capture(),
            final(self).capture() == old(self).capture(),
    ;

    /// Delete the off-screen bitmap.
    fn delete_bitmap(&mut self)
        requires
            old(self).bitmap_open(),
        ensures
            !final(self).bitmap_open(),
            !final(self).bitmap_selected(),
            final(self).screen() == old(self).screen(),
            final(self).dc_open() == old(self).dc_open(),
            final(self).mem_dc_open() == old(self).mem_dc_open(),
            final(self).has_capture() == old(self).has_capture(),
            final(self).capture() == old(self).capture(),
    ;

    /// Bind the off-screen bitmap as the memory context's render target.
    fn select_bitmap(&mut self)
        requires
            old(self).mem_dc_open(),
            old(self).bitmap_open(),
        ensures
            final(self).bitmap_selected(),
            final(self).screen() == old(self).screen(),
            final(self).dc_open() == old(self).dc_open(),
            final(self).mem_dc_open() == old(self).mem_dc_open(),
            final(self).bitmap_open() == old(self).bitmap_open(),
            final(self).has_capture() == old(self).has_capture(),
            final(self).capture() == old(self).capture(),
    ;

    /// Copy the screen block at `(x, y)` of size `w` by `h` into the
    /// off-screen bitmap, without scaling. A copy that reaches off the
    /// visible desktop always fails; one on the desktop may still be refused
    /// by the device (resource exhaustion), so success is never promised.
    fn bitblt(&mut self, x: i32, y: i32, w: i32, h: i32) -> (r: Result<(), String>)
        requires
            old(self).dc_open(),
            old(self).mem_dc_open(),
            old(self).bitmap_open(),
            old(self).bitmap_selected(),
            0 < w,
            0 < h,
        ensures
            final(self).screen() == old(self).screen(),
            final(self).dc_open() == old(self).dc_open(),
            final(self).mem_dc_open() == old(self).mem_dc_open(),
            final(self).bitmap_open() == old(self).bitmap_open(),
            final(self).bitmap_selected() == old(self).bitmap_selected(),
            r is Ok ==> capture_in(
                old(self).screen(),
                Capture { x: x as int, y: y as int, w: w as int, h: h as int },
            ),
            r is Ok ==> final(self).has_capture() && final(self).capture() == (Capture {
                x: x as int,
                y: y as int,
                w: w as int,
                h: h as int,
            }),
            r is Err ==> final(self).has_capture() == old(self).has_capture()
                && final(self).capture() == old(self).capture(),
    ;

    /// Extract the off-screen bitmap's raw bytes: 24-bit blue-green-red
    /// packing, rows first-row-first, each row padded to a four-byte
    /// boundary, the pad bytes unspecified. An `Err` carries the device's
    /// diagnostic for an extraction failure; it never silently yields a
    /// partial buffer.
    fn read_bits(&mut self) -> (r: Result<Vec<u8>, String>)
        requires
            old(self).mem_dc_open(),
            old(self).bitmap_open(),
            old(self).bitmap_selected(),
            old(self).has_capture(),
            capture_in(old(self).screen(), old(self).capture()),
        ensures
            final(self).screen() == old(self).screen(),
            final(self).dc_open() == old(self).dc_open(),
            final(self).mem_dc_open() == old(self).mem_dc_open(),
            final(self).bitmap_open() == old(self).bitmap_open(),
            final(self).bitmap_selected() == old(self).bitmap_selected(),
            final(self).has_capture() == old(self).has_capture(),
            final(self).capture() == old(self).capture(),
            r matches Ok(buf) ==> matches_capture(
                old(self).screen(),
                old(self).capture(),
                buf@,
            ),
    ;

    /// Read the raw value of one screen pixel. Off the desktop the result is
    /// the invalid-pixel sentinel; on it, the encoded color, except that the
    /// device may report the sentinel for a pixel it cannot read.
    fn get_pixel(&mut self, x: i32, y: i32) -> (raw: u32)
        requires
            old(self).dc_open(),
        ensures
            final(self).screen() == old(self).screen(),
            final(self).dc_open() == old(self).dc_open(),
            final(self).mem_dc_open() == old(self).mem_dc_open(),
            final(self).bitmap_open() == old(self).bitmap_open(),
            final(self).bitmap_selected() == old(self).bitmap_selected(),
            final(self).has_capture() == old(self).has_capture(),
            final(self).capture() == old(self).capture(),
            old(self).screen().contains(x as int, y as int) ==> (raw == raw_of(
                old(self).screen().at(x as int, y as int),
            ) || raw == CLR_INVALID),
            !old(self).screen().contains(x as int, y as int) ==> raw == CLR_INVALID,
    ;
}

} // verus!
