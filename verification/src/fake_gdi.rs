//! An in-memory stand-in for the platform graphics device: a stored pixel
//! grid behind the [`GdiApi`] capability, proved to meet every contract of
//! the trait. It lets the sampling engine run and be tested without a real
//! display, and its handle bookkeeping makes the engine's resource-release
//! guarantee observable to a harness.

use crate::color::{row_stride, spec_stride, Rect, Rgb, CLR_INVALID};
use crate::gdi::{
    bits_of, capture_in, lemma_bits_index, lemma_bits_pad, matches_capture, Capture, GdiApi,
    ScreenModel,
};
use vstd::prelude::*;
use vstd::string::StringExecFns;

verus! {

/// A fake graphics device over a stored screen image: `cells` holds the
/// pixel colors row-major, and the flags track which handles a caller holds.
pub struct FakeGdi {
    width: u32,
    height: u32,
    cells: Vec<Rgb>,
    dc: bool,
    mem_dc: bool,
    bitmap: bool,
    selected: bool,
    cap: Option<Rect>,
}

impl FakeGdi {
    /// The stored image really is `width` by `height` pixels.
    pub closed spec fn wf(&self) -> bool {
        self.cells@.len() == self.width * self.height
    }

    /// A fake device whose screen is `width` by `height` pixels with the
    /// given row-major colors, and with no handle open.
    pub fn new(width: u32, height: u32, cells: Vec<Rgb>) -> (g: FakeGdi)
        requires
            cells@.len() == width * height,
        ensures
            g.screen() == (ScreenModel {
                width: width as int,
                height: height as int,
                cells: cells@,
            }),
            !g.dc_open(),
            !g.mem_dc_open(),
            !g.bitmap_open(),
    {
        FakeGdi {
            width,
            height,
            cells,
            dc: false,
            mem_dc: false,
            bitmap: false,
            selected: false,
            cap: None,
        }
    }

    /// The stored image's dimensions multiply out to its cell count.
    fn wf_check(&self) -> (b: bool)
        ensures
            b == self.wf(),
    {
        proof {
            assert((self.width as int) * (self.height as int) <= 0xFFFF_FFFF * 0xFFFF_FFFF)
                by (nonlinear_arith)
                requires
                    self.width as int <= 0xFFFF_FFFF,
                    self.height as int <= 0xFFFF_FFFF,
            ;
        }
        (self.cells.len() as u64) == (self.width as u64) * (self.height as u64)
    }

    /// How many graphics handles are open right now: the harness hook for
    /// checking that a call released everything it acquired.
    pub fn open_handles(&self) -> (n: u32)
        ensures
            (n == 0) <==> (!self.dc_open() && !self.mem_dc_open() && !self.bitmap_open()),
    {
        let mut n: u32 = 0;
        if self.dc {
            n = n + 1;
        }
        if self.mem_dc {
            n = n + 1;
        }
        if self.bitmap {
            n = n + 1;
        }
        n
    }
}

impl GdiApi for FakeGdi {
    closed spec fn screen(&self) -> ScreenModel {
        if self.wf() {
            ScreenModel { width: self.width as int, height: self.height as int, cells: self.cells@ }
        } else {
            ScreenModel { width: 0, height: 0, cells: Seq::empty() }
        }
    }

    closed spec fn dc_open(&self) -> bool {
        self.dc
    }

    closed spec fn mem_dc_open(&self) -> bool {
        self.mem_dc
    }

    closed spec fn bitmap_open(&self) -> bool {
        self.bitmap
    }

    closed spec fn bitmap_selected(&self) -> bool {
        self.selected
    }

    closed spec fn has_capture(&self) -> bool {
        self.cap is Some
    }

    closed spec fn capture(&self) -> Capture {
        match self.cap {
            Some(c) => Capture { x: c.x as int, y: c.y as int, w: c.w as int, h: c.h as int },
            None => Capture { x: 0, y: 0, w: 0, h: 0 },
        }
    }

    fn acquire_dc(&mut self) {
        self.dc = true;
    }

    fn release_dc(&mut self) {
        self.dc = false;
    }

    fn create_mem_dc(&mut self) {
        self.mem_dc = true;
    }

    fn delete_mem_dc(&mut self) {
        self.mem_dc = false;
    }

    fn create_bitmap(&mut self, w: i32, h: i32) {
        self.bitmap = true;
    }

    fn delete_bitmap(&mut self) {
        self.bitmap = false;
        self.selected = false;
    }

    fn select_bitmap(&mut self) {
        self.selected = true;
    }

    fn bitblt(&mut self, x: i32, y: i32, w: i32, h: i32) -> (r: Result<(), String>) {
        let wf_now = self.wf_check();
        let ok = wf_now && x >= 0 && y >= 0 && (x as i64) + (w as i64) <= (self.width as i64) && (y
            as i64) + (h as i64) <= (self.height as i64);
        if ok {
            self.cap = Some(Rect { x, y, w, h });
            Ok(())
        } else {
            Err(String::from_str("the block reaches off the stored screen"))
        }
    }

    fn read_bits(&mut self) -> (r: Result<Vec<u8>, String>) {
        let ghost sm = self.screen();
        let ghost cp = self.capture();
        proof {
            if !self.wf() {
                assert(!capture_in(sm, cp));
            }
        }
        let c = match self.cap {
            Some(c) => c,
            None => {
                proof {
                    assert(false);
                }
                Rect { x: 0, y: 0, w: 0, h: 0 }
            },
        };
        let w = c.w as usize;
        let h = c.h as usize;
        if w > (usize::MAX - 3) / 3 {
            return Err(String::from_str("the captured block is too wide to extract"));
        }
        let stride = row_stride(w);
        proof {
            crate::color::lemma_stride_bounds(w as int);
        }
        if h > usize::MAX / stride {
            return Err(String::from_str("the captured block is too large to extract"));
        }
        let ghost total = stride * h;
        proof {
            assert((h as int) * (stride as int) <= usize::MAX) by (nonlinear_arith)
                requires
                    0 < stride,
                    h <= (usize::MAX as int) / (stride as int),
            ;
        }
        let mut buf: Vec<u8> = Vec::new();
        let mut row: usize = 0;
        while row < h
            invariant
                self.wf(),
                sm == self.screen(),
                cp == self.capture(),
                capture_in(sm, cp),
                c.x as int == cp.x,
                c.y as int == cp.y,
                c.w as int == cp.w,
                c.h as int == cp.h,
                w == cp.w,
                h == cp.h,
                stride == spec_stride(cp.w),
                3 * w <= stride,
                total == stride * h,
                total <= usize::MAX,
                row <= h,
                buf@.len() == row * stride,
                forall|j: int| 0 <= j < buf@.len() ==> #[trigger] buf@[j] == bits_of(sm, cp)[j],
            decreases h - row,
        {
            proof {
                assert((row as int) * stride + stride <= (h as int) * stride) by (nonlinear_arith)
                    requires
                        0 <= row as int,
                        row < h,
                        0 <= stride,
                ;
                assert((h as int) * stride == total);
            }
            let mut col: usize = 0;
            while col < w
                invariant
                    self.wf(),
                    sm == self.screen(),
                    cp == self.capture(),
                    capture_in(sm, cp),
                    c.x as int == cp.x,
                    c.y as int == cp.y,
                    c.w as int == cp.w,
                    c.h as int == cp.h,
                    w == cp.w,
                    h == cp.h,
                    stride == spec_stride(cp.w),
                    3 * w <= stride,
                    total == stride * h,
                    total <= usize::MAX,
                    row < h,
                    col <= w,
                    (row as int) * stride + stride <= total,
                    buf@.len() == row * stride + col * 3,
                    forall|j: int| 0 <= j < buf@.len() ==> #[trigger] buf@[j] == bits_of(sm, cp)[j],
                decreases w - col,
            {
                let sx = (c.x as usize) + col;
                let sy = (c.y as usize) + row;
                let n_cells = self.cells.len();
                proof {
                    assert((sy as int) * (self.width as int) + sx < (self.width as int) * (
                    self.height as int)) by (nonlinear_arith)
                        requires
                            0 <= sx < self.width as int,
                            0 <= sy < self.height as int,
                    ;
                    assert((self.width as int) * (self.height as int) == n_cells);
                }
                let idx = sy * (self.width as usize) + sx;
                let p = self.cells[idx];
                let ghost j0 = buf@.len() as int;
                buf.push(p.b);
                buf.push(p.g);
                buf.push(p.r);
                proof {
                    lemma_bits_index(sm, cp, row as int, col as int, 0);
                    lemma_bits_index(sm, cp, row as int, col as int, 1);
                    lemma_bits_index(sm, cp, row as int, col as int, 2);
                    assert(sm.at(cp.x + col, cp.y + row) == p);
                }
                col = col + 1;
            }
            let mut pad: usize = 3 * w;
            while pad < stride
                invariant
                    self.wf(),
                    sm == self.screen(),
                    cp == self.capture(),
                    capture_in(sm, cp),
                    w == cp.w,
                    h == cp.h,
                    stride == spec_stride(cp.w),
                    3 * w <= stride,
                    total == stride * h,
                    total <= usize::MAX,
                    row < h,
                    3 * w <= pad <= stride,
                    (row as int) * stride + stride <= total,
                    buf@.len() == row * stride + pad,
                    forall|j: int| 0 <= j < buf@.len() ==> #[trigger] buf@[j] == bits_of(sm, cp)[j],
                decreases stride - pad,
            {
                buf.push(0u8);
                proof {
                    lemma_bits_pad(sm, cp, row as int, pad as int);
                }
                pad = pad + 1;
            }
            proof {
                assert(((row as int) + 1) * stride == (row as int) * stride + stride)
                    by (nonlinear_arith);
            }
            row = row + 1;
        }
        proof {
            assert(buf@.len() == (h as int) * stride);
            assert((h as int) * stride == spec_stride(cp.w) * cp.h) by (nonlinear_arith)
                requires
                    h as int == cp.h,
                    stride as int == spec_stride(cp.w),
            ;
            assert(buf@ =~= bits_of(sm, cp));
            assert(matches_capture(sm, cp, buf@));
        }
        Ok(buf)
    }

    fn get_pixel(&mut self, x: i32, y: i32) -> (raw: u32) {
        let wf_now = self.wf_check();
        if wf_now && x >= 0 && y >= 0 && (x as u32) < self.width && (y as u32) < self.height {
            let n_cells = self.cells.len();
            proof {
                assert((y as int) * (self.width as int) + x < (self.width as int) * (self.height
                    as int)) by (nonlinear_arith)
                    requires
                        0 <= x < self.width as int,
                        0 <= y < self.height as int,
                ;
                assert((self.width as int) * (self.height as int) == n_cells);
            }
            let idx = (y as usize) * (self.width as usize) + (x as usize);
            let p = self.cells[idx];
            (p.r as u32) | ((p.g as u32) << 8) | ((p.b as u32) << 16)
        } else {
            CLR_INVALID
        }
    }
}

} // verus!
