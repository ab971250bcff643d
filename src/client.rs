//! The client side of a window: an off-screen canvas of 32-bit pixels that
//! an application draws into before sending it to the server's content view.
use vstd::prelude::*;
use vstd::bytes::{spec_u32_to_le_bytes, u32_to_le_bytes};
use crate::address::{has_part, part_bounds, seg};
use crate::number::{parse_signed, parse_unsigned, signed_field, unsigned_field};
use crate::error::OrbError;
use crate::window::{decode_event, event_record, InputEvent, EVENT_SIZE};

verus! {

/// Pixel `(px, py)` of a canvas `w` pixels wide.
pub open spec fn pix(d: Seq<u32>, w: int, px: int, py: int) -> u32 {
    d[py * w + px]
}

pub open spec fn in_rect(px: int, py: int, sx: int, sy: int, w: int, h: int) -> bool {
    sx <= px < sx + w && sy <= py < sy + h
}

/// Distinct pixels have distinct places in the canvas.
proof fn lemma_index_unique(w: int, px: int, py: int, qx: int, qy: int)
    requires
        0 <= px < w,
        0 <= qx < w,
        0 <= py,
        0 <= qy,
        py * w + px == qy * w + qx,
    ensures
        px == qx && py == qy,
{
    if py < qy {
        assert(py * w + px < qy * w + qx) by (nonlinear_arith)
            requires
                py < qy,
                0 <= px < w,
                0 <= qx,
        ;
    } else if py > qy {
        assert(py * w + px > qy * w + qx) by (nonlinear_arith)
            requires
                py > qy,
                0 <= qx < w,
                0 <= px,
        ;
    }
}

pub proof fn lemma_index_bounds(w: int, h: int, px: int, py: int)
    requires
        0 <= px < w,
        0 <= py < h,
    ensures
        0 <= py * w + px < w * h,
{
    assert(0 <= py * w + px < w * h) by (nonlinear_arith)
        requires
            0 <= px < w,
            0 <= py < h,
    ;
}

/// Where the image pixel drawn at `(px, py)` stands in the image.
pub open spec fn image_index(px: int, py: int, sx: int, sy: int, w: int) -> int {
    (py - sy) * w + (px - sx)
}

/// What `image` leaves at `(px, py)` of a canvas `cw` wide that held `d`.
pub open spec fn image_pixel(
    d: Seq<u32>,
    cw: int,
    img: Seq<u32>,
    sx: int,
    sy: int,
    w: int,
    h: int,
    px: int,
    py: int,
) -> u32 {
    if in_rect(px, py, sx, sy, w, h) && image_index(px, py, sx, sy, w) < img.len() {
        img[image_index(px, py, sx, sy, w)]
    } else {
        pix(d, cw, px, py)
    }
}

/// Bit `col` of row `row` of the glyph of `c`, counted from the high bit;
/// clear past the end of the font.
pub open spec fn glyph_bit(font: Seq<u8>, c: int, row: int, col: int) -> bool {
    let o = c * 16 + row;
    0 <= o < font.len() && (font[o] >> ((7 - col) as u8)) & 1 == 1
}

/// The canvas at `(px, py)` once the glyph rows before `row`, and the
/// columns before `col` of row `row`, are drawn.
pub open spec fn glyph_pixel(
    d: Seq<u32>,
    cw: int,
    font: Seq<u8>,
    c: int,
    x: int,
    y: int,
    color: u32,
    px: int,
    py: int,
    row: int,
    col: int,
) -> u32 {
    let gx = px - x;
    let gy = py - y;
    if 0 <= gx < 8 && 0 <= gy < 16 && (gy < row || (gy == row && gx < col)) && glyph_bit(
        font,
        c,
        gy,
        gx,
    ) {
        color
    } else {
        pix(d, cw, px, py)
    }
}

/// Pixels as bytes, 4 little-endian bytes each, in order.
pub open spec fn frame_of(d: Seq<u32>) -> Seq<u8>
    decreases d.len(),
{
    if d.len() == 0 {
        Seq::empty()
    } else {
        frame_of(d.drop_last()) + spec_u32_to_le_bytes(d.last())
    }
}

/// `min(max(v, 0), hi)`.
fn clamp(v: i128, hi: usize) -> (r: usize)
    ensures
        r == if v < 0 {
            0
        } else if v > hi {
            hi as int
        } else {
            v as int
        },
{
    if v < 0 {
        0
    } else if v > hi as i128 {
        hi
    } else {
        v as usize
    }
}

/// What a client does after one read of its events view.
#[derive(Clone, Copy, Debug, PartialEq, Eq, Structural)]
pub enum PollStep {
    /// Nothing was pending: yield the processor and read again.
    Retry,
    /// One event arrived.
    Event(InputEvent),
    /// The view failed: stop polling.
    Stop,
}

/// Decides on one read of the events view into `record`: an empty read
/// waits, a record is decoded, a failure ends the poll.
pub fn poll_step(read: Result<usize, OrbError>, record: &[u8]) -> (r: PollStep)
    requires
        record@.len() == EVENT_SIZE,
    ensures
        read == Ok::<usize, OrbError>(0) ==> r == PollStep::Retry,
        (read matches Ok(n) && n > 0) ==> (r matches PollStep::Event(e) && event_record(e) == record@),
        read is Err ==> r == PollStep::Stop,
{
    match read {
        Ok(0) => PollStep::Retry,
        Ok(_) => PollStep::Event(decode_event(record)),
        Err(_) => PollStep::Stop,
    }
}

/// A canvas of `w` by `h` pixels with its position and title.
pub struct Window {
    pub x: i64,
    pub y: i64,
    pub w: usize,
    pub h: usize,
    pub t: Vec<u8>,
    /// Glyphs of 16 rows of 8 bits, one after another by code point.
    pub font: Vec<u8>,
    /// Pixels row by row.
    pub data: Vec<u32>,
}

impl Window {
    pub open spec fn wf(&self) -> bool {
        self.data@.len() == self.w * self.h
    }

    /// Every pixel of `n` is `f` of its place, and the size is kept.
    pub open spec fn painted(&self, n: Window, f: spec_fn(int, int) -> u32) -> bool {
        &&& n.w == self.w && n.h == self.h && n.x == self.x && n.y == self.y
        &&& n.t@ == self.t@
        &&& n.font@ == self.font@
        &&& n.data@.len() == self.data@.len()
        &&& forall|px: int, py: int|
            0 <= px < self.w && 0 <= py < self.h ==> #[trigger] pix(n.data@, self.w as int, px, py)
                == f(px, py)
    }

    /// A blank canvas; `None` when its pixel count does not fit in memory.
    pub fn new(x: i64, y: i64, w: usize, h: usize, title: Vec<u8>, font: Vec<u8>) -> (r: Option<
        Window,
    >)
        ensures
            (w * h <= usize::MAX) <==> r is Some,
            r matches Some(win) ==> win.wf() && win.x == x && win.y == y && win.w == w && win.h == h
                && win.t@ == title@ && win.font@ == font@ && win.data@ == Seq::new((w * h) as nat, |i: int| 0u32),
    {
        if h != 0 && w > usize::MAX / h {
            assert(w * h > usize::MAX) by (nonlinear_arith)
                requires
                    w > usize::MAX / h,
                    h > 0,
            ;
            return None;
        }
        assert(w * h <= usize::MAX) by (nonlinear_arith)
            requires
                h == 0 || w <= usize::MAX / h,
        ;
        let data = vec![0u32; w * h];
        assert(data@ =~= Seq::new((w * h) as nat, |i: int| 0u32));
        Some(Window { x, y, w, h, t: title, font, data })
    }

    pub fn x(&self) -> (r: i64)
        ensures
            r == self.x,
    {
        self.x
    }

    pub fn y(&self) -> (r: i64)
        ensures
            r == self.y,
    {
        self.y
    }

    pub fn width(&self) -> (r: usize)
        ensures
            r == self.w,
    {
        self.w
    }

    pub fn height(&self) -> (r: usize)
        ensures
            r == self.h,
    {
        self.h
    }

    pub fn title(&self) -> (r: Vec<u8>)
        ensures
            r@ == self.t@,
    {
        self.t.clone()
    }

    /// Sets the pixel `(ux, uy)`, which lies on the canvas.
    fn put(&mut self, ux: usize, uy: usize, color: u32)
        requires
            old(self).wf(),
            ux < old(self).w,
            uy < old(self).h,
        ensures
            final(self).wf(),
            final(self).w == old(self).w && final(self).h == old(self).h,
            final(self).x == old(self).x && final(self).y == old(self).y,
            final(self).t@ == old(self).t@,
            final(self).font@ == old(self).font@,
            forall|px: int, py: int|
                0 <= px < old(self).w && 0 <= py < old(self).h ==> #[trigger] pix(
                    final(self).data@,
                    old(self).w as int,
                    px,
                    py,
                ) == if px == ux && py == uy {
                    color
                } else {
                    pix(old(self).data@, old(self).w as int, px, py)
                },
    {
        let n = self.data.len();
        proof {
            lemma_index_bounds(self.w as int, self.h as int, ux as int, uy as int);
        }
        let idx = uy * self.w + ux;
        self.data.set(idx, color);
        assert forall|px: int, py: int|
            0 <= px < self.w && 0 <= py < self.h implies #[trigger] pix(self.data@, self.w as int, px, py)
            == if px == ux && py == uy {
                color
            } else {
                pix(old(self).data@, old(self).w as int, px, py)
            } by {
            lemma_index_bounds(self.w as int, self.h as int, px, py);
            if py * self.w + px == idx {
                lemma_index_unique(self.w as int, px, py, ux as int, uy as int);
            }
        }
    }

    /// Sets the pixel `(x, y)` when it lies on the canvas.
    pub fn pixel(&mut self, x: i64, y: i64, color: u32)
        requires
            old(self).wf(),
        ensures
            final(self).wf(),
            old(self).painted(
                *final(self),
                |px: int, py: int|
                    if px == x && py == y {
                        color
                    } else {
                        pix(old(self).data@, old(self).w as int, px, py)
                    },
            ),
    {
        if x >= 0 && y >= 0 && (x as u64 as u128) < self.w as u128 && (y as u64 as u128) < self.h as u128 {
            self.put(x as usize, y as usize, color);
        }
    }

    /// Fills the part of the rectangle at `(start_x, start_y)`, `w` by `h`,
    /// that lies on the canvas.
    pub fn rect(&mut self, start_x: i64, start_y: i64, w: usize, h: usize, color: u32)
        requires
            old(self).wf(),
        ensures
            final(self).wf(),
            old(self).painted(
                *final(self),
                |px: int, py: int|
                    if in_rect(px, py, start_x as int, start_y as int, w as int, h as int) {
                        color
                    } else {
                        pix(old(self).data@, old(self).w as int, px, py)
                    },
            ),
    {
        let ww = self.w;
        let x0 = clamp(start_x as i128, ww);
        let x1 = clamp(start_x as i128 + w as i128, ww);
        let y0 = clamp(start_y as i128, self.h);
        let y1 = clamp(start_y as i128 + h as i128, self.h);
        let mut yy = y0;
        while yy < y1
            invariant
                self.wf(),
                self.w == ww && self.w == old(self).w && self.h == old(self).h,
                self.x == old(self).x && self.y == old(self).y && self.t@ == old(self).t@,
                self.font@ == old(self).font@,
                y0 <= yy <= y1 || y1 <= y0 == yy,
                y1 <= self.h,
                x1 <= self.w,
                x0 == (if start_x < 0 { 0 } else if start_x > ww { ww as int } else { start_x as int }),
                x1 == (if start_x + w < 0 { 0 } else if start_x + w > ww { ww as int } else { start_x + w }),
                y0 == (if start_y < 0 { 0 } else if start_y > self.h { self.h as int } else { start_y as int }),
                y1 == (if start_y + h < 0 { 0 } else if start_y + h > self.h { self.h as int } else { start_y + h }),
                forall|px: int, py: int|
                    0 <= px < ww && 0 <= py < self.h ==> #[trigger] pix(self.data@, ww as int, px, py)
                        == if in_rect(px, py, start_x as int, start_y as int, w as int, h as int) && py < yy {
                        color
                    } else {
                        pix(old(self).data@, ww as int, px, py)
                    },
            decreases y1 - yy,
        {
            let mut xx = x0;
            while xx < x1
                invariant
                    self.wf(),
                    self.w == ww && self.w == old(self).w && self.h == old(self).h,
                    self.x == old(self).x && self.y == old(self).y && self.t@ == old(self).t@,
                self.font@ == old(self).font@,
                    y0 <= yy < y1,
                    x0 <= xx <= x1 || x1 <= x0 == xx,
                    y1 <= self.h,
                    x1 <= self.w,
                    x0 == (if start_x < 0 { 0 } else if start_x > ww { ww as int } else { start_x as int }),
                    x1 == (if start_x + w < 0 { 0 } else if start_x + w > ww { ww as int } else { start_x + w }),
                    y0 == (if start_y < 0 { 0 } else if start_y > self.h { self.h as int } else { start_y as int }),
                    y1 == (if start_y + h < 0 { 0 } else if start_y + h > self.h { self.h as int } else { start_y + h }),
                    forall|px: int, py: int|
                        0 <= px < ww && 0 <= py < self.h ==> #[trigger] pix(self.data@, ww as int, px, py)
                            == if in_rect(px, py, start_x as int, start_y as int, w as int, h as int) && (py < yy
                            || (py == yy && px < xx)) {
                            color
                        } else {
                            pix(old(self).data@, ww as int, px, py)
                        },
                decreases x1 - xx,
            {
                self.put(xx, yy, color);
                xx = xx + 1;
            }
            yy = yy + 1;
        }
    }

    /// Fills the whole canvas.
    pub fn set(&mut self, color: u32)
        requires
            old(self).wf(),
        ensures
            final(self).wf(),
            old(self).painted(*final(self), |px: int, py: int| color),
    {
        let w = self.w;
        let h = self.h;
        self.rect(0, 0, w, h, color);
    }

    /// Draws the `w` by `h` image `data`, row by row, with its corner at
    /// `(start_x, start_y)`; pixels off the canvas or past the end of `data`
    /// are skipped.
    pub fn image(&mut self, start_x: i64, start_y: i64, w: usize, h: usize, data: &[u32])
        requires
            old(self).wf(),
        ensures
            final(self).wf(),
            old(self).painted(
                *final(self),
                |px: int, py: int|
                    image_pixel(
                        old(self).data@,
                        old(self).w as int,
                        data@,
                        start_x as int,
                        start_y as int,
                        w as int,
                        h as int,
                        px,
                        py,
                    ),
            ),
    {
        let ww = self.w;
        let x0 = clamp(start_x as i128, ww);
        let x1 = clamp(start_x as i128 + w as i128, ww);
        let y0 = clamp(start_y as i128, self.h);
        let y1 = clamp(start_y as i128 + h as i128, self.h);
        let mut yy = y0;
        while yy < y1
            invariant
                self.wf(),
                self.w == ww && self.w == old(self).w && self.h == old(self).h,
                self.x == old(self).x && self.y == old(self).y && self.t@ == old(self).t@,
                self.font@ == old(self).font@,
                y0 <= yy <= y1 || y1 <= y0 == yy,
                y1 <= self.h,
                x1 <= self.w,
                x0 == (if start_x < 0 { 0 } else if start_x > ww { ww as int } else { start_x as int }),
                x1 == (if start_x + w < 0 { 0 } else if start_x + w > ww { ww as int } else { start_x + w }),
                y0 == (if start_y < 0 { 0 } else if start_y > self.h { self.h as int } else { start_y as int }),
                y1 == (if start_y + h < 0 { 0 } else if start_y + h > self.h { self.h as int } else { start_y + h }),
                forall|px: int, py: int|
                    0 <= px < ww && 0 <= py < self.h ==> #[trigger] pix(self.data@, ww as int, px, py)
                        == if py < yy {
                        image_pixel(old(self).data@, ww as int, data@, start_x as int, start_y as int, w as int, h as int, px, py)
                    } else {
                        pix(old(self).data@, ww as int, px, py)
                    },
            decreases y1 - yy,
        {
            let mut xx = x0;
            while xx < x1
                invariant
                    self.wf(),
                    self.w == ww && self.w == old(self).w && self.h == old(self).h,
                    self.x == old(self).x && self.y == old(self).y && self.t@ == old(self).t@,
                self.font@ == old(self).font@,
                    y0 <= yy < y1,
                    x0 <= xx <= x1 || x1 <= x0 == xx,
                    y1 <= self.h,
                    x1 <= self.w,
                    x0 == (if start_x < 0 { 0 } else if start_x > ww { ww as int } else { start_x as int }),
                    x1 == (if start_x + w < 0 { 0 } else if start_x + w > ww { ww as int } else { start_x + w }),
                    y0 == (if start_y < 0 { 0 } else if start_y > self.h { self.h as int } else { start_y as int }),
                    y1 == (if start_y + h < 0 { 0 } else if start_y + h > self.h { self.h as int } else { start_y + h }),
                    forall|px: int, py: int|
                        0 <= px < ww && 0 <= py < self.h ==> #[trigger] pix(self.data@, ww as int, px, py)
                            == if py < yy || (py == yy && px < xx) {
                            image_pixel(old(self).data@, ww as int, data@, start_x as int, start_y as int, w as int, h as int, px, py)
                        } else {
                            pix(old(self).data@, ww as int, px, py)
                        },
                decreases x1 - xx,
            {
                let dy = (yy as i128 - start_y as i128) as u128;
                let dx = (xx as i128 - start_x as i128) as u128;
                proof {
                    assert(dy * w + dx < (dy + 1) * w) by (nonlinear_arith)
                        requires
                            dx < w,
                    ;
                    assert((dy + 1) * w <= h * w) by (nonlinear_arith)
                        requires
                            dy + 1 <= h,
                    ;
                    assert(h * w <= 0xffff_ffff_ffff_ffff * 0xffff_ffff_ffff_ffffu128) by (nonlinear_arith)
                        requires
                            h <= 0xffff_ffff_ffff_ffffu64,
                            w <= 0xffff_ffff_ffff_ffffu64,
                    ;
                }
                let i = dy * (w as u128) + dx;
                if i < data.len() as u128 {
                    self.put(xx, yy, data[i as usize]);
                } else {
                    assert forall|px: int, py: int|
                        0 <= px < ww && 0 <= py < self.h implies #[trigger] pix(self.data@, ww as int, px, py)
                        == if py < yy || (py == yy && px < xx + 1) {
                            image_pixel(old(self).data@, ww as int, data@, start_x as int, start_y as int, w as int, h as int, px, py)
                        } else {
                            pix(old(self).data@, ww as int, px, py)
                        } by {
                        if py == yy && px == xx {
                            assert(image_index(px, py, start_x as int, start_y as int, w as int) == i);
                        }
                    }
                }
                xx = xx + 1;
            }
            yy = yy + 1;
        }
    }

    /// Draws the glyph of `c` from the font with its corner at `(x, y)`:
    /// each set bit of its 16 rows of 8 bits, high bit leftmost, sets a
    /// pixel. A glyph past the end of the font draws nothing.
    pub fn char(&mut self, x: i64, y: i64, c: char, color: u32)
        requires
            old(self).wf(),
        ensures
            final(self).wf(),
            old(self).painted(
                *final(self),
                |px: int, py: int|
                    if 0 <= px - x < 8 && 0 <= py - y < 16 && glyph_bit(
                        old(self).font@,
                        c as int,
                        py - y,
                        px - x,
                    ) {
                        color
                    } else {
                        pix(old(self).data@, old(self).w as int, px, py)
                    },
            ),
    {
        let ww = self.w;
        let base = (c as u32 as usize) * 16;
        let mut row: usize = 0;
        while row < 16
            invariant
                self.wf(),
                self.w == ww && self.w == old(self).w && self.h == old(self).h,
                self.x == old(self).x && self.y == old(self).y && self.t@ == old(self).t@,
                self.font@ == old(self).font@,
                base == c as int * 16,
                row <= 16,
                forall|px: int, py: int|
                    0 <= px < ww && 0 <= py < self.h ==> #[trigger] pix(self.data@, ww as int, px, py)
                        == glyph_pixel(old(self).data@, ww as int, old(self).font@, c as int, x as int, y as int, color, px, py, row as int, 0),
            decreases 16 - row,
        {
            let row_data: u8 = if base + row < self.font.len() {
                self.font[base + row]
            } else {
                0
            };
            let mut col: usize = 0;
            while col < 8
                invariant
                    self.wf(),
                    self.w == ww && self.w == old(self).w && self.h == old(self).h,
                    self.x == old(self).x && self.y == old(self).y && self.t@ == old(self).t@,
                    self.font@ == old(self).font@,
                    base == c as int * 16,
                    row < 16,
                    col <= 8,
                    row_data == (if base + row < self.font@.len() { self.font@[base + row] } else { 0u8 }),
                    forall|px: int, py: int|
                        0 <= px < ww && 0 <= py < self.h ==> #[trigger] pix(self.data@, ww as int, px, py)
                            == glyph_pixel(old(self).data@, ww as int, old(self).font@, c as int, x as int, y as int, color, px, py, row as int, col as int),
                decreases 8 - col,
            {
                let sh = (7 - col) as u8;
                let bit = (row_data >> sh) & 1;
                assert((bit > 0) == (bit == 1)) by (bit_vector)
                    requires
                        bit == (row_data >> sh) & 1,
                ;
                assert(row_data == 0 ==> bit == 0) by (bit_vector)
                    requires
                        bit == (row_data >> sh) & 1,
                ;
                let px = x as i128 + col as i128;
                let py = y as i128 + row as i128;
                if bit > 0 && px >= 0 && py >= 0 && px < ww as i128 && py < self.h as i128 {
                    self.put(px as usize, py as usize, color);
                }
                col = col + 1;
            }
            row = row + 1;
        }
    }

    pub fn set_title(&mut self, title: Vec<u8>)
        requires
            old(self).wf(),
        ensures
            final(self).wf(),
            final(self).t@ == title@,
            final(self).data@ == old(self).data@ && final(self).font@ == old(self).font@,
            final(self).w == old(self).w && final(self).h == old(self).h,
            final(self).x == old(self).x && final(self).y == old(self).y,
    {
        self.t = title;
    }

    /// Gives the canvas a new size; pixels keep their place in the row-major
    /// order, and new ones are 0. `false`, with nothing changed, when the
    /// pixel count does not fit in memory.
    pub fn resize(&mut self, w: usize, h: usize) -> (r: bool)
        requires
            old(self).wf(),
        ensures
            final(self).wf(),
            r == (w * h <= usize::MAX),
            !r ==> *final(self) == *old(self),
            r ==> {
                &&& final(self).w == w && final(self).h == h
                &&& final(self).data@.len() == w * h
                &&& forall|i: int|
                    0 <= i < w * h ==> #[trigger] final(self).data@[i] == if i < old(self).data@.len() {
                        old(self).data@[i]
                    } else {
                        0u32
                    }
                &&& final(self).x == old(self).x && final(self).y == old(self).y
                &&& final(self).t@ == old(self).t@ && final(self).font@ == old(self).font@
            },
    {
        if h != 0 && w > usize::MAX / h {
            assert(w * h > usize::MAX) by (nonlinear_arith)
                requires
                    w > usize::MAX / h,
                    h > 0,
            ;
            return false;
        }
        assert(w * h <= usize::MAX) by (nonlinear_arith)
            requires
                h == 0 || w <= usize::MAX / h,
        ;
        self.data.resize(w * h, 0);
        self.w = w;
        self.h = h;
        true
    }

    /// The pixels as bytes for the content view, 4 little-endian bytes each.
    pub fn frame_bytes(&self) -> (r: Vec<u8>)
        ensures
            r@ == frame_of(self.data@),
    {
        let mut out: Vec<u8> = Vec::new();
        let mut i: usize = 0;
        while i < self.data.len()
            invariant
                i <= self.data@.len(),
                out@ == frame_of(self.data@.take(i as int)),
            decreases self.data@.len() - i,
        {
            let mut b = u32_to_le_bytes(self.data[i]);
            out.append(&mut b);
            assert(self.data@.take(i as int + 1).drop_last() =~= self.data@.take(i as int));
            i = i + 1;
        }
        assert(self.data@.take(self.data@.len() as int) =~= self.data@);
        out
    }

    /// Takes position and size back from the window's address split on
    /// `/`: parts 3 to 6 give `x`, `y`, `w` and `h` (as in
    /// `orbital:///x/y/w/h/title`). A field whose part is missing keeps its
    /// value, a malformed number reads 0. The canvas is resized to the new
    /// size; a size that does not fit in memory is not taken.
    pub fn sync_path(&mut self, addr: &[u8])
        requires
            old(self).wf(),
        ensures
            final(self).wf(),
            final(self).x == if has_part(addr@, 3) { signed_field(seg(addr@, 3)) } else { old(self).x },
            final(self).y == if has_part(addr@, 4) { signed_field(seg(addr@, 4)) } else { old(self).y },
            ({
                let w = if has_part(addr@, 5) { unsigned_field(seg(addr@, 5)) as int } else { old(self).w as int };
                let h = if has_part(addr@, 6) { unsigned_field(seg(addr@, 6)) as int } else { old(self).h as int };
                let fits = w <= usize::MAX && h <= usize::MAX && w * h <= usize::MAX;
                &&& fits ==> final(self).w == w && final(self).h == h
                &&& !fits ==> final(self).w == old(self).w && final(self).h == old(self).h
            }),
            forall|i: int|
                0 <= i < final(self).data@.len() ==> #[trigger] final(self).data@[i] == if i
                    < old(self).data@.len() {
                    old(self).data@[i]
                } else {
                    0u32
                },
            final(self).t@ == old(self).t@ && final(self).font@ == old(self).font@,
    {
        let x = match part_bounds(addr, 3) {
            Some((a, b)) => parse_signed(addr, a, b),
            None => self.x,
        };
        let y = match part_bounds(addr, 4) {
            Some((a, b)) => parse_signed(addr, a, b),
            None => self.y,
        };
        let w: u64 = match part_bounds(addr, 5) {
            Some((a, b)) => parse_unsigned(addr, a, b),
            None => self.w as u64,
        };
        let h: u64 = match part_bounds(addr, 6) {
            Some((a, b)) => parse_unsigned(addr, a, b),
            None => self.h as u64,
        };
        if w <= usize::MAX as u64 && h <= usize::MAX as u64 {
            self.resize(w as usize, h as usize);
        }
        self.x = x;
        self.y = y;
    }

}

} // verus!
