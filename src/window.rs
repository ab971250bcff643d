//! The server-side state of one window.
use vstd::prelude::*;
use vstd::bytes::{
    lemma_auto_spec_u64_to_from_le_bytes, spec_u64_from_le_bytes, spec_u64_to_le_bytes,
    u64_from_le_bytes, u64_to_le_bytes,
};
use crate::address::copy_range;
use crate::error::OrbError;
use crate::text::{sanitize_title, title_text, valid_utf8};

verus! {

/// Most input events a window keeps unread; the oldest is dropped beyond it.
pub const EVENT_CAPACITY: usize = 256;

/// Bytes of one serialized input event.
pub const EVENT_SIZE: usize = 32;

/// One input event: a kind code and three payload words, carried as they
/// come from the input device.
#[derive(Clone, Copy, Debug, PartialEq, Eq, Structural)]
pub struct InputEvent {
    pub code: u64,
    pub a: u64,
    pub b: u64,
    pub c: u64,
}

/// The wire record of an event: its four words, each 8 bytes little-endian,
/// the native order of the platforms this server runs on.
pub open spec fn event_record(e: InputEvent) -> Seq<u8> {
    spec_u64_to_le_bytes(e.code) + spec_u64_to_le_bytes(e.a) + spec_u64_to_le_bytes(e.b)
        + spec_u64_to_le_bytes(e.c)
}

/// Serializes one event.
pub fn encode_event(e: &InputEvent) -> (r: Vec<u8>)
    ensures
        r@ == event_record(*e),
        r@.len() == EVENT_SIZE,
{
    let mut r = u64_to_le_bytes(e.code);
    let mut a = u64_to_le_bytes(e.a);
    let mut b = u64_to_le_bytes(e.b);
    let mut c = u64_to_le_bytes(e.c);
    r.append(&mut a);
    r.append(&mut b);
    r.append(&mut c);
    r
}

/// Reads one event back from its record; writing it again gives the same
/// bytes.
pub fn decode_event(b: &[u8]) -> (r: InputEvent)
    requires
        b@.len() == EVENT_SIZE,
    ensures
        event_record(r) == b@,
{
    let c0 = copy_range(b, 0, 8);
    let c1 = copy_range(b, 8, 16);
    let c2 = copy_range(b, 16, 24);
    let c3 = copy_range(b, 24, 32);
    let code = u64_from_le_bytes(c0.as_slice());
    let a = u64_from_le_bytes(c1.as_slice());
    let bb = u64_from_le_bytes(c2.as_slice());
    let c = u64_from_le_bytes(c3.as_slice());
    let r = InputEvent { code, a, b: bb, c };
    proof {
        lemma_auto_spec_u64_to_from_le_bytes();
        assert(event_record(r) =~= b@);
    }
    r
}

/// Bytes of the dimensions record: width then height, 8 bytes each, in
/// little-endian order, the native order of the platforms this server runs
/// on (the wire format is the machine's native order).
pub const DIMENSIONS_SIZE: usize = 16;

/// The records of a run of events, back to back.
pub open spec fn records(q: Seq<InputEvent>) -> Seq<u8>
    decreases q.len(),
{
    if q.len() == 0 {
        Seq::empty()
    } else {
        records(q.drop_last()) + event_record(q.last())
    }
}

/// The dimensions record of a size, little-endian (see `DIMENSIONS_SIZE`).
pub open spec fn dimensions_record(w: u64, h: u64) -> Seq<u8> {
    spec_u64_to_le_bytes(w) + spec_u64_to_le_bytes(h)
}

/// `buf` with `bytes` written over it at `at`.
pub open spec fn overwritten(buf: Seq<u8>, at: int, bytes: Seq<u8>) -> Seq<u8> {
    buf.subrange(0, at) + bytes + buf.subrange(at + bytes.len(), buf.len() as int)
}

/// Writes `bytes` over `buf` at `at`.
pub fn put_bytes(buf: &mut Vec<u8>, at: usize, bytes: &[u8])
    requires
        at + bytes@.len() <= old(buf)@.len(),
    ensures
        final(buf)@ == overwritten(old(buf)@, at as int, bytes@),
{
    let blen = buf.len();
    let mut j: usize = 0;
    while j < bytes.len()
        invariant
            buf@.len() == blen,
            at + bytes@.len() <= buf@.len(),
            buf@.len() == old(buf)@.len(),
            j <= bytes@.len(),
            forall|i: int|
                0 <= i < buf@.len() ==> #[trigger] buf@[i] == if at <= i < at + j {
                    bytes@[i - at]
                } else {
                    old(buf)@[i]
                },
        decreases bytes@.len() - j,
    {
        buf.set(at + j, bytes[j]);
        j = j + 1;
    }
    assert(buf@ =~= overwritten(old(buf)@, at as int, bytes@));
}

/// Bytes of a pixel buffer of `w` by `h` pixels, 4 bytes each.
pub open spec fn buffer_len(w: usize, h: usize) -> int {
    w * h * 4
}

/// Whether a buffer of `w` by `h` pixels can be addressed.
pub open spec fn size_fits(w: usize, h: usize) -> bool {
    buffer_len(w, h) <= usize::MAX
}

/// `w * h * 4`, or `None` when it does not fit in `usize`.
pub fn checked_buffer_len(w: usize, h: usize) -> (r: Option<usize>)
    ensures
        size_fits(w, h) <==> r is Some,
        r matches Some(n) ==> n == buffer_len(w, h),
{
    if h == 0 {
        assert(buffer_len(w, h) == 0) by (nonlinear_arith)
            requires
                h == 0,
        ;
        return Some(0);
    }
    if w > usize::MAX / 4 / h {
        assert(w * h * 4 > usize::MAX) by (nonlinear_arith)
            requires
                w > usize::MAX / 4 / h,
                h > 0,
        ;
        None
    } else {
        assert(w * h * 4 <= usize::MAX) by (nonlinear_arith)
            requires
                w <= usize::MAX / 4 / h,
                h > 0,
        ;
        Some(w * h * 4)
    }
}

/// The events left after `e` is queued behind `q`, the oldest dropped when full.
pub open spec fn queued(q: Seq<InputEvent>, e: InputEvent) -> Seq<InputEvent> {
    if q.len() >= EVENT_CAPACITY {
        q.skip(q.len() - EVENT_CAPACITY + 1).push(e)
    } else {
        q.push(e)
    }
}

/// `w1` is `w0` with only its pixels changed.
pub open spec fn same_but_pixels(w0: Window, w1: Window) -> bool {
    &&& w1.x == w0.x && w1.y == w0.y && w1.w == w0.w && w1.h == w0.h
    &&& w1.title@ == w0.title@
    &&& w1.events@ == w0.events@
}

/// Writing `bytes` at `offset` copied `r` bytes, clipped to the buffer's end.
pub open spec fn pixels_written(w0: Window, w1: Window, offset: usize, bytes: Seq<u8>, r: usize) -> bool {
    let len = w0.buffer@.len();
    &&& same_but_pixels(w0, w1)
    &&& r == if offset >= len {
        0
    } else {
        vstd::math::min(len - offset, bytes.len() as int)
    }
    &&& w1.buffer@.len() == len
    &&& forall|i: int|
        0 <= i < len ==> #[trigger] w1.buffer@[i] == if offset <= i < offset + r {
            bytes[i - offset]
        } else {
            w0.buffer@[i]
        }
}

/// Writing the title bytes `b` to `w0` gave `w1`: the sanitized text, which
/// is `b` itself when `b` is valid UTF-8; nothing else changes.
pub open spec fn title_written(w0: Window, w1: Window, b: Seq<u8>) -> bool {
    &&& w1.title@ == title_text(b)
    &&& valid_utf8(b) ==> w1.title@ == b
    &&& w1.buffer@ == w0.buffer@
    &&& w1.events@ == w0.events@
    &&& w1.x == w0.x && w1.y == w0.y && w1.w == w0.w && w1.h == w0.h
}

/// Reading the title into `buf0` gave `buf1` and `r`.
pub open spec fn title_read(w: Window, buf0: Seq<u8>, buf1: Seq<u8>, r: Result<usize, OrbError>) -> bool {
    if w.title@.len() <= buf0.len() {
        r == Ok::<usize, OrbError>(w.title@.len() as usize) && buf1 == overwritten(buf0, 0, w.title@)
    } else {
        r == Err::<usize, OrbError>(OrbError::Truncated) && buf1 == buf0
    }
}

/// Draining events from `w0` into `buf0` gave `w1`, `buf1` and `r`.
pub open spec fn events_drained(w0: Window, w1: Window, buf0: Seq<u8>, buf1: Seq<u8>, r: usize) -> bool {
    let k = vstd::math::min(buf0.len() as int / EVENT_SIZE as int, w0.events@.len() as int);
    &&& r == k * EVENT_SIZE
    &&& w1.events@ == w0.events@.skip(k)
    &&& buf1 == overwritten(buf0, 0, records(w0.events@.take(k)))
    &&& w1.buffer@ == w0.buffer@
    &&& w1.title@ == w0.title@
    &&& w1.x == w0.x && w1.y == w0.y && w1.w == w0.w && w1.h == w0.h
}

/// `w1` is `w0` resized to `w` by `h`, its buffer zeroed.
pub open spec fn resized(w0: Window, w1: Window, w: usize, h: usize) -> bool {
    &&& w1.w == w && w1.h == h
    &&& w1.buffer@ == Seq::new(buffer_len(w, h) as nat, |i: int| 0u8)
    &&& w1.x == w0.x && w1.y == w0.y
    &&& w1.title@ == w0.title@
    &&& w1.events@ == w0.events@
}

/// Reading the dimensions record from `w0` into `buf0` gave `w1`, `buf1`, `r`.
pub open spec fn dimensions_read(
    w0: Window,
    w1: Window,
    buf0: Seq<u8>,
    buf1: Seq<u8>,
    r: Result<usize, OrbError>,
) -> bool {
    if buf0.len() < DIMENSIONS_SIZE {
        r == Err::<usize, OrbError>(OrbError::NotFound) && buf1 == buf0 && w1 == w0
    } else {
        &&& r == Ok::<usize, OrbError>(DIMENSIONS_SIZE)
        &&& buf1 == overwritten(buf0, 0, dimensions_record(w0.w as u64, w0.h as u64))
        &&& resized(w0, w1, w0.w, w0.h)
    }
}

/// Writing the dimensions record `bytes` to `w0` gave `w1` and `r`.
pub open spec fn dimensions_written(w0: Window, w1: Window, bytes: Seq<u8>, r: Result<usize, OrbError>) -> bool {
    if bytes.len() < DIMENSIONS_SIZE {
        r == Err::<usize, OrbError>(OrbError::NotFound) && w1 == w0
    } else {
        let w = spec_u64_from_le_bytes(bytes.subrange(0, 8));
        let h = spec_u64_from_le_bytes(bytes.subrange(8, 16));
        if w <= usize::MAX && h <= usize::MAX && size_fits(w as usize, h as usize) {
            r == Ok::<usize, OrbError>(DIMENSIONS_SIZE) && resized(w0, w1, w as usize, h as usize)
        } else {
            r == Err::<usize, OrbError>(OrbError::Exhausted) && w1 == w0
        }
    }
}

/// One window: position, size, title, pixel buffer and unread input.
pub struct Window {
    pub x: i64,
    pub y: i64,
    pub w: usize,
    pub h: usize,
    /// UTF-8 bytes of the title.
    pub title: Vec<u8>,
    /// Pixels, 4 bytes each, row by row.
    pub buffer: Vec<u8>,
    /// Unread input, oldest first.
    pub events: Vec<InputEvent>,
}

impl Window {
    /// The buffer matches the size, and the queue is within its bound.
    pub open spec fn wf(&self) -> bool {
        &&& size_fits(self.w, self.h)
        &&& self.buffer@.len() == buffer_len(self.w, self.h)
        &&& self.events@.len() <= EVENT_CAPACITY
    }

    /// A window with a zeroed buffer and no input; `Exhausted` when the
    /// buffer size does not fit in memory.
    pub fn new(x: i64, y: i64, w: usize, h: usize, title: &[u8]) -> (r: Result<Window, OrbError>)
        ensures
            size_fits(w, h) <==> r is Ok,
            r is Err ==> r == Err::<Window, OrbError>(OrbError::Exhausted),
            r matches Ok(win) ==> {
                &&& win.wf()
                &&& win.x == x && win.y == y && win.w == w && win.h == h
                &&& win.title@ == title_text(title@)
                &&& valid_utf8(title@) ==> win.title@ == title@
                &&& win.buffer@ == Seq::new(buffer_len(w, h) as nat, |i: int| 0u8)
                &&& win.events@.len() == 0
            },
    {
        match checked_buffer_len(w, h) {
            Some(n) => {
                let buffer = vec![0u8; n];
                assert(buffer@ =~= Seq::new(buffer_len(w, h) as nat, |i: int| 0u8));
                Ok(Window { x, y, w, h, title: sanitize_title(title), buffer, events: Vec::new() })
            },
            None => Err(OrbError::Exhausted),
        }
    }

    /// Gives the window a new size and a zeroed buffer of that size; keeps
    /// everything unchanged and fails with `Exhausted` when it does not fit.
    pub fn resize(&mut self, w: usize, h: usize) -> (r: Result<(), OrbError>)
        requires
            old(self).wf(),
        ensures
            final(self).wf(),
            size_fits(w, h) <==> r is Ok,
            r is Err ==> r == Err::<(), OrbError>(OrbError::Exhausted) && *final(self) == *old(self),
            r is Ok ==> {
                &&& final(self).w == w && final(self).h == h
                &&& final(self).buffer@ == Seq::new(buffer_len(w, h) as nat, |i: int| 0u8)
                &&& final(self).x == old(self).x && final(self).y == old(self).y
                &&& final(self).title@ == old(self).title@
                &&& final(self).events@ == old(self).events@
            },
    {
        match checked_buffer_len(w, h) {
            Some(n) => {
                let buffer = vec![0u8; n];
                assert(buffer@ =~= Seq::new(buffer_len(w, h) as nat, |i: int| 0u8));
                self.buffer = buffer;
                self.w = w;
                self.h = h;
                Ok(())
            },
            None => Err(OrbError::Exhausted),
        }
    }

    /// Replaces the title with the sanitized text of `bytes`.
    pub fn set_title(&mut self, bytes: &[u8])
        requires
            old(self).wf(),
        ensures
            final(self).wf(),
            title_written(*old(self), *final(self), bytes@),
    {
        self.title = sanitize_title(bytes);
    }

    /// Copies `bytes` into the buffer at `offset`, clipped to the buffer's
    /// end; returns the number of bytes copied.
    pub fn write_pixels(&mut self, offset: usize, bytes: &[u8]) -> (r: usize)
        requires
            old(self).wf(),
        ensures
            final(self).wf(),
            pixels_written(*old(self), *final(self), offset, bytes@, r),
    {
        let len = self.buffer.len();
        if offset >= len {
            return 0;
        }
        let n = if len - offset < bytes.len() {
            len - offset
        } else {
            bytes.len()
        };
        let mut j: usize = 0;
        while j < n
            invariant
                j <= n,
                offset + n <= len,
                n <= bytes@.len(),
                len == old(self).buffer@.len(),
                self.wf(),
                self.buffer@.len() == len,
                self.w == old(self).w && self.h == old(self).h,
                self.x == old(self).x && self.y == old(self).y,
                self.title@ == old(self).title@,
                self.events@ == old(self).events@,
                forall|i: int|
                    0 <= i < len ==> #[trigger] self.buffer@[i] == if offset <= i < offset + j {
                        bytes@[i - offset]
                    } else {
                        old(self).buffer@[i]
                    },
            decreases n - j,
        {
            self.buffer.set(offset + j, bytes[j]);
            j = j + 1;
        }
        n
    }

    /// Queues an event; when the queue is full the oldest is dropped.
    pub fn push_event(&mut self, e: InputEvent)
        requires
            old(self).wf(),
        ensures
            final(self).wf(),
            final(self).events@ == queued(old(self).events@, e),
            final(self).buffer@ == old(self).buffer@,
            final(self).title@ == old(self).title@,
            final(self).x == old(self).x && final(self).y == old(self).y,
            final(self).w == old(self).w && final(self).h == old(self).h,
    {
        if self.events.len() >= EVENT_CAPACITY {
            self.events.remove(0);
            assert(self.events@ =~= old(self).events@.skip(1));
        }
        self.events.push(e);
    }

    /// Takes the oldest unread event, if any.
    pub fn pop_event(&mut self) -> (r: Option<InputEvent>)
        requires
            old(self).wf(),
        ensures
            final(self).wf(),
            old(self).events@.len() == 0 ==> r is None && final(self).events@ == old(self).events@,
            old(self).events@.len() > 0 ==> r == Some(old(self).events@[0])
                && final(self).events@ == old(self).events@.skip(1),
            final(self).buffer@ == old(self).buffer@,
            final(self).title@ == old(self).title@,
            final(self).x == old(self).x && final(self).y == old(self).y,
            final(self).w == old(self).w && final(self).h == old(self).h,
    {
        if self.events.len() == 0 {
            None
        } else {
            let e = self.events.remove(0);
            assert(self.events@ =~= old(self).events@.skip(1));
            Some(e)
        }
    }

    /// Copies the title to the front of `buf`; `Truncated`, with `buf`
    /// untouched, when it does not fit.
    pub fn read_title(&self, buf: &mut Vec<u8>) -> (r: Result<usize, OrbError>)
        ensures
            title_read(*self, old(buf)@, final(buf)@, r),
    {
        if self.title.len() <= buf.len() {
            put_bytes(buf, 0, self.title.as_slice());
            Ok(self.title.len())
        } else {
            Err(OrbError::Truncated)
        }
    }

    /// Moves as many unread events as whole records fit into `buf`, oldest
    /// first and back to back; returns the bytes written, 0 when none wait.
    pub fn drain_events(&mut self, buf: &mut Vec<u8>) -> (r: usize)
        requires
            old(self).wf(),
        ensures
            final(self).wf(),
            events_drained(*old(self), *final(self), old(buf)@, final(buf)@, r),
    {
        let blen = buf.len();
        let n = blen / EVENT_SIZE;
        let mut k: usize = 0;
        assert(old(self).events@.take(0) =~= Seq::<InputEvent>::empty());
        assert(buf@ =~= overwritten(old(buf)@, 0, records(old(self).events@.take(0))));
        while k < n && self.events.len() > 0
            invariant
                self.wf(),
                n == old(buf)@.len() as int / EVENT_SIZE as int,
                old(buf)@.len() == blen,
                k <= n,
                k <= old(self).events@.len(),
                self.events@ == old(self).events@.skip(k as int),
                buf@ == overwritten(old(buf)@, 0, records(old(self).events@.take(k as int))),
                records(old(self).events@.take(k as int)).len() == k * EVENT_SIZE,
                self.buffer@ == old(self).buffer@,
                self.title@ == old(self).title@,
                self.x == old(self).x && self.y == old(self).y,
                self.w == old(self).w && self.h == old(self).h,
            decreases n - k,
        {
            let ghost q = old(self).events@;
            let e = match self.pop_event() {
                Some(e) => e,
                None => {
                    return 0;
                },
            };
            assert(e == q[k as int]);
            assert(q.take(k as int + 1).drop_last() =~= q.take(k as int));
            assert(self.events@ =~= q.skip(k as int + 1));
            let rec = encode_event(&e);
            proof {
                assert(k * EVENT_SIZE + EVENT_SIZE <= n * EVENT_SIZE) by (nonlinear_arith)
                    requires
                        k < n,
                ;
                let total = old(buf)@.len() as int;
                assert(n * EVENT_SIZE <= total) by (nonlinear_arith)
                    requires
                        n == total / EVENT_SIZE as int,
                ;
            }
            put_bytes(buf, k * EVENT_SIZE, rec.as_slice());
            assert(buf@ =~= overwritten(old(buf)@, 0, records(q.take(k as int + 1))));
            k = k + 1;
        }
        assert(k == vstd::math::min(old(buf)@.len() as int / EVENT_SIZE as int, old(self).events@.len() as int));
        k * EVENT_SIZE
    }

    /// Writes the dimensions record into `buf` and commits a resize to the
    /// current size, which zeroes the buffer; `NotFound` when `buf` is
    /// shorter than the record.
    pub fn read_dimensions(&mut self, buf: &mut Vec<u8>) -> (r: Result<usize, OrbError>)
        requires
            old(self).wf(),
        ensures
            final(self).wf(),
            dimensions_read(*old(self), *final(self), old(buf)@, final(buf)@, r),
    {
        if buf.len() < DIMENSIONS_SIZE {
            return Err(OrbError::NotFound);
        }
        let w = self.w;
        let h = self.h;
        let mut rec = u64_to_le_bytes(w as u64);
        let mut hb = u64_to_le_bytes(h as u64);
        rec.append(&mut hb);
        put_bytes(buf, 0, rec.as_slice());
        let _ = self.resize(w, h);
        Ok(DIMENSIONS_SIZE)
    }

    /// Reads a dimensions record from the front of `bytes` and resizes to
    /// it; `NotFound` when `bytes` is shorter than the record, `Exhausted`
    /// when the size does not fit in memory.
    pub fn write_dimensions(&mut self, bytes: &[u8]) -> (r: Result<usize, OrbError>)
        requires
            old(self).wf(),
        ensures
            final(self).wf(),
            dimensions_written(*old(self), *final(self), bytes@, r),
    {
        if bytes.len() < DIMENSIONS_SIZE {
            return Err(OrbError::NotFound);
        }
        let wb = copy_range(bytes, 0, 8);
        let hb = copy_range(bytes, 8, 16);
        let w = u64_from_le_bytes(wb.as_slice());
        let h = u64_from_le_bytes(hb.as_slice());
        if w > usize::MAX as u64 || h > usize::MAX as u64 {
            return Err(OrbError::Exhausted);
        }
        match self.resize(w as usize, h as usize) {
            Ok(()) => Ok(DIMENSIONS_SIZE),
            Err(e) => Err(e),
        }
    }
}

/// Writing `bytes` at `offset`, where they fit, replaces exactly the bytes
/// `[offset, offset + len)` and leaves all others as they were.
pub proof fn lemma_pixels_round_trip(w0: Window, w1: Window, offset: usize, bytes: Seq<u8>, r: usize)
    requires
        pixels_written(w0, w1, offset, bytes, r),
        offset + bytes.len() <= w0.buffer@.len(),
    ensures
        r == bytes.len(),
        w1.buffer@ == overwritten(w0.buffer@, offset as int, bytes),
{
    if bytes.len() == 0 {
        assert(r == 0);
    }
    assert(w1.buffer@ =~= overwritten(w0.buffer@, offset as int, bytes));
}

/// After a dimensions record is written, the buffer holds exactly
/// `w * h * 4` bytes of the new size, so a content write that follows
/// copies no byte past that bound.
pub proof fn lemma_dimensions_bound_content(
    w0: Window,
    w1: Window,
    w2: Window,
    record: Seq<u8>,
    d: usize,
    offset: usize,
    bytes: Seq<u8>,
    n: usize,
)
    requires
        dimensions_written(w0, w1, record, Ok(d)),
        pixels_written(w1, w2, offset, bytes, n),
    ensures
        w1.w == spec_u64_from_le_bytes(record.subrange(0, 8)),
        w1.h == spec_u64_from_le_bytes(record.subrange(8, 16)),
        w2.buffer@.len() == buffer_len(w1.w, w1.h),
        n <= buffer_len(w1.w, w1.h),
        n > 0 ==> offset + n <= buffer_len(w1.w, w1.h),
{
}

/// A title written as valid UTF-8 and then read into a buffer large enough
/// comes back exactly; into a smaller buffer the read fails with
/// `Truncated` and writes nothing.
pub proof fn lemma_title_round_trip(
    w0: Window,
    w1: Window,
    b: Seq<u8>,
    buf0: Seq<u8>,
    buf1: Seq<u8>,
    r: Result<usize, OrbError>,
)
    requires
        valid_utf8(b),
        title_written(w0, w1, b),
        title_read(w1, buf0, buf1, r),
    ensures
        buf0.len() >= b.len() ==> r == Ok::<usize, OrbError>(b.len() as usize) && buf1.subrange(
            0,
            b.len() as int,
        ) == b && buf1.subrange(b.len() as int, buf1.len() as int) == buf0.subrange(
            b.len() as int,
            buf0.len() as int,
        ),
        buf0.len() < b.len() ==> r == Err::<usize, OrbError>(OrbError::Truncated) && buf1 == buf0,
{
    if buf0.len() >= b.len() {
        assert(buf1.subrange(0, b.len() as int) =~= b);
        assert(buf1.subrange(b.len() as int, buf1.len() as int) =~= buf0.subrange(
            b.len() as int,
            buf0.len() as int,
        ));
    }
}

} // verus!
