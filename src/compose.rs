//! Compositing: the frame the display shows, with every window drawn over
//! the ones created before it.
use vstd::prelude::*;
use vstd::bytes::{spec_u32_from_le_bytes, u32_from_le_bytes};
use crate::address::copy_range;
use crate::client::{image_index, image_pixel, in_rect, lemma_index_bounds, pix, Window as Frame};
use crate::table::{Entry, WindowTable};

verus! {

/// The 32-bit pixels of a window buffer, 4 little-endian bytes each.
pub open spec fn pixel_words(b: Seq<u8>) -> Seq<u32> {
    Seq::new((b.len() / 4) as nat, |i: int| spec_u32_from_le_bytes(b.subrange(4 * i, 4 * i + 4)))
}

/// What the frame shows at `(px, py)` once the windows `es` are drawn in
/// order: the last window covering it, or 0.
pub open spec fn composed(es: Seq<Entry>, px: int, py: int) -> u32
    decreases es.len(),
{
    if es.len() == 0 {
        0
    } else {
        let w = es.last().window;
        let words = pixel_words(w.buffer@);
        if in_rect(px, py, w.x as int, w.y as int, w.w as int, w.h as int) && image_index(
            px,
            py,
            w.x as int,
            w.y as int,
            w.w as int,
        ) < words.len() {
            words[image_index(px, py, w.x as int, w.y as int, w.w as int)]
        } else {
            composed(es.drop_last(), px, py)
        }
    }
}

/// The pixels of a window buffer.
pub fn buffer_pixels(b: &Vec<u8>) -> (r: Vec<u32>)
    ensures
        r@ == pixel_words(b@),
{
    let len = b.len();
    let n = len / 4;
    let mut r: Vec<u32> = Vec::new();
    let mut i: usize = 0;
    while i < n
        invariant
            n == b@.len() / 4,
            len == b@.len(),
            i <= n,
            r@ == pixel_words(b@).take(i as int),
        decreases n - i,
    {
        assert(4 * i + 4 <= len) by (nonlinear_arith)
            requires
                i < n,
                n == len / 4,
        ;
        let word = copy_range(b.as_slice(), 4 * i, 4 * i + 4);
        r.push(u32_from_le_bytes(word.as_slice()));
        i = i + 1;
        assert(r@ =~= pixel_words(b@).take(i as int));
    }
    assert(r@ =~= pixel_words(b@));
    r
}

/// Draws the windows of `table`, oldest first, on a blank frame of
/// `width` by `height`; `None` when the frame does not fit in memory.
pub fn composite(table: &WindowTable, width: usize, height: usize) -> (r: Option<Frame>)
    ensures
        (width * height <= usize::MAX) <==> r is Some,
        r matches Some(f) ==> {
            &&& f.wf() && f.w == width && f.h == height
            &&& forall|px: int, py: int|
                0 <= px < width && 0 <= py < height ==> #[trigger] pix(f.data@, width as int, px, py)
                    == composed(table.entries@, px, py)
        },
{
    let mut frame = match Frame::new(0, 0, width, height, Vec::new(), Vec::new()) {
        Some(f) => f,
        None => {
            return None;
        },
    };
    let ghost es = table.entries@;
    assert forall|px: int, py: int|
        0 <= px < width && 0 <= py < height implies #[trigger] pix(frame.data@, width as int, px, py)
        == composed(es.take(0), px, py) by {
        lemma_index_bounds(width as int, height as int, px, py);
    }
    let mut i: usize = 0;
    while i < table.entries.len()
        invariant
            es == table.entries@,
            i <= es.len(),
            frame.wf() && frame.w == width && frame.h == height,
            forall|px: int, py: int|
                0 <= px < width && 0 <= py < height ==> #[trigger] pix(frame.data@, width as int, px, py)
                    == composed(es.take(i as int), px, py),
        decreases es.len() - i,
    {
        let w = &table.entries[i].window;
        let pixels = buffer_pixels(&w.buffer);
        let ghost before = frame;
        frame.image(w.x, w.y, w.w, w.h, pixels.as_slice());
        assert(es.take(i as int + 1).drop_last() =~= es.take(i as int));
        assert forall|px: int, py: int|
            0 <= px < width && 0 <= py < height implies #[trigger] pix(frame.data@, width as int, px, py)
            == composed(es.take(i as int + 1), px, py) by {
            assert(pix(frame.data@, width as int, px, py) == image_pixel(
                before.data@,
                width as int,
                pixels@,
                w.x as int,
                w.y as int,
                w.w as int,
                w.h as int,
                px,
                py,
            ));
        }
        i = i + 1;
    }
    assert(es.take(es.len() as int) =~= es);
    Some(frame)
}

} // verus!
