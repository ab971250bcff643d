//! Window titles: bytes from a client are kept where they are valid UTF-8,
//! and each invalid sequence is shown as one `?`.
use vstd::prelude::*;

verus! {

pub const QUESTION_MARK: u8 = 63;

pub open spec fn is_continuation(b: u8) -> bool {
    0x80 <= b <= 0xBF
}

/// Length of the well-formed UTF-8 sequence at the start of `s`, or 0 when
/// none starts there (Unicode's table of well-formed byte sequences).
pub open spec fn utf8_sequence_len(s: Seq<u8>) -> int {
    if s.len() >= 1 && s[0] <= 0x7F {
        1
    } else if s.len() >= 2 && 0xC2 <= s[0] <= 0xDF && is_continuation(s[1]) {
        2
    } else if s.len() >= 3 && is_continuation(s[2]) && ((s[0] == 0xE0 && 0xA0 <= s[1] <= 0xBF)
        || (0xE1 <= s[0] <= 0xEC && is_continuation(s[1])) || (s[0] == 0xED && 0x80 <= s[1]
        <= 0x9F) || (0xEE <= s[0] <= 0xEF && is_continuation(s[1]))) {
        3
    } else if s.len() >= 4 && is_continuation(s[2]) && is_continuation(s[3]) && ((s[0] == 0xF0
        && 0x90 <= s[1] <= 0xBF) || (0xF1 <= s[0] <= 0xF3 && is_continuation(s[1])) || (s[0]
        == 0xF4 && 0x80 <= s[1] <= 0x8F)) {
        4
    } else {
        0
    }
}

/// `s` is well-formed UTF-8.
pub open spec fn valid_utf8(s: Seq<u8>) -> bool
    decreases s.len(),
{
    if s.len() == 0 {
        true
    } else {
        let n = utf8_sequence_len(s);
        n > 0 && valid_utf8(s.skip(n))
    }
}

/// A run of chunks: each a valid part followed by an invalid sequence.
pub open spec fn joined(cs: Seq<(Seq<u8>, Seq<u8>)>) -> Seq<u8>
    decreases cs.len(),
{
    if cs.len() == 0 {
        Seq::empty()
    } else {
        joined(cs.drop_last()) + cs.last().0 + cs.last().1
    }
}

/// The chunks with each invalid sequence shown as one `?`.
pub open spec fn shown(cs: Seq<(Seq<u8>, Seq<u8>)>) -> Seq<u8>
    decreases cs.len(),
{
    if cs.len() == 0 {
        Seq::empty()
    } else {
        shown(cs.drop_last()) + cs.last().0 + if cs.last().1.len() > 0 {
            seq![QUESTION_MARK]
        } else {
            Seq::empty()
        }
    }
}

/// How `<[u8]>::utf8_chunks` splits `b`.
pub uninterp spec fn utf8_chunks_of(b: Seq<u8>) -> Seq<(Seq<u8>, Seq<u8>)>;

/// The title a window holds after a client writes the bytes `b`.
pub open spec fn title_text(b: Seq<u8>) -> Seq<u8> {
    shown(utf8_chunks_of(b))
}

pub open spec fn chunk_views(r: Seq<(Vec<u8>, Vec<u8>)>) -> Seq<(Seq<u8>, Seq<u8>)> {
    r.map_values(|c: (Vec<u8>, Vec<u8>)| (c.0@, c.1@))
}

/// Relies on `<[u8]>::utf8_chunks`: the chunks, in order, cover the input;
/// each holds the longest valid UTF-8 part before an invalid sequence, and
/// that sequence, at most 3 bytes and empty only at the end of the input.
#[verifier::external_body]
fn split_utf8(b: &[u8]) -> (r: Vec<(Vec<u8>, Vec<u8>)>)
    ensures
        chunk_views(r@) == utf8_chunks_of(b@),
        joined(chunk_views(r@)) == b@,
        forall|i: int| 0 <= i < r@.len() ==> valid_utf8(#[trigger] r@[i].0@),
        forall|i: int| 0 <= i < r@.len() - 1 ==> (#[trigger] r@[i]).1@.len() > 0,
        forall|i: int| 0 <= i < r@.len() ==> (#[trigger] r@[i]).1@.len() <= 3,
        valid_utf8(b@) ==> forall|i: int| 0 <= i < r@.len() ==> (#[trigger] r@[i]).1@.len() == 0,
{
    let mut r = Vec::new();
    for c in b.utf8_chunks() {
        r.push((c.valid().as_bytes().to_vec(), c.invalid().to_vec()));
    }
    r
}

/// With no invalid sequence, showing the chunks gives back the input.
proof fn lemma_shown_valid(cs: Seq<(Seq<u8>, Seq<u8>)>)
    requires
        forall|i: int| 0 <= i < cs.len() ==> (#[trigger] cs[i]).1.len() == 0,
    ensures
        shown(cs) == joined(cs),
    decreases cs.len(),
{
    if cs.len() > 0 {
        lemma_shown_valid(cs.drop_last());
        assert(cs.last().1 =~= Seq::<u8>::empty());
        assert(shown(cs) =~= joined(cs));
    }
}

fn append_bytes(out: &mut Vec<u8>, bytes: &Vec<u8>)
    ensures
        final(out)@ == old(out)@ + bytes@,
{
    let mut i: usize = 0;
    while i < bytes.len()
        invariant
            i <= bytes@.len(),
            out@ == old(out)@ + bytes@.subrange(0, i as int),
        decreases bytes@.len() - i,
    {
        out.push(bytes[i]);
        i = i + 1;
        assert(out@ =~= old(out)@ + bytes@.subrange(0, i as int));
    }
    assert(bytes@.subrange(0, bytes@.len() as int) =~= bytes@);
}

/// Turns client bytes into the stored title: valid UTF-8 is kept, each
/// invalid sequence becomes `?`.
pub fn sanitize_title(b: &[u8]) -> (r: Vec<u8>)
    ensures
        r@ == title_text(b@),
        valid_utf8(b@) ==> r@ == b@,
{
    let chunks = split_utf8(b);
    let ghost cs = utf8_chunks_of(b@);
    let mut out: Vec<u8> = Vec::new();
    let mut i: usize = 0;
    assert(cs.take(0) =~= Seq::<(Seq<u8>, Seq<u8>)>::empty());
    while i < chunks.len()
        invariant
            i <= chunks@.len(),
            cs == chunk_views(chunks@),
            out@ == shown(cs.take(i as int)),
        decreases chunks@.len() - i,
    {
        append_bytes(&mut out, &chunks[i].0);
        if chunks[i].1.len() > 0 {
            out.push(QUESTION_MARK);
        }
        assert(cs.take(i as int + 1).drop_last() =~= cs.take(i as int));
        i = i + 1;
        assert(out@ =~= shown(cs.take(i as int)));
    }
    assert(cs.take(chunks@.len() as int) =~= cs);
    proof {
        if valid_utf8(b@) {
            assert forall|i: int| 0 <= i < cs.len() implies (#[trigger] cs[i]).1.len() == 0 by {
                assert(chunks@[i].1@.len() == 0);
            }
            lemma_shown_valid(cs);
        }
    }
    out
}

} // verus!
