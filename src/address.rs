//! The address grammar of the window scheme, on bytes.
//!
//! An address is `[scheme:]//host[/path]`. An empty host creates a window
//! from `x/y/w/h/title`; the host `launch` launches an application for the
//! path; a decimal host names a window, and the path's first segment names
//! one of its views.
use vstd::prelude::*;
use crate::error::OrbError;
use crate::number::{decimal_of, decimal_value, parse_signed, parse_unsigned, signed_field, unsigned_field};

verus! {

pub const SLASH: u8 = 47;
pub const COLON: u8 = 58;

/// Index of the first `b` in `s` at or after `from`, or `s.len()`.
pub open spec fn find_byte(s: Seq<u8>, b: u8, from: int) -> int
    decreases s.len() - from,
{
    if from >= s.len() {
        s.len() as int
    } else if s[from] == b {
        from
    } else {
        find_byte(s, b, from + 1)
    }
}

pub proof fn lemma_find_byte_bounds(s: Seq<u8>, b: u8, from: int)
    requires
        0 <= from <= s.len(),
    ensures
        from <= find_byte(s, b, from) <= s.len(),
        find_byte(s, b, from) < s.len() ==> s[find_byte(s, b, from)] == b,
    decreases s.len() - from,
{
    if from < s.len() && s[from] != b {
        lemma_find_byte_bounds(s, b, from + 1);
    }
}

/// Finds the first `b` in `s` at or after `from`.
pub fn find_byte_from(s: &[u8], b: u8, from: usize) -> (r: usize)
    requires
        from <= s@.len(),
    ensures
        r == find_byte(s@, b, from as int),
        from <= r <= s@.len(),
{
    let mut i: usize = from;
    while i < s.len() && s[i] != b
        invariant
            from <= i <= s@.len(),
            find_byte(s@, b, from as int) == find_byte(s@, b, i as int),
        decreases s@.len() - i,
    {
        i = i + 1;
    }
    i
}

/// Where the part after an optional `scheme:` prefix starts.
pub open spec fn after_scheme(s: Seq<u8>) -> int {
    let c = find_byte(s, COLON, 0);
    if c < find_byte(s, SLASH, 0) {
        c + 1
    } else {
        0
    }
}

/// The address has `//` after its scheme.
pub open spec fn has_authority(s: Seq<u8>) -> bool {
    let k = after_scheme(s);
    &&& k + 2 <= s.len()
    &&& s[k] == SLASH
    &&& s[k + 1] == SLASH
}

pub open spec fn host_end(s: Seq<u8>) -> int {
    find_byte(s, SLASH, after_scheme(s) + 2)
}

/// The host: what stands between `//` and the next `/`.
pub open spec fn host(s: Seq<u8>) -> Seq<u8> {
    s.subrange(after_scheme(s) + 2, host_end(s))
}

/// The path: what follows the `/` that ends the host, if any.
pub open spec fn path(s: Seq<u8>) -> Seq<u8> {
    if host_end(s) < s.len() {
        s.subrange(host_end(s) + 1, s.len() as int)
    } else {
        Seq::empty()
    }
}

/// Where the `k`-th `/`-separated segment of `p` starts.
pub open spec fn seg_start(p: Seq<u8>, k: nat) -> int
    decreases k,
{
    if k == 0 {
        0
    } else {
        find_byte(p, SLASH, seg_start(p, (k - 1) as nat)) + 1
    }
}

/// A segment is present when it starts before the end of the path.
pub open spec fn has_seg(p: Seq<u8>, k: nat) -> bool {
    seg_start(p, k) < p.len()
}

pub open spec fn seg(p: Seq<u8>, k: nat) -> Seq<u8> {
    p.subrange(seg_start(p, k), find_byte(p, SLASH, seg_start(p, k)))
}

/// Part `k` of `p` split on every `/` exists: `p` holds at least `k`
/// slashes. The part may be empty.
pub open spec fn has_part(p: Seq<u8>, k: nat) -> bool {
    seg_start(p, k) <= p.len()
}

proof fn lemma_parts_end(p: Seq<u8>, k: nat, m: nat)
    requires
        seg_start(p, k) > p.len(),
        k <= m,
    ensures
        seg_start(p, m) > p.len(),
    decreases m - k,
{
    if k < m {
        lemma_parts_end(p, k, (m - 1) as nat);
        assert(seg_start(p, m) == find_byte(p, SLASH, seg_start(p, (m - 1) as nat)) + 1);
    }
}

/// Where part `k` of `s` split on `/` starts and ends, if it exists.
pub fn part_bounds(s: &[u8], k: usize) -> (r: Option<(usize, usize)>)
    ensures
        r is Some <==> has_part(s@, k as nat),
        r matches Some((a, b)) ==> a == seg_start(s@, k as nat) && a <= b <= s@.len()
            && seg(s@, k as nat) == s@.subrange(a as int, b as int),
{
    let mut start: usize = 0;
    let mut i: usize = 0;
    while i < k
        invariant
            i <= k,
            start <= s@.len(),
            start == seg_start(s@, i as nat),
        decreases k - i,
    {
        let e = find_byte_from(s, SLASH, start);
        assert(seg_start(s@, (i + 1) as nat) == find_byte(s@, SLASH, seg_start(s@, i as nat)) + 1);
        if e >= s.len() {
            proof {
                lemma_parts_end(s@, (i + 1) as nat, k as nat);
            }
            return None;
        }
        start = e + 1;
        i = i + 1;
    }
    let e = find_byte_from(s, SLASH, start);
    Some((start, e))
}

/// Creation arguments: `x` and `y` default to 0, `w` and `h` to 100, and the
/// title is the rest of the path after the fourth `/`, slashes kept.
pub open spec fn create_x(p: Seq<u8>) -> i64 {
    if has_seg(p, 0) { signed_field(seg(p, 0)) } else { 0 }
}

pub open spec fn create_y(p: Seq<u8>) -> i64 {
    if has_seg(p, 1) { signed_field(seg(p, 1)) } else { 0 }
}

pub open spec fn create_w(p: Seq<u8>) -> u64 {
    if has_seg(p, 2) { unsigned_field(seg(p, 2)) } else { 100 }
}

pub open spec fn create_h(p: Seq<u8>) -> u64 {
    if has_seg(p, 3) { unsigned_field(seg(p, 3)) } else { 100 }
}

pub open spec fn create_title(p: Seq<u8>) -> Seq<u8> {
    if has_seg(p, 4) { p.skip(seg_start(p, 4)) } else { Seq::empty() }
}

/// `s` is a signed decimal number: an optional `-` and at least one digit,
/// with a value that fits.
pub open spec fn is_signed_decimal(s: Seq<u8>) -> bool {
    if s.len() > 0 && s[0] == 45 {
        s.len() > 1 && decimal_value(s.skip(1)) is Some
    } else {
        s.len() > 0 && decimal_value(s) is Some
    }
}

/// A position field that is not a decimal number reads as 0, exactly as a
/// position field that is left out; both then take the cascade.
pub proof fn lemma_malformed_position_as_omitted(p: Seq<u8>)
    ensures
        has_seg(p, 0) && !is_signed_decimal(seg(p, 0)) ==> create_x(p) == 0,
        has_seg(p, 1) && !is_signed_decimal(seg(p, 1)) ==> create_y(p) == 0,
        !has_seg(p, 0) ==> create_x(p) == 0,
        !has_seg(p, 1) ==> create_y(p) == 0,
{
}

/// One of the views of a window.
#[derive(Clone, Copy, Debug, PartialEq, Eq, Structural)]
pub enum ResourceKind {
    /// The whole window.
    Window,
    Content,
    Title,
    Events,
    Dimensions,
}

pub open spec fn content_name() -> Seq<u8> {
    seq![99u8, 111, 110, 116, 101, 110, 116]
}

pub open spec fn title_name() -> Seq<u8> {
    seq![116u8, 105, 116, 108, 101]
}

pub open spec fn events_name() -> Seq<u8> {
    seq![101u8, 118, 101, 110, 116, 115]
}

pub open spec fn dimensions_name() -> Seq<u8> {
    seq![100u8, 105, 109, 101, 110, 115, 105, 111, 110, 115]
}

pub open spec fn launch_name() -> Seq<u8> {
    seq![108u8, 97, 117, 110, 99, 104]
}

/// The view named by a path: none named is the whole window.
pub open spec fn property_of(p: Seq<u8>) -> Option<ResourceKind> {
    if !has_seg(p, 0) {
        Some(ResourceKind::Window)
    } else if seg(p, 0) == content_name() {
        Some(ResourceKind::Content)
    } else if seg(p, 0) == title_name() {
        Some(ResourceKind::Title)
    } else if seg(p, 0) == events_name() {
        Some(ResourceKind::Events)
    } else if seg(p, 0) == dimensions_name() {
        Some(ResourceKind::Dimensions)
    } else {
        None
    }
}

/// What an address asks for.
pub enum Request {
    Create { x: i64, y: i64, w: u64, h: u64, title: Vec<u8> },
    Launch { path: Vec<u8> },
    Open { id: u64, kind: ResourceKind },
}

/// The host is a window id.
pub open spec fn host_id(s: Seq<u8>) -> Option<u64> {
    if host(s).len() > 0 { decimal_value(host(s)) } else { None }
}

/// What `parse_address` makes of `s`: `None` where it fails with `NotFound`.
pub open spec fn request_ok(s: Seq<u8>, r: Request) -> bool {
    let p = path(s);
    if host(s).len() == 0 {
        r matches Request::Create { x, y, w, h, title } && x == create_x(p) && y == create_y(p)
            && w == create_w(p) && h == create_h(p) && title@ == create_title(p)
    } else if host(s) == launch_name() {
        r matches Request::Launch { path } && path@ == p
    } else {
        r matches Request::Open { id, kind } && host_id(s) == Some(id) && property_of(p) == Some(
            kind,
        )
    }
}

/// The address is well formed and names a known operation.
pub open spec fn address_valid(s: Seq<u8>) -> bool {
    &&& has_authority(s)
    &&& (host(s).len() == 0 || host(s) == launch_name() || (host_id(s) is Some && property_of(
        path(s),
    ) is Some))
}

/// `s[start..end)` equals `lit`.
fn range_equals(s: &[u8], start: usize, end: usize, lit: &Vec<u8>) -> (r: bool)
    requires
        start <= end <= s@.len(),
    ensures
        r == (s@.subrange(start as int, end as int) == lit@),
{
    if end - start != lit.len() {
        return false;
    }
    let mut i: usize = 0;
    while i < lit.len()
        invariant
            end - start == lit@.len(),
            start <= end <= s@.len(),
            i <= lit@.len(),
            forall|j: int| 0 <= j < i ==> s@[start + j] == lit@[j],
        decreases lit@.len() - i,
    {
        if s[start + i] != lit[i] {
            assert(s@.subrange(start as int, end as int)[i as int] != lit@[i as int]);
            return false;
        }
        i = i + 1;
    }
    assert(s@.subrange(start as int, end as int) =~= lit@);
    true
}

/// A copy of `s[start..end)`.
pub fn copy_range(s: &[u8], start: usize, end: usize) -> (r: Vec<u8>)
    requires
        start <= end <= s@.len(),
    ensures
        r@ == s@.subrange(start as int, end as int),
{
    let mut r: Vec<u8> = Vec::new();
    let mut i: usize = start;
    while i < end
        invariant
            start <= i <= end <= s@.len(),
            r@ == s@.subrange(start as int, i as int),
        decreases end - i,
    {
        r.push(s[i]);
        i = i + 1;
        assert(r@ =~= s@.subrange(start as int, i as int));
    }
    r
}

/// Searching a suffix of `s` is searching `s` from further on.
proof fn lemma_find_byte_shift(s: Seq<u8>, base: int, from: int)
    requires
        0 <= base <= s.len(),
        0 <= from <= s.len() - base,
    ensures
        find_byte(s.subrange(base, s.len() as int), SLASH, from) + base == find_byte(
            s,
            SLASH,
            from + base,
        ),
    decreases s.len() - base - from,
{
    if from < s.len() - base {
        lemma_find_byte_shift(s, base, from + 1);
    }
}

/// The absolute index `a` stands for segment `k` of the path that starts at
/// `ps`; `s.len()` stands for any segment that is absent.
spec fn seg_at(s: Seq<u8>, ps: int, a: int, k: nat) -> bool {
    let p = s.subrange(ps, s.len() as int);
    &&& ps <= a <= s.len()
    &&& a < s.len() ==> a - ps == seg_start(p, k)
    &&& a == s.len() ==> seg_start(p, k) >= p.len()
}

/// From the start of segment `k`, its end and the start of segment `k + 1`.
fn seg_step(s: &[u8], ps: usize, a: usize, Ghost(k): Ghost<nat>) -> (r: (usize, usize))
    requires
        seg_at(s@, ps as int, a as int, k),
    ensures
        seg_at(s@, ps as int, r.1 as int, k + 1),
        a <= r.0 <= s@.len(),
        a < s@.len() ==> seg(s@.subrange(ps as int, s@.len() as int), k) == s@.subrange(
            a as int,
            r.0 as int,
        ),
{
    let ghost p = s@.subrange(ps as int, s@.len() as int);
    if a >= s.len() {
        proof {
            lemma_find_byte_bounds(p, SLASH, p.len() as int);
            assert(seg_start(p, k + 1) == find_byte(p, SLASH, seg_start(p, k)) + 1);
        }
        return (a, a);
    }
    let e = find_byte_from(s, SLASH, a);
    proof {
        lemma_find_byte_shift(s@, ps as int, (a - ps) as int);
        lemma_find_byte_bounds(p, SLASH, (a - ps) as int);
        assert(seg_start(p, k + 1) == find_byte(p, SLASH, seg_start(p, k)) + 1);
        assert(p.subrange(a - ps, e - ps) =~= s@.subrange(a as int, e as int));
    }
    if e < s.len() {
        (e, e + 1)
    } else {
        (e, e)
    }
}

/// The creation arguments of the path that starts at `ps`.
fn parse_create(s: &[u8], ps: usize) -> (r: Request)
    requires
        ps <= s@.len(),
    ensures
        ({
            let p = s@.subrange(ps as int, s@.len() as int);
            r matches Request::Create { x, y, w, h, title } && x == create_x(p) && y == create_y(p)
                && w == create_w(p) && h == create_h(p) && title@ == create_title(p)
        }),
{
    let ghost p = s@.subrange(ps as int, s@.len() as int);
    assert(seg_start(p, 0) == 0);
    let (e0, a1) = seg_step(s, ps, ps, Ghost(0));
    let (e1, a2) = seg_step(s, ps, a1, Ghost(1));
    let (e2, a3) = seg_step(s, ps, a2, Ghost(2));
    let (e3, a4) = seg_step(s, ps, a3, Ghost(3));
    let x = if ps < s.len() {
        parse_signed(s, ps, e0)
    } else {
        0
    };
    let y = if a1 < s.len() {
        parse_signed(s, a1, e1)
    } else {
        0
    };
    let w = if a2 < s.len() {
        parse_unsigned(s, a2, e2)
    } else {
        100
    };
    let h = if a3 < s.len() {
        parse_unsigned(s, a3, e3)
    } else {
        100
    };
    let title = if a4 < s.len() {
        copy_range(s, a4, s.len())
    } else {
        Vec::new()
    };
    assert(a4 < s@.len() ==> p.skip(seg_start(p, 4)) =~= s@.subrange(a4 as int, s@.len() as int));
    assert(a4 >= s@.len() ==> title@ =~= create_title(p));
    Request::Create { x, y, w, h, title }
}

/// The view named by the path that starts at `ps`.
fn parse_property(s: &[u8], ps: usize) -> (r: Option<ResourceKind>)
    requires
        ps <= s@.len(),
    ensures
        r == property_of(s@.subrange(ps as int, s@.len() as int)),
{
    let ghost p = s@.subrange(ps as int, s@.len() as int);
    assert(seg_start(p, 0) == 0);
    if ps >= s.len() {
        return Some(ResourceKind::Window);
    }
    let (e0, _a1) = seg_step(s, ps, ps, Ghost(0));
    let content = vec![99u8, 111, 110, 116, 101, 110, 116];
    let title = vec![116u8, 105, 116, 108, 101];
    let events = vec![101u8, 118, 101, 110, 116, 115];
    let dimensions = vec![100u8, 105, 109, 101, 110, 115, 105, 111, 110, 115];
    assert(content@ =~= content_name());
    assert(title@ =~= title_name());
    assert(events@ =~= events_name());
    assert(dimensions@ =~= dimensions_name());
    if range_equals(s, ps, e0, &content) {
        Some(ResourceKind::Content)
    } else if range_equals(s, ps, e0, &title) {
        Some(ResourceKind::Title)
    } else if range_equals(s, ps, e0, &events) {
        Some(ResourceKind::Events)
    } else if range_equals(s, ps, e0, &dimensions) {
        Some(ResourceKind::Dimensions)
    } else {
        None
    }
}

/// Parses an address; `NotFound` when it is malformed or names nothing.
pub fn parse_address(s: &[u8]) -> (r: Result<Request, OrbError>)
    ensures
        address_valid(s@) <==> r is Ok,
        r matches Ok(req) ==> request_ok(s@, req),
        r is Err ==> r matches Err(OrbError::NotFound),
{
    let colon = find_byte_from(s, COLON, 0);
    let slash = find_byte_from(s, SLASH, 0);
    let k = if colon < slash {
        colon + 1
    } else {
        0
    };
    if !(k < s.len() && s.len() - k >= 2 && s[k] == SLASH && s[k + 1] == SLASH) {
        return Err(OrbError::NotFound);
    }
    let hs = k + 2;
    let he = find_byte_from(s, SLASH, hs);
    let ps = if he < s.len() {
        he + 1
    } else {
        s.len()
    };
    let ghost p = path(s@);
    assert(p =~= s@.subrange(ps as int, s@.len() as int));
    assert(host(s@) =~= s@.subrange(hs as int, he as int));
    if he == hs {
        return Ok(parse_create(s, ps));
    }
    let launch = vec![108u8, 97, 117, 110, 99, 104];
    assert(launch@ =~= launch_name());
    if range_equals(s, hs, he, &launch) {
        return Ok(Request::Launch { path: copy_range(s, ps, s.len()) });
    }
    let id = match decimal_of(s, hs, he) {
        Some(id) => id,
        None => {
            return Err(OrbError::NotFound);
        },
    };
    match parse_property(s, ps) {
        Some(kind) => Ok(Request::Open { id, kind }),
        None => Err(OrbError::NotFound),
    }
}

} // verus!
