//! Handles on windows and their views. A handle holds only the window's id
//! and resolves it through the table on every access, so a handle on a
//! destroyed window reports `NotFound`.
use vstd::prelude::*;
use crate::address::{
    address_valid, content_name, dimensions_name, events_name, find_byte, host, host_id,
    launch_name, path, property_of, title_name, ResourceKind, COLON, SLASH,
};
use crate::number::{decimal_value, is_digit};
use crate::error::OrbError;
use crate::table::WindowTable;
use crate::window::{
    dimensions_read, dimensions_written, events_drained, pixels_written, title_read, title_written,
};

verus! {

/// Where a seek counts from.
#[derive(Clone, Copy, Debug, PartialEq, Eq, Structural)]
pub enum SeekOrigin {
    Start(u64),
    Current(i64),
    End(i64),
}

/// The cursor after a seek from `cur` in a buffer of `end` bytes, kept
/// within `[0, end]`.
pub open spec fn seek_target(cur: int, end: int, pos: SeekOrigin) -> int {
    let t = match pos {
        SeekOrigin::Start(o) => o as int,
        SeekOrigin::Current(o) => cur + o,
        SeekOrigin::End(o) => end + o,
    };
    if t < 0 {
        0
    } else if t > end {
        end
    } else {
        t
    }
}

/// Decimal digits of `n`, most significant first.
pub open spec fn decimal_digits(n: nat) -> Seq<u8>
    decreases n,
{
    if n < 10 {
        seq![(48 + n) as u8]
    } else {
        decimal_digits(n / 10).push((48 + n % 10) as u8)
    }
}

pub open spec fn scheme_prefix() -> Seq<u8> {
    seq![111u8, 114, 98, 105, 116, 97, 108, 58, 47, 47]
}

pub open spec fn kind_name(kind: ResourceKind) -> Seq<u8> {
    match kind {
        ResourceKind::Window => Seq::empty(),
        ResourceKind::Content => content_name(),
        ResourceKind::Title => title_name(),
        ResourceKind::Events => events_name(),
        ResourceKind::Dimensions => dimensions_name(),
    }
}

/// The canonical address of a view: `orbital://<id>/<name>`.
pub open spec fn resource_path(id: u64, kind: ResourceKind) -> Seq<u8> {
    scheme_prefix() + decimal_digits(id as nat) + seq![SLASH] + kind_name(kind)
}

fn push_decimal(out: &mut Vec<u8>, n: u64)
    ensures
        final(out)@ == old(out)@ + decimal_digits(n as nat),
    decreases n,
{
    if n >= 10 {
        push_decimal(out, n / 10);
    }
    out.push(48 + (n % 10) as u8);
    assert(out@ =~= old(out)@ + decimal_digits(n as nat));
}

fn push_all(out: &mut Vec<u8>, bytes: &Vec<u8>)
    ensures
        final(out)@ == old(out)@ + bytes@,
{
    let mut i: usize = 0;
    while i < bytes.len()
        invariant
            i <= bytes@.len(),
            out@ == old(out)@ + bytes@.subrange(0, i as int),
        decreases bytes@.len() - i,
    {
        out.push(bytes[i]);
        i = i + 1;
        assert(out@ =~= old(out)@ + bytes@.subrange(0, i as int));
    }
    assert(bytes@.subrange(0, bytes@.len() as int) =~= bytes@);
}

/// An open handle: the window it belongs to, the view, and for content a
/// cursor of its own.
#[derive(Clone, Copy, Debug, PartialEq, Eq, Structural)]
pub struct Resource {
    pub id: u64,
    pub kind: ResourceKind,
    pub seek: usize,
}

impl Resource {
    pub fn new(kind: ResourceKind, id: u64) -> (r: Resource)
        ensures
            r.id == id && r.kind == kind && r.seek == 0,
    {
        Resource { id, kind, seek: 0 }
    }

    /// Handles are not duplicated.
    pub fn dup(&self) -> (r: Option<Resource>)
        ensures
            r is None,
    {
        None
    }

    /// The canonical address of this view.
    pub fn path(&self) -> (r: Vec<u8>)
        ensures
            r@ == resource_path(self.id, self.kind),
    {
        let mut out = vec![111u8, 114, 98, 105, 116, 97, 108, 58, 47, 47];
        assert(out@ =~= scheme_prefix());
        push_decimal(&mut out, self.id);
        out.push(SLASH);
        let name = match self.kind {
            ResourceKind::Window => Vec::new(),
            ResourceKind::Content => vec![99u8, 111, 110, 116, 101, 110, 116],
            ResourceKind::Title => vec![116u8, 105, 116, 108, 101],
            ResourceKind::Events => vec![101u8, 118, 101, 110, 116, 115],
            ResourceKind::Dimensions => vec![100u8, 105, 109, 101, 110, 115, 105, 111, 110, 115],
        };
        assert(name@ =~= kind_name(self.kind));
        push_all(&mut out, &name);
        assert(out@ =~= resource_path(self.id, self.kind));
        out
    }

    /// Reads from the view into `buf`: the title, the pending events, or the
    /// dimensions record. Content and the whole window cannot be read.
    pub fn read(&self, table: &mut WindowTable, buf: &mut Vec<u8>) -> (r: Result<usize, OrbError>)
        requires
            old(table).wf(),
        ensures
            final(table).wf(),
            !old(table).has(self.id) ==> r == Err::<usize, OrbError>(OrbError::NotFound)
                && final(table).entries@ == old(table).entries@ && final(buf)@ == old(buf)@,
            old(table).has(self.id) ==> ({
                let i = old(table).index(self.id);
                let w0 = old(table).entries@[i].window;
                let w1 = final(table).entries@[i].window;
                &&& old(table).with_window(*final(table), i, w1)
                &&& match self.kind {
                    ResourceKind::Title => title_read(w0, old(buf)@, final(buf)@, r) && w1 == w0,
                    ResourceKind::Events => r matches Ok(n) && events_drained(
                        w0,
                        w1,
                        old(buf)@,
                        final(buf)@,
                        n,
                    ),
                    ResourceKind::Dimensions => dimensions_read(w0, w1, old(buf)@, final(buf)@, r),
                    _ => r == Err::<usize, OrbError>(OrbError::Unsupported) && w1 == w0
                        && final(buf)@ == old(buf)@,
                }
            }),
    {
        let i = match table.find(self.id) {
            Some(i) => i,
            None => {
                return Err(OrbError::NotFound);
            },
        };
        let ghost t0 = *table;
        assert(t0.entries@[i as int].window.wf());
        let r = match self.kind {
            ResourceKind::Title => table.entries[i].window.read_title(buf),
            ResourceKind::Events => Ok(table.entries[i].window.drain_events(buf)),
            ResourceKind::Dimensions => table.entries[i].window.read_dimensions(buf),
            _ => Err(OrbError::Unsupported),
        };
        proof {
            assert forall|a: int| 0 <= a < table.entries@.len() implies (#[trigger] table.entries@[a]).window.wf()
                && table.entries@[a].handles >= 1 by {
                assert(t0.entries@[a].window.wf());
            }
            assert forall|a: int, b: int|
                0 <= a < b < table.entries@.len() implies #[trigger] table.entries@[a].id
                < #[trigger] table.entries@[b].id by {
                assert(t0.entries@[a].id < t0.entries@[b].id);
            }
        }
        r
    }

    /// Writes to the view: pixels at the cursor, which advances; a new
    /// title; or a dimensions record, which resizes the window. Events and
    /// the whole window cannot be written.
    pub fn write(&mut self, table: &mut WindowTable, buf: &[u8]) -> (r: Result<usize, OrbError>)
        requires
            old(table).wf(),
        ensures
            final(table).wf(),
            final(self).id == old(self).id && final(self).kind == old(self).kind,
            !old(table).has(old(self).id) ==> r == Err::<usize, OrbError>(OrbError::NotFound)
                && final(table).entries@ == old(table).entries@ && *final(self) == *old(self),
            old(table).has(old(self).id) ==> ({
                let i = old(table).index(old(self).id);
                let w0 = old(table).entries@[i].window;
                let w1 = final(table).entries@[i].window;
                &&& old(table).with_window(*final(table), i, w1)
                &&& match old(self).kind {
                    ResourceKind::Content => r matches Ok(n) && pixels_written(
                        w0,
                        w1,
                        old(self).seek,
                        buf@,
                        n,
                    ) && final(self).seek == old(self).seek + n,
                    ResourceKind::Title => r == Ok::<usize, OrbError>(buf@.len() as usize)
                        && title_written(w0, w1, buf@) && *final(self) == *old(self),
                    ResourceKind::Dimensions => dimensions_written(w0, w1, buf@, r) && *final(self)
                        == *old(self),
                    _ => r == Err::<usize, OrbError>(OrbError::Unsupported) && w1 == w0
                        && *final(self) == *old(self),
                }
            }),
    {
        let i = match table.find(self.id) {
            Some(i) => i,
            None => {
                return Err(OrbError::NotFound);
            },
        };
        let ghost t0 = *table;
        assert(t0.entries@[i as int].window.wf());
        let r = match self.kind {
            ResourceKind::Content => {
                let n = table.entries[i].window.write_pixels(self.seek, buf);
                self.seek = self.seek + n;
                Ok(n)
            },
            ResourceKind::Title => {
                table.entries[i].window.set_title(buf);
                Ok(buf.len())
            },
            ResourceKind::Dimensions => table.entries[i].window.write_dimensions(buf),
            _ => Err(OrbError::Unsupported),
        };
        proof {
            assert forall|a: int| 0 <= a < table.entries@.len() implies (#[trigger] table.entries@[a]).window.wf()
                && table.entries@[a].handles >= 1 by {
                assert(t0.entries@[a].window.wf());
            }
            assert forall|a: int, b: int|
                0 <= a < b < table.entries@.len() implies #[trigger] table.entries@[a].id
                < #[trigger] table.entries@[b].id by {
                assert(t0.entries@[a].id < t0.entries@[b].id);
            }
        }
        r
    }

    /// Moves the content cursor, kept within the buffer; returns it. Other
    /// views cannot seek.
    pub fn seek(&mut self, table: &WindowTable, pos: SeekOrigin) -> (r: Result<u64, OrbError>)
        requires
            table.wf(),
        ensures
            final(self).id == old(self).id && final(self).kind == old(self).kind,
            !table.has(old(self).id) ==> r == Err::<u64, OrbError>(OrbError::NotFound) && *final(self)
                == *old(self),
            table.has(old(self).id) && old(self).kind != ResourceKind::Content ==> r == Err::<
                u64,
                OrbError,
            >(OrbError::Unsupported) && *final(self) == *old(self),
            table.has(old(self).id) && old(self).kind == ResourceKind::Content ==> {
                let end = table.entries@[table.index(old(self).id)].window.buffer@.len() as int;
                let t = seek_target(old(self).seek as int, end, pos);
                final(self).seek == t && r == Ok::<u64, OrbError>(t as u64)
            },
    {
        let i = match table.find(self.id) {
            Some(i) => i,
            None => {
                return Err(OrbError::NotFound);
            },
        };
        if self.kind != ResourceKind::Content {
            return Err(OrbError::Unsupported);
        }
        let end = table.entries[i].window.buffer.len();
        let t: i128 = match pos {
            SeekOrigin::Start(o) => o as i128,
            SeekOrigin::Current(o) => self.seek as i128 + o as i128,
            SeekOrigin::End(o) => end as i128 + o as i128,
        };
        let target: usize = if t < 0 {
            0
        } else if t > end as i128 {
            end
        } else {
            t as usize
        };
        self.seek = target;
        Ok(target as u64)
    }

    /// Flushes the view. Syncing content asks for one redraw of its
    /// window, returned as that window's id; the other views have nothing to
    /// flush. The whole window cannot be synced.
    pub fn sync(&self, table: &WindowTable) -> (r: Result<Option<u64>, OrbError>)
        requires
            table.wf(),
        ensures
            !table.has(self.id) ==> r == Err::<Option<u64>, OrbError>(OrbError::NotFound),
            table.has(self.id) && self.kind == ResourceKind::Window ==> r == Err::<
                Option<u64>,
                OrbError,
            >(OrbError::Unsupported),
            table.has(self.id) && self.kind == ResourceKind::Content ==> r == Ok::<
                Option<u64>,
                OrbError,
            >(Some(self.id)),
            table.has(self.id) && self.kind != ResourceKind::Window && self.kind
                != ResourceKind::Content ==> r == Ok::<Option<u64>, OrbError>(None),
    {
        match table.find(self.id) {
            None => Err(OrbError::NotFound),
            Some(_) => match self.kind {
                ResourceKind::Window => Err(OrbError::Unsupported),
                ResourceKind::Content => Ok(Some(self.id)),
                _ => Ok(None),
            },
        }
    }
}

/// The first `b` at or after `from` is at `k`.
proof fn lemma_find_byte_at(s: Seq<u8>, b: u8, from: int, k: int)
    requires
        0 <= from <= k <= s.len(),
        k < s.len() ==> s[k] == b,
        forall|i: int| from <= i < k ==> s[i] != b,
    ensures
        find_byte(s, b, from) == k,
    decreases k - from,
{
    if from < k {
        lemma_find_byte_at(s, b, from + 1, k);
    }
}

proof fn lemma_decimal_digits(n: nat)
    requires
        n <= u64::MAX,
    ensures
        decimal_value(decimal_digits(n)) == Some(n as u64),
        decimal_digits(n).len() >= 1,
        forall|i: int| 0 <= i < decimal_digits(n).len() ==> is_digit(#[trigger] decimal_digits(n)[i]),
    decreases n,
{
    let d = decimal_digits(n);
    if n >= 10 {
        lemma_decimal_digits(n / 10);
        assert(d.drop_last() =~= decimal_digits(n / 10));
        assert(d.last() == (48 + n % 10) as u8);
        assert(d.last() - 48 == n % 10);
        assert((n / 10) * 10 + n % 10 == n);
    } else {
        assert(d.drop_last() =~= Seq::<u8>::empty());
        assert(decimal_value(Seq::<u8>::empty()) == Some(0u64));
        assert(d.last() - 48 == n);
    }
}

/// The canonical address of a handle parses back to the same window and
/// view.
pub proof fn lemma_path_parses_back(id: u64, kind: ResourceKind)
    ensures
        address_valid(resource_path(id, kind)),
        host(resource_path(id, kind)).len() > 0,
        host(resource_path(id, kind)) != launch_name(),
        host_id(resource_path(id, kind)) == Some(id),
        property_of(path(resource_path(id, kind))) == Some(kind),
{
    let s = resource_path(id, kind);
    let d = decimal_digits(id as nat);
    let name = kind_name(kind);
    lemma_decimal_digits(id as nat);
    reveal_with_fuel(decimal_digits, 1);
    assert(s == scheme_prefix() + d + seq![SLASH] + name);
    let he = 10 + d.len() as int;
    assert(forall|i: int| 0 <= i < d.len() ==> s[10 + i] == d[i]);
    assert(forall|i: int| 0 <= i < name.len() ==> s[he + 1 + i] == name[i]);
    lemma_find_byte_at(s, COLON, 0, 7);
    lemma_find_byte_at(s, SLASH, 0, 8);
    assert forall|i: int| 10 <= i < he implies s[i] != SLASH by {
        assert(is_digit(d[i - 10]));
    }
    lemma_find_byte_at(s, SLASH, 10, he);
    assert(host(s) =~= d);
    assert(d[0] != launch_name()[0]) by {
        assert(is_digit(d[0]));
    }
    assert(path(s) =~= name);
    reveal_with_fuel(find_byte, 11);
    match kind {
        ResourceKind::Window => {},
        ResourceKind::Content => {
            assert(find_byte(name, SLASH, 0) == 7);
            assert(name.subrange(0, 7) =~= name);
        },
        ResourceKind::Title => {
            assert(find_byte(name, SLASH, 0) == 5);
            assert(name.subrange(0, 5) =~= name);
        },
        ResourceKind::Events => {
            assert(find_byte(name, SLASH, 0) == 6);
            assert(name.subrange(0, 6) =~= name);
        },
        ResourceKind::Dimensions => {
            assert(find_byte(name, SLASH, 0) == 10);
            assert(name.subrange(0, 10) =~= name);
        },
    }
}

} // verus!
