//! The window scheme: creates windows, opens views on them, launches
//! applications for paths, and routes input to the topmost window.
use vstd::prelude::*;
use crate::address::{
    address_valid, create_h, create_title, create_w, create_x, create_y, has_seg, host, host_id,
    is_signed_decimal, launch_name, lemma_malformed_position_as_omitted, parse_address, path,
    property_of, seg, Request, ResourceKind,
};
use crate::error::OrbError;
use crate::launch::{find_package, package_accepts, Package};
use crate::resource::Resource;
use crate::table::{Entry, WindowTable};
use crate::text::{title_text, valid_utf8};
use crate::window::{buffer_len, queued, size_fits, InputEvent, Window};

verus! {

/// Step of the cascade that places windows given no position.
pub const CASCADE_STEP: i64 = 32;

/// The display and the applications known to the session.
pub struct Session {
    pub display_width: u32,
    pub display_height: u32,
    pub packages: Vec<Package>,
}

/// The next cascade position on one axis: the cursor wraps to 0 when a
/// window of `extent` placed at it would pass the display's edge, then
/// advances by one step.
pub open spec fn cascade(cursor: i64, display: u32, extent: u64) -> i64 {
    ((if cursor > display - extent {
        0
    } else {
        cursor as int
    }) + CASCADE_STEP) as i64
}

/// What `open` hands back.
pub enum Opened {
    /// A handle on a window or one of its views.
    Handle(Resource),
    /// The address asks to launch `packages[package]` with `path`.
    Launch { package: usize, path: Vec<u8> },
}

/// The window server state.
pub struct Scheme {
    pub session: Session,
    pub next_x: i64,
    pub next_y: i64,
    pub next_window_id: u64,
    pub windows: WindowTable,
}

/// A size that a window buffer can have.
pub open spec fn size_ok(w: u64, h: u64) -> bool {
    w <= usize::MAX && h <= usize::MAX && size_fits(w as usize, h as usize)
}

/// Where a window asked for at `(x, y)` goes: the cascade when either
/// coordinate is not positive.
pub open spec fn placement(s: Scheme, x: i64, y: i64, w: u64, h: u64) -> (i64, i64) {
    if x <= 0 || y <= 0 {
        (
            cascade(s.next_x, s.session.display_width, w),
            cascade(s.next_y, s.session.display_height, h),
        )
    } else {
        (x, y)
    }
}

/// `s1` is `s0` after a create of `(x, y, w, h, title)` that returned `r`.
pub open spec fn created(
    s0: Scheme,
    s1: Scheme,
    x: i64,
    y: i64,
    w: u64,
    h: u64,
    title: Seq<u8>,
    r: Result<u64, OrbError>,
) -> bool {
    let pos = placement(s0, x, y, w, h);
    &&& s1.session == s0.session
    &&& (x <= 0 || y <= 0) ==> s1.next_x == pos.0 && s1.next_y == pos.1
    &&& !(x <= 0 || y <= 0) ==> s1.next_x == s0.next_x && s1.next_y == s0.next_y
    &&& (size_ok(w, h) && s0.next_window_id < u64::MAX) <==> r is Ok
    &&& r is Err ==> r == Err::<u64, OrbError>(OrbError::Exhausted) && s1.windows.entries@
        == s0.windows.entries@ && s1.next_window_id == s0.next_window_id
    &&& r matches Ok(id) ==> {
        let e = s1.windows.entries@.last();
        &&& id == s0.next_window_id
        &&& s1.next_window_id == id + 1
        &&& s1.windows.entries@.len() == s0.windows.entries@.len() + 1
        &&& s1.windows.entries@.drop_last() == s0.windows.entries@
        &&& e.id == id && e.handles == 1
        &&& e.window.x == pos.0 && e.window.y == pos.1
        &&& e.window.w == w && e.window.h == h
        &&& e.window.title@ == title_text(title)
        &&& valid_utf8(title) ==> e.window.title@ == title
        &&& e.window.buffer@ == Seq::new(buffer_len(w as usize, h as usize) as nat, |i: int| 0u8)
        &&& e.window.events@.len() == 0
    }
}

/// `t1` is `t0` after one more handle was opened on `id`, with result `r`.
pub open spec fn handle_opened(t0: WindowTable, t1: WindowTable, id: u64, r: Result<(), OrbError>) -> bool {
    if !t0.has(id) {
        r == Err::<(), OrbError>(OrbError::NotFound) && t1.entries@ == t0.entries@
    } else if t0.entries@[t0.index(id)].handles == u64::MAX {
        r == Err::<(), OrbError>(OrbError::Exhausted) && t1.entries@ == t0.entries@
    } else {
        let i = t0.index(id);
        r is Ok && t1.entries@ == t0.entries@.update(
            i,
            Entry { handles: (t0.entries@[i].handles + 1) as u64, ..t0.entries@[i] },
        )
    }
}

/// The result with its value dropped.
pub open spec fn unit_result<T>(r: Result<T, OrbError>) -> Result<(), OrbError> {
    match r {
        Ok(_) => Ok(()),
        Err(e) => Err(e),
    }
}

/// The id of the handle that `open` returned.
pub open spec fn handle_id(r: Result<Opened, OrbError>) -> Result<u64, OrbError> {
    match r {
        Ok(Opened::Handle(res)) => Ok(res.id),
        Ok(Opened::Launch { .. }) => Err(OrbError::NotFound),
        Err(e) => Err(e),
    }
}

/// `s1` and `r` are what opening the address `url` on `s0` gives.
pub open spec fn opened(s0: Scheme, s1: Scheme, url: Seq<u8>, r: Result<Opened, OrbError>) -> bool {
    let p = path(url);
    let pkgs = s0.session.packages@;
    if !address_valid(url) {
        r == Err::<Opened, OrbError>(OrbError::NotFound) && s1 == s0
    } else if host(url).len() == 0 {
        &&& created(s0, s1, create_x(p), create_y(p), create_w(p), create_h(p), create_title(p), handle_id(r))
        &&& r matches Ok(o) ==> o matches Opened::Handle(res) && res.kind == ResourceKind::Window
            && res.seek == 0
    } else if host(url) == launch_name() {
        &&& s1 == s0
        &&& r matches Ok(o) ==> o matches Opened::Launch { package, path: lp } && lp@ == p && package
            < pkgs.len() && package_accepts(pkgs[package as int].accepts@, p) && forall|k: int|
            0 <= k < package ==> !package_accepts(#[trigger] pkgs[k].accepts@, p)
        &&& r is Err ==> r == Err::<Opened, OrbError>(OrbError::NotFound) && forall|k: int|
            0 <= k < pkgs.len() ==> !package_accepts(#[trigger] pkgs[k].accepts@, p)
    } else {
        let id = host_id(url)->Some_0;
        let kind = property_of(p)->Some_0;
        &&& s1.session == s0.session
        &&& s1.next_x == s0.next_x && s1.next_y == s0.next_y
        &&& s1.next_window_id == s0.next_window_id
        &&& handle_opened(s0.windows, s1.windows, id, unit_result(r))
        &&& r matches Ok(o) ==> o matches Opened::Handle(res) && res == (Resource { id, kind, seek: 0 })
    }
}

impl Scheme {
    pub open spec fn wf(&self) -> bool {
        &&& self.windows.wf()
        &&& self.windows.ids_below(self.next_window_id)
        &&& 0 <= self.next_x <= self.session.display_width + CASCADE_STEP
        &&& 0 <= self.next_y <= self.session.display_height + CASCADE_STEP
    }

    /// A server with no windows; the first window gets id 1.
    pub fn new(display_width: u32, display_height: u32, packages: Vec<Package>) -> (r: Scheme)
        ensures
            r.wf(),
            r.session.display_width == display_width,
            r.session.display_height == display_height,
            r.session.packages@ == packages@,
            r.next_x == 0 && r.next_y == 0,
            r.next_window_id == 1,
            r.windows.entries@.len() == 0,
    {
        Scheme {
            session: Session { display_width, display_height, packages },
            next_x: 0,
            next_y: 0,
            next_window_id: 1,
            windows: WindowTable::new(),
        }
    }

    /// Hands out the next window id; `None` once the id space is used up.
    pub fn next_id(&mut self) -> (r: Option<u64>)
        requires
            old(self).wf(),
        ensures
            final(self).wf(),
            final(self).session == old(self).session,
            final(self).windows == old(self).windows,
            final(self).next_x == old(self).next_x && final(self).next_y == old(self).next_y,
            old(self).next_window_id == u64::MAX ==> r is None && final(self).next_window_id
                == old(self).next_window_id,
            old(self).next_window_id < u64::MAX ==> r == Some(old(self).next_window_id)
                && final(self).next_window_id == old(self).next_window_id + 1,
    {
        if self.next_window_id == u64::MAX {
            None
        } else {
            let id = self.next_window_id;
            self.next_window_id = self.next_window_id + 1;
            Some(id)
        }
    }

    /// Creates a window with one open handle and returns its id. A window
    /// asked for at a coordinate that is not positive is placed by the
    /// cascade. `Exhausted` when the ids are used up or the size does not
    /// fit in memory.
    pub fn create(&mut self, x: i64, y: i64, w: u64, h: u64, title: &[u8]) -> (r: Result<
        u64,
        OrbError,
    >)
        requires
            old(self).wf(),
        ensures
            final(self).wf(),
            created(*old(self), *final(self), x, y, w, h, title@, r),
    {
        let mut px = x;
        let mut py = y;
        if x <= 0 || y <= 0 {
            if self.next_x as i128 > self.session.display_width as i128 - w as i128 {
                self.next_x = 0;
            }
            self.next_x = self.next_x + CASCADE_STEP;
            px = self.next_x;
            if self.next_y as i128 > self.session.display_height as i128 - h as i128 {
                self.next_y = 0;
            }
            self.next_y = self.next_y + CASCADE_STEP;
            py = self.next_y;
        }
        if w > usize::MAX as u64 || h > usize::MAX as u64 {
            return Err(OrbError::Exhausted);
        }
        let window = match Window::new(px, py, w as usize, h as usize, title) {
            Ok(win) => win,
            Err(e) => {
                return Err(e);
            },
        };
        let id = match self.next_id() {
            Some(id) => id,
            None => {
                return Err(OrbError::Exhausted);
            },
        };
        self.windows.insert(id, window);
        assert(self.windows.entries@.drop_last() =~= old(self).windows.entries@);
        Ok(id)
    }

    /// Opens one more handle on the window `id`, on the view `kind`.
    pub fn open_view(&mut self, id: u64, kind: ResourceKind) -> (r: Result<Resource, OrbError>)
        requires
            old(self).wf(),
        ensures
            final(self).wf(),
            final(self).session == old(self).session,
            final(self).next_x == old(self).next_x && final(self).next_y == old(self).next_y,
            final(self).next_window_id == old(self).next_window_id,
            handle_opened(old(self).windows, final(self).windows, id, unit_result(r)),
            r matches Ok(res) ==> (res == Resource { id, kind, seek: 0 }),
    {
        match self.windows.acquire(id) {
            Ok(()) => {
                assert(self.windows.ids_below(self.next_window_id)) by {
                    assert forall|a: int| 0 <= a < self.windows.entries@.len() implies #[trigger] self.windows.entries@[a].id < self.next_window_id by {
                        assert(old(self).windows.entries@[a].id < old(self).next_window_id);
                    }
                }
                Ok(Resource::new(kind, id))
            },
            Err(e) => Err(e),
        }
    }

    /// Opens the address `url`: creates a window, opens a view on a live
    /// window, or finds the application to launch for a path. `NotFound`
    /// when the address is malformed, names no live window or view, or no
    /// application accepts the path.
    pub fn open(&mut self, url: &[u8]) -> (r: Result<Opened, OrbError>)
        requires
            old(self).wf(),
        ensures
            final(self).wf(),
            opened(*old(self), *final(self), url@, r),
    {
        match parse_address(url) {
            Err(e) => Err(e),
            Ok(Request::Create { x, y, w, h, title }) => match self.create(x, y, w, h, title.as_slice()) {
                Ok(id) => Ok(Opened::Handle(Resource::new(ResourceKind::Window, id))),
                Err(e) => Err(e),
            },
            Ok(Request::Launch { path }) => match find_package(&self.session.packages, path.as_slice()) {
                Some(i) => Ok(Opened::Launch { package: i, path }),
                None => Err(OrbError::NotFound),
            },
            Ok(Request::Open { id, kind }) => match self.open_view(id, kind) {
                Ok(res) => Ok(Opened::Handle(res)),
                Err(e) => Err(e),
            },
        }
    }

    /// Closes a handle; the window is destroyed with its last handle.
    pub fn close(&mut self, res: &Resource) -> (r: Result<(), OrbError>)
        requires
            old(self).wf(),
        ensures
            final(self).wf(),
            final(self).session == old(self).session,
            final(self).next_x == old(self).next_x && final(self).next_y == old(self).next_y,
            final(self).next_window_id == old(self).next_window_id,
            !old(self).windows.has(res.id) ==> r == Err::<(), OrbError>(OrbError::NotFound)
                && final(self).windows.entries@ == old(self).windows.entries@,
            old(self).windows.has(res.id) ==> ({
                let t0 = old(self).windows.entries@;
                let i = old(self).windows.index(res.id);
                &&& r is Ok
                &&& t0[i].handles == 1 ==> final(self).windows.entries@ == t0.remove(i)
                &&& t0[i].handles > 1 ==> final(self).windows.entries@ == t0.update(
                    i,
                    Entry { handles: (t0[i].handles - 1) as u64, ..t0[i] },
                )
            }),
    {
        let r = self.windows.release(res.id);
        assert forall|a: int| 0 <= a < self.windows.entries@.len() implies #[trigger] self.windows.entries@[a].id < self.next_window_id by {
            if old(self).windows.has(res.id) && old(self).windows.entries@[old(self).windows.index(res.id)].handles == 1 {
                let i = old(self).windows.index(res.id);
                let a0 = if a < i { a } else { a + 1 };
                assert(old(self).windows.entries@[a0].id < old(self).next_window_id);
            } else {
                assert(old(self).windows.entries@[a].id < old(self).next_window_id);
            }
        }
        r
    }

    /// Delivers an input event to the topmost window, the one created last;
    /// with no window it is dropped.
    pub fn event(&mut self, e: InputEvent)
        requires
            old(self).wf(),
        ensures
            final(self).wf(),
            final(self).session == old(self).session,
            final(self).next_x == old(self).next_x && final(self).next_y == old(self).next_y,
            final(self).next_window_id == old(self).next_window_id,
            old(self).windows.entries@.len() == 0 ==> final(self).windows.entries@
                == old(self).windows.entries@,
            old(self).windows.entries@.len() > 0 ==> ({
                let i = old(self).windows.entries@.len() - 1;
                let w0 = old(self).windows.entries@[i].window;
                let w1 = final(self).windows.entries@[i].window;
                &&& old(self).windows.with_window(final(self).windows, i, w1)
                &&& w1.events@ == queued(w0.events@, e)
                &&& w1.buffer@ == w0.buffer@ && w1.title@ == w0.title@
                &&& w1.x == w0.x && w1.y == w0.y && w1.w == w0.w && w1.h == w0.h
            }),
    {
        let n = self.windows.entries.len();
        if n == 0 {
            return;
        }
        let ghost t0 = self.windows;
        assert(t0.entries@[n - 1].window.wf());
        self.windows.entries[n - 1].window.push_event(e);
        proof {
            let t = self.windows;
            assert forall|a: int| 0 <= a < t.entries@.len() implies (#[trigger] t.entries@[a]).window.wf()
                && t.entries@[a].handles >= 1 by {
                assert(t0.entries@[a].window.wf());
            }
            assert forall|a: int, b: int|
                0 <= a < b < t.entries@.len() implies #[trigger] t.entries@[a].id
                < #[trigger] t.entries@[b].id by {
                assert(t0.entries@[a].id < t0.entries@[b].id);
            }
            assert forall|a: int| 0 <= a < t.entries@.len() implies #[trigger] t.entries@[a].id < self.next_window_id by {
                assert(t0.entries@[a].id < self.next_window_id);
            }
        }
    }
}

/// A create hands out an id that no live window has, and ids from two
/// creates strictly increase, whatever ran between them: every operation
/// other than a create leaves the id counter as it was.
pub proof fn lemma_create_ids_increase(
    s0: Scheme,
    s1: Scheme,
    s2: Scheme,
    s3: Scheme,
    a: (i64, i64, u64, u64, Seq<u8>),
    b: (i64, i64, u64, u64, Seq<u8>),
    id1: u64,
    id2: u64,
)
    requires
        s0.wf(),
        created(s0, s1, a.0, a.1, a.2, a.3, a.4, Ok(id1)),
        s1.next_window_id <= s2.next_window_id,
        created(s2, s3, b.0, b.1, b.2, b.3, b.4, Ok(id2)),
    ensures
        id1 < id2,
        !s0.windows.has(id1),
{
    if s0.windows.has(id1) {
        let i = s0.windows.index(id1);
        assert(s0.windows.entries@[i].id < s0.next_window_id);
    }
}

/// The arguments of one create: position, size and title.
pub type CreateArgs = (i64, i64, u64, u64, Seq<u8>);

/// Step `k` of a run of creates handed out `ids[k]`, and the next create
/// starts from a state whose id counter is no lower than this one left.
pub open spec fn create_run(pre: Seq<Scheme>, post: Seq<Scheme>, args: Seq<CreateArgs>, ids: Seq<u64>) -> bool {
    &&& pre.len() == post.len() && post.len() == args.len() && args.len() == ids.len()
    &&& forall|k: int|
        0 <= k < pre.len() ==> created(
            #[trigger] pre[k],
            post[k],
            args[k].0,
            args[k].1,
            args[k].2,
            args[k].3,
            args[k].4,
            Ok(ids[k]),
        )
    &&& forall|k: int|
        0 <= k < pre.len() - 1 ==> (#[trigger] post[k]).next_window_id <= pre[k + 1].next_window_id
}

/// Over any run of creates, whatever ran between them, the ids handed out
/// strictly increase, so no id is handed out twice.
pub proof fn lemma_create_run_ids_increase(pre: Seq<Scheme>, post: Seq<Scheme>, args: Seq<CreateArgs>, ids: Seq<u64>)
    requires
        create_run(pre, post, args, ids),
    ensures
        forall|i: int, j: int| 0 <= i < j < ids.len() ==> #[trigger] ids[i] < #[trigger] ids[j],
{
    assert forall|i: int, j: int| 0 <= i < j < ids.len() implies #[trigger] ids[i] < #[trigger] ids[j] by {
        lemma_run_step(pre, post, args, ids, i, j);
    }
}

proof fn lemma_run_step(pre: Seq<Scheme>, post: Seq<Scheme>, args: Seq<CreateArgs>, ids: Seq<u64>, i: int, j: int)
    requires
        create_run(pre, post, args, ids),
        0 <= i < j < ids.len(),
    ensures
        ids[i] < ids[j],
    decreases j - i,
{
    assert(created(pre[j - 1], post[j - 1], args[j - 1].0, args[j - 1].1, args[j - 1].2, args[j - 1].3, args[j - 1].4, Ok(ids[j - 1])));
    assert(created(pre[j], post[j], args[j].0, args[j].1, args[j].2, args[j].3, args[j].4, Ok(ids[j])));
    assert(post[j - 1].next_window_id <= pre[j].next_window_id);
    if i < j - 1 {
        lemma_run_step(pre, post, args, ids, i, j - 1);
    }
}

/// From a fresh session, a run of creates that ask for no position and
/// never reach the display's edge cascades diagonally: the window of step
/// `k` is placed at `(32 (k + 1), 32 (k + 1))`.
pub proof fn lemma_cascade_run(pre: Seq<Scheme>, post: Seq<Scheme>, args: Seq<CreateArgs>, ids: Seq<u64>)
    requires
        create_run(pre, post, args, ids),
        pre.len() > 0,
        pre[0].next_x == 0 && pre[0].next_y == 0,
        forall|k: int|
            0 <= k < pre.len() ==> (#[trigger] args[k]).0 <= 0 && args[k].1 <= 0,
        forall|k: int|
            0 <= k < pre.len() - 1 ==> (#[trigger] post[k]).next_x == pre[k + 1].next_x
                && post[k].next_y == pre[k + 1].next_y && post[k].session == pre[k + 1].session,
        forall|k: int|
            0 <= k < pre.len() ==> CASCADE_STEP * k <= pre[0].session.display_width - (
            #[trigger] args[k]).2 && CASCADE_STEP * k <= pre[0].session.display_height - args[k].3,
    ensures
        forall|k: int|
            0 <= k < pre.len() ==> {
                let e = (#[trigger] post[k]).windows.entries@.last();
                &&& e.window.x == CASCADE_STEP * (k + 1) && e.window.y == CASCADE_STEP * (k + 1)
                &&& post[k].next_x == CASCADE_STEP * (k + 1) && post[k].next_y == CASCADE_STEP * (
                k + 1)
            },
{
    assert forall|k: int| 0 <= k < pre.len() implies {
        let e = (#[trigger] post[k]).windows.entries@.last();
        &&& e.window.x == CASCADE_STEP * (k + 1) && e.window.y == CASCADE_STEP * (k + 1)
        &&& post[k].next_x == CASCADE_STEP * (k + 1) && post[k].next_y == CASCADE_STEP * (k + 1)
    } by {
        lemma_cascade_step(pre, post, args, ids, k);
    }
}

proof fn lemma_cascade_step(pre: Seq<Scheme>, post: Seq<Scheme>, args: Seq<CreateArgs>, ids: Seq<u64>, k: int)
    requires
        create_run(pre, post, args, ids),
        0 <= k < pre.len(),
        pre[0].next_x == 0 && pre[0].next_y == 0,
        forall|m: int|
            0 <= m < pre.len() ==> (#[trigger] args[m]).0 <= 0 && args[m].1 <= 0,
        forall|m: int|
            0 <= m < pre.len() - 1 ==> (#[trigger] post[m]).next_x == pre[m + 1].next_x
                && post[m].next_y == pre[m + 1].next_y && post[m].session == pre[m + 1].session,
        forall|m: int|
            0 <= m < pre.len() ==> CASCADE_STEP * m <= pre[0].session.display_width - (
            #[trigger] args[m]).2 && CASCADE_STEP * m <= pre[0].session.display_height - args[m].3,
    ensures
        pre[k].next_x == CASCADE_STEP * k && pre[k].next_y == CASCADE_STEP * k,
        pre[k].session == pre[0].session,
        post[k].windows.entries@.last().window.x == CASCADE_STEP * (k + 1),
        post[k].windows.entries@.last().window.y == CASCADE_STEP * (k + 1),
        post[k].next_x == CASCADE_STEP * (k + 1) && post[k].next_y == CASCADE_STEP * (k + 1),
    decreases k,
{
    if k > 0 {
        lemma_cascade_step(pre, post, args, ids, k - 1);
        assert(post[k - 1].next_x == pre[k].next_x && post[k - 1].session == pre[k].session);
    }
    assert(args[k].0 <= 0 && args[k].1 <= 0);
    assert(created(pre[k], post[k], args[k].0, args[k].1, args[k].2, args[k].3, args[k].4, Ok(ids[k])));
}

/// A create address whose `x` and `y` are not decimal numbers opens exactly
/// as one whose `x` and `y` read 0, when the other fields agree: same
/// outcome, same state after, never an error of its own.
pub proof fn lemma_malformed_create_as_default(s0: Scheme, s1: Scheme, u1: Seq<u8>, u2: Seq<u8>, r: Result<Opened, OrbError>)
    requires
        address_valid(u1) && host(u1).len() == 0,
        address_valid(u2) && host(u2).len() == 0,
        has_seg(path(u1), 0) && !is_signed_decimal(seg(path(u1), 0)),
        has_seg(path(u1), 1) && !is_signed_decimal(seg(path(u1), 1)),
        create_x(path(u2)) == 0 && create_y(path(u2)) == 0,
        create_w(path(u1)) == create_w(path(u2)),
        create_h(path(u1)) == create_h(path(u2)),
        create_title(path(u1)) == create_title(path(u2)),
    ensures
        opened(s0, s1, u1, r) <==> opened(s0, s1, u2, r),
{
    lemma_malformed_position_as_omitted(path(u1));
}

} // verus!
