//! Choosing the application that opens a path.
use vstd::prelude::*;

verus! {

pub const STAR: u8 = 42;

/// An application and the path patterns it accepts.
pub struct Package {
    /// Path of the program to run.
    pub binary: Vec<u8>,
    /// Patterns `*suffix` or `prefix*`.
    pub accepts: Vec<Vec<u8>>,
}

pub open spec fn starts_with(s: Seq<u8>, pre: Seq<u8>) -> bool {
    pre.len() <= s.len() && s.subrange(0, pre.len() as int) == pre
}

pub open spec fn ends_with(s: Seq<u8>, suf: Seq<u8>) -> bool {
    suf.len() <= s.len() && s.subrange(s.len() - suf.len(), s.len() as int) == suf
}

/// `*suffix` accepts paths that end with `suffix`; `prefix*` accepts paths
/// that start with `prefix`.
pub open spec fn pattern_accepts(pat: Seq<u8>, path: Seq<u8>) -> bool {
    ||| (pat.len() > 0 && pat[0] == STAR && ends_with(path, pat.skip(1)))
    ||| (pat.len() > 0 && pat.last() == STAR && starts_with(path, pat.drop_last()))
}

pub open spec fn package_accepts(accepts: Seq<Vec<u8>>, path: Seq<u8>) -> bool {
    exists|j: int| 0 <= j < accepts.len() && pattern_accepts(#[trigger] accepts[j]@, path)
}

/// `s[at..at + n)` equals `t[from..from + n)`.
fn slices_equal(s: &[u8], at: usize, t: &[u8], from: usize, n: usize) -> (r: bool)
    requires
        at + n <= s@.len(),
        from + n <= t@.len(),
        at + n <= usize::MAX,
        from + n <= usize::MAX,
    ensures
        r == (s@.subrange(at as int, at + n) == t@.subrange(from as int, from + n)),
{
    let mut i: usize = 0;
    assert(s@.subrange(at as int, at as int) =~= t@.subrange(from as int, from as int));
    while i < n
        invariant
            i <= n,
            at + n <= s@.len(),
            from + n <= t@.len(),
            at + n <= usize::MAX,
            from + n <= usize::MAX,
            s@.subrange(at as int, at + i) == t@.subrange(from as int, from + i),
        decreases n - i,
    {
        if s[at + i] != t[from + i] {
            assert(s@.subrange(at as int, at + n)[i as int] != t@.subrange(
                from as int,
                from + n,
            )[i as int]);
            return false;
        }
        assert(s@.subrange(at as int, at + i + 1) =~= s@.subrange(at as int, at + i).push(s@[at + i]));
        assert(t@.subrange(from as int, from + i + 1) =~= t@.subrange(from as int, from + i).push(t@[from + i]));
        i = i + 1;
    }
    true
}

/// Whether the pattern `pat` accepts `path`.
pub fn accepts(pat: &[u8], path: &[u8]) -> (r: bool)
    ensures
        r == pattern_accepts(pat@, path@),
{
    let n = pat.len();
    if n == 0 {
        return false;
    }
    if pat[0] == STAR {
        assert(pat@.skip(1) =~= pat@.subrange(1, n as int));
        if n - 1 <= path.len() {
            let at = path.len() - (n - 1);
            if slices_equal(path, at, pat, 1, n - 1) {
                return true;
            }
        }
    }
    if pat[n - 1] == STAR {
        assert(pat@.drop_last() =~= pat@.subrange(0, n - 1));
        if n - 1 <= path.len() {
            return slices_equal(path, 0, pat, 0, n - 1);
        }
    }
    false
}

/// The first package with a pattern that accepts `path`.
pub fn find_package(packages: &Vec<Package>, path: &[u8]) -> (r: Option<usize>)
    ensures
        r matches Some(i) ==> i < packages@.len() && package_accepts(
            packages@[i as int].accepts@,
            path@,
        ),
        r matches Some(i) ==> forall|k: int|
            0 <= k < i ==> !package_accepts(#[trigger] packages@[k].accepts@, path@),
        r is None ==> forall|k: int|
            0 <= k < packages@.len() ==> !package_accepts(#[trigger] packages@[k].accepts@, path@),
{
    let mut i: usize = 0;
    while i < packages.len()
        invariant
            i <= packages@.len(),
            forall|k: int| 0 <= k < i ==> !package_accepts(#[trigger] packages@[k].accepts@, path@),
        decreases packages@.len() - i,
    {
        let pats = &packages[i].accepts;
        let mut j: usize = 0;
        while j < pats.len()
            invariant
                j <= pats@.len(),
                i < packages@.len(),
                pats@ == packages@[i as int].accepts@,
                forall|k: int| 0 <= k < i ==> !package_accepts(#[trigger] packages@[k].accepts@, path@),
                forall|m: int| 0 <= m < j ==> !pattern_accepts(#[trigger] pats@[m]@, path@),
            decreases pats@.len() - j,
        {
            if accepts(pats[j].as_slice(), path) {
                assert(pattern_accepts(pats@[j as int]@, path@));
                return Some(i);
            }
            j = j + 1;
        }
        assert(!package_accepts(packages@[i as int].accepts@, path@));
        i = i + 1;
    }
    None
}

} // verus!
