//! The walk up the parent directories of a path that looks for a context
//! entry (a `node_modules` directory, a `package.json`, a
//! `tsconfig.json`): which directory is checked next, which checked
//! directories are reported, and when the walk stops. The caller checks
//! each directory.
use vstd::prelude::*;
use crate::paths::{
    last_index_of, lemma_last_index_of, lemma_trim_trailing_seps, path_parent, spec_parent, trim_trailing_seps,
    trimmed_len,
};
use crate::text::{chars_eq, chars_sub, seq_starts_with, str_chars, string_from_chars};

verus! {

/// At most this many directories are checked by one walk.
pub const MAX_PROBE_DEPTH: u32 = 1000;

/// A walk from a path up towards the root directory.
pub struct ProbeWalk {
    /// The directory at which a walk that finds nothing there stops.
    pub root_dir: String,
    /// The directory checked next, if any.
    pub head: Option<String>,
    /// How many directories were checked.
    pub probes: u32,
}

/// What the walk asks for next.
pub enum ProbeStep {
    /// Check this directory for the context entry.
    Check(String),
    /// The walk is over.
    Done,
    /// The walk checked `MAX_PROBE_DEPTH` directories without ending.
    DepthExceeded,
}

pub open spec fn opt_view(o: Option<String>) -> Option<Seq<char>> {
    match o {
        Some(s) => Some(s@),
        None => None,
    }
}

/// A walk that starts at `base`.
pub fn probe_walk_start(root_dir: String, base: String) -> (r: ProbeWalk)
    ensures
        r.root_dir@ == root_dir@,
        opt_view(r.head) == Some(base@),
        r.probes == 0,
{
    ProbeWalk { root_dir, head: Some(base), probes: 0 }
}

/// The next request of the walk: an error once `MAX_PROBE_DEPTH`
/// directories were checked, the end when there is no directory left,
/// else a check of the next directory.
pub fn probe_walk_next(w: &ProbeWalk) -> (r: ProbeStep)
    ensures
        w.probes >= MAX_PROBE_DEPTH ==> r is DepthExceeded,
        w.probes < MAX_PROBE_DEPTH && w.head is None ==> r is Done,
        w.probes < MAX_PROBE_DEPTH ==> (w.head matches Some(h) ==> r matches ProbeStep::Check(c) && c@ == h@),
{
    if w.probes >= MAX_PROBE_DEPTH {
        return ProbeStep::DepthExceeded;
    }
    match &w.head {
        None => ProbeStep::Done,
        Some(h) => ProbeStep::Check(h.clone()),
    }
}

/// `dir` is the root directory or lies below it, both taken without
/// trailing separators (as `Path` compares them).
pub open spec fn within_root(dir: Seq<char>, root: Seq<char>) -> bool {
    let d = trim_trailing_seps(dir);
    let r = trim_trailing_seps(root);
    d == r || (seq_starts_with(d, r) && d.len() > r.len() && d[r.len() as int] == '/')
}

/// A prefix of a path that extends a trimmed `root` still extends it
/// after trimming.
proof fn lemma_trim_keeps_root(u: Seq<char>, root: Seq<char>)
    requires
        trim_trailing_seps(root) == root,
        u.len() >= root.len(),
        u.subrange(0, root.len() as int) == root,
    ensures
        trim_trailing_seps(u).len() >= root.len(),
        trim_trailing_seps(u).subrange(0, root.len() as int) == root,
    decreases u.len(),
{
    lemma_trim_trailing_seps(u);
    if u.len() == root.len() {
        assert(u =~= root);
    } else if u.len() > 1 && (u.last() == '/' || (u.last() == '.' && u[u.len() - 2] == '/')) {
        assert(u.drop_last().subrange(0, root.len() as int) =~= u.subrange(0, root.len() as int));
        lemma_trim_keeps_root(u.drop_last(), root);
    }
}

/// The parent of a directory strictly below the root is the root or lies
/// below it.
pub proof fn lemma_parent_within_root(dir: Seq<char>, root: Seq<char>)
    requires
        within_root(dir, root),
        trim_trailing_seps(dir) != trim_trailing_seps(root),
    ensures
        spec_parent(dir) matches Some(p) ==> within_root(p, root),
{
    let d = trim_trailing_seps(dir);
    let r = trim_trailing_seps(root);
    lemma_trim_trailing_seps(dir);
    lemma_trim_trailing_seps(root);
    lemma_last_index_of(d, '/');
    let k = r.len() as int;
    assert(d[k] == '/');
    assert(d.subrange(0, k) =~= r);
    if let Some(i) = last_index_of(d, '/') {
        assert(i >= k);
        if d.len() > 0 && d != seq!['/'] {
            if i == 0 {
                assert(k == 0);
                assert(r =~= Seq::<char>::empty());
                let q = seq!['/'];
                lemma_trim_trailing_seps(q);
                assert(trim_trailing_seps(q) == q);
                assert(q.subrange(0, 0) =~= r);
            } else {
                let u = d.subrange(0, i);
                assert(u.subrange(0, k) =~= r);
                lemma_trim_keeps_root(u, r);
                let q = trim_trailing_seps(u);
                lemma_trim_trailing_seps(u);
                assert(trim_trailing_seps(q) == q);
                if q.len() > k {
                    assert(q[k] == u[k]);
                    assert(u[k] == d[k]);
                } else {
                    assert(q =~= r);
                }
            }
        }
    }
}

/// The directory a walk checks after `head`: none once the root directory
/// has been checked, else the parent of `head`.
pub open spec fn walk_after(head: Seq<char>, root: Seq<char>) -> Option<Seq<char>> {
    if trim_trailing_seps(head) == trim_trailing_seps(root) {
        None
    } else {
        spec_parent(head)
    }
}

/// A walk that checks a directory at or below the root goes on, if at
/// all, to a directory at or below the root.
pub proof fn law_walk_stays_within_root(dir: Seq<char>, root: Seq<char>)
    requires
        within_root(dir, root),
    ensures
        walk_after(dir, root) matches Some(h) ==> within_root(h, root),
{
    if trim_trailing_seps(dir) != trim_trailing_seps(root) {
        lemma_parent_within_root(dir, root);
    }
}

/// The walk after the check of its head directory came back with `found`:
/// a found directory is reported (the `bool`); the walk ends once the root
/// directory has been checked, found or not, and otherwise goes on to the
/// head's parent. A walk that starts at or below the root never checks a
/// directory above it.
pub fn probe_walk_advance(w: &ProbeWalk, found: bool) -> (r: (ProbeWalk, bool))
    requires
        w.head is Some,
        w.probes < MAX_PROBE_DEPTH,
    ensures
        r.1 == found,
        r.0.root_dir@ == w.root_dir@,
        r.0.probes == w.probes + 1,
        opt_view(r.0.head) == walk_after(w.head->0@, w.root_dir@),
        within_root(w.head->0@, w.root_dir@) ==> (r.0.head matches Some(h) ==> within_root(h@, w.root_dir@)),
{
    let h = match &w.head {
        Some(h) => h,
        None => {
            return (ProbeWalk { root_dir: w.root_dir.clone(), head: None, probes: w.probes + 1 }, found);
        },
    };
    let hc = str_chars(h.as_str());
    let rc = str_chars(w.root_dir.as_str());
    let nh = trimmed_len(hc.as_slice());
    let nr = trimmed_len(rc.as_slice());
    let ht = chars_sub(hc.as_slice(), 0, nh);
    let rt = chars_sub(rc.as_slice(), 0, nr);
    let next = if chars_eq(ht.as_slice(), rt.as_slice()) {
        None
    } else {
        match path_parent(hc.as_slice()) {
            Some(p) => Some(string_from_chars(p.as_slice())),
            None => None,
        }
    };
    proof {
        if within_root(h@, w.root_dir@) && trim_trailing_seps(h@) != trim_trailing_seps(w.root_dir@) {
            lemma_parent_within_root(h@, w.root_dir@);
        }
    }
    (ProbeWalk { root_dir: w.root_dir.clone(), head: next, probes: w.probes + 1 }, found)
}

} // verus!
