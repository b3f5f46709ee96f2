//! The search for a package import in the `node_modules` directories from a
//! base directory up to the monorepo root, with the per-directory memory of
//! earlier answers. The library decides each step; the caller checks
//! directories, reads package.json files and looks for files, and hands
//! back what it found.
use vstd::prelude::*;
use crate::import_calls::opt_str;
use crate::js_err::AnyError;
use crate::node_resolution::{
    node_modules_target, opt_model, push_joined, spec_node_modules_target, CachedResolution, PackageJsonRewriteData,
};
use crate::paths::spec_push;
use crate::pkgjson_exports::RewriteModel;
use crate::pkgname::{spec_package_name, split_package_import};
use crate::probe_walk::{
    law_walk_stays_within_root, opt_view, probe_walk_advance, probe_walk_next, probe_walk_start, walk_after, within_root, ProbeStep,
    ProbeWalk, MAX_PROBE_DEPTH,
};
use crate::text::{str_eq, string_seq_views};

verus! {

/// A remembered answer: `resolution` for the import `target` in the
/// `node_modules` directory of `dir`.
pub struct NmCacheEntry {
    pub dir: String,
    pub target: String,
    pub resolution: CachedResolution,
}

pub enum CachedView {
    Resolution(Seq<char>),
    NoResolution,
}

pub open spec fn cached_view(c: CachedResolution) -> CachedView {
    match c {
        CachedResolution::Resolution(p) => CachedView::Resolution(p@),
        CachedResolution::NoResolution => CachedView::NoResolution,
    }
}

pub open spec fn cache_view(c: Seq<NmCacheEntry>) -> Seq<(Seq<char>, Seq<char>, CachedView)> {
    c.map_values(|e: NmCacheEntry| (e.dir@, e.target@, cached_view(e.resolution)))
}

/// The answer remembered for `target` in `dir`: the latest entry for the
/// two, as a map keyed by both keeps only the last one inserted.
pub open spec fn cache_lookup(c: Seq<(Seq<char>, Seq<char>, CachedView)>, dir: Seq<char>, target: Seq<char>) -> Option<CachedView>
    decreases c.len(),
{
    if c.len() == 0 {
        None
    } else if c.last().0 == dir && c.last().1 == target {
        Some(c.last().2)
    } else {
        cache_lookup(c.drop_last(), dir, target)
    }
}

/// Where a search stands.
pub enum NmPhase {
    /// Nothing was asked yet.
    Start,
    /// Waiting to learn whether `dir` holds a `node_modules` directory.
    AwaitDir { dir: String },
    /// Waiting for the package.json of `pkg_dir` (in `dir`'s `node_modules`).
    AwaitPackage { dir: String, pkg_dir: String },
    /// Waiting to learn which file `path` (in `dir`'s `node_modules`) names.
    AwaitFile { dir: String, path: String },
    /// The search is over.
    Finished { result: Result<Option<String>, String> },
}

pub enum NmPhaseView {
    Start,
    AwaitDir(Seq<char>),
    AwaitPackage(Seq<char>, Seq<char>),
    AwaitFile(Seq<char>, Seq<char>),
    Finished(Result<Option<Seq<char>>, Seq<char>>),
}

pub open spec fn result_view(r: Result<Option<String>, String>) -> Result<Option<Seq<char>>, Seq<char>> {
    match r {
        Ok(o) => Ok(opt_str(o)),
        Err(e) => Err(e@),
    }
}

impl View for NmPhase {
    type V = NmPhaseView;

    open spec fn view(&self) -> NmPhaseView {
        match self {
            NmPhase::Start => NmPhaseView::Start,
            NmPhase::AwaitDir { dir } => NmPhaseView::AwaitDir(dir@),
            NmPhase::AwaitPackage { dir, pkg_dir } => NmPhaseView::AwaitPackage(dir@, pkg_dir@),
            NmPhase::AwaitFile { dir, path } => NmPhaseView::AwaitFile(dir@, path@),
            NmPhase::Finished { result } => NmPhaseView::Finished(result_view(*result)),
        }
    }
}

/// A search for one import.
pub struct NodeModulesSearch {
    /// The walk over the directories from the base up to the root.
    pub walk: ProbeWalk,
    /// The import, such as `react` or `@scope/pkg/sub`.
    pub target: String,
    /// The export conditions that package exports are matched against.
    pub conditions: Vec<String>,
    /// What earlier searches learned, per directory and import.
    pub cache: Vec<NmCacheEntry>,
    pub phase: NmPhase,
}

pub struct NmSearchView {
    pub root: Seq<char>,
    pub head: Option<Seq<char>>,
    pub probes: nat,
    pub target: Seq<char>,
    pub conditions: Seq<Seq<char>>,
    pub cache: Seq<(Seq<char>, Seq<char>, CachedView)>,
    pub phase: NmPhaseView,
}

impl View for NodeModulesSearch {
    type V = NmSearchView;

    open spec fn view(&self) -> NmSearchView {
        NmSearchView {
            root: self.walk.root_dir@,
            head: opt_view(self.walk.head),
            probes: self.walk.probes as nat,
            target: self.target@,
            conditions: string_seq_views(self.conditions@),
            cache: cache_view(self.cache@),
            phase: self.phase@,
        }
    }
}

/// What the caller hands back.
pub enum NmEvent {
    /// Go (the first step).
    Begin,
    /// Whether the directory asked about holds a `node_modules` directory.
    DirChecked(bool),
    /// The derived data of the package.json asked for, if there is one.
    PackageRead(Option<PackageJsonRewriteData>),
    /// The file that the path asked about names, if any.
    FileResolved(Option<String>),
    /// The request failed with this message.
    Failed(String),
}

pub enum NmEventView {
    Begin,
    DirChecked(bool),
    PackageRead(Option<RewriteModel>),
    FileResolved(Option<Seq<char>>),
    Failed(Seq<char>),
}

impl View for NmEvent {
    type V = NmEventView;

    open spec fn view(&self) -> NmEventView {
        match self {
            NmEvent::Begin => NmEventView::Begin,
            NmEvent::DirChecked(b) => NmEventView::DirChecked(*b),
            NmEvent::PackageRead(p) => NmEventView::PackageRead(match p {
                Some(rw) => opt_model(rw.exports),
                None => None,
            }),
            NmEvent::FileResolved(f) => NmEventView::FileResolved(opt_str(*f)),
            NmEvent::Failed(m) => NmEventView::Failed(m@),
        }
    }
}

/// What the caller is asked to do.
pub enum NmAction {
    /// Check whether this directory holds a `node_modules` directory.
    CheckDir(String),
    /// Read the package.json of this package directory and derive its data.
    ReadPackage(String),
    /// Find the file this path names, as a file or as a directory.
    ResolveFile(String),
    /// The search is over: the file found, none, or an error.
    Finish(Result<Option<String>, String>),
}

pub enum NmActionView {
    CheckDir(Seq<char>),
    ReadPackage(Seq<char>),
    ResolveFile(Seq<char>),
    Finish(Result<Option<Seq<char>>, Seq<char>>),
}

impl View for NmAction {
    type V = NmActionView;

    open spec fn view(&self) -> NmActionView {
        match self {
            NmAction::CheckDir(d) => NmActionView::CheckDir(d@),
            NmAction::ReadPackage(d) => NmActionView::ReadPackage(d@),
            NmAction::ResolveFile(p) => NmActionView::ResolveFile(p@),
            NmAction::Finish(r) => NmActionView::Finish(result_view(*r)),
        }
    }
}

pub open spec fn depth_message() -> Seq<char> {
    "Max probe depth reached while searching for node_modules in parent directories"@
}

pub open spec fn with_phase(s: NmSearchView, p: NmPhaseView) -> NmSearchView {
    NmSearchView { phase: p, ..s }
}

pub open spec fn finish(s: NmSearchView, r: Result<Option<Seq<char>>, Seq<char>>) -> (NmSearchView, NmActionView) {
    (with_phase(s, NmPhaseView::Finished(r)), NmActionView::Finish(r))
}

/// The next directory of the walk is asked about; the search ends when
/// the walk does.
pub open spec fn nm_walk(s: NmSearchView) -> (NmSearchView, NmActionView) {
    if s.probes >= MAX_PROBE_DEPTH {
        finish(s, Err(depth_message()))
    } else {
        match s.head {
            None => finish(s, Ok(None)),
            Some(h) => (with_phase(s, NmPhaseView::AwaitDir(h)), NmActionView::CheckDir(h)),
        }
    }
}

/// The package directory of `target` in the `node_modules` of `dir`.
pub open spec fn nm_package_dir(dir: Seq<char>, pkg: Seq<char>) -> Seq<char> {
    spec_push(spec_push(dir, "node_modules"@), pkg)
}

/// A search state as the steps leave it: while a directory is asked
/// about, it is the head of the walk, which has not run out of probes.
pub open spec fn nm_wf(s: NmSearchView) -> bool {
    s.phase matches NmPhaseView::AwaitDir(d) ==> s.head == Some(d) && s.probes < MAX_PROBE_DEPTH
}

/// One step of the search. A directory without `node_modules` is passed
/// over; in one with it, a remembered answer is used as it stands (a
/// resolution ends the search, a failure passes the directory over);
/// else the import is looked up there through the package's exports, and
/// what the lookup gives is remembered for that directory. A failed
/// request ends the search with its message; an event that does not
/// answer the pending request leaves the state as it is and asks again.
pub open spec fn spec_nm_step(s: NmSearchView, e: NmEventView) -> (NmSearchView, NmActionView) {
    match s.phase {
        NmPhaseView::Start => nm_walk(s),
        NmPhaseView::Finished(r) => (s, NmActionView::Finish(r)),
        NmPhaseView::AwaitDir(dir) => match e {
            NmEventView::Failed(m) => finish(s, Err(m)),
            NmEventView::DirChecked(found) => {
                let s1 = NmSearchView { head: walk_after(dir, s.root), probes: s.probes + 1, ..s };
                if !found {
                    nm_walk(s1)
                } else {
                    match cache_lookup(s.cache, dir, s.target) {
                        Some(CachedView::Resolution(p)) => finish(s1, Ok(Some(p))),
                        Some(CachedView::NoResolution) => nm_walk(s1),
                        None => match spec_package_name(s.target) {
                            None => nm_walk(s1),
                            Some(pkg) => {
                                let pd = nm_package_dir(dir, pkg);
                                (with_phase(s1, NmPhaseView::AwaitPackage(dir, pd)), NmActionView::ReadPackage(pd))
                            },
                        },
                    }
                }
            },
            _ => (s, NmActionView::CheckDir(dir)),
        },
        NmPhaseView::AwaitPackage(dir, pd) => match e {
            NmEventView::Failed(m) => finish(s, Err(m)),
            NmEventView::PackageRead(x) => match spec_node_modules_target(dir, s.target, x, s.conditions) {
                Err(m) => finish(s, Err(m)),
                Ok(None) => nm_walk(s),
                Ok(Some(p)) => (with_phase(s, NmPhaseView::AwaitFile(dir, p)), NmActionView::ResolveFile(p)),
            },
            _ => (s, NmActionView::ReadPackage(pd)),
        },
        NmPhaseView::AwaitFile(dir, p) => match e {
            NmEventView::Failed(m) => finish(s, Err(m)),
            NmEventView::FileResolved(Some(f)) => {
                let s1 = NmSearchView { cache: s.cache.push((dir, s.target, CachedView::Resolution(f))), ..s };
                finish(s1, Ok(Some(f)))
            },
            NmEventView::FileResolved(None) => {
                let s1 = NmSearchView { cache: s.cache.push((dir, s.target, CachedView::NoResolution)), ..s };
                nm_walk(s1)
            },
            _ => (s, NmActionView::ResolveFile(p)),
        },
    }
}

/// A search for `target` from the directory `abs_base` up to `root_dir`,
/// with what earlier searches remembered in `cache`.
pub fn node_modules_search(
    root_dir: String,
    abs_base: String,
    target: String,
    conditions: Vec<String>,
    cache: Vec<NmCacheEntry>,
) -> (r: NodeModulesSearch)
    ensures
        nm_wf(r@),
        r@ == (NmSearchView {
            root: root_dir@,
            head: Some(abs_base@),
            probes: 0,
            target: target@,
            conditions: string_seq_views(conditions@),
            cache: cache_view(cache@),
            phase: NmPhaseView::Start,
        }),
{
    let walk = probe_walk_start(root_dir, abs_base);
    NodeModulesSearch { walk, target, conditions, cache, phase: NmPhase::Start }
}

/// The remembered answer for `target` in `dir`.
pub fn cache_find(cache: &Vec<NmCacheEntry>, dir: &str, target: &str) -> (r: Option<CachedResolution>)
    ensures
        match r {
            Some(c) => cache_lookup(cache_view(cache@), dir@, target@) == Some(cached_view(c)),
            None => cache_lookup(cache_view(cache@), dir@, target@) is None,
        },
{
    let mut i: usize = cache.len();
    assert(cache@.subrange(0, i as int) =~= cache@);
    while i > 0
        invariant
            i <= cache@.len(),
            cache_lookup(cache_view(cache@), dir@, target@) == cache_lookup(cache_view(cache@.subrange(0, i as int)), dir@, target@),
        decreases i,
    {
        let ghost sub = cache@.subrange(0, i as int);
        assert(cache_view(sub).last() == cache_view(cache@)[i - 1]);
        assert(cache_view(sub).drop_last() =~= cache_view(cache@.subrange(0, i - 1)));
        let e = &cache[i - 1];
        if str_eq(e.dir.as_str(), dir) && str_eq(e.target.as_str(), target) {
            let c = match &e.resolution {
                CachedResolution::Resolution(p) => CachedResolution::Resolution(p.clone()),
                CachedResolution::NoResolution => CachedResolution::NoResolution,
            };
            return Some(c);
        }
        i = i - 1;
    }
    assert(cache_view(cache@.subrange(0, 0)).len() == 0);
    None
}

fn with_phase_exec(s: NodeModulesSearch, p: NmPhase) -> (r: NodeModulesSearch)
    ensures
        r@ == with_phase(s@, p@),
{
    NodeModulesSearch { phase: p, ..s }
}

fn finish_exec(s: NodeModulesSearch, res: Result<Option<String>, String>) -> (r: (NodeModulesSearch, NmAction))
    ensures
        (r.0@, r.1@) == finish(s@, result_view(res)),
        nm_wf(r.0@),
{
    let a = match &res {
        Ok(Some(p)) => Ok(Some(p.clone())),
        Ok(None) => Ok(None),
        Err(m) => Err(m.clone()),
    };
    (with_phase_exec(s, NmPhase::Finished { result: res }), NmAction::Finish(a))
}

fn walk_exec(s: NodeModulesSearch) -> (r: (NodeModulesSearch, NmAction))
    ensures
        (r.0@, r.1@) == nm_walk(s@),
        nm_wf(r.0@),
{
    match probe_walk_next(&s.walk) {
        ProbeStep::DepthExceeded => {
            let m = String::from_str("Max probe depth reached while searching for node_modules in parent directories");
            finish_exec(s, Err(m))
        },
        ProbeStep::Done => finish_exec(s, Ok(None)),
        ProbeStep::Check(h) => {
            let h2 = h.clone();
            (with_phase_exec(s, NmPhase::AwaitDir { dir: h }), NmAction::CheckDir(h2))
        },
    }
}

/// One step of the search (see `spec_nm_step`).
pub fn node_modules_step(s: NodeModulesSearch, e: NmEvent) -> (r: (NodeModulesSearch, NmAction))
    requires
        nm_wf(s@),
    ensures
        (r.0@, r.1@) == spec_nm_step(s@, e@),
        nm_wf(r.0@),
{
    match &s.phase {
        NmPhase::Start => walk_exec(s),
        NmPhase::Finished { result } => {
            let a = match result {
                Ok(Some(p)) => Ok(Some(p.clone())),
                Ok(None) => Ok(None),
                Err(m) => Err(m.clone()),
            };
            (s, NmAction::Finish(a))
        },
        NmPhase::AwaitDir { dir } => {
            let dir = dir.clone();
            match e {
                NmEvent::Failed(m) => finish_exec(s, Err(m)),
                NmEvent::DirChecked(found) => {
                    let ghost s0 = s@;
                    let (walk, _) = probe_walk_advance(&s.walk, found);
                    let s1 = NodeModulesSearch { walk, ..s };
                    assert(s1@ == NmSearchView { head: walk_after(dir@, s0.root), probes: s0.probes + 1, ..s0 });
                    if !found {
                        return walk_exec(s1);
                    }
                    match cache_find(&s1.cache, dir.as_str(), s1.target.as_str()) {
                        Some(CachedResolution::Resolution(p)) => finish_exec(s1, Ok(Some(p))),
                        Some(CachedResolution::NoResolution) => walk_exec(s1),
                        None => match split_package_import(s1.target.as_str()) {
                            None => walk_exec(s1),
                            Some((pkg, _)) => {
                                let nm = push_joined(dir.as_str(), "node_modules");
                                let pd = push_joined(nm.as_str(), pkg);
                                let pd2 = pd.clone();
                                (with_phase_exec(s1, NmPhase::AwaitPackage { dir, pkg_dir: pd }), NmAction::ReadPackage(pd2))
                            },
                        },
                    }
                },
                _ => (s, NmAction::CheckDir(dir)),
            }
        },
        NmPhase::AwaitPackage { dir, pkg_dir } => {
            let dir = dir.clone();
            let pd = pkg_dir.clone();
            match e {
                NmEvent::Failed(m) => finish_exec(s, Err(m)),
                NmEvent::PackageRead(x) => {
                    let t = node_modules_target(dir.as_str(), s.target.as_str(), x.as_ref(), &s.conditions);
                    match t {
                        Err(AnyError::Message(m)) => finish_exec(s, Err(m)),
                        Err(AnyError::Js(_)) => {
                            // node_modules_target fails only with a message
                            assert(false);
                            finish_exec(s, Ok(None))
                        },
                        Ok(None) => walk_exec(s),
                        Ok(Some(p)) => {
                            let p2 = p.clone();
                            (with_phase_exec(s, NmPhase::AwaitFile { dir, path: p }), NmAction::ResolveFile(p2))
                        },
                    }
                },
                _ => (s, NmAction::ReadPackage(pd)),
            }
        },
        NmPhase::AwaitFile { dir, path } => {
            let dir = dir.clone();
            let p = path.clone();
            match e {
                NmEvent::Failed(m) => finish_exec(s, Err(m)),
                NmEvent::FileResolved(Some(f)) => {
                    let ghost s0 = s@;
                    let ghost dv = dir@;
                    let mut s1 = s;
                    let entry = NmCacheEntry { dir, target: s1.target.clone(), resolution: CachedResolution::Resolution(f.clone()) };
                    s1.cache.push(entry);
                    assert(cache_view(s1.cache@) =~= s0.cache.push((dv, s0.target, CachedView::Resolution(f@))));
                    finish_exec(s1, Ok(Some(f)))
                },
                NmEvent::FileResolved(None) => {
                    let ghost s0 = s@;
                    let ghost dv = dir@;
                    let mut s1 = s;
                    let entry = NmCacheEntry { dir, target: s1.target.clone(), resolution: CachedResolution::NoResolution };
                    s1.cache.push(entry);
                    assert(cache_view(s1.cache@) =~= s0.cache.push((dv, s0.target, CachedView::NoResolution)));
                    walk_exec(s1)
                },
                _ => (s, NmAction::ResolveFile(p)),
            }
        },
    }
}

/// A file found in a directory's `node_modules` ends the search and is
/// remembered for that directory and import.
pub proof fn law_resolution_is_remembered(s: NmSearchView, f: Seq<char>)
    requires
        s.phase is AwaitFile,
    ensures
        spec_nm_step(s, NmEventView::FileResolved(Some(f))).1 == NmActionView::Finish(Ok(Some(f))),
        cache_lookup(spec_nm_step(s, NmEventView::FileResolved(Some(f))).0.cache, s.phase->AwaitFile_0, s.target)
            == Some(CachedView::Resolution(f)),
{
}

/// A lookup that finds no file is remembered as a failure for that
/// directory and import.
pub proof fn law_failure_is_remembered(s: NmSearchView)
    requires
        s.phase is AwaitFile,
    ensures
        cache_lookup(spec_nm_step(s, NmEventView::FileResolved(None)).0.cache, s.phase->AwaitFile_0, s.target)
            == Some(CachedView::NoResolution),
{
}

/// In a directory with a remembered answer, nothing is read: a remembered
/// file is the result, a remembered failure passes on to the next
/// directory.
pub proof fn law_remembered_answer_is_used(s: NmSearchView)
    requires
        s.phase is AwaitDir,
        cache_lookup(s.cache, s.phase->AwaitDir_0, s.target) is Some,
    ensures
        match cache_lookup(s.cache, s.phase->AwaitDir_0, s.target) {
            Some(CachedView::Resolution(p)) => spec_nm_step(s, NmEventView::DirChecked(true)).1 == NmActionView::Finish(Ok(Some(p))),
            _ => spec_nm_step(s, NmEventView::DirChecked(true)) == nm_walk(NmSearchView {
                head: walk_after(s.phase->AwaitDir_0, s.root),
                probes: s.probes + 1,
                ..s
            }),
        },
{
}

/// No step forgets what was remembered: the memory only grows at its end.
pub proof fn law_memory_only_grows(s: NmSearchView, e: NmEventView)
    ensures
        s.cache.len() <= spec_nm_step(s, e).0.cache.len(),
        spec_nm_step(s, e).0.cache.subrange(0, s.cache.len() as int) == s.cache,
{
    let c = spec_nm_step(s, e).0.cache;
    assert(c.subrange(0, s.cache.len() as int) =~= s.cache);
}

/// The directories of a search lie at or below the root: the next one to
/// check and the one asked about.
pub open spec fn nm_within_root(s: NmSearchView) -> bool {
    &&& s.head matches Some(h) ==> within_root(h, s.root)
    &&& s.phase matches NmPhaseView::AwaitDir(d) ==> within_root(d, s.root)
}

/// A search that starts at or below the monorepo root never asks about a
/// directory above it.
pub proof fn law_search_stays_within_root(s: NmSearchView, e: NmEventView)
    requires
        nm_wf(s),
        nm_within_root(s),
    ensures
        nm_within_root(spec_nm_step(s, e).0),
        spec_nm_step(s, e).1 matches NmActionView::CheckDir(d) ==> within_root(d, s.root),
        spec_nm_step(s, e).0.root == s.root,
{
    if let NmPhaseView::AwaitDir(dir) = s.phase {
        law_walk_stays_within_root(dir, s.root);
    }
}

} // verus!
