//! Fence definitions (`fence.json`) and the lookup of the fences that
//! govern a path.
use vstd::prelude::*;
use crate::paths::{diff_paths, diffed_path, path_ancestors, path_push, spec_ancestors, spec_push};
use crate::text::{chars_eq, str_chars};

verus! {

/// One `dependencies` entry of a fence.
#[derive(Debug, PartialEq, Eq)]
pub struct DependencyRule {
    pub dependency: String,
    pub accessible_to: Vec<String>,
}

/// One `exports` entry of a fence.
#[derive(Debug, PartialEq, Eq)]
pub struct ExportRule {
    pub accessible_to: Vec<String>,
    pub modules: String,
}

/// The content of a `fence.json` file.
#[derive(Debug, PartialEq, Eq)]
pub struct ParsedFence {
    pub tags: Option<Vec<String>>,
    pub exports: Option<Vec<ExportRule>>,
    pub dependencies: Option<Vec<DependencyRule>>,
    pub imports: Option<Vec<String>>,
}

/// A fence and the workspace-relative path of its `fence.json`.
#[derive(Debug, PartialEq, Eq)]
pub struct Fence {
    pub fence_path: String,
    pub fence: ParsedFence,
}

/// All fences of a workspace, keyed by the path of their `fence.json`.
/// Keys are looked up by their first occurrence.
#[derive(Debug, PartialEq, Eq)]
pub struct FenceCollection {
    pub fences_map: Vec<(String, Fence)>,
}

/// The views of a list of strings.
pub open spec fn views(v: Seq<String>) -> Seq<Seq<char>> {
    v.map_values(|s: String| s@)
}

/// The accessibility list that a rule gets when none is written: `["*"]`.
pub open spec fn default_accessible_to() -> Seq<Seq<char>> {
    seq!["*"@]
}

fn star_list() -> (r: Vec<String>)
    ensures
        views(r@) == default_accessible_to(),
{
    let mut v: Vec<String> = Vec::new();
    v.push(String::from_str("*"));
    assert(views(v@) =~= default_accessible_to());
    v
}

impl DependencyRule {
    /// A rule read from its object form; a missing `accessibleTo` means `*`.
    pub fn from_parts(dependency: String, accessible_to: Option<Vec<String>>) -> (r: Self)
        ensures
            r.dependency == dependency,
            accessible_to matches Some(a) ==> r.accessible_to == a,
            accessible_to is None ==> views(r.accessible_to@) == default_accessible_to(),
    {
        DependencyRule {
            dependency,
            accessible_to: match accessible_to {
                Some(a) => a,
                None => star_list(),
            },
        }
    }

    /// A rule written as a bare string: accessible to everyone.
    pub fn from_str(s: &str) -> (r: Self)
        ensures
            r.dependency@ == s@,
            views(r.accessible_to@) == default_accessible_to(),
    {
        DependencyRule { dependency: String::from_str(s), accessible_to: star_list() }
    }
}

impl ExportRule {
    /// A rule read from its object form; a missing `accessibleTo` means `*`.
    pub fn from_parts(modules: String, accessible_to: Option<Vec<String>>) -> (r: Self)
        ensures
            r.modules == modules,
            accessible_to matches Some(a) ==> r.accessible_to == a,
            accessible_to is None ==> views(r.accessible_to@) == default_accessible_to(),
    {
        ExportRule {
            modules,
            accessible_to: match accessible_to {
                Some(a) => a,
                None => star_list(),
            },
        }
    }

    /// A rule written as a bare string: accessible to everyone.
    pub fn from_str(s: &str) -> (r: Self)
        ensures
            r.modules@ == s@,
            views(r.accessible_to@) == default_accessible_to(),
    {
        ExportRule { modules: String::from_str(s), accessible_to: star_list() }
    }
}

impl Fence {
    /// Makes the path of the fence relative to `base_path`.
    pub fn path_relative_to(&mut self, base_path: &str)
        requires
            diffed_path(old(self).fence_path@, base_path@) is Some,
        ensures
            final(self).fence_path@ == diffed_path(old(self).fence_path@, base_path@)->0,
            final(self).fence == old(self).fence,
    {
        match diff_paths(self.fence_path.as_str(), base_path) {
            Some(p) => {
                self.fence_path = p;
            },
            None => {},
        }
    }

    /// Makes the path of the fence relative to `base_path` when there is a
    /// relative path from it; says whether there was (the fence is
    /// unchanged otherwise).
    pub fn try_path_relative_to(&mut self, base_path: &str) -> (r: bool)
        ensures
            r == diffed_path(old(self).fence_path@, base_path@) is Some,
            r ==> final(self).fence_path@ == diffed_path(old(self).fence_path@, base_path@)->0,
            !r ==> final(self).fence_path == old(self).fence_path,
            final(self).fence == old(self).fence,
    {
        match diff_paths(self.fence_path.as_str(), base_path) {
            Some(_) => {
                self.path_relative_to(base_path);
                true
            },
            None => false,
        }
    }
}

/// The key under which the fence of directory `dir` is stored.
pub open spec fn fence_key(dir: Seq<char>) -> Seq<char> {
    spec_push(dir, "fence.json"@)
}

/// `i` is the first entry whose key is `key`.
pub open spec fn is_first_key(entries: Seq<(String, Fence)>, key: Seq<char>, i: int) -> bool {
    &&& 0 <= i < entries.len()
    &&& entries[i].0@ == key
    &&& forall|j: int| 0 <= j < i ==> entries[j].0@ != key
}

/// The entry stored under `key`, if any.
pub open spec fn lookup_fence(entries: Seq<(String, Fence)>, key: Seq<char>) -> Option<int> {
    if exists|i: int| is_first_key(entries, key, i) {
        Some(choose|i: int| is_first_key(entries, key, i))
    } else {
        None
    }
}

/// The entries of the fences stored for the given directories, in order.
pub open spec fn fence_indices(entries: Seq<(String, Fence)>, dirs: Seq<Seq<char>>) -> Seq<int>
    decreases dirs.len(),
{
    if dirs.len() == 0 {
        Seq::empty()
    } else {
        let r = fence_indices(entries, dirs.drop_last());
        match lookup_fence(entries, fence_key(dirs.last())) {
            Some(i) => r.push(i),
            None => r,
        }
    }
}

/// The entries of the fences that govern `path`: those of its ancestor
/// directories (and of the path itself), nearest first.
pub open spec fn fences_for_path(fc: FenceCollection, path: Seq<char>) -> Seq<int> {
    fence_indices(fc.fences_map@, spec_ancestors(path))
}

pub proof fn lemma_fence_indices_in_range(entries: Seq<(String, Fence)>, dirs: Seq<Seq<char>>)
    ensures
        forall|k: int| 0 <= k < fence_indices(entries, dirs).len()
            ==> 0 <= #[trigger] fence_indices(entries, dirs)[k] < entries.len(),
    decreases dirs.len(),
{
    if dirs.len() > 0 {
        lemma_fence_indices_in_range(entries, dirs.drop_last());
        let r = fence_indices(entries, dirs.drop_last());
        match lookup_fence(entries, fence_key(dirs.last())) {
            Some(i) => {
                assert(is_first_key(entries, fence_key(dirs.last()), i));
                assert forall|k: int| 0 <= k < r.push(i).len() implies 0 <= #[trigger] r.push(i)[k] < entries.len() by {
                    if k < r.len() { assert(r.push(i)[k] == r[k]); }
                }
            },
            None => {},
        }
    }
}

impl FenceCollection {
    /// The entry stored under `key`.
    pub fn lookup(&self, key: &[char]) -> (r: Option<usize>)
        ensures
            match r {
                Some(i) => lookup_fence(self.fences_map@, key@) == Some(i as int),
                None => lookup_fence(self.fences_map@, key@) is None,
            },
    {
        let mut i: usize = 0;
        while i < self.fences_map.len()
            invariant
                0 <= i <= self.fences_map@.len(),
                forall|j: int| 0 <= j < i ==> self.fences_map@[j].0@ != key@,
            decreases self.fences_map@.len() - i,
        {
            let k = str_chars(self.fences_map[i].0.as_str());
            if chars_eq(k.as_slice(), key) {
                assert(is_first_key(self.fences_map@, key@, i as int));
                proof {
                    let c = choose|c: int| is_first_key(self.fences_map@, key@, c);
                    assert(c == i) by {
                        if c < i { assert(self.fences_map@[c].0@ != key@); }
                        if c > i { assert(self.fences_map@[i as int].0@ != key@); }
                    }
                }
                return Some(i);
            }
            i = i + 1;
        }
        assert(!exists|c: int| is_first_key(self.fences_map@, key@, c));
        None
    }

    /// Indices of the fences that govern `path`, nearest directory first.
    pub fn fence_indices_for_path(&self, path: &str) -> (r: Vec<usize>)
        ensures
            r@.len() == fences_for_path(*self, path@).len(),
            forall|k: int| 0 <= k < r@.len() ==> r@[k] as int == #[trigger] fences_for_path(*self, path@)[k],
            forall|k: int| 0 <= k < r@.len() ==> (#[trigger] r@[k]) < self.fences_map@.len(),
    {
        let p = str_chars(path);
        let ancestors = path_ancestors(p.as_slice());
        let ghost dirs = spec_ancestors(path@);
        let fj: Vec<char> = str_chars("fence.json");
        let mut r: Vec<usize> = Vec::new();
        let mut a: usize = 0;
        while a < ancestors.len()
            invariant
                ancestors@.len() == dirs.len(),
                forall|k: int| 0 <= k < ancestors@.len() ==> (#[trigger] ancestors@[k])@ == dirs[k],
                fj@ == "fence.json"@,
                0 <= a <= ancestors@.len(),
                r@.len() == fence_indices(self.fences_map@, dirs.take(a as int)).len(),
                forall|k: int| 0 <= k < r@.len() ==> r@[k] as int == #[trigger] fence_indices(self.fences_map@, dirs.take(a as int))[k],
            decreases ancestors@.len() - a,
        {
            let key = path_push(ancestors[a].as_slice(), fj.as_slice());
            assert(dirs.take(a + 1).drop_last() =~= dirs.take(a as int));
            assert(dirs.take(a + 1).last() == dirs[a as int]);
            match self.lookup(key.as_slice()) {
                Some(i) => { r.push(i); },
                None => {},
            }
            a = a + 1;
        }
        assert(dirs.take(ancestors@.len() as int) =~= dirs);
        proof {
            lemma_fence_indices_in_range(self.fences_map@, dirs);
            assert forall|k: int| 0 <= k < r@.len() implies (#[trigger] r@[k]) < self.fences_map@.len() by {
                assert(r@[k] as int == fence_indices(self.fences_map@, dirs)[k]);
            }
        }
        r
    }

    /// The fences that govern `path`, nearest directory first.
    pub fn get_fences_for_path(&self, path: &str) -> (r: Vec<&Fence>)
        ensures
            r@.len() == fences_for_path(*self, path@).len(),
            forall|k: int| 0 <= k < r@.len() ==> *r@[k] == self.fences_map@[#[trigger] fences_for_path(*self, path@)[k]].1,
    {
        let idx = self.fence_indices_for_path(path);
        let mut r: Vec<&Fence> = Vec::new();
        let mut k: usize = 0;
        while k < idx.len()
            invariant
                idx@.len() == fences_for_path(*self, path@).len(),
                forall|j: int| 0 <= j < idx@.len() ==> idx@[j] as int == #[trigger] fences_for_path(*self, path@)[j],
                forall|j: int| 0 <= j < idx@.len() ==> (#[trigger] idx@[j]) < self.fences_map@.len(),
                0 <= k <= idx@.len(),
                r@.len() == k,
                forall|j: int| 0 <= j < k ==> *r@[j] == self.fences_map@[#[trigger] fences_for_path(*self, path@)[j]].1,
            decreases idx@.len() - k,
        {
            let i = idx[k];
            r.push(&self.fences_map[i].1);
            k = k + 1;
        }
        r
    }
}

} // verus!
