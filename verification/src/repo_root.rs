//! Locating the root of a git checkout.
//!
//! The search walks from a starting directory up through its ancestors and
//! stops at the first one that holds a `.git` entry. Whether a directory
//! holds one is a question for the file system, so the caller probes the
//! candidates that `git_root_search_path` lists and hands the answers back.
use vstd::prelude::*;
use crate::paths::{lemma_ancestors_are_prefixes, path_ancestors, spec_ancestors};
use crate::text::{str_chars, string_from_chars};


verus! {

/// The index of the first candidate at or after `i` that holds `.git`, or
/// the last candidate when none does.
pub open spec fn git_root_index_from(has_git: Seq<bool>, i: int) -> int
    decreases has_git.len() - i,
{
    if i >= has_git.len() - 1 || has_git[i] {
        i
    } else {
        git_root_index_from(has_git, i + 1)
    }
}

proof fn lemma_git_root_index_range(has_git: Seq<bool>, i: int)
    requires
        0 <= i < has_git.len(),
    ensures
        i <= git_root_index_from(has_git, i) < has_git.len(),
    decreases has_git.len() - i,
{
    if !(i >= has_git.len() - 1 || has_git[i]) {
        lemma_git_root_index_range(has_git, i + 1);
    }
}

/// The root found is the starting directory or one of its ancestors, so a
/// prefix of the starting path.
pub proof fn law_git_root_is_ancestor(search_start: Seq<char>, has_git: Seq<bool>)
    requires
        has_git.len() == spec_ancestors(search_start).len(),
    ensures
        spec_ancestors(search_start)[git_root_index_from(has_git, 0)].len() <= search_start.len(),
        search_start.subrange(0, spec_ancestors(search_start)[git_root_index_from(has_git, 0)].len() as int)
            == spec_ancestors(search_start)[git_root_index_from(has_git, 0)],
{
    assert(spec_ancestors(search_start).len() >= 1);
    lemma_git_root_index_range(has_git, 0);
    lemma_ancestors_are_prefixes(search_start);
    let k = git_root_index_from(has_git, 0);
    let a = spec_ancestors(search_start)[k];
    assert(a.len() <= search_start.len() && search_start.subrange(0, a.len() as int) == a);
}

/// The directories that the search visits, in order: the starting directory
/// and then each parent in turn, up to the root.
pub fn git_root_search_path(search_start: &str) -> (r: Vec<String>)
    ensures
        r@.len() == spec_ancestors(search_start@).len(),
        forall|k: int| 0 <= k < r@.len() ==> (#[trigger] r@[k])@ == spec_ancestors(search_start@)[k],
{
    let chars = str_chars(search_start);
    let anc = path_ancestors(chars.as_slice());
    let mut r: Vec<String> = Vec::new();
    let mut i: usize = 0;
    while i < anc.len()
        invariant
            0 <= i <= anc@.len(),
            anc@.len() == spec_ancestors(chars@).len(),
            forall|k: int| 0 <= k < anc@.len() ==> (#[trigger] anc@[k])@ == spec_ancestors(chars@)[k],
            chars@ == search_start@,
            r@.len() == i,
            forall|k: int| 0 <= k < i ==> (#[trigger] r@[k])@ == spec_ancestors(search_start@)[k],
        decreases anc@.len() - i,
    {
        r.push(string_from_chars(anc[i].as_slice()));
        i = i + 1;
    }
    r
}

/// The root of the checkout that contains `search_start`: the first
/// directory on the search path whose probe found `.git`, or the last
/// directory on it (the file-system root) when no probe did.
/// `has_git[k]` answers the probe of the `k`-th directory of
/// `git_root_search_path(search_start)`.
pub fn find_git_root_from(search_start: &str, has_git: &Vec<bool>) -> (r: String)
    requires
        has_git@.len() == spec_ancestors(search_start@).len(),
    ensures
        r@ == spec_ancestors(search_start@)[git_root_index_from(has_git@, 0)],
{
    let path = git_root_search_path(search_start);
    assert(spec_ancestors(search_start@).len() >= 1);
    proof { lemma_git_root_index_range(has_git@, 0); }
    let mut i: usize = 0;
    while i < path.len() - 1 && !has_git[i]
        invariant
            path@.len() == has_git@.len(),
            path@.len() >= 1,
            0 <= i < path@.len(),
            git_root_index_from(has_git@, i as int) == git_root_index_from(has_git@, 0),
        decreases path@.len() - i,
    {
        i = i + 1;
    }
    path[i].clone()
}

} // verus!
