//! The decisions of the directory walk that discovers fences and source
//! files: which entries are kept, which directories are not descended
//! into, and which tags a directory's files carry. Reading directories and
//! parsing files is left to the caller.
use vstd::prelude::*;
use crate::evaluate_fences::SourceFile;
use crate::fences::{views, Fence};
use crate::text::{chars_eq, seq_ends_with, str_chars, str_ends_with, str_eq};

verus! {

/// Whether fences under `node_modules` directories are read.
#[derive(Debug, Clone, Copy, PartialEq, Eq, Structural)]
pub enum ExternalFences {
    Include,
    Ignore,
}

/// What the walk found at an entry.
#[derive(Debug, PartialEq, Eq)]
pub enum WalkFileData {
    Fence(Fence),
    SourceFile(SourceFile),
    Nothing,
}

impl Default for WalkFileData {
    fn default() -> (r: Self)
        ensures
            r is Nothing,
    {
        WalkFileData::Nothing
    }
}

pub open spec fn is_source_name(s: Seq<char>) -> bool {
    seq_ends_with(s, ".ts"@) || seq_ends_with(s, ".tsx"@) || seq_ends_with(s, ".js"@) || seq_ends_with(s, ".jsx"@)
}

/// Files worth keeping: `fence.json` and TypeScript/JavaScript sources.
pub open spec fn spec_should_retain_file(s: Seq<char>) -> bool {
    s == "fence.json"@ || is_source_name(s)
}

/// Whether a file name is worth keeping in the walk.
pub fn should_retain_file(s: &str) -> (r: bool)
    ensures
        r == spec_should_retain_file(s@),
{
    str_eq(s, "fence.json") || str_ends_with(s, ".ts") || str_ends_with(s, ".tsx") || str_ends_with(s, ".js")
        || str_ends_with(s, ".jsx")
}

/// Whether a file name is a TypeScript/JavaScript source.
pub fn is_source_file_name(s: &str) -> (r: bool)
    ensures
        r == is_source_name(s@),
{
    str_ends_with(s, ".ts") || str_ends_with(s, ".tsx") || str_ends_with(s, ".js") || str_ends_with(s, ".jsx")
}

/// Whether a file name is that of a fence.
pub fn is_fence_file_name(s: &str) -> (r: bool)
    ensures
        r == seq_ends_with(s@, "fence.json"@),
{
    str_ends_with(s, "fence.json")
}

/// Directories whose children are not read: `node_modules` and `lib`.
pub fn prunes_children(file_name: &str) -> (r: bool)
    ensures
        r == (file_name@ == "node_modules"@ || file_name@ == "lib"@),
{
    str_eq(file_name, "node_modules") || str_eq(file_name, "lib")
}

/// Whether `regex::Regex::new` accepts the pattern.
pub uninterp spec fn regex_valid(pattern: Seq<char>) -> bool;

/// Result of `Regex::is_match` on `text` for the regex compiled from
/// `pattern` (which matches anywhere in the text unless anchored).
pub uninterp spec fn regex_match(pattern: Seq<char>, text: Seq<char>) -> bool;

/// `regex::Regex::new(pattern)` and, when it compiles, `Regex::is_match` on
/// `text`. The contract claims that the result is `Some` exactly when the
/// pattern compiles, and then is the match named by `regex_match`.
#[verifier::external_body]
fn regex_is_match(pattern: &str, text: &str) -> (r: Option<bool>)
    ensures
        r is Some <==> regex_valid(pattern@),
        r matches Some(b) ==> b == regex_match(pattern@, text@),
{
    regex::Regex::new(pattern).ok().map(|re| re.is_match(text))
}

/// Every ignored-directory pattern compiles.
pub open spec fn patterns_valid(ignored_dirs: Seq<String>) -> bool {
    forall|i: int| 0 <= i < ignored_dirs.len() ==> regex_valid(#[trigger] ignored_dirs[i]@)
}

/// The path matches one of the ignored-directory patterns.
pub open spec fn matches_ignored(ignored_dirs: Seq<String>, path: Seq<char>) -> bool {
    exists|i: int| 0 <= i < ignored_dirs.len() && regex_match(#[trigger] ignored_dirs[i]@, path)
}

/// Whether a path is ignored: `None` when a pattern does not compile,
/// otherwise whether one of the patterns matches the path.
pub fn dir_is_ignored(ignored_dirs: &Vec<String>, slashed_path: &str) -> (r: Option<bool>)
    ensures
        r is Some <==> patterns_valid(ignored_dirs@),
        r matches Some(b) ==> (b <==> matches_ignored(ignored_dirs@, slashed_path@)),
{
    let mut found = false;
    let mut i: usize = 0;
    while i < ignored_dirs.len()
        invariant
            0 <= i <= ignored_dirs@.len(),
            forall|j: int| 0 <= j < i ==> regex_valid(#[trigger] ignored_dirs@[j]@),
            found <==> exists|j: int| 0 <= j < i && regex_match(#[trigger] ignored_dirs@[j]@, slashed_path@),
        decreases ignored_dirs@.len() - i,
    {
        match regex_is_match(ignored_dirs[i].as_str(), slashed_path) {
            None => {
                return None;
            },
            Some(b) => {
                if b {
                    found = true;
                }
            },
        }
        i = i + 1;
    }
    Some(found)
}

/// An entry of a directory, as the walk sees it.
pub struct WalkEntry {
    /// The entry's name, when it is valid UTF-8.
    pub file_name: Option<String>,
    /// The entry's path with `/` separators, when it has one.
    pub slashed_path: Option<String>,
    pub is_dir: bool,
}

/// Whether an entry is kept: one with a path is kept when it is not
/// ignored (when external fences are ignored, a `node_modules` directory
/// is not kept; otherwise the path must match none of the ignored-directory
/// patterns, and `None` comes back when one of them does not compile); an
/// entry without such a path is kept when it is a directory or a file worth
/// keeping; an entry that could not be read is dropped.
pub open spec fn spec_retains_entry(entry: Option<WalkEntry>, ignore: ExternalFences, ignored_dirs: Seq<String>) -> Option<bool> {
    match entry {
        None => Some(false),
        Some(e) => match e.slashed_path {
            Some(p) => if ignore == ExternalFences::Ignore && seq_ends_with(p@, "/node_modules"@) {
                Some(false)
            } else if !patterns_valid(ignored_dirs) {
                None
            } else {
                Some(!matches_ignored(ignored_dirs, p@))
            },
            None => match e.file_name {
                Some(n) => Some(e.is_dir || spec_should_retain_file(n@)),
                None => Some(false),
            },
        },
    }
}

/// Whether the walk keeps an entry (see `spec_retains_entry`).
pub fn retains_entry(entry: Option<&WalkEntry>, ignore_external_fences: ExternalFences, ignored_dirs: &Vec<String>) -> (r: Option<bool>)
    ensures
        r == spec_retains_entry(match entry {
            Some(e) => Some(*e),
            None => None,
        }, ignore_external_fences, ignored_dirs@),
{
    match entry {
        None => Some(false),
        Some(e) => match &e.slashed_path {
            Some(p) => {
                if ignore_external_fences == ExternalFences::Ignore && str_ends_with(p.as_str(), "/node_modules") {
                    Some(false)
                } else {
                    match dir_is_ignored(ignored_dirs, p.as_str()) {
                        None => None,
                        Some(ig) => Some(!ig),
                    }
                }
            },
            None => match &e.file_name {
                Some(n) => Some(e.is_dir || should_retain_file(n.as_str())),
                None => Some(false),
            },
        },
    }
}

/// The tag list after inserting `tags` (each tag once, first insertion
/// kept in place).
pub open spec fn insert_tags(state: Seq<Seq<char>>, tags: Seq<Seq<char>>) -> Seq<Seq<char>>
    decreases tags.len(),
{
    if tags.len() == 0 {
        state
    } else {
        let s = insert_tags(state, tags.drop_last());
        if s.contains(tags.last()) { s } else { s.push(tags.last()) }
    }
}

/// Adds the tags of a fence to the tags of the directory being walked.
pub fn add_fence_tags(state: &mut Vec<String>, fence: &Fence)
    ensures
        views(final(state)@) == match fence.fence.tags {
            Some(t) => insert_tags(views(old(state)@), views(t@)),
            None => views(old(state)@),
        },
{
    match &fence.fence.tags {
        None => {},
        Some(tags) => {
            let ghost tv = views(tags@);
            let ghost s0 = views(state@);
            let mut i: usize = 0;
            while i < tags.len()
                invariant
                    tv == views(tags@),
                    0 <= i <= tags@.len(),
                    views(state@) == insert_tags(s0, tv.take(i as int)),
                decreases tags@.len() - i,
            {
                assert(tv.take(i + 1).drop_last() =~= tv.take(i as int));
                assert(tv[i as int] == tags@[i as int]@);
                let t = str_chars(tags[i].as_str());
                let mut found = false;
                let mut j: usize = 0;
                while j < state.len()
                    invariant
                        0 <= j <= state@.len(),
                        t@ == tv[i as int],
                        found == exists|k: int| 0 <= k < j && views(state@)[k] == t@,
                    decreases state@.len() - j,
                {
                    let c = str_chars(state[j].as_str());
                    assert(views(state@)[j as int] == state@[j as int]@);
                    if chars_eq(c.as_slice(), t.as_slice()) {
                        found = true;
                    }
                    j = j + 1;
                }
                if !found {
                    let ghost before = state@;
                    state.push(tags[i].clone());
                    assert(views(state@) =~= views(before).push(tv[i as int]));
                }
                i = i + 1;
            }
            assert(tv.take(tv.len() as int) =~= tv);
        },
    }
}

/// The record of a discovered source file: its path, the tags of the
/// directory it was found in, and its imports.
pub fn discover_js_ts_src(relative_file_path: String, imports: Vec<(String, Option<Vec<String>>)>, tags: &Vec<String>) -> (r: WalkFileData)
    ensures
        r matches WalkFileData::SourceFile(sf) && sf.source_file_path@ == relative_file_path@
            && sf.imports == imports && views(sf.tags@) == views(tags@),
{
    let mut t: Vec<String> = Vec::new();
    let mut i: usize = 0;
    while i < tags.len()
        invariant
            0 <= i <= tags@.len(),
            views(t@) == views(tags@).take(i as int),
        decreases tags@.len() - i,
    {
        let ghost before = t@;
        let c = tags[i].clone();
        t.push(c);
        proof {
            crate::node_resolution::lemma_map_values_push(before, c, |s: String| s@);
            assert(views(tags@).take(i + 1) =~= views(tags@).take(i as int).push(tags@[i as int]@));
        }
        i = i + 1;
    }
    assert(views(tags@).take(tags@.len() as int) =~= views(tags@));
    WalkFileData::SourceFile(SourceFile { source_file_path: relative_file_path, tags: t, imports: imports })
}

} // verus!
