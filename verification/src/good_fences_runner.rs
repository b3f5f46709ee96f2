//! The fence checker over a whole workspace: the fences and source files
//! found by the walk, the violations of all files, and the tags that
//! fences refer to without any fence defining them.
use vstd::prelude::*;
use crate::evaluate_fences::{
    check_export_patterns, evaluate_fences, export_patterns_valid, lemma_all_patterns_reach, reached_patterns_valid, outcomes, violations_match, errors_match, EvaluateFencesError,
    FenceEvaluationResult, ImportRuleViolation, SourceFile,
};
use crate::fences::{views, ExportRule, Fence, FenceCollection};
use crate::manual_resolver::ResolvedImport;
use crate::text::{chars_eq, str_chars};
use crate::tsconfig::TsconfigPathsJson;
use crate::walk_dirs::{ExternalFences, WalkFileData};

verus! {

/// Options of a fence check.
#[derive(Debug)]
pub struct GoodFencesOptions {
    pub paths: Vec<String>,
    pub project: String,
    pub base_url: Option<String>,
    pub err_output_path: Option<String>,
    pub ignore_external_fences: Option<ExternalFences>,
    pub ignored_dirs: Option<Vec<String>>,
}

/// The kind of a reported problem.
#[derive(Debug, Clone, Copy, PartialEq, Eq, Structural)]
pub enum GoodFencesResultType {
    FileNotResolved,
    Violation,
}

/// One reported problem.
#[derive(Debug)]
pub struct GoodFencesResult {
    pub result_type: GoodFencesResultType,
    pub message: String,
    pub source_file: Option<String>,
    pub raw_import: Option<String>,
    pub fence_path: Option<String>,
    pub detailed_message: String,
}

/// The fences and source files of a workspace, and the tsconfig.json
/// their imports are resolved with.
#[derive(Debug)]
pub struct GoodFencesRunner {
    pub tsconfig_paths_json: TsconfigPathsJson,
    pub fence_collection: FenceCollection,
    pub source_files: Vec<SourceFile>,
}

/// A tag that an export rule of a fence refers to.
#[derive(Debug, PartialEq, Eq)]
pub struct UndefinedTagReference<'a> {
    pub tag: &'a str,
    pub referencing_fence_path: &'a str,
}

/// The first source file with the given path.
pub open spec fn source_index(files: Seq<SourceFile>, path: Seq<char>, n: int) -> Option<int>
    decreases n,
{
    if n <= 0 {
        None
    } else {
        match source_index(files, path, n - 1) {
            Some(i) => Some(i),
            None => if files[n - 1].source_file_path@ == path { Some(n - 1) } else { None },
        }
    }
}

/// Adding a source file: one with the same path is replaced.
pub open spec fn insert_source(files: Seq<SourceFile>, f: SourceFile) -> Seq<SourceFile> {
    match source_index(files, f.source_file_path@, files.len() as int) {
        Some(i) => files.update(i, f),
        None => files.push(f),
    }
}

/// The first fence with the given path.
pub open spec fn fence_index(fs: Seq<Fence>, path: Seq<char>, n: int) -> Option<int>
    decreases n,
{
    if n <= 0 {
        None
    } else {
        match fence_index(fs, path, n - 1) {
            Some(i) => Some(i),
            None => if fs[n - 1].fence_path@ == path { Some(n - 1) } else { None },
        }
    }
}

/// Adding a fence: one with the same path is replaced.
pub open spec fn insert_fence(fs: Seq<Fence>, f: Fence) -> Seq<Fence> {
    match fence_index(fs, f.fence_path@, fs.len() as int) {
        Some(i) => fs.update(i, f),
        None => fs.push(f),
    }
}

/// The fences of a collection, in order.
pub open spec fn fence_values(entries: Seq<(String, Fence)>) -> Seq<Fence> {
    entries.map_values(|e: (String, Fence)| e.1)
}

/// Every fence is stored under its own path.
pub open spec fn keyed_by_path(entries: Seq<(String, Fence)>) -> bool {
    forall|k: int| 0 <= k < entries.len() ==> (#[trigger] entries[k]).0@ == entries[k].1.fence_path@
}

/// The fences and source files among the first `n` walk results, in walk
/// order (a later entry with the same path replaces an earlier one).
pub open spec fn collect_walk(walked: Seq<WalkFileData>, n: int) -> (Seq<Fence>, Seq<SourceFile>)
    decreases n,
{
    if n <= 0 {
        (Seq::empty(), Seq::empty())
    } else {
        let (fs, ss) = collect_walk(walked, n - 1);
        match walked[n - 1] {
            WalkFileData::Fence(f) => (insert_fence(fs, f), ss),
            WalkFileData::SourceFile(s) => (fs, insert_source(ss, s)),
            WalkFileData::Nothing => (fs, ss),
        }
    }
}

pub proof fn lemma_source_index(files: Seq<SourceFile>, path: Seq<char>, n: int)
    requires
        0 <= n <= files.len(),
    ensures
        match source_index(files, path, n) {
            Some(i) => 0 <= i < n && files[i].source_file_path@ == path,
            None => forall|j: int| 0 <= j < n ==> files[j].source_file_path@ != path,
        },
    decreases n,
{
    if n > 0 {
        lemma_source_index(files, path, n - 1);
    }
}

pub proof fn lemma_source_index_stable(files: Seq<SourceFile>, path: Seq<char>, m: int, n: int)
    requires
        m <= n,
        source_index(files, path, m) is Some,
    ensures
        source_index(files, path, n) == source_index(files, path, m),
    decreases n - m,
{
    if n > m {
        lemma_source_index_stable(files, path, m, n - 1);
    }
}

pub proof fn lemma_fence_index_stable(fs: Seq<Fence>, key: Seq<char>, m: int, n: int)
    requires
        m <= n,
        fence_index(fs, key, m) is Some,
    ensures
        fence_index(fs, key, n) == fence_index(fs, key, m),
    decreases n - m,
{
    if n > m {
        lemma_fence_index_stable(fs, key, m, n - 1);
    }
}

fn add_source(files: &mut Vec<SourceFile>, f: SourceFile)
    ensures
        final(files)@ == insert_source(old(files)@, f),
{
    let p = str_chars(f.source_file_path.as_str());
    let mut i: usize = 0;
    while i < files.len()
        invariant
            files@ == old(files)@,
            0 <= i <= files@.len(),
            p@ == f.source_file_path@,
            source_index(files@, p@, i as int) is None,
        decreases files@.len() - i,
    {
        let q = str_chars(files[i].source_file_path.as_str());
        if chars_eq(q.as_slice(), p.as_slice()) {
            assert(source_index(files@, p@, i + 1) == Some(i as int));
            proof { lemma_source_index_stable(files@, p@, i + 1, files@.len() as int); }
            files.set(i, f);
            return;
        }
        i = i + 1;
    }
    files.push(f);
}

fn add_fence(entries: &mut Vec<(String, Fence)>, f: Fence)
    requires
        keyed_by_path(old(entries)@),
    ensures
        fence_values(final(entries)@) == insert_fence(fence_values(old(entries)@), f),
        keyed_by_path(final(entries)@),
{
    let ghost fv = fence_values(entries@);
    let p = str_chars(f.fence_path.as_str());
    let mut i: usize = 0;
    while i < entries.len()
        invariant
            entries@ == old(entries)@,
            fv == fence_values(entries@),
            keyed_by_path(entries@),
            0 <= i <= entries@.len(),
            p@ == f.fence_path@,
            fence_index(fv, p@, i as int) is None,
        decreases entries@.len() - i,
    {
        let q = str_chars(entries[i].0.as_str());
        assert(fv[i as int] == entries@[i as int].1);
        assert(entries@[i as int].0@ == entries@[i as int].1.fence_path@);
        if chars_eq(q.as_slice(), p.as_slice()) {
            proof { lemma_fence_index_stable(fv, p@, i + 1, fv.len() as int); }
            let ghost before = entries@;
            let ghost fval = f;
            entries[i].1 = f;
            assert(fence_values(entries@) =~= fv.update(i as int, fval));
            assert(fence_index(fv, fval.fence_path@, fv.len() as int) == Some(i as int));
            assert(insert_fence(fv, fval) == fv.update(i as int, fval));
            assert forall|k: int| 0 <= k < entries@.len() implies (#[trigger] entries@[k]).0@ == entries@[k].1.fence_path@ by {
                if k != i {
                    assert(entries@[k] == before[k]);
                }
            }
            return;
        }
        i = i + 1;
    }
    let key = f.fence_path.clone();
    let ghost before = entries@;
    let ghost fval = f;
    entries.push((key, f));
    assert(fence_values(entries@) =~= fv.push(fval));
    assert forall|k: int| 0 <= k < entries@.len() implies (#[trigger] entries@[k]).0@ == entries@[k].1.fence_path@ by {
        if k < before.len() {
            assert(entries@[k] == before[k]);
        }
    }
}


/// The outcome (violation and error models) of source file `i`.
pub open spec fn file_outcome(runner: GoodFencesRunner, res: Seq<Vec<Option<ResolvedImport>>>, i: int)
    -> (Seq<crate::evaluate_fences::ViolationModel>, Seq<crate::evaluate_fences::ErrorModel>)
{
    outcomes(runner.fence_collection, runner.source_files@, runner.source_files@[i], res[i]@, res[i]@.len() as int)
}

/// Number of violations of the first `n` source files.
pub open spec fn violations_before(runner: GoodFencesRunner, res: Seq<Vec<Option<ResolvedImport>>>, n: int) -> int
    decreases n,
{
    if n <= 0 { 0 } else { violations_before(runner, res, n - 1) + file_outcome(runner, res, n - 1).0.len() }
}

/// Number of unresolved imports of the first `n` source files.
pub open spec fn errors_before(runner: GoodFencesRunner, res: Seq<Vec<Option<ResolvedImport>>>, n: int) -> int
    decreases n,
{
    if n <= 0 { 0 } else { errors_before(runner, res, n - 1) + file_outcome(runner, res, n - 1).1.len() }
}

/// `res[i]` holds the resolutions of the imports of source file `i`.
pub open spec fn resolutions_fit(runner: GoodFencesRunner, res: Seq<Vec<Option<ResolvedImport>>>) -> bool {
    &&& res.len() == runner.source_files@.len()
    &&& forall|i: int| 0 <= i < res.len() ==> (#[trigger] res[i])@.len() == runner.source_files@[i].imports@.len()
}

/// The violations and unresolved imports of all source files form, file
/// by file in order, the results of `evaluate_fences` for each.
pub open spec fn all_files_match(runner: GoodFencesRunner, res: Seq<Vec<Option<ResolvedImport>>>, vs: Seq<ImportRuleViolation>,
    es: Seq<EvaluateFencesError>, n: int) -> bool
{
    &&& vs.len() == violations_before(runner, res, n)
    &&& es.len() == errors_before(runner, res, n)
    &&& forall|i: int| 0 <= i < n ==> violations_match(
        #[trigger] vs.subrange(violations_before(runner, res, i), violations_before(runner, res, i + 1)),
        file_outcome(runner, res, i).0, runner.fence_collection, runner.source_files@[i])
    &&& forall|i: int| 0 <= i < n ==> errors_match(
        #[trigger] es.subrange(errors_before(runner, res, i), errors_before(runner, res, i + 1)),
        file_outcome(runner, res, i).1, runner.source_files@[i])
}

pub proof fn lemma_before_monotone(runner: GoodFencesRunner, res: Seq<Vec<Option<ResolvedImport>>>, i: int, n: int)
    requires
        0 <= i <= n,
    ensures
        violations_before(runner, res, i) <= violations_before(runner, res, n),
        errors_before(runner, res, i) <= errors_before(runner, res, n),
    decreases n - i,
{
    if n > i {
        lemma_before_monotone(runner, res, i, n - 1);
    }
}

/// A fence defines the tag.
pub open spec fn fence_defines(f: Fence, t: Seq<char>) -> bool {
    f.fence.tags matches Some(tags) && views(tags@).contains(t)
}

/// A rule of a fence's exports makes the tag accessible (`*` aside).
pub open spec fn fence_references(f: Fence, t: Seq<char>) -> bool {
    match f.fence.exports {
        Some(rules) => t != "*"@ && exists|k: int| 0 <= k < rules@.len() && views((#[trigger] rules@[k]).accessible_to@).contains(t),
        None => false,
    }
}

/// A tag that some fence refers to and no fence defines.
pub open spec fn tag_undefined(fs: Seq<(String, Fence)>, t: Seq<char>) -> bool {
    (exists|k: int| 0 <= k < fs.len() && fence_references(#[trigger] fs[k].1, t))
        && !(exists|k: int| 0 <= k < fs.len() && fence_defines(#[trigger] fs[k].1, t))
}

/// The undefined tags among the first `n` tags of a rule, with the path of
/// the fence referring to them.
pub open spec fn rule_refs(fs: Seq<(String, Fence)>, tags: Seq<Seq<char>>, path: Seq<char>, n: int) -> Seq<(Seq<char>, Seq<char>)>
    decreases n,
{
    if n <= 0 {
        Seq::empty()
    } else {
        rule_refs(fs, tags, path, n - 1) + if tag_undefined(fs, tags[n - 1]) { seq![(tags[n - 1], path)] } else { Seq::empty() }
    }
}

/// The undefined-tag references of the first `n` export rules of a fence.
pub open spec fn fence_refs(fs: Seq<(String, Fence)>, rules: Seq<ExportRule>, path: Seq<char>, n: int) -> Seq<(Seq<char>, Seq<char>)>
    decreases n,
{
    if n <= 0 {
        Seq::empty()
    } else {
        fence_refs(fs, rules, path, n - 1) + rule_refs(fs, views(rules[n - 1].accessible_to@), path, rules[n - 1].accessible_to@.len() as int)
    }
}

/// The undefined-tag references of the first `n` fences, in order.
pub open spec fn undefined_refs(fs: Seq<(String, Fence)>, n: int) -> Seq<(Seq<char>, Seq<char>)>
    decreases n,
{
    if n <= 0 {
        Seq::empty()
    } else {
        undefined_refs(fs, n - 1) + match fs[n - 1].1.fence.exports {
            Some(rules) => fence_refs(fs, rules@, fs[n - 1].1.fence_path@, rules@.len() as int),
            None => Seq::empty(),
        }
    }
}

pub open spec fn refs_view(v: Seq<UndefinedTagReference>) -> Seq<(Seq<char>, Seq<char>)> {
    v.map_values(|r: UndefinedTagReference| (r.tag@, r.referencing_fence_path@))
}

/// Whether some fence defines the tag.
fn is_defined(fs: &Vec<(String, Fence)>, t: &[char]) -> (r: bool)
    ensures
        r == exists|k: int| 0 <= k < fs@.len() && fence_defines(#[trigger] fs@[k].1, t@),
{
    let mut i: usize = 0;
    while i < fs.len()
        invariant
            0 <= i <= fs@.len(),
            forall|k: int| 0 <= k < i ==> !fence_defines(#[trigger] fs@[k].1, t@),
        decreases fs@.len() - i,
    {
        match &fs[i].1.fence.tags {
            Some(tags) => {
                if crate::node_resolution::strings_contain(tags, t) {
                    return true;
                }
            },
            None => {},
        }
        i = i + 1;
    }
    false
}

proof fn lemma_fence_references(f: Fence, rules: Vec<ExportRule>, t: Seq<char>, j: int)
    requires
        f.fence.exports == Some(rules),
        0 <= j < rules@.len(),
        views(rules@[j].accessible_to@).contains(t),
        t != "*"@,
    ensures
        fence_references(f, t),
{
    let r = f.fence.exports->0;
    assert(r == rules);
    assert(0 <= j < r@.len() && views(r@[j].accessible_to@).contains(t));
    assert(exists|k: int| 0 <= k < r@.len() && views((#[trigger] r@[k]).accessible_to@).contains(t));
}

/// Whether some fence refers to the tag.
fn is_referenced(fs: &Vec<(String, Fence)>, t: &[char]) -> (r: bool)
    ensures
        r == exists|k: int| 0 <= k < fs@.len() && fence_references(#[trigger] fs@[k].1, t@),
{
    let star = str_chars("*");
    proof { reveal_strlit("*"); }
    if chars_eq(t, star.as_slice()) {
        return false;
    }
    let mut i: usize = 0;
    while i < fs.len()
        invariant
            0 <= i <= fs@.len(),
            t@ != "*"@,
            forall|k: int| 0 <= k < i ==> !fence_references(#[trigger] fs@[k].1, t@),
        decreases fs@.len() - i,
    {
        match &fs[i].1.fence.exports {
            Some(rules) => {
                let mut j: usize = 0;
                while j < rules.len()
                    invariant
                        i < fs@.len(),
                        fs@[i as int].1.fence.exports == Some(*rules),
                        t@ != "*"@,
                        0 <= j <= rules@.len(),
                        forall|k: int| 0 <= k < j ==> !views((#[trigger] rules@[k]).accessible_to@).contains(t@),
                    decreases rules@.len() - j,
                {
                    if crate::node_resolution::strings_contain(&rules[j].accessible_to, t) {
                        assert(views(rules@[j as int].accessible_to@) =~= crate::text::string_seq_views(rules@[j as int].accessible_to@));
                        assert(views(rules@[j as int].accessible_to@).contains(t@));
                        proof { lemma_fence_references(fs@[i as int].1, *rules, t@, j as int); }
                        return true;
                    }
                    j = j + 1;
                }
            },
            None => {},
        }
        i = i + 1;
    }
    false
}

impl GoodFencesRunner {
    /// A runner over the results of the directory walk: its fences, keyed by
    /// path, and its source files (a later result with the same path
    /// replaces an earlier one).
    pub fn new(tsconfig_paths_json: TsconfigPathsJson, walked: Vec<WalkFileData>) -> (r: GoodFencesRunner)
        ensures
            r.tsconfig_paths_json == tsconfig_paths_json,
            fence_values(r.fence_collection.fences_map@) == collect_walk(walked@, walked@.len() as int).0,
            keyed_by_path(r.fence_collection.fences_map@),
            r.source_files@ == collect_walk(walked@, walked@.len() as int).1,
    {
        let ghost orig = walked@;
        let mut rest = walked;
        let mut fences: Vec<(String, Fence)> = Vec::new();
        let mut sources: Vec<SourceFile> = Vec::new();
        assert(fence_values(fences@) =~= Seq::<Fence>::empty());
        let mut k: usize = 0;
        let total: usize = rest.len();
        while rest.len() > 0
            invariant
                total == orig.len(),
                0 <= k <= orig.len(),
                rest@ == orig.subrange(k as int, orig.len() as int),
                fence_values(fences@) == collect_walk(orig, k as int).0,
                keyed_by_path(fences@),
                sources@ == collect_walk(orig, k as int).1,
            decreases rest@.len(),
        {
            let w = rest.remove(0);
            assert(w == orig[k as int]);
            match w {
                WalkFileData::Fence(f) => add_fence(&mut fences, f),
                WalkFileData::SourceFile(sf) => add_source(&mut sources, sf),
                WalkFileData::Nothing => {},
            }
            k = k + 1;
            assert(rest@ =~= orig.subrange(k as int, orig.len() as int));
        }
        GoodFencesRunner {
            tsconfig_paths_json: tsconfig_paths_json,
            fence_collection: FenceCollection { fences_map: fences },
            source_files: sources,
        }
    }

    /// `find_import_violations` when every export pattern of the fences is a
    /// valid glob; `None` otherwise.
    pub fn try_find_import_violations<'a>(&'a self, resolutions: &Vec<Vec<Option<ResolvedImport>>>) -> (r: Option<FenceEvaluationResult<'a, 'a>>)
        requires
            resolutions_fit(*self, resolutions@),
        ensures
            r is Some <==> export_patterns_valid(self.fence_collection),
            r matches Some(res) ==> all_files_match(*self, resolutions@, res.violations@, res.unresolved_files@,
                self.source_files@.len() as int),
    {
        if check_export_patterns(&self.fence_collection) {
            proof {
                assert forall|i: int| 0 <= i < self.source_files@.len() implies reached_patterns_valid(self.fence_collection,
                    self.source_files@, #[trigger] self.source_files@[i], resolutions@[i]@) by {
                    lemma_all_patterns_reach(self.fence_collection, self.source_files@, self.source_files@[i], resolutions@[i]@);
                }
            }
            Some(self.find_import_violations(resolutions))
        } else {
            None
        }
    }

    /// The violations and unresolved imports of every source file, file by
    /// file in order; `resolutions[i]` holds where the imports of source
    /// file `i` resolved to.
    pub fn find_import_violations<'a>(&'a self, resolutions: &Vec<Vec<Option<ResolvedImport>>>) -> (r: FenceEvaluationResult<'a, 'a>)
        requires
            resolutions_fit(*self, resolutions@),
            forall|i: int| 0 <= i < self.source_files@.len() ==> reached_patterns_valid(self.fence_collection,
                self.source_files@, #[trigger] self.source_files@[i], resolutions@[i]@),
        ensures
            all_files_match(*self, resolutions@, r.violations@, r.unresolved_files@, self.source_files@.len() as int),
    {
        let mut result = FenceEvaluationResult::new();
        let mut i: usize = 0;
        while i < self.source_files.len()
            invariant
                resolutions_fit(*self, resolutions@),
                forall|i: int| 0 <= i < self.source_files@.len() ==> reached_patterns_valid(self.fence_collection,
                    self.source_files@, #[trigger] self.source_files@[i], resolutions@[i]@),
                0 <= i <= self.source_files@.len(),
                all_files_match(*self, resolutions@, result.violations@, result.unresolved_files@, i as int),
            decreases self.source_files@.len() - i,
        {
            assert(resolutions@[i as int]@.len() == self.source_files@[i as int].imports@.len());
            let mut one = evaluate_fences(&self.fence_collection, &self.source_files, &self.source_files[i], &resolutions[i]);
            let ghost v0 = result.violations@;
            let ghost e0 = result.unresolved_files@;
            let ghost v1 = one.violations@;
            let ghost e1 = one.unresolved_files@;
            result.violations.append(&mut one.violations);
            result.unresolved_files.append(&mut one.unresolved_files);
            assert(result.violations@ == v0 + v1);
            assert(result.unresolved_files@ == e0 + e1);
            proof {
                let vb = violations_before(*self, resolutions@, i + 1);
                let eb = errors_before(*self, resolutions@, i + 1);
                assert forall|j: int| 0 <= j < i + 1 implies violations_match(
                    #[trigger] result.violations@.subrange(violations_before(*self, resolutions@, j), violations_before(*self, resolutions@, j + 1)),
                    file_outcome(*self, resolutions@, j).0, self.fence_collection, self.source_files@[j]) by {
                    if j < i {
                        lemma_before_monotone(*self, resolutions@, j + 1, i as int);
                        lemma_before_monotone(*self, resolutions@, j, j + 1);
                        lemma_before_monotone(*self, resolutions@, 0, j);
                        assert(result.violations@.subrange(violations_before(*self, resolutions@, j), violations_before(*self, resolutions@, j + 1))
                            =~= v0.subrange(violations_before(*self, resolutions@, j), violations_before(*self, resolutions@, j + 1)));
                    } else {
                        assert(result.violations@.subrange(violations_before(*self, resolutions@, j), violations_before(*self, resolutions@, j + 1)) =~= v1);
                    }
                }
                assert forall|j: int| 0 <= j < i + 1 implies errors_match(
                    #[trigger] result.unresolved_files@.subrange(errors_before(*self, resolutions@, j), errors_before(*self, resolutions@, j + 1)),
                    file_outcome(*self, resolutions@, j).1, self.source_files@[j]) by {
                    if j < i {
                        lemma_before_monotone(*self, resolutions@, j + 1, i as int);
                        lemma_before_monotone(*self, resolutions@, j, j + 1);
                        lemma_before_monotone(*self, resolutions@, 0, j);
                        assert(result.unresolved_files@.subrange(errors_before(*self, resolutions@, j), errors_before(*self, resolutions@, j + 1))
                            =~= e0.subrange(errors_before(*self, resolutions@, j), errors_before(*self, resolutions@, j + 1)));
                    } else {
                        assert(result.unresolved_files@.subrange(errors_before(*self, resolutions@, j), errors_before(*self, resolutions@, j + 1)) =~= e1);
                    }
                }
            }
            i = i + 1;
        }
        result
    }

    /// The references that export rules make to tags no fence defines, in
    /// fence, rule and tag order.
    pub fn find_undefined_tags<'a>(&'a self) -> (r: Vec<UndefinedTagReference<'a>>)
        ensures
            refs_view(r@) == undefined_refs(self.fence_collection.fences_map@, self.fence_collection.fences_map@.len() as int),
    {
        let fs = &self.fence_collection.fences_map;
        let mut out: Vec<UndefinedTagReference<'a>> = Vec::new();
        let mut i: usize = 0;
        while i < fs.len()
            invariant
                fs == &self.fence_collection.fences_map,
                0 <= i <= fs@.len(),
                refs_view(out@) == undefined_refs(fs@, i as int),
            decreases fs@.len() - i,
        {
            let fence = &fs[i].1;
            match &fence.fence.exports {
                Some(rules) => {
                    let ghost base = refs_view(out@);
                    let mut j: usize = 0;
                    while j < rules.len()
                        invariant
                            fs == &self.fence_collection.fences_map,
                            i < fs@.len(),
                            *fence == fs@[i as int].1,
                            0 <= j <= rules@.len(),
                            refs_view(out@) == base + fence_refs(fs@, rules@, fence.fence_path@, j as int),
                        decreases rules@.len() - j,
                    {
                        let tags = &rules[j].accessible_to;
                        let ghost mid = refs_view(out@);
                        let mut k: usize = 0;
                        while k < tags.len()
                            invariant
                                fs == &self.fence_collection.fences_map,
                                0 <= k <= tags@.len(),
                                refs_view(out@) == mid + rule_refs(fs@, views(tags@), fence.fence_path@, k as int),
                            decreases tags@.len() - k,
                        {
                            let t = str_chars(tags[k].as_str());
                            assert(views(tags@)[k as int] == tags@[k as int]@);
                            if is_referenced(fs, t.as_slice()) && !is_defined(fs, t.as_slice()) {
                                let ghost before = out@;
                                let item = UndefinedTagReference { tag: tags[k].as_str(), referencing_fence_path: fence.fence_path.as_str() };
                                out.push(item);
                                proof {
                                    crate::node_resolution::lemma_map_values_push(before, item, |r: UndefinedTagReference| (r.tag@, r.referencing_fence_path@));
                                }
                            }
                            k = k + 1;
                        }
                        j = j + 1;
                    }
                },
                None => {},
            }
            i = i + 1;
        }
        out
    }
}

} // verus!
