//! Evaluation of the fence rules for the imports of one source file.
use vstd::prelude::*;
use crate::fences::{fences_for_path, lemma_fence_indices_in_range, views, DependencyRule, ExportRule, Fence, FenceCollection};
use crate::glob_match::{glob_match_result, glob_pattern_valid, GlobPattern};
use crate::manual_resolver::ResolvedImport;
use crate::paths::{lemma_stem_and_extension, no_ext, spec_extension, path_parent, path_push, spec_ancestors, spec_no_ext, spec_parent, spec_push};
use crate::text::{bracket_list, chars_eq, push_all, push_bracket_list, str_chars, str_eq, string_from_chars, string_seq_views};

verus! {

/// A scanned source file: its path, the tags of the fences above it, and
/// its imports (specifier and, when known, the imported names).
#[derive(Debug, PartialEq, Eq)]
pub struct SourceFile {
    pub source_file_path: String,
    pub tags: Vec<String>,
    pub imports: Vec<(String, Option<Vec<String>>)>,
}

/// The rule of a fence that an import broke.
#[derive(Debug, PartialEq, Eq)]
pub enum ViolatedFenceClause<'a> {
    /// Not exported by the target fence: no rule covers the imported file
    /// (`None`), or the covering rule does not admit the importer.
    ExportRule(Option<&'a ExportRule>),
    /// A node dependency missing from the allow list (`None`), or listed but
    /// not exposed to the importer.
    DependencyRule(Option<&'a DependencyRule>),
    /// The importing fence does not allow the tags of the imported file.
    ImportAllowList,
}

/// One broken fence rule.
#[derive(Debug, PartialEq, Eq)]
pub struct ImportRuleViolation<'f, 'i> {
    pub violating_file_path: &'i str,
    pub violating_fence: &'f Fence,
    pub violating_fence_clause: ViolatedFenceClause<'f>,
    pub violating_import_specifier: &'i str,
    pub violating_imported_name: Option<&'i str>,
}

/// The tags of a fence, none when it has no `tags`.
pub open spec fn fence_tag_views(f: Fence) -> Seq<Seq<char>> {
    match f.fence.tags {
        Some(t) => string_seq_views(t@),
        None => Seq::empty(),
    }
}

/// The message of a violation.
pub open spec fn violation_text(v: ImportRuleViolation) -> Seq<char> {
    let file = v.violating_file_path@;
    let spec = v.violating_import_specifier@;
    let fp = v.violating_fence.fence_path@;
    match v.violating_fence_clause {
        ViolatedFenceClause::ExportRule(Some(rule)) => "Violation: Import of "@ + spec + " at "@ + file + " violated the fence.json "@ + fp
            + " with rule "@ + rule.modules@ + " only accessible to "@ + bracket_list(string_seq_views(rule.accessible_to@)),
        ViolatedFenceClause::ExportRule(None) => "Violation: Import of "@ + spec + " at "@ + file + " is not in the allow list of the fence "@ + fp,
        ViolatedFenceClause::DependencyRule(Some(rule)) => "Violation: Dependency "@ + rule.dependency@ + " at "@ + fp
            + " was not exposed for tags "@ + bracket_list(fence_tag_views(*v.violating_fence)) + " of source "@ + file,
        ViolatedFenceClause::DependencyRule(None) => "Violation: Import "@ + spec + " at "@ + file + " is not in allowlist of "@ + fp,
        ViolatedFenceClause::ImportAllowList => "Violation: File "@ + file + " with tags "@ + bracket_list(fence_tag_views(*v.violating_fence))
            + " does not allow import "@ + spec + " at "@ + fp,
    }
}

fn push_str(out: &mut Vec<char>, s: &str)
    ensures
        final(out)@ == old(out)@ + s@,
{
    let c = str_chars(s);
    push_all(out, c.as_slice());
}

impl<'f, 'i> ImportRuleViolation<'f, 'i> {
    /// The message of the violation.
    pub fn to_display_string(&self) -> (r: String)
        ensures
            r@ == violation_text(*self),
    {
        let mut out: Vec<char> = Vec::new();
        let file = self.violating_file_path;
        let spec = self.violating_import_specifier;
        let fp = self.violating_fence.fence_path.as_str();
        let empty: Vec<String> = Vec::new();
        let tags: &Vec<String> = match &self.violating_fence.fence.tags {
            Some(t) => t,
            None => &empty,
        };
        assert(string_seq_views(tags@) == fence_tag_views(*self.violating_fence)) by {
            if self.violating_fence.fence.tags is None {
                assert(string_seq_views(tags@) =~= Seq::<Seq<char>>::empty());
            }
        }
        match self.violating_fence_clause {
            ViolatedFenceClause::ExportRule(Some(rule)) => {
                push_str(&mut out, "Violation: Import of ");
                push_str(&mut out, spec);
                push_str(&mut out, " at ");
                push_str(&mut out, file);
                push_str(&mut out, " violated the fence.json ");
                push_str(&mut out, fp);
                push_str(&mut out, " with rule ");
                push_str(&mut out, rule.modules.as_str());
                push_str(&mut out, " only accessible to ");
                push_bracket_list(&mut out, &rule.accessible_to);
            },
            ViolatedFenceClause::ExportRule(None) => {
                push_str(&mut out, "Violation: Import of ");
                push_str(&mut out, spec);
                push_str(&mut out, " at ");
                push_str(&mut out, file);
                push_str(&mut out, " is not in the allow list of the fence ");
                push_str(&mut out, fp);
            },
            ViolatedFenceClause::DependencyRule(Some(rule)) => {
                push_str(&mut out, "Violation: Dependency ");
                push_str(&mut out, rule.dependency.as_str());
                push_str(&mut out, " at ");
                push_str(&mut out, fp);
                push_str(&mut out, " was not exposed for tags ");
                push_bracket_list(&mut out, tags);
                push_str(&mut out, " of source ");
                push_str(&mut out, file);
            },
            ViolatedFenceClause::DependencyRule(None) => {
                push_str(&mut out, "Violation: Import ");
                push_str(&mut out, spec);
                push_str(&mut out, " at ");
                push_str(&mut out, file);
                push_str(&mut out, " is not in allowlist of ");
                push_str(&mut out, fp);
            },
            ViolatedFenceClause::ImportAllowList => {
                push_str(&mut out, "Violation: File ");
                push_str(&mut out, file);
                push_str(&mut out, " with tags ");
                push_bracket_list(&mut out, tags);
                push_str(&mut out, " does not allow import ");
                push_str(&mut out, spec);
                push_str(&mut out, " at ");
                push_str(&mut out, fp);
            },
        }
        let r = string_from_chars(out.as_slice());
        assert(r@ =~= violation_text(*self));
        r
    }
}

/// An import that could not be checked.
#[derive(Debug, PartialEq, Eq)]
pub enum EvaluateFencesError {
    /// The import resolved to a project file that was not scanned.
    NotScanned {
        project_local_path_str: String,
        source_file_path: String,
        import_specifier: String,
    },
    /// The import could not be resolved.
    ImportNotResolved {
        import_specifier: String,
        source_file_path: String,
    },
}

/// Violations and unresolved imports found for a source file.
#[derive(Debug)]
pub struct FenceEvaluationResult<'f, 'i> {
    pub violations: Vec<ImportRuleViolation<'f, 'i>>,
    pub unresolved_files: Vec<EvaluateFencesError>,
}

impl<'f, 'i> FenceEvaluationResult<'f, 'i> {
    pub fn new() -> (r: Self)
        ensures
            r.violations@.len() == 0,
            r.unresolved_files@.len() == 0,
    {
        FenceEvaluationResult { violations: Vec::new(), unresolved_files: Vec::new() }
    }
}

// ---------------------------------------------------------------------
// Specification
// ---------------------------------------------------------------------

/// `i` is the first file with the given path.
pub open spec fn is_first_file(files: Seq<SourceFile>, path: Seq<char>, i: int) -> bool {
    &&& 0 <= i < files.len()
    &&& files[i].source_file_path@ == path
    &&& forall|j: int| 0 <= j < i ==> files[j].source_file_path@ != path
}

/// The scanned file with the given path.
pub open spec fn lookup_file(files: Seq<SourceFile>, path: Seq<char>) -> Option<int> {
    if exists|i: int| is_first_file(files, path, i) {
        Some(choose|i: int| is_first_file(files, path, i))
    } else {
        None
    }
}

/// The scanned file that a project-local import reaches: the path itself,
/// or else its `index` file.
pub open spec fn find_imported_file(files: Seq<SourceFile>, path: Seq<char>) -> Option<int> {
    match lookup_file(files, path) {
        Some(i) => Some(i),
        None => lookup_file(files, spec_push(path, "index"@)),
    }
}

/// The elements of `a` that are not in `b`, in order.
pub open spec fn seq_minus(a: Seq<int>, b: Seq<int>) -> Seq<int>
    decreases a.len(),
{
    if a.len() == 0 {
        Seq::empty()
    } else {
        let r = seq_minus(a.drop_last(), b);
        if b.contains(a.last()) { r } else { r.push(a.last()) }
    }
}

/// A rule accessible to `accessible` admits a file with `tags`.
pub open spec fn tag_allowed(accessible: Seq<Seq<char>>, tags: Seq<Seq<char>>) -> bool {
    exists|k: int| 0 <= k < accessible.len() && (accessible[k] == "*"@ || tags.contains(accessible[k]))
}

/// The glob an export rule matches against: its `modules` under the
/// directory of the fence.
pub open spec fn export_pattern(fence_path: Seq<char>, modules: Seq<char>) -> Seq<char> {
    spec_push(
        match spec_parent(fence_path) {
            Some(q) => q,
            None => fence_path,
        },
        modules,
    )
}

/// An export rule covers the imported file, with or without its extension.
pub open spec fn rule_applies(fence_path: Seq<char>, modules: Seq<char>, imported: Seq<char>) -> bool {
    let pat = export_pattern(fence_path, modules);
    glob_match_result(pat, imported) || glob_match_result(pat, spec_no_ext(imported))
}

/// An export rule covers an imported file when its glob (the rule's
/// `modules` under the fence's directory) matches the file's path, or
/// matches that path without its extension: a rule for `index` covers
/// `index.ts`. It covers no other file.
pub proof fn law_rule_covers_path_or_stem(fence_path: Seq<char>, modules: Seq<char>, stem: Seq<char>, ext: Seq<char>)
    requires
        stem.len() > 0,
        stem.last() != '/',
        ext.len() > 0,
        forall|j: int| 0 <= j < ext.len() ==> ext[j] != '.' && ext[j] != '/',
    ensures
        rule_applies(fence_path, modules, stem + seq!['.'] + ext) <==> (
            glob_match_result(export_pattern(fence_path, modules), stem + seq!['.'] + ext)
            || glob_match_result(export_pattern(fence_path, modules), stem)),
{
    lemma_stem_and_extension(stem, ext);
}

/// A path without an extension is covered exactly when the rule's glob
/// matches it.
pub proof fn law_rule_covers_extensionless_path_when_matched(fence_path: Seq<char>, modules: Seq<char>, imported: Seq<char>)
    requires
        spec_extension(imported) is None,
    ensures
        rule_applies(fence_path, modules, imported) <==> glob_match_result(export_pattern(fence_path, modules), imported),
{
}

/// A rule covers any path its glob matches, and any path whose form
/// without extension its glob matches.
pub proof fn law_rule_covers_matched_paths(fence_path: Seq<char>, modules: Seq<char>, imported: Seq<char>)
    ensures
        glob_match_result(export_pattern(fence_path, modules), imported) ==> rule_applies(fence_path, modules, imported),
        glob_match_result(export_pattern(fence_path, modules), spec_no_ext(imported)) ==> rule_applies(fence_path, modules, imported),
{
}

/// Indices below `n` of the export rules covering the imported file.
pub open spec fn applicable_rules(fence_path: Seq<char>, rules: Seq<ExportRule>, imported: Seq<char>, n: int) -> Seq<int>
    decreases n,
{
    if n <= 0 {
        Seq::empty()
    } else {
        let r = applicable_rules(fence_path, rules, imported, n - 1);
        if rule_applies(fence_path, rules[n - 1].modules@, imported) { r.push(n - 1) } else { r }
    }
}

/// A node dependency pattern admits a module: equal text, or a valid glob
/// that matches it.
pub open spec fn dependency_matches(pattern: Seq<char>, module: Seq<char>) -> bool {
    pattern == module || (glob_pattern_valid(pattern) && glob_match_result(pattern, module))
}

/// Indices below `n` of the dependency rules admitting the module.
pub open spec fn matching_dependencies(deps: Seq<DependencyRule>, module: Seq<char>, n: int) -> Seq<int>
    decreases n,
{
    if n <= 0 {
        Seq::empty()
    } else {
        let r = matching_dependencies(deps, module, n - 1);
        if dependency_matches(deps[n - 1].dependency@, module) { r.push(n - 1) } else { r }
    }
}

/// Which clause of a fence a violation is about (rule indices refer to the
/// fence's own lists).
pub enum ClauseModel {
    Export(Option<int>),
    Dependency(Option<int>),
    AllowList,
}

/// A violation by import index and fence entry.
pub struct ViolationModel {
    pub import: int,
    pub fence: int,
    pub clause: ClauseModel,
}

/// An unresolved import by import index.
pub enum ErrorModel {
    NotScanned(int, Seq<char>),
    NotResolved(int),
}

/// None of `tags` is in `list`.
pub open spec fn no_tag_listed(tags: Seq<Seq<char>>, list: Seq<Seq<char>>) -> bool {
    forall|k: int| 0 <= k < tags.len() ==> !list.contains(tags[k])
}

/// Allow-list violations of the fences `fs` of the importer for an
/// imported file with tags `imported_tags`.
pub open spec fn allow_list_violations(entries: Seq<(String, Fence)>, fs: Seq<int>, imported_tags: Seq<Seq<char>>, imp: int) -> Seq<ViolationModel>
    decreases fs.len(),
{
    if fs.len() == 0 {
        Seq::empty()
    } else {
        let r = allow_list_violations(entries, fs.drop_last(), imported_tags, imp);
        let f = fs.last();
        match entries[f].1.fence.imports {
            Some(list) => if no_tag_listed(imported_tags, views(list@)) {
                r.push(ViolationModel { import: imp, fence: f, clause: ClauseModel::AllowList })
            } else {
                r
            },
            None => r,
        }
    }
}

/// Export violations of one fence of the imported file.
pub open spec fn export_violations_of(entries: Seq<(String, Fence)>, f: int, imported: Seq<char>, tags: Seq<Seq<char>>, imp: int) -> Seq<ViolationModel> {
    match entries[f].1.fence.exports {
        None => Seq::empty(),
        Some(rules) => {
            let a = applicable_rules(entries[f].1.fence_path@, rules@, imported, rules@.len() as int);
            if a.len() == 0 {
                seq![ViolationModel { import: imp, fence: f, clause: ClauseModel::Export(None) }]
            } else if exists|k: int| 0 <= k < a.len() && tag_allowed(views(rules@[a[k]].accessible_to@), tags) {
                Seq::empty()
            } else {
                a.map_values(|j: int| ViolationModel { import: imp, fence: f, clause: ClauseModel::Export(Some(j)) })
            }
        },
    }
}

/// Export violations of the fences `fs` of the imported file.
pub open spec fn export_violations(entries: Seq<(String, Fence)>, fs: Seq<int>, imported: Seq<char>, tags: Seq<Seq<char>>, imp: int) -> Seq<ViolationModel>
    decreases fs.len(),
{
    if fs.len() == 0 {
        Seq::empty()
    } else {
        export_violations(entries, fs.drop_last(), imported, tags, imp) + export_violations_of(entries, fs.last(), imported, tags, imp)
    }
}

/// Dependency violations of one fence of the importer.
pub open spec fn dependency_violations_of(entries: Seq<(String, Fence)>, f: int, module: Seq<char>, tags: Seq<Seq<char>>, imp: int) -> Seq<ViolationModel> {
    match entries[f].1.fence.dependencies {
        None => Seq::empty(),
        Some(deps) => {
            let m = matching_dependencies(deps@, module, deps@.len() as int);
            if m.len() == 0 {
                seq![ViolationModel { import: imp, fence: f, clause: ClauseModel::Dependency(None) }]
            } else if exists|k: int| 0 <= k < m.len() && tag_allowed(views(deps@[m[k]].accessible_to@), tags) {
                Seq::empty()
            } else {
                m.map_values(|j: int| ViolationModel { import: imp, fence: f, clause: ClauseModel::Dependency(Some(j)) })
            }
        },
    }
}

/// Dependency violations of the fences `fs` of the importer.
pub open spec fn dependency_violations(entries: Seq<(String, Fence)>, fs: Seq<int>, module: Seq<char>, tags: Seq<Seq<char>>, imp: int) -> Seq<ViolationModel>
    decreases fs.len(),
{
    if fs.len() == 0 {
        Seq::empty()
    } else {
        dependency_violations(entries, fs.drop_last(), module, tags, imp) + dependency_violations_of(entries, fs.last(), module, tags, imp)
    }
}

/// The violations and unresolved-import errors for import `imp`, given how
/// it resolved (`None`: it could not be resolved).
pub open spec fn import_outcome(fc: FenceCollection, files: Seq<SourceFile>, sf: SourceFile, imp: int, res: Option<ResolvedImport>) -> (Seq<ViolationModel>, Seq<ErrorModel>) {
    let s = fences_for_path(fc, sf.source_file_path@);
    let tags = views(sf.tags@);
    match res {
        None => (Seq::empty(), seq![ErrorModel::NotResolved(imp)]),
        Some(ResolvedImport::ResourceFileImport) => (Seq::empty(), Seq::empty()),
        Some(ResolvedImport::NodeModulesImport(m)) => (dependency_violations(fc.fences_map@, s, m@, tags, imp), Seq::empty()),
        Some(ResolvedImport::ProjectLocalImport(p)) => match find_imported_file(files, p@) {
            None => (Seq::empty(), seq![ErrorModel::NotScanned(imp, p@)]),
            Some(j) => {
                let isf = files[j];
                let t = fences_for_path(fc, isf.source_file_path@);
                (
                    allow_list_violations(fc.fences_map@, seq_minus(s, t), views(isf.tags@), imp)
                        + export_violations(fc.fences_map@, seq_minus(t, s), isf.source_file_path@, tags, imp),
                    Seq::empty(),
                )
            },
        },
    }
}

proof fn lemma_seq_minus_covered(a: Seq<int>, b: Seq<int>)
    requires
        forall|k: int| 0 <= k < a.len() ==> b.contains(#[trigger] a[k]),
    ensures
        seq_minus(a, b).len() == 0,
    decreases a.len(),
{
    if a.len() > 0 {
        assert(b.contains(a[a.len() - 1]));
        lemma_seq_minus_covered(a.drop_last(), b);
    }
}

/// A project-local import between two files that lie under the same
/// fences is never a violation: fences only restrict imports that cross
/// them.
pub proof fn law_same_fences_no_violation(fc: FenceCollection, files: Seq<SourceFile>, sf: SourceFile, imp: int, p: String)
    requires
        find_imported_file(files, p@) matches Some(j)
            && fences_for_path(fc, files[j].source_file_path@) == fences_for_path(fc, sf.source_file_path@),
    ensures
        import_outcome(fc, files, sf, imp, Some(ResolvedImport::ProjectLocalImport(p))).0.len() == 0,
        import_outcome(fc, files, sf, imp, Some(ResolvedImport::ProjectLocalImport(p))).1.len() == 0,
{
    let s = fences_for_path(fc, sf.source_file_path@);
    lemma_seq_minus_covered(s, s);
    let tags = views(sf.tags@);
    let j = find_imported_file(files, p@)->0;
    let t = fences_for_path(fc, files[j].source_file_path@);
    assert(export_violations(fc.fences_map@, seq_minus(t, s), files[j].source_file_path@, tags, imp).len() == 0);
}

proof fn lemma_seq_minus_excludes(a: Seq<int>, b: Seq<int>)
    ensures
        forall|k: int| 0 <= k < seq_minus(a, b).len() ==> !b.contains(#[trigger] seq_minus(a, b)[k]),
    decreases a.len(),
{
    if a.len() > 0 {
        lemma_seq_minus_excludes(a.drop_last(), b);
        let r = seq_minus(a.drop_last(), b);
        let m = seq_minus(a, b);
        assert forall|k: int| 0 <= k < m.len() implies !b.contains(#[trigger] m[k]) by {
            if k < r.len() {
                assert(m[k] == r[k]);
            }
        }
    }
}

proof fn lemma_allow_list_fences(entries: Seq<(String, Fence)>, fs: Seq<int>, imported_tags: Seq<Seq<char>>, imp: int)
    ensures
        forall|k: int| 0 <= k < allow_list_violations(entries, fs, imported_tags, imp).len() ==> {
            let v = #[trigger] allow_list_violations(entries, fs, imported_tags, imp)[k];
            fs.contains(v.fence) && v.import == imp && v.clause == ClauseModel::AllowList
        },
    decreases fs.len(),
{
    if fs.len() > 0 {
        let d = fs.drop_last();
        lemma_allow_list_fences(entries, d, imported_tags, imp);
        let r = allow_list_violations(entries, d, imported_tags, imp);
        assert forall|k: int| 0 <= k < r.len() implies fs.contains(#[trigger] r[k].fence) by {
            let i = choose|i: int| 0 <= i < d.len() && d[i] == r[k].fence;
            assert(fs[i] == d[i]);
        }
        assert(fs[fs.len() - 1] == fs.last());
    }
}

proof fn lemma_export_fences(entries: Seq<(String, Fence)>, fs: Seq<int>, imported: Seq<char>, tags: Seq<Seq<char>>, imp: int)
    ensures
        forall|k: int| 0 <= k < export_violations(entries, fs, imported, tags, imp).len() ==> {
            let v = #[trigger] export_violations(entries, fs, imported, tags, imp)[k];
            fs.contains(v.fence) && v.import == imp && v.clause is Export
        },
    decreases fs.len(),
{
    if fs.len() > 0 {
        let d = fs.drop_last();
        lemma_export_fences(entries, d, imported, tags, imp);
        let r = export_violations(entries, d, imported, tags, imp);
        let o = export_violations_of(entries, fs.last(), imported, tags, imp);
        let all = export_violations(entries, fs, imported, tags, imp);
        assert(all == r + o);
        assert forall|k: int| 0 <= k < all.len() implies ({
            let v = #[trigger] all[k];
            fs.contains(v.fence) && v.import == imp && v.clause is Export
        }) by {
            if k < r.len() {
                assert(all[k] == r[k]);
                let i = choose|i: int| 0 <= i < d.len() && d[i] == r[k].fence;
                assert(fs[i] == d[i]);
            } else {
                assert(all[k] == o[k - r.len()]);
                assert(fs[fs.len() - 1] == fs.last());
            }
        }
    }
}

/// A project-local import never violates a fence that lies over both the
/// importing and the imported file, neither through the fence's allow-list
/// nor through its export rules; every violation the import gives is about
/// that import.
pub proof fn law_shared_fence_no_violation(fc: FenceCollection, files: Seq<SourceFile>, sf: SourceFile, imp: int, p: String, f: int)
    requires
        find_imported_file(files, p@) matches Some(j)
            && fences_for_path(fc, sf.source_file_path@).contains(f)
            && fences_for_path(fc, files[j].source_file_path@).contains(f),
    ensures
        forall|k: int| 0 <= k < import_outcome(fc, files, sf, imp, Some(ResolvedImport::ProjectLocalImport(p))).0.len() ==> {
            let v = #[trigger] import_outcome(fc, files, sf, imp, Some(ResolvedImport::ProjectLocalImport(p))).0[k];
            v.fence != f && v.import == imp
        },
{
    let s = fences_for_path(fc, sf.source_file_path@);
    let tags = views(sf.tags@);
    let j = find_imported_file(files, p@)->0;
    let isf = files[j];
    let t = fences_for_path(fc, isf.source_file_path@);
    let a = allow_list_violations(fc.fences_map@, seq_minus(s, t), views(isf.tags@), imp);
    let e = export_violations(fc.fences_map@, seq_minus(t, s), isf.source_file_path@, tags, imp);
    let all = import_outcome(fc, files, sf, imp, Some(ResolvedImport::ProjectLocalImport(p))).0;
    assert(all == a + e);
    lemma_seq_minus_excludes(s, t);
    lemma_seq_minus_excludes(t, s);
    lemma_allow_list_fences(fc.fences_map@, seq_minus(s, t), views(isf.tags@), imp);
    lemma_export_fences(fc.fences_map@, seq_minus(t, s), isf.source_file_path@, tags, imp);
    assert forall|k: int| 0 <= k < all.len() implies ({
        let v = #[trigger] all[k];
        v.fence != f && v.import == imp
    }) by {
        if k < a.len() {
            assert(all[k] == a[k]);
            let i = choose|i: int| 0 <= i < seq_minus(s, t).len() && seq_minus(s, t)[i] == a[k].fence;
            assert(!t.contains(seq_minus(s, t)[i]));
        } else {
            assert(all[k] == e[k - a.len()]);
            let i = choose|i: int| 0 <= i < seq_minus(t, s).len() && seq_minus(t, s)[i] == e[k - a.len()].fence;
            assert(!s.contains(seq_minus(t, s)[i]));
        }
    }
}

/// The outcomes of the first `n` imports, concatenated in import order.
pub open spec fn outcomes(fc: FenceCollection, files: Seq<SourceFile>, sf: SourceFile, res: Seq<Option<ResolvedImport>>, n: int) -> (Seq<ViolationModel>, Seq<ErrorModel>)
    decreases n,
{
    if n <= 0 {
        (Seq::empty(), Seq::empty())
    } else {
        let p = outcomes(fc, files, sf, res, n - 1);
        let o = import_outcome(fc, files, sf, n - 1, res[n - 1]);
        (p.0 + o.0, p.1 + o.1)
    }
}

proof fn lemma_dependency_imports(entries: Seq<(String, Fence)>, fs: Seq<int>, module: Seq<char>, tags: Seq<Seq<char>>, imp: int)
    ensures
        forall|k: int| 0 <= k < dependency_violations(entries, fs, module, tags, imp).len()
            ==> (#[trigger] dependency_violations(entries, fs, module, tags, imp)[k]).import == imp,
    decreases fs.len(),
{
    if fs.len() > 0 {
        lemma_dependency_imports(entries, fs.drop_last(), module, tags, imp);
        let r = dependency_violations(entries, fs.drop_last(), module, tags, imp);
        let o = dependency_violations_of(entries, fs.last(), module, tags, imp);
        let all = dependency_violations(entries, fs, module, tags, imp);
        assert(all == r + o);
        assert forall|k: int| 0 <= k < all.len() implies (#[trigger] all[k]).import == imp by {
            if k < r.len() {
                assert(all[k] == r[k]);
            } else {
                assert(all[k] == o[k - r.len()]);
            }
        }
    }
}

proof fn lemma_outcome_imports(fc: FenceCollection, files: Seq<SourceFile>, sf: SourceFile, imp: int, res: Option<ResolvedImport>)
    ensures
        forall|k: int| 0 <= k < import_outcome(fc, files, sf, imp, res).0.len()
            ==> (#[trigger] import_outcome(fc, files, sf, imp, res).0[k]).import == imp,
{
    let s = fences_for_path(fc, sf.source_file_path@);
    let tags = views(sf.tags@);
    match res {
        Some(ResolvedImport::NodeModulesImport(m)) => {
            lemma_dependency_imports(fc.fences_map@, s, m@, tags, imp);
        },
        Some(ResolvedImport::ProjectLocalImport(p)) => {
            if let Some(j) = find_imported_file(files, p@) {
                let t = fences_for_path(fc, files[j].source_file_path@);
                let a = allow_list_violations(fc.fences_map@, seq_minus(s, t), views(files[j].tags@), imp);
                let e = export_violations(fc.fences_map@, seq_minus(t, s), files[j].source_file_path@, tags, imp);
                lemma_allow_list_fences(fc.fences_map@, seq_minus(s, t), views(files[j].tags@), imp);
                lemma_export_fences(fc.fences_map@, seq_minus(t, s), files[j].source_file_path@, tags, imp);
                let all = import_outcome(fc, files, sf, imp, res).0;
                assert(all == a + e);
                assert forall|k: int| 0 <= k < all.len() implies (#[trigger] all[k]).import == imp by {
                    if k < a.len() {
                        assert(all[k] == a[k]);
                    } else {
                        assert(all[k] == e[k - a.len()]);
                    }
                }
            }
        },
        _ => {},
    }
}

/// Every violation among the first `n` imports' outcomes is about one of
/// those imports.
proof fn lemma_outcomes_imports(fc: FenceCollection, files: Seq<SourceFile>, sf: SourceFile, res: Seq<Option<ResolvedImport>>, n: int)
    ensures
        forall|k: int| 0 <= k < outcomes(fc, files, sf, res, n).0.len()
            ==> 0 <= (#[trigger] outcomes(fc, files, sf, res, n).0[k]).import < n,
    decreases n,
{
    if n > 0 {
        lemma_outcomes_imports(fc, files, sf, res, n - 1);
        lemma_outcome_imports(fc, files, sf, n - 1, res[n - 1]);
        let p = outcomes(fc, files, sf, res, n - 1).0;
        let o = import_outcome(fc, files, sf, n - 1, res[n - 1]).0;
        let all = outcomes(fc, files, sf, res, n).0;
        assert(all == p + o);
        assert forall|k: int| 0 <= k < all.len() implies 0 <= (#[trigger] all[k]).import < n by {
            if k < p.len() {
                assert(all[k] == p[k]);
            } else {
                assert(all[k] == o[k - p.len()]);
            }
        }
    }
}

/// Over all the imports of a source file: when import `imp` resolves to a
/// project file and fence `f` covers both that file and the importer, no
/// violation of the evaluation is about import `imp` and fence `f` (neither
/// its allow-list nor its export rules object).
pub proof fn law_shared_fence_no_violation_in_outcomes(
    fc: FenceCollection,
    files: Seq<SourceFile>,
    sf: SourceFile,
    res: Seq<Option<ResolvedImport>>,
    n: int,
    imp: int,
    f: int,
)
    requires
        0 <= imp < n <= res.len(),
        res[imp] matches Some(ResolvedImport::ProjectLocalImport(p)) && find_imported_file(files, p@) matches Some(j)
            && fences_for_path(fc, sf.source_file_path@).contains(f)
            && fences_for_path(fc, files[j].source_file_path@).contains(f),
    ensures
        forall|k: int| 0 <= k < outcomes(fc, files, sf, res, n).0.len() && (#[trigger] outcomes(fc, files, sf, res, n).0[k]).import == imp
            ==> outcomes(fc, files, sf, res, n).0[k].fence != f,
    decreases n,
{
    let p = outcomes(fc, files, sf, res, n - 1).0;
    let o = import_outcome(fc, files, sf, n - 1, res[n - 1]).0;
    let all = outcomes(fc, files, sf, res, n).0;
    assert(all == p + o);
    if imp < n - 1 {
        law_shared_fence_no_violation_in_outcomes(fc, files, sf, res, n - 1, imp, f);
        lemma_outcome_imports(fc, files, sf, n - 1, res[n - 1]);
        assert forall|k: int| 0 <= k < all.len() && (#[trigger] all[k]).import == imp implies all[k].fence != f by {
            if k < p.len() {
                assert(all[k] == p[k]);
            } else {
                assert(all[k] == o[k - p.len()]);
            }
        }
    } else {
        lemma_outcomes_imports(fc, files, sf, res, n - 1);
        let rp = res[imp]->Some_0->ProjectLocalImport_0;
        law_shared_fence_no_violation(fc, files, sf, imp, rp, f);
        assert forall|k: int| 0 <= k < all.len() && (#[trigger] all[k]).import == imp implies all[k].fence != f by {
            if k < p.len() {
                assert(all[k] == p[k]);
            } else {
                assert(all[k] == o[k - p.len()]);
            }
        }
    }
}

/// `v` is the violation that `m` describes.
pub open spec fn violation_matches(v: ImportRuleViolation, m: ViolationModel, fc: FenceCollection, sf: SourceFile) -> bool {
    let fence = fc.fences_map@[m.fence].1;
    &&& 0 <= m.fence < fc.fences_map@.len()
    &&& 0 <= m.import < sf.imports@.len()
    &&& v.violating_file_path@ == sf.source_file_path@
    &&& *v.violating_fence == fence
    &&& v.violating_import_specifier@ == sf.imports@[m.import].0@
    &&& v.violating_imported_name is None
    &&& match (v.violating_fence_clause, m.clause) {
        (ViolatedFenceClause::ExportRule(None), ClauseModel::Export(None)) => true,
        (ViolatedFenceClause::ExportRule(Some(r)), ClauseModel::Export(Some(j))) =>
            fence.fence.exports matches Some(rules) && 0 <= j < rules@.len() && *r == rules@[j],
        (ViolatedFenceClause::DependencyRule(None), ClauseModel::Dependency(None)) => true,
        (ViolatedFenceClause::DependencyRule(Some(d)), ClauseModel::Dependency(Some(j))) =>
            fence.fence.dependencies matches Some(deps) && 0 <= j < deps@.len() && *d == deps@[j],
        (ViolatedFenceClause::ImportAllowList, ClauseModel::AllowList) => true,
        _ => false,
    }
}

/// `vs` are the violations that `ms` describe, one for one.
pub open spec fn violations_match(vs: Seq<ImportRuleViolation>, ms: Seq<ViolationModel>, fc: FenceCollection, sf: SourceFile) -> bool {
    &&& vs.len() == ms.len()
    &&& forall|k: int| 0 <= k < vs.len() ==> violation_matches(#[trigger] vs[k], ms[k], fc, sf)
}

/// `e` is the error that `m` describes.
pub open spec fn error_matches(e: EvaluateFencesError, m: ErrorModel, sf: SourceFile) -> bool {
    match m {
        ErrorModel::NotScanned(imp, p) => {
            &&& 0 <= imp < sf.imports@.len()
            &&& e matches EvaluateFencesError::NotScanned { project_local_path_str, source_file_path, import_specifier }
            &&& e->project_local_path_str@ == p
            &&& e->NotScanned_source_file_path@ == sf.source_file_path@
            &&& e->NotScanned_import_specifier@ == sf.imports@[imp].0@
        },
        ErrorModel::NotResolved(imp) => {
            &&& 0 <= imp < sf.imports@.len()
            &&& e matches EvaluateFencesError::ImportNotResolved { import_specifier, source_file_path }
            &&& e->ImportNotResolved_source_file_path@ == sf.source_file_path@
            &&& e->ImportNotResolved_import_specifier@ == sf.imports@[imp].0@
        },
    }
}

/// `es` are the errors that `ms` describe, one for one.
pub open spec fn errors_match(es: Seq<EvaluateFencesError>, ms: Seq<ErrorModel>, sf: SourceFile) -> bool {
    &&& es.len() == ms.len()
    &&& forall|k: int| 0 <= k < es.len() ==> error_matches(#[trigger] es[k], ms[k], sf)
}

/// Every export rule of the fence has a valid glob pattern.
pub open spec fn fence_export_patterns_valid(f: Fence) -> bool {
    match f.fence.exports {
        None => true,
        Some(rules) => forall|j: int| 0 <= j < rules@.len()
            ==> glob_pattern_valid(export_pattern(f.fence_path@, #[trigger] rules@[j].modules@)),
    }
}

/// Every export rule of every fence has a valid glob pattern.
pub open spec fn export_patterns_valid(fc: FenceCollection) -> bool {
    forall|i: int| 0 <= i < fc.fences_map@.len() ==> fence_export_patterns_valid(#[trigger] fc.fences_map@[i].1)
}

// ---------------------------------------------------------------------
// Implementation
// ---------------------------------------------------------------------

/// The values of a list of indices as integers.
/// The export rules that evaluating import `imp` reads have valid glob
/// patterns: those of the fences of the imported project file that do not
/// also cover the importer.
pub open spec fn import_patterns_valid(fc: FenceCollection, files: Seq<SourceFile>, sf: SourceFile, imp: int, res: Option<ResolvedImport>) -> bool {
    match res {
        Some(ResolvedImport::ProjectLocalImport(p)) => match find_imported_file(files, p@) {
            Some(j) => {
                let s = fences_for_path(fc, sf.source_file_path@);
                let t = fences_for_path(fc, files[j].source_file_path@);
                forall|k: int| 0 <= k < seq_minus(t, s).len()
                    ==> fence_export_patterns_valid(fc.fences_map@[#[trigger] seq_minus(t, s)[k]].1)
            },
            None => true,
        },
        _ => true,
    }
}

/// The export rules that evaluating the imports of `sf` reads have valid
/// glob patterns.
pub open spec fn reached_patterns_valid(fc: FenceCollection, files: Seq<SourceFile>, sf: SourceFile, res: Seq<Option<ResolvedImport>>) -> bool {
    forall|k: int| 0 <= k < res.len() ==> import_patterns_valid(fc, files, sf, k, #[trigger] res[k])
}

proof fn lemma_seq_minus_from(a: Seq<int>, b: Seq<int>)
    ensures
        forall|k: int| 0 <= k < seq_minus(a, b).len() ==> a.contains(#[trigger] seq_minus(a, b)[k]),
    decreases a.len(),
{
    if a.len() > 0 {
        lemma_seq_minus_from(a.drop_last(), b);
        let r = seq_minus(a.drop_last(), b);
        let m = seq_minus(a, b);
        assert forall|k: int| 0 <= k < m.len() implies a.contains(#[trigger] m[k]) by {
            if k < r.len() {
                assert(m[k] == r[k]);
                let i = choose|i: int| 0 <= i < a.drop_last().len() && a.drop_last()[i] == r[k];
                assert(a[i] == a.drop_last()[i]);
            } else {
                assert(a[a.len() - 1] == a.last());
            }
        }
    }
}

/// Valid patterns in the whole collection are valid wherever they are read.
pub proof fn lemma_all_patterns_reach(fc: FenceCollection, files: Seq<SourceFile>, sf: SourceFile, res: Seq<Option<ResolvedImport>>)
    requires
        export_patterns_valid(fc),
    ensures
        reached_patterns_valid(fc, files, sf, res),
{
    assert forall|k: int| 0 <= k < res.len() implies import_patterns_valid(fc, files, sf, k, #[trigger] res[k]) by {
        if let Some(ResolvedImport::ProjectLocalImport(p)) = res[k] {
            if let Some(j) = find_imported_file(files, p@) {
                let s = fences_for_path(fc, sf.source_file_path@);
                let t = fences_for_path(fc, files[j].source_file_path@);
                lemma_seq_minus_from(t, s);
                lemma_fence_indices_in_range(fc.fences_map@, spec_ancestors(files[j].source_file_path@));
                assert forall|m: int| 0 <= m < seq_minus(t, s).len()
                    implies fence_export_patterns_valid(fc.fences_map@[#[trigger] seq_minus(t, s)[m]].1) by {
                    let i = choose|i: int| 0 <= i < t.len() && t[i] == seq_minus(t, s)[m];
                    assert(0 <= t[i] < fc.fences_map@.len());
                }
            }
        }
    }
}

pub open spec fn ints(v: Seq<usize>) -> Seq<int> {
    v.map_values(|x: usize| x as int)
}

proof fn lemma_violations_concat(
    vs1: Seq<ImportRuleViolation>, ms1: Seq<ViolationModel>,
    vs2: Seq<ImportRuleViolation>, ms2: Seq<ViolationModel>,
    fc: FenceCollection, sf: SourceFile,
)
    requires
        violations_match(vs1, ms1, fc, sf),
        violations_match(vs2, ms2, fc, sf),
    ensures
        violations_match(vs1 + vs2, ms1 + ms2, fc, sf),
{
    assert forall|k: int| 0 <= k < (vs1 + vs2).len() implies violation_matches(#[trigger] (vs1 + vs2)[k], (ms1 + ms2)[k], fc, sf) by {
        if k < vs1.len() {
            assert((vs1 + vs2)[k] == vs1[k]);
            assert((ms1 + ms2)[k] == ms1[k]);
        } else {
            assert((vs1 + vs2)[k] == vs2[k - vs1.len()]);
            assert((ms1 + ms2)[k] == ms2[k - ms1.len()]);
        }
    }
}

proof fn lemma_errors_concat(
    es1: Seq<EvaluateFencesError>, ms1: Seq<ErrorModel>,
    es2: Seq<EvaluateFencesError>, ms2: Seq<ErrorModel>,
    sf: SourceFile,
)
    requires
        errors_match(es1, ms1, sf),
        errors_match(es2, ms2, sf),
    ensures
        errors_match(es1 + es2, ms1 + ms2, sf),
{
    assert forall|k: int| 0 <= k < (es1 + es2).len() implies error_matches(#[trigger] (es1 + es2)[k], (ms1 + ms2)[k], sf) by {
        if k < es1.len() {
            assert((es1 + es2)[k] == es1[k]);
            assert((ms1 + ms2)[k] == ms1[k]);
        } else {
            assert((es1 + es2)[k] == es2[k - es1.len()]);
            assert((ms1 + ms2)[k] == ms2[k - ms1.len()]);
        }
    }
}

/// Whether `s` is one of `list`.
pub fn string_in(list: &Vec<String>, s: &String) -> (r: bool)
    ensures
        r == views(list@).contains(s@),
{
    let mut i: usize = 0;
    while i < list.len()
        invariant
            0 <= i <= list@.len(),
            forall|j: int| 0 <= j < i ==> list@[j]@ != s@,
        decreases list@.len() - i,
    {
        if list[i] == *s {
            assert(views(list@)[i as int] == s@);
            return true;
        }
        i = i + 1;
    }
    assert(!views(list@).contains(s@)) by {
        if views(list@).contains(s@) {
            let j = choose|j: int| 0 <= j < views(list@).len() && views(list@)[j] == s@;
            assert(list@[j]@ == s@);
        }
    }
    false
}

/// Whether a rule accessible to `accessible` admits a file with `tags`.
pub fn is_importer_allowed(accessible_to: &Vec<String>, tags: &Vec<String>) -> (r: bool)
    ensures
        r == tag_allowed(views(accessible_to@), views(tags@)),
{
    let mut k: usize = 0;
    while k < accessible_to.len()
        invariant
            0 <= k <= accessible_to@.len(),
            forall|j: int| 0 <= j < k ==> !(views(accessible_to@)[j] == "*"@ || views(tags@).contains(views(accessible_to@)[j])),
        decreases accessible_to@.len() - k,
    {
        if str_eq(accessible_to[k].as_str(), "*") || string_in(tags, &accessible_to[k]) {
            assert(views(accessible_to@)[k as int] == accessible_to@[k as int]@);
            return true;
        }
        assert(views(accessible_to@)[k as int] == accessible_to@[k as int]@);
        k = k + 1;
    }
    false
}

/// Whether none of `tags` is in `list`.
fn no_tag_listed_exec(tags: &Vec<String>, list: &Vec<String>) -> (r: bool)
    ensures
        r == no_tag_listed(views(tags@), views(list@)),
{
    let mut k: usize = 0;
    while k < tags.len()
        invariant
            0 <= k <= tags@.len(),
            forall|j: int| 0 <= j < k ==> !views(list@).contains(views(tags@)[j]),
        decreases tags@.len() - k,
    {
        if string_in(list, &tags[k]) {
            assert(views(tags@)[k as int] == tags@[k as int]@);
            return false;
        }
        assert(views(tags@)[k as int] == tags@[k as int]@);
        k = k + 1;
    }
    true
}

/// Whether a node dependency pattern admits a module.
pub fn is_node_dependency_matching(permitted_node_dependency_pattern: &str, node_dependency: &str) -> (r: bool)
    ensures
        r == dependency_matches(permitted_node_dependency_pattern@, node_dependency@),
{
    if str_eq(permitted_node_dependency_pattern, node_dependency) {
        return true;
    }
    match GlobPattern::new(permitted_node_dependency_pattern) {
        Some(g) => g.matches(node_dependency),
        None => false,
    }
}

/// The glob pattern of an export rule of the fence at `fence_path`.
pub fn export_rule_pattern(fence_path: &str, modules: &str) -> (r: String)
    ensures
        r@ == export_pattern(fence_path@, modules@),
{
    let fp = str_chars(fence_path);
    let m = str_chars(modules);
    let dir = match path_parent(fp.as_slice()) {
        Some(q) => q,
        None => fp,
    };
    let joined = path_push(dir.as_slice(), m.as_slice());
    string_from_chars(joined.as_slice())
}

/// Whether an export rule of the fence at `fence_path` covers the imported
/// file, with or without its extension.
pub fn export_rule_applies_to_import_path(fence_path: &str, export_rule: &ExportRule, imported_file_path: &str) -> (r: bool)
    requires
        glob_pattern_valid(export_pattern(fence_path@, export_rule.modules@)),
    ensures
        r == rule_applies(fence_path@, export_rule.modules@, imported_file_path@),
{
    let pat = export_rule_pattern(fence_path, export_rule.modules.as_str());
    match GlobPattern::new(pat.as_str()) {
        Some(g) => {
            if g.matches(imported_file_path) {
                true
            } else {
                let stripped = no_ext(imported_file_path);
                g.matches(stripped.as_str())
            }
        },
        None => false,
    }
}

fn make_violation<'f, 'i>(
    fence: &'f Fence,
    clause: ViolatedFenceClause<'f>,
    sf: &'i SourceFile,
    imp: usize,
) -> (r: ImportRuleViolation<'f, 'i>)
    requires
        imp < sf.imports@.len(),
    ensures
        r.violating_file_path@ == sf.source_file_path@,
        r.violating_fence == fence,
        r.violating_fence_clause == clause,
        r.violating_import_specifier@ == sf.imports@[imp as int].0@,
        r.violating_imported_name is None,
{
    ImportRuleViolation {
        violating_file_path: sf.source_file_path.as_str(),
        violating_fence: fence,
        violating_fence_clause: clause,
        violating_import_specifier: sf.imports[imp].0.as_str(),
        violating_imported_name: None,
    }
}

fn allow_list_violations_exec<'f, 'i>(
    fc: &'f FenceCollection,
    fs: &Vec<usize>,
    imported_tags: &Vec<String>,
    sf: &'i SourceFile,
    imp: usize,
) -> (r: Vec<ImportRuleViolation<'f, 'i>>)
    requires
        imp < sf.imports@.len(),
        forall|k: int| 0 <= k < fs@.len() ==> (#[trigger] fs@[k]) < fc.fences_map@.len(),
    ensures
        violations_match(r@, allow_list_violations(fc.fences_map@, ints(fs@), views(imported_tags@), imp as int), *fc, *sf),
{
    let ghost fsi = ints(fs@);
    let mut r: Vec<ImportRuleViolation<'f, 'i>> = Vec::new();
    let mut i: usize = 0;
    while i < fs.len()
        invariant
            imp < sf.imports@.len(),
            forall|k: int| 0 <= k < fs@.len() ==> (#[trigger] fs@[k]) < fc.fences_map@.len(),
            fsi == ints(fs@),
            0 <= i <= fs@.len(),
            violations_match(r@, allow_list_violations(fc.fences_map@, fsi.take(i as int), views(imported_tags@), imp as int), *fc, *sf),
        decreases fs@.len() - i,
    {
        let f = fs[i];
        assert(fsi.take(i + 1).drop_last() =~= fsi.take(i as int));
        assert(fsi.take(i + 1).last() == f as int);
        let fence = &fc.fences_map[f].1;
        match &fence.fence.imports {
            Some(list) => {
                if no_tag_listed_exec(imported_tags, list) {
                    let ghost before = r@;
                    r.push(make_violation(fence, ViolatedFenceClause::ImportAllowList, sf, imp));
                    assert(r@.drop_last() == before);
                }
            },
            None => {},
        }
        i = i + 1;
    }
    assert(fsi.take(fs@.len() as int) =~= fsi);
    r
}

fn applicable_rules_exec(fence_path: &str, rules: &Vec<ExportRule>, imported: &str) -> (r: Vec<usize>)
    requires
        forall|j: int| 0 <= j < rules@.len()
            ==> glob_pattern_valid(export_pattern(fence_path@, #[trigger] rules@[j].modules@)),
    ensures
        ints(r@) == applicable_rules(fence_path@, rules@, imported@, rules@.len() as int),
        forall|k: int| 0 <= k < r@.len() ==> (#[trigger] r@[k]) < rules@.len(),
{
    let mut r: Vec<usize> = Vec::new();
    let mut j: usize = 0;
    while j < rules.len()
        invariant
            forall|j: int| 0 <= j < rules@.len()
                ==> glob_pattern_valid(export_pattern(fence_path@, #[trigger] rules@[j].modules@)),
            0 <= j <= rules@.len(),
            ints(r@) == applicable_rules(fence_path@, rules@, imported@, j as int),
            forall|k: int| 0 <= k < r@.len() ==> (#[trigger] r@[k]) < j,
        decreases rules@.len() - j,
    {
        if export_rule_applies_to_import_path(fence_path, &rules[j], imported) {
            let ghost before = r@;
            r.push(j);
            assert(ints(r@) =~= ints(before).push(j as int));
        }
        j = j + 1;
    }
    r
}

fn any_rule_allows(rules: &Vec<ExportRule>, idx: &Vec<usize>, tags: &Vec<String>) -> (r: bool)
    requires
        forall|k: int| 0 <= k < idx@.len() ==> (#[trigger] idx@[k]) < rules@.len(),
    ensures
        r == exists|k: int| 0 <= k < idx@.len() && tag_allowed(views(rules@[ints(idx@)[k]].accessible_to@), views(tags@)),
{
    let mut k: usize = 0;
    while k < idx.len()
        invariant
            forall|k: int| 0 <= k < idx@.len() ==> (#[trigger] idx@[k]) < rules@.len(),
            0 <= k <= idx@.len(),
            forall|m: int| 0 <= m < k ==> !tag_allowed(views(rules@[ints(idx@)[m]].accessible_to@), views(tags@)),
        decreases idx@.len() - k,
    {
        assert(ints(idx@)[k as int] == idx@[k as int] as int);
        if is_importer_allowed(&rules[idx[k]].accessible_to, tags) {
            return true;
        }
        k = k + 1;
    }
    false
}

fn export_violations_of_exec<'f, 'i>(
    fc: &'f FenceCollection,
    f: usize,
    imported: &str,
    tags: &Vec<String>,
    sf: &'i SourceFile,
    imp: usize,
) -> (r: Vec<ImportRuleViolation<'f, 'i>>)
    requires
        f < fc.fences_map@.len(),
        imp < sf.imports@.len(),
        fence_export_patterns_valid(fc.fences_map@[f as int].1),
    ensures
        violations_match(r@, export_violations_of(fc.fences_map@, f as int, imported@, views(tags@), imp as int), *fc, *sf),
{
    let fence = &fc.fences_map[f].1;
    let mut r: Vec<ImportRuleViolation<'f, 'i>> = Vec::new();
    match &fence.fence.exports {
        None => {},
        Some(rules) => {
            let a = applicable_rules_exec(fence.fence_path.as_str(), rules, imported);
            let ghost ai = applicable_rules(fence.fence_path@, rules@, imported@, rules@.len() as int);
            if a.len() == 0 {
                r.push(make_violation(fence, ViolatedFenceClause::ExportRule(None), sf, imp));
            } else if !any_rule_allows(rules, &a, tags) {
                let ghost ms = ai.map_values(|j: int| ViolationModel { import: imp as int, fence: f as int, clause: ClauseModel::Export(Some(j)) });
                assert(ms.len() == a@.len());
                let mut k: usize = 0;
                while k < a.len()
                    invariant
                        forall|k: int| 0 <= k < a@.len() ==> (#[trigger] a@[k]) < rules@.len(),
                        ints(a@) == ai,
                        fence == &fc.fences_map@[f as int].1,
                        fence.fence.exports == Some(*rules),
                        f < fc.fences_map@.len(),
                        imp < sf.imports@.len(),
                        0 <= k <= a@.len(),
                        violations_match(r@, ms.take(k as int), *fc, *sf),
                        ms.len() == a@.len(),
                        forall|j: int| 0 <= j < ms.len() ==> #[trigger] ms[j] == (ViolationModel { import: imp as int, fence: f as int, clause: ClauseModel::Export(Some(ai[j])) }),
                    decreases a@.len() - k,
                {
                    let ghost before = r@;
                    r.push(make_violation(fence, ViolatedFenceClause::ExportRule(Some(&rules[a[k]])), sf, imp));
                    assert(ms.take(k + 1) =~= ms.take(k as int).push(ms[k as int]));
                    assert(ai[k as int] == a@[k as int] as int);
                    assert(violation_matches(r@[k as int], ms[k as int], *fc, *sf));
                    k = k + 1;
                }
                assert(ms.take(a@.len() as int) =~= ms);
            }
        },
    }
    r
}

fn matching_dependencies_exec(deps: &Vec<DependencyRule>, module: &str) -> (r: Vec<usize>)
    ensures
        ints(r@) == matching_dependencies(deps@, module@, deps@.len() as int),
        forall|k: int| 0 <= k < r@.len() ==> (#[trigger] r@[k]) < deps@.len(),
{
    let mut r: Vec<usize> = Vec::new();
    let mut j: usize = 0;
    while j < deps.len()
        invariant
            0 <= j <= deps@.len(),
            ints(r@) == matching_dependencies(deps@, module@, j as int),
            forall|k: int| 0 <= k < r@.len() ==> (#[trigger] r@[k]) < j,
        decreases deps@.len() - j,
    {
        if is_node_dependency_matching(deps[j].dependency.as_str(), module) {
            let ghost before = r@;
            r.push(j);
            assert(ints(r@) =~= ints(before).push(j as int));
        }
        j = j + 1;
    }
    r
}

fn any_dependency_allows(deps: &Vec<DependencyRule>, idx: &Vec<usize>, tags: &Vec<String>) -> (r: bool)
    requires
        forall|k: int| 0 <= k < idx@.len() ==> (#[trigger] idx@[k]) < deps@.len(),
    ensures
        r == exists|k: int| 0 <= k < idx@.len() && tag_allowed(views(deps@[ints(idx@)[k]].accessible_to@), views(tags@)),
{
    let mut k: usize = 0;
    while k < idx.len()
        invariant
            forall|k: int| 0 <= k < idx@.len() ==> (#[trigger] idx@[k]) < deps@.len(),
            0 <= k <= idx@.len(),
            forall|m: int| 0 <= m < k ==> !tag_allowed(views(deps@[ints(idx@)[m]].accessible_to@), views(tags@)),
        decreases idx@.len() - k,
    {
        assert(ints(idx@)[k as int] == idx@[k as int] as int);
        if is_importer_allowed(&deps[idx[k]].accessible_to, tags) {
            return true;
        }
        k = k + 1;
    }
    false
}

fn dependency_violations_of_exec<'f, 'i>(
    fc: &'f FenceCollection,
    f: usize,
    module: &str,
    tags: &Vec<String>,
    sf: &'i SourceFile,
    imp: usize,
) -> (r: Vec<ImportRuleViolation<'f, 'i>>)
    requires
        f < fc.fences_map@.len(),
        imp < sf.imports@.len(),
    ensures
        violations_match(r@, dependency_violations_of(fc.fences_map@, f as int, module@, views(tags@), imp as int), *fc, *sf),
{
    let fence = &fc.fences_map[f].1;
    let mut r: Vec<ImportRuleViolation<'f, 'i>> = Vec::new();
    match &fence.fence.dependencies {
        None => {},
        Some(deps) => {
            let m = matching_dependencies_exec(deps, module);
            let ghost mi = matching_dependencies(deps@, module@, deps@.len() as int);
            if m.len() == 0 {
                r.push(make_violation(fence, ViolatedFenceClause::DependencyRule(None), sf, imp));
            } else if !any_dependency_allows(deps, &m, tags) {
                let ghost ms = mi.map_values(|j: int| ViolationModel { import: imp as int, fence: f as int, clause: ClauseModel::Dependency(Some(j)) });
                assert(ms.len() == m@.len());
                let mut k: usize = 0;
                while k < m.len()
                    invariant
                        forall|k: int| 0 <= k < m@.len() ==> (#[trigger] m@[k]) < deps@.len(),
                        ints(m@) == mi,
                        fence == &fc.fences_map@[f as int].1,
                        fence.fence.dependencies == Some(*deps),
                        f < fc.fences_map@.len(),
                        imp < sf.imports@.len(),
                        0 <= k <= m@.len(),
                        violations_match(r@, ms.take(k as int), *fc, *sf),
                        ms.len() == m@.len(),
                        forall|j: int| 0 <= j < ms.len() ==> #[trigger] ms[j] == (ViolationModel { import: imp as int, fence: f as int, clause: ClauseModel::Dependency(Some(mi[j])) }),
                    decreases m@.len() - k,
                {
                    r.push(make_violation(fence, ViolatedFenceClause::DependencyRule(Some(&deps[m[k]])), sf, imp));
                    assert(ms.take(k + 1) =~= ms.take(k as int).push(ms[k as int]));
                    assert(mi[k as int] == m@[k as int] as int);
                    assert(violation_matches(r@[k as int], ms[k as int], *fc, *sf));
                    k = k + 1;
                }
                assert(ms.take(m@.len() as int) =~= ms);
            }
        },
    }
    r
}

fn minus(a: &Vec<usize>, b: &Vec<usize>) -> (r: Vec<usize>)
    ensures
        ints(r@) == seq_minus(ints(a@), ints(b@)),
        forall|k: int| 0 <= k < r@.len() ==> a@.contains(#[trigger] r@[k]),
{
    let ghost ai = ints(a@);
    let ghost bi = ints(b@);
    let mut r: Vec<usize> = Vec::new();
    let mut i: usize = 0;
    while i < a.len()
        invariant
            ai == ints(a@),
            bi == ints(b@),
            0 <= i <= a@.len(),
            ints(r@) == seq_minus(ai.take(i as int), bi),
            forall|k: int| 0 <= k < r@.len() ==> a@.contains(#[trigger] r@[k]),
        decreases a@.len() - i,
    {
        let x = a[i];
        assert(ai.take(i + 1).drop_last() =~= ai.take(i as int));
        assert(ai.take(i + 1).last() == x as int);
        let mut found = false;
        let mut j: usize = 0;
        while j < b.len()
            invariant
                0 <= j <= b@.len(),
                found == exists|m: int| 0 <= m < j && b@[m] == x,
            decreases b@.len() - j,
        {
            if b[j] == x {
                found = true;
            }
            j = j + 1;
        }
        assert(found == bi.contains(x as int)) by {
            if found {
                let m = choose|m: int| 0 <= m < b@.len() && b@[m] == x;
                assert(bi[m] == x as int);
            }
            if bi.contains(x as int) {
                let m = choose|m: int| 0 <= m < bi.len() && bi[m] == x as int;
                assert(b@[m] == x);
            }
        }
        if !found {
            let ghost before = r@;
            r.push(x);
            assert(ints(r@) =~= ints(before).push(x as int));
            assert forall|k: int| 0 <= k < r@.len() implies a@.contains(#[trigger] r@[k]) by {
                if k < before.len() { assert(r@[k] == before[k]); } else { assert(a@[i as int] == x); }
            }
        }
        i = i + 1;
    }
    assert(ai.take(a@.len() as int) =~= ai);
    r
}

fn export_violations_exec<'f, 'i>(
    fc: &'f FenceCollection,
    fs: &Vec<usize>,
    imported: &str,
    tags: &Vec<String>,
    sf: &'i SourceFile,
    imp: usize,
) -> (r: Vec<ImportRuleViolation<'f, 'i>>)
    requires
        imp < sf.imports@.len(),
        forall|k: int| 0 <= k < fs@.len() ==> (#[trigger] fs@[k]) < fc.fences_map@.len(),
        forall|k: int| 0 <= k < fs@.len() ==> fence_export_patterns_valid(fc.fences_map@[#[trigger] fs@[k] as int].1),
    ensures
        violations_match(r@, export_violations(fc.fences_map@, ints(fs@), imported@, views(tags@), imp as int), *fc, *sf),
{
    let ghost fsi = ints(fs@);
    let mut r: Vec<ImportRuleViolation<'f, 'i>> = Vec::new();
    let mut i: usize = 0;
    while i < fs.len()
        invariant
            imp < sf.imports@.len(),
            forall|k: int| 0 <= k < fs@.len() ==> (#[trigger] fs@[k]) < fc.fences_map@.len(),
            forall|k: int| 0 <= k < fs@.len() ==> fence_export_patterns_valid(fc.fences_map@[#[trigger] fs@[k] as int].1),
            fsi == ints(fs@),
            0 <= i <= fs@.len(),
            violations_match(r@, export_violations(fc.fences_map@, fsi.take(i as int), imported@, views(tags@), imp as int), *fc, *sf),
        decreases fs@.len() - i,
    {
        let f = fs[i];
        assert(fsi.take(i + 1).drop_last() =~= fsi.take(i as int));
        assert(fsi.take(i + 1).last() == f as int);
        assert(fence_export_patterns_valid(fc.fences_map@[f as int].1));
        let mut more = export_violations_of_exec(fc, f, imported, tags, sf, imp);
        let ghost before = r@;
        let ghost added = more@;
        r.append(&mut more);
        proof {
            lemma_violations_concat(before, export_violations(fc.fences_map@, fsi.take(i as int), imported@, views(tags@), imp as int),
                added, export_violations_of(fc.fences_map@, f as int, imported@, views(tags@), imp as int), *fc, *sf);
        }
        i = i + 1;
    }
    assert(fsi.take(fs@.len() as int) =~= fsi);
    r
}

fn dependency_violations_exec<'f, 'i>(
    fc: &'f FenceCollection,
    fs: &Vec<usize>,
    module: &str,
    tags: &Vec<String>,
    sf: &'i SourceFile,
    imp: usize,
) -> (r: Vec<ImportRuleViolation<'f, 'i>>)
    requires
        imp < sf.imports@.len(),
        forall|k: int| 0 <= k < fs@.len() ==> (#[trigger] fs@[k]) < fc.fences_map@.len(),
    ensures
        violations_match(r@, dependency_violations(fc.fences_map@, ints(fs@), module@, views(tags@), imp as int), *fc, *sf),
{
    let ghost fsi = ints(fs@);
    let mut r: Vec<ImportRuleViolation<'f, 'i>> = Vec::new();
    let mut i: usize = 0;
    while i < fs.len()
        invariant
            imp < sf.imports@.len(),
            forall|k: int| 0 <= k < fs@.len() ==> (#[trigger] fs@[k]) < fc.fences_map@.len(),
            fsi == ints(fs@),
            0 <= i <= fs@.len(),
            violations_match(r@, dependency_violations(fc.fences_map@, fsi.take(i as int), module@, views(tags@), imp as int), *fc, *sf),
        decreases fs@.len() - i,
    {
        let f = fs[i];
        assert(fsi.take(i + 1).drop_last() =~= fsi.take(i as int));
        assert(fsi.take(i + 1).last() == f as int);
        let mut more = dependency_violations_of_exec(fc, f, module, tags, sf, imp);
        let ghost before = r@;
        let ghost added = more@;
        r.append(&mut more);
        proof {
            lemma_violations_concat(before, dependency_violations(fc.fences_map@, fsi.take(i as int), module@, views(tags@), imp as int),
                added, dependency_violations_of(fc.fences_map@, f as int, module@, views(tags@), imp as int), *fc, *sf);
        }
        i = i + 1;
    }
    assert(fsi.take(fs@.len() as int) =~= fsi);
    r
}

/// The index of the first scanned file with the given path.
pub fn lookup_source_file(files: &Vec<SourceFile>, path: &[char]) -> (r: Option<usize>)
    ensures
        match r {
            Some(i) => lookup_file(files@, path@) == Some(i as int),
            None => lookup_file(files@, path@) is None,
        },
{
    let mut i: usize = 0;
    while i < files.len()
        invariant
            0 <= i <= files@.len(),
            forall|j: int| 0 <= j < i ==> files@[j].source_file_path@ != path@,
        decreases files@.len() - i,
    {
        let k = str_chars(files[i].source_file_path.as_str());
        if chars_eq(k.as_slice(), path) {
            assert(is_first_file(files@, path@, i as int));
            proof {
                let c = choose|c: int| is_first_file(files@, path@, c);
                assert(c == i) by {
                    if c < i { assert(files@[c].source_file_path@ != path@); }
                    if c > i { assert(files@[i as int].source_file_path@ != path@); }
                }
            }
            return Some(i);
        }
        i = i + 1;
    }
    assert(!exists|c: int| is_first_file(files@, path@, c));
    None
}

proof fn lemma_lookup_file_in_range(files: Seq<SourceFile>, path: Seq<char>)
    ensures
        lookup_file(files, path) matches Some(i) ==> 0 <= i < files.len(),
{
    if lookup_file(files, path) is Some {
        let i = choose|i: int| is_first_file(files, path, i);
    }
}

fn evaluate_import<'f, 'i>(
    fc: &'f FenceCollection,
    files: &Vec<SourceFile>,
    sf: &'i SourceFile,
    s: &Vec<usize>,
    imp: usize,
    res: &Option<ResolvedImport>,
) -> (r: (Vec<ImportRuleViolation<'f, 'i>>, Vec<EvaluateFencesError>))
    requires
        imp < sf.imports@.len(),
        import_patterns_valid(*fc, files@, *sf, imp as int, *res),
        ints(s@) == fences_for_path(*fc, sf.source_file_path@),
        forall|k: int| 0 <= k < s@.len() ==> (#[trigger] s@[k]) < fc.fences_map@.len(),
    ensures
        violations_match(r.0@, import_outcome(*fc, files@, *sf, imp as int, *res).0, *fc, *sf),
        errors_match(r.1@, import_outcome(*fc, files@, *sf, imp as int, *res).1, *sf),
{
    let ghost out = import_outcome(*fc, files@, *sf, imp as int, *res);
    let mut violations: Vec<ImportRuleViolation<'f, 'i>> = Vec::new();
    let mut errors: Vec<EvaluateFencesError> = Vec::new();
    match res {
        None => {
            errors.push(EvaluateFencesError::ImportNotResolved {
                import_specifier: sf.imports[imp].0.clone(),
                source_file_path: sf.source_file_path.clone(),
            });
            assert(error_matches(errors@[0], out.1[0], *sf));
        },
        Some(ResolvedImport::ResourceFileImport) => {},
        Some(ResolvedImport::NodeModulesImport(m)) => {
            violations = dependency_violations_exec(fc, s, m.as_str(), &sf.tags, sf, imp);
        },
        Some(ResolvedImport::ProjectLocalImport(p)) => {
            let pc = str_chars(p.as_str());
            let direct = lookup_source_file(files, pc.as_slice());
            let found = match direct {
                Some(j) => Some(j),
                None => {
                    let idx = str_chars("index");
                    let with_idx = path_push(pc.as_slice(), idx.as_slice());
                    lookup_source_file(files, with_idx.as_slice())
                },
            };
            proof {
                lemma_lookup_file_in_range(files@, p@);
                lemma_lookup_file_in_range(files@, spec_push(p@, "index"@));
            }
            match found {
                None => {
                    errors.push(EvaluateFencesError::NotScanned {
                        project_local_path_str: p.clone(),
                        source_file_path: sf.source_file_path.clone(),
                        import_specifier: sf.imports[imp].0.clone(),
                    });
                    assert(error_matches(errors@[0], out.1[0], *sf));
                },
                Some(j) => {
                    let isf = &files[j];
                    let t = fc.fence_indices_for_path(isf.source_file_path.as_str());
                    assert(ints(t@) =~= fences_for_path(*fc, isf.source_file_path@));
                    let ex_src = minus(s, &t);
                    let ex_tgt = minus(&t, s);
                    assert forall|k: int| 0 <= k < ex_src@.len() implies (#[trigger] ex_src@[k]) < fc.fences_map@.len() by {
                        assert(s@.contains(ex_src@[k]));
                    }
                    assert forall|k: int| 0 <= k < ex_tgt@.len() implies (#[trigger] ex_tgt@[k]) < fc.fences_map@.len() by {
                        assert(t@.contains(ex_tgt@[k]));
                    }
                    let allow = allow_list_violations_exec(fc, &ex_src, &isf.tags, sf, imp);
                    assert forall|k: int| 0 <= k < ex_tgt@.len()
                        implies fence_export_patterns_valid(fc.fences_map@[#[trigger] ex_tgt@[k] as int].1) by {
                        assert(ints(ex_tgt@)[k] == ex_tgt@[k] as int);
                    }
                    let exports = export_violations_exec(fc, &ex_tgt, isf.source_file_path.as_str(), &sf.tags, sf, imp);
                    proof {
                        lemma_violations_concat(allow@, allow_list_violations(fc.fences_map@, ints(ex_src@), views(isf.tags@), imp as int),
                            exports@, export_violations(fc.fences_map@, ints(ex_tgt@), isf.source_file_path@, views(sf.tags@), imp as int), *fc, *sf);
                    }
                    violations = allow;
                    let mut e2 = exports;
                    violations.append(&mut e2);
                },
            }
        },
    }
    (violations, errors)
}

/// Evaluates the fence rules for every import of `source_file`.
///
/// `resolutions[i]` is where the `i`-th import resolved to (`None`: it
/// could not be resolved); fences are identified by their entry in the
/// collection. Imports are taken in order; for each, the violations of
/// the importer's fences (allow lists, then the imported file's export
/// rules, or the dependency lists for node modules) and the unresolved
/// imports are collected.
pub fn evaluate_fences<'f, 'i>(
    fence_collection: &'f FenceCollection,
    source_files: &Vec<SourceFile>,
    source_file: &'i SourceFile,
    resolutions: &Vec<Option<ResolvedImport>>,
) -> (r: FenceEvaluationResult<'f, 'i>)
    requires
        resolutions@.len() == source_file.imports@.len(),
        reached_patterns_valid(*fence_collection, source_files@, *source_file, resolutions@),
    ensures
        violations_match(r.violations@,
            outcomes(*fence_collection, source_files@, *source_file, resolutions@, resolutions@.len() as int).0,
            *fence_collection, *source_file),
        errors_match(r.unresolved_files@,
            outcomes(*fence_collection, source_files@, *source_file, resolutions@, resolutions@.len() as int).1,
            *source_file),
{
    let s = fence_collection.fence_indices_for_path(source_file.source_file_path.as_str());
    assert(ints(s@) =~= fences_for_path(*fence_collection, source_file.source_file_path@));
    let mut violations: Vec<ImportRuleViolation<'f, 'i>> = Vec::new();
    let mut unresolved_files: Vec<EvaluateFencesError> = Vec::new();
    let mut i: usize = 0;
    while i < resolutions.len()
        invariant
            resolutions@.len() == source_file.imports@.len(),
            reached_patterns_valid(*fence_collection, source_files@, *source_file, resolutions@),
            ints(s@) == fences_for_path(*fence_collection, source_file.source_file_path@),
            forall|k: int| 0 <= k < s@.len() ==> (#[trigger] s@[k]) < fence_collection.fences_map@.len(),
            0 <= i <= resolutions@.len(),
            violations_match(violations@, outcomes(*fence_collection, source_files@, *source_file, resolutions@, i as int).0,
                *fence_collection, *source_file),
            errors_match(unresolved_files@, outcomes(*fence_collection, source_files@, *source_file, resolutions@, i as int).1,
                *source_file),
        decreases resolutions@.len() - i,
    {
        let (mut v, mut e) = evaluate_import(fence_collection, source_files, source_file, &s, i, &resolutions[i]);
        let ghost o = import_outcome(*fence_collection, source_files@, *source_file, i as int, resolutions@[i as int]);
        let ghost p = outcomes(*fence_collection, source_files@, *source_file, resolutions@, i as int);
        proof {
            lemma_violations_concat(violations@, p.0, v@, o.0, *fence_collection, *source_file);
            lemma_errors_concat(unresolved_files@, p.1, e@, o.1, *source_file);
        }
        violations.append(&mut v);
        unresolved_files.append(&mut e);
        i = i + 1;
    }
    FenceEvaluationResult { violations, unresolved_files }
}

/// Whether every export rule of every fence has a valid glob pattern.
pub fn check_export_patterns(fence_collection: &FenceCollection) -> (r: bool)
    ensures
        r == export_patterns_valid(*fence_collection),
{
    let mut i: usize = 0;
    while i < fence_collection.fences_map.len()
        invariant
            0 <= i <= fence_collection.fences_map@.len(),
            forall|k: int| 0 <= k < i ==> fence_export_patterns_valid(#[trigger] fence_collection.fences_map@[k].1),
        decreases fence_collection.fences_map@.len() - i,
    {
        let fence = &fence_collection.fences_map[i].1;
        match &fence.fence.exports {
            None => {},
            Some(rules) => {
                let mut j: usize = 0;
                while j < rules.len()
                    invariant
                        0 <= j <= rules@.len(),
                        i < fence_collection.fences_map@.len(),
                        *fence == fence_collection.fences_map@[i as int].1,
                        fence.fence.exports == Some(*rules),
                        forall|m: int| 0 <= m < j ==> glob_pattern_valid(export_pattern(fence.fence_path@, #[trigger] rules@[m].modules@)),
                    decreases rules@.len() - j,
                {
                    let pat = export_rule_pattern(fence.fence_path.as_str(), rules[j].modules.as_str());
                    match GlobPattern::new(pat.as_str()) {
                        Some(_) => {},
                        None => {
                            assert(!glob_pattern_valid(export_pattern(fence.fence_path@, rules@[j as int].modules@)));
                            proof {
                                let r2 = fence.fence.exports->0;
                                assert(r2 == *rules);
                                assert(r2@[j as int] == rules@[j as int]);
                                if fence_export_patterns_valid(*fence) {
                                    assert(glob_pattern_valid(export_pattern(fence.fence_path@, r2@[j as int].modules@)));
                                }
                            }
                            assert(!fence_export_patterns_valid(fence_collection.fences_map@[i as int].1));
                            return false;
                        },
                    }
                    j = j + 1;
                }
            },
        }
        i = i + 1;
    }
    true
}

/// `evaluate_fences` when every export pattern of the collection is a valid
/// glob; `None` otherwise.
pub fn try_evaluate_fences<'f, 'i>(
    fence_collection: &'f FenceCollection,
    source_files: &Vec<SourceFile>,
    source_file: &'i SourceFile,
    resolutions: &Vec<Option<ResolvedImport>>,
) -> (r: Option<FenceEvaluationResult<'f, 'i>>)
    requires
        resolutions@.len() == source_file.imports@.len(),
    ensures
        r is Some <==> export_patterns_valid(*fence_collection),
        r matches Some(res) ==> violations_match(res.violations@,
            outcomes(*fence_collection, source_files@, *source_file, resolutions@, resolutions@.len() as int).0,
            *fence_collection, *source_file)
            && errors_match(res.unresolved_files@,
            outcomes(*fence_collection, source_files@, *source_file, resolutions@, resolutions@.len() as int).1,
            *source_file),
{
    if check_export_patterns(fence_collection) {
        proof { lemma_all_patterns_reach(*fence_collection, source_files@, *source_file, resolutions@); }
        Some(evaluate_fences(fence_collection, source_files, source_file, resolutions))
    } else {
        None
    }
}

} // verus!
