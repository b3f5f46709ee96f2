//! The decisions of resolving a module specifier to a file name against the
//! file system: which probe comes next and what its outcome means. The
//! caller performs each probe (a file or directory lookup, a search of the
//! `node_modules` directories, the working directory, the nearest
//! `package.json`) and hands back what it found.
use vstd::prelude::*;
use crate::abspath::join_abspath;
use crate::node_resolution::{classify_module_target, pairs_view, spec_classify_module, ModuleTarget, ModuleTargetView};
use crate::paths::{clean_path_string, cleaned_path, diff_paths, diffed_path, path_parent, path_push, spec_absolute_join, spec_is_absolute, spec_parent, spec_push};
use crate::resolve::TargetEnv;
use crate::text::{to_owned_string, push_all, push_debug_body, quoted, seq_starts_with, str_chars, string_from_chars};

verus! {

/// The path of `file` relative to the working directory `cwd`
/// (`pathdiff::diff_paths`), or `None` when there is none.
pub fn relative_to_cwd(file: &str, cwd: &str) -> (r: Option<String>)
    ensures
        r matches Some(q) ==> diffed_path(file@, cwd@) == Some(q@),
        r is None ==> diffed_path(file@, cwd@) is None,
{
    diff_paths(file, cwd)
}

/// Where a resolution stands: which probe it asked for last.
pub enum FilenamePhase {
    /// Nothing was asked yet.
    Begin,
    /// The specifier itself was looked up as a path.
    AskedSpecifierPath,
    /// Whether the importer is a file was asked.
    AskedBaseIsFile,
    /// A target path was looked up; `message` is the error when it is not found.
    AskedTargetPath { message: String },
    /// The `node_modules` directories above `base_dir` were searched for `target`.
    AskedNodeModules { base_dir: String, target: String },
    /// The working directory was asked, to make `file` relative to it.
    AskedCwd { file: String },
    /// The nearest `package.json` of the importer was asked, for the file `found`.
    AskedPackage { found: String },
    /// The real path of a found file was asked, for `purpose`.
    AskedCanonical { purpose: WrapPurpose },
    /// The resolution is over.
    Ended,
}

/// A resolution of `module_specifier` imported from `base`.
pub struct FilenameState {
    pub target_env: TargetEnv,
    /// Found files are cleaned lexically rather than resolved to their real path.
    pub preserve_symlinks: bool,
    pub monorepo_root: String,
    pub base: String,
    pub module_specifier: String,
    pub alias: Vec<(String, String)>,
    pub phase: FilenamePhase,
}

/// What a probe found.
pub enum ProbeOutcome {
    /// No probe was made (the first step).
    Nothing,
    /// A lookup found this file or directory, or nothing.
    Path(Option<String>),
    /// Whether the importer is a file.
    IsFile(bool),
    /// The working directory.
    Cwd(String),
    /// The probe failed with this error text.
    Failed(String),
}

/// What the caller does next.
pub enum FilenameAction {
    /// Look `path` up as a file, then as a directory (without its package entry).
    ProbeSpecifierPath(String),
    /// Ask whether `path` is a file.
    CheckIsFile(String),
    /// Look `path` up as a file, then as a directory with its package entry.
    ProbeTargetPath(String),
    /// Search the `node_modules` directories above `base_dir` for `target`.
    SearchNodeModules { base_dir: String, target: String },
    /// Ask for the working directory.
    CurrentDir,
    /// Ask for the real path of a found file (all symbolic links resolved).
    Canonicalize(String),
    /// Find the directory of the nearest `package.json` above `path`.
    FindPackage(String),
    /// Apply the browser rewrites of the package in `package_dir` to `abs_path`; its result is the answer.
    RewriteForBrowser { package_dir: String, abs_path: String },
    /// The answer: the file name, or the error text.
    Finish(Result<String, String>),
}

pub enum FilenamePhaseView {
    Begin,
    AskedSpecifierPath,
    AskedBaseIsFile,
    AskedTargetPath { message: Seq<char> },
    AskedNodeModules { base_dir: Seq<char>, target: Seq<char> },
    AskedCwd { file: Seq<char> },
    AskedPackage { found: Seq<char> },
    AskedCanonical { purpose: WrapPurposeView },
    Ended,
}

/// What a found file is turned into its final form for: the specifier
/// looked up as a path, a target path (with the error text when that
/// fails), or a file found in `node_modules` and made relative to `cwd`.
pub enum WrapPurpose {
    Specifier,
    Target { message: String },
    NodeModules { file: String, cwd: String },
}

pub enum WrapPurposeView {
    Specifier,
    Target { message: Seq<char> },
    NodeModules { file: Seq<char>, cwd: Seq<char> },
}

impl View for WrapPurpose {
    type V = WrapPurposeView;

    open spec fn view(&self) -> WrapPurposeView {
        match self {
            WrapPurpose::Specifier => WrapPurposeView::Specifier,
            WrapPurpose::Target { message } => WrapPurposeView::Target { message: message@ },
            WrapPurpose::NodeModules { file, cwd } => WrapPurposeView::NodeModules { file: file@, cwd: cwd@ },
        }
    }
}

pub struct FilenameStateView {
    pub target_env: TargetEnv,
    pub preserve_symlinks: bool,
    pub monorepo_root: Seq<char>,
    pub base: Seq<char>,
    pub module_specifier: Seq<char>,
    pub alias: Seq<(Seq<char>, Seq<char>)>,
    pub phase: FilenamePhaseView,
}

pub enum ProbeOutcomeView {
    Nothing,
    Path(Option<Seq<char>>),
    IsFile(bool),
    Cwd(Seq<char>),
    Failed(Seq<char>),
}

pub enum FilenameActionView {
    ProbeSpecifierPath(Seq<char>),
    CheckIsFile(Seq<char>),
    ProbeTargetPath(Seq<char>),
    SearchNodeModules { base_dir: Seq<char>, target: Seq<char> },
    CurrentDir,
    Canonicalize(Seq<char>),
    FindPackage(Seq<char>),
    RewriteForBrowser { package_dir: Seq<char>, abs_path: Seq<char> },
    Finish(Result<Seq<char>, Seq<char>>),
}

impl View for FilenamePhase {
    type V = FilenamePhaseView;

    open spec fn view(&self) -> FilenamePhaseView {
        match self {
            FilenamePhase::Begin => FilenamePhaseView::Begin,
            FilenamePhase::AskedSpecifierPath => FilenamePhaseView::AskedSpecifierPath,
            FilenamePhase::AskedBaseIsFile => FilenamePhaseView::AskedBaseIsFile,
            FilenamePhase::AskedTargetPath { message } => FilenamePhaseView::AskedTargetPath { message: message@ },
            FilenamePhase::AskedNodeModules { base_dir, target } => FilenamePhaseView::AskedNodeModules {
                base_dir: base_dir@,
                target: target@,
            },
            FilenamePhase::AskedCwd { file } => FilenamePhaseView::AskedCwd { file: file@ },
            FilenamePhase::AskedPackage { found } => FilenamePhaseView::AskedPackage { found: found@ },
            FilenamePhase::AskedCanonical { purpose } => FilenamePhaseView::AskedCanonical { purpose: purpose@ },
            FilenamePhase::Ended => FilenamePhaseView::Ended,
        }
    }
}

impl View for FilenameState {
    type V = FilenameStateView;

    open spec fn view(&self) -> FilenameStateView {
        FilenameStateView {
            target_env: self.target_env,
            preserve_symlinks: self.preserve_symlinks,
            monorepo_root: self.monorepo_root@,
            base: self.base@,
            module_specifier: self.module_specifier@,
            alias: pairs_view(self.alias@),
            phase: self.phase@,
        }
    }
}

impl View for ProbeOutcome {
    type V = ProbeOutcomeView;

    open spec fn view(&self) -> ProbeOutcomeView {
        match self {
            ProbeOutcome::Nothing => ProbeOutcomeView::Nothing,
            ProbeOutcome::Path(Some(p)) => ProbeOutcomeView::Path(Some(p@)),
            ProbeOutcome::Path(None) => ProbeOutcomeView::Path(None),
            ProbeOutcome::IsFile(b) => ProbeOutcomeView::IsFile(*b),
            ProbeOutcome::Cwd(c) => ProbeOutcomeView::Cwd(c@),
            ProbeOutcome::Failed(m) => ProbeOutcomeView::Failed(m@),
        }
    }
}

impl View for FilenameAction {
    type V = FilenameActionView;

    open spec fn view(&self) -> FilenameActionView {
        match self {
            FilenameAction::ProbeSpecifierPath(p) => FilenameActionView::ProbeSpecifierPath(p@),
            FilenameAction::CheckIsFile(p) => FilenameActionView::CheckIsFile(p@),
            FilenameAction::ProbeTargetPath(p) => FilenameActionView::ProbeTargetPath(p@),
            FilenameAction::SearchNodeModules { base_dir, target } => FilenameActionView::SearchNodeModules {
                base_dir: base_dir@,
                target: target@,
            },
            FilenameAction::CurrentDir => FilenameActionView::CurrentDir,
            FilenameAction::Canonicalize(p) => FilenameActionView::Canonicalize(p@),
            FilenameAction::FindPackage(p) => FilenameActionView::FindPackage(p@),
            FilenameAction::RewriteForBrowser { package_dir, abs_path } => FilenameActionView::RewriteForBrowser {
                package_dir: package_dir@,
                abs_path: abs_path@,
            },
            FilenameAction::Finish(Ok(f)) => FilenameActionView::Finish(Ok(f@)),
            FilenameAction::Finish(Err(m)) => FilenameActionView::Finish(Err(m@)),
        }
    }
}

/// The probe outcome has the form the last request asks for (or is a
/// failure).
pub open spec fn probe_fits(phase: FilenamePhaseView, probe: ProbeOutcomeView) -> bool {
    probe is Failed || match phase {
        FilenamePhaseView::Begin => probe is Nothing,
        FilenamePhaseView::AskedBaseIsFile => probe is IsFile,
        FilenamePhaseView::AskedCwd { .. } => probe is Cwd,
        FilenamePhaseView::Ended => false,
        _ => probe is Path,
    }
}

pub open spec fn with_phase(s: FilenameStateView, phase: FilenamePhaseView) -> FilenameStateView {
    FilenameStateView { phase, ..s }
}

pub open spec fn finish(s: FilenameStateView, r: Result<Seq<char>, Seq<char>>) -> (FilenameStateView, FilenameActionView) {
    (with_phase(s, FilenamePhaseView::Ended), FilenameActionView::Finish(r))
}

pub open spec fn absolute_target_message(spec: Seq<char>) -> Seq<char> {
    "failed to resolve absolute target path "@ + quoted(spec)
}

pub open spec fn relative_target_message(target: Seq<char>, path: Seq<char>) -> Seq<char> {
    "failed to resolve non-absolute target path "@ + target + " (resolved as "@ + path + ")"@
}

pub open spec fn node_modules_message(root: Seq<char>, target: Seq<char>, base_dir: Seq<char>) -> Seq<char> {
    "failed find a node_modules path within "@ + root + " for package "@ + quoted(target) + " above "@ + base_dir
}

pub open spec fn diff_message(file: Seq<char>, cwd: Seq<char>) -> Seq<char> {
    "failed to diff node_modules path "@ + file + " against "@ + cwd
}

/// A file was found: for the browser, the nearest `package.json` is looked
/// for next, otherwise the file is the answer.
pub open spec fn spec_found(s: FilenameStateView, f: Seq<char>) -> (FilenameStateView, FilenameActionView) {
    if s.target_env == TargetEnv::Browser {
        (with_phase(s, FilenamePhaseView::AskedPackage { found: f }), FilenameActionView::FindPackage(s.base))
    } else {
        finish(s, Ok(f))
    }
}

/// A found file in its final form: the specifier's file is the answer, a
/// target's or a `node_modules` file goes on as found.
pub open spec fn spec_wrapped(s: FilenameStateView, c: Seq<char>, purpose: WrapPurposeView) -> (FilenameStateView, FilenameActionView) {
    match purpose {
        WrapPurposeView::Specifier => finish(s, Ok(c)),
        _ => spec_found(s, c),
    }
}

/// A found file whose real path could not be had: the specifier goes on to
/// the importer's directory; a target ends with its error; a `node_modules`
/// file ends with the error of making it relative.
pub open spec fn spec_wrap_failed(s: FilenameStateView, purpose: WrapPurposeView) -> (FilenameStateView, FilenameActionView) {
    match purpose {
        WrapPurposeView::Specifier => (with_phase(s, FilenamePhaseView::AskedBaseIsFile), FilenameActionView::CheckIsFile(s.base)),
        WrapPurposeView::Target { message } => finish(s, Err(message)),
        WrapPurposeView::NodeModules { file, cwd } => finish(s, Err(diff_message(file, cwd))),
    }
}

/// A found file is turned into its final form: cleaned lexically when
/// symbolic links are preserved, else resolved to its real path.
pub open spec fn spec_wrap(s: FilenameStateView, f: Seq<char>, purpose: WrapPurposeView) -> (FilenameStateView, FilenameActionView) {
    if s.preserve_symlinks {
        spec_wrapped(s, cleaned_path(f), purpose)
    } else {
        (with_phase(s, FilenamePhaseView::AskedCanonical { purpose }), FilenameActionView::Canonicalize(f))
    }
}

/// Once the importer's directory is known: a built-in is the answer; an
/// absolute target is looked up; a relative one is looked up from the
/// importer's directory; a package is searched in `node_modules`.
pub open spec fn spec_after_base(s: FilenameStateView, base_dir: Seq<char>) -> (FilenameStateView, FilenameActionView) {
    match spec_classify_module(s.target_env, s.module_specifier, s.alias) {
        ModuleTargetView::Builtin(n) => finish(s, Ok(n)),
        ModuleTargetView::Absolute(path) => (
            with_phase(s, FilenamePhaseView::AskedTargetPath { message: absolute_target_message(s.module_specifier) }),
            FilenameActionView::ProbeTargetPath(path),
        ),
        ModuleTargetView::Relative(target) => {
            let path = spec_push(base_dir, target);
            (
                with_phase(s, FilenamePhaseView::AskedTargetPath { message: relative_target_message(target, path) }),
                FilenameActionView::ProbeTargetPath(path),
            )
        },
        ModuleTargetView::NodeModules(target) => (
            with_phase(s, FilenamePhaseView::AskedNodeModules { base_dir, target }),
            FilenameActionView::SearchNodeModules { base_dir, target },
        ),
    }
}

/// One step of resolving a specifier to a file name. A failed probe ends
/// with its error. A specifier that does not start with `.` is first
/// looked up as a path, and a hit is the answer. The importer's directory
/// is its parent when it is a file (`.` when it has none), else the
/// importer itself. A missing target ends with its error; a file found in
/// `node_modules` is made relative to the working directory. Every found
/// file is then resolved to its real path (or cleaned lexically when
/// symbolic links are preserved), a failure counting as not found. For the
/// browser, a found file goes through the browser rewrites of the nearest
/// package, at its absolute path under the monorepo root.
pub open spec fn spec_resolve_filename_step(s: FilenameStateView, probe: ProbeOutcomeView) -> (FilenameStateView, FilenameActionView) {
    if let ProbeOutcomeView::Failed(m) = probe {
        finish(s, Err(m))
    } else {
        match s.phase {
            FilenamePhaseView::Begin => if !seq_starts_with(s.module_specifier, "."@) {
                (with_phase(s, FilenamePhaseView::AskedSpecifierPath), FilenameActionView::ProbeSpecifierPath(s.module_specifier))
            } else {
                (with_phase(s, FilenamePhaseView::AskedBaseIsFile), FilenameActionView::CheckIsFile(s.base))
            },
            FilenamePhaseView::AskedSpecifierPath => match probe {
                ProbeOutcomeView::Path(Some(f)) => spec_wrap(s, f, WrapPurposeView::Specifier),
                _ => (with_phase(s, FilenamePhaseView::AskedBaseIsFile), FilenameActionView::CheckIsFile(s.base)),
            },
            FilenamePhaseView::AskedBaseIsFile => {
                let base_dir = if probe == ProbeOutcomeView::IsFile(true) {
                    match spec_parent(s.base) {
                        Some(q) => q,
                        None => "."@,
                    }
                } else {
                    s.base
                };
                spec_after_base(s, base_dir)
            },
            FilenamePhaseView::AskedTargetPath { message } => match probe {
                ProbeOutcomeView::Path(Some(f)) => spec_wrap(s, f, WrapPurposeView::Target { message }),
                _ => finish(s, Err(message)),
            },
            FilenamePhaseView::AskedNodeModules { base_dir, target } => match probe {
                ProbeOutcomeView::Path(Some(f)) => (with_phase(s, FilenamePhaseView::AskedCwd { file: f }), FilenameActionView::CurrentDir),
                _ => finish(s, Err(node_modules_message(s.monorepo_root, target, base_dir))),
            },
            FilenamePhaseView::AskedCwd { file } => {
                let cwd = match probe {
                    ProbeOutcomeView::Cwd(c) => c,
                    _ => Seq::empty(),
                };
                match diffed_path(file, cwd) {
                    Some(q) => spec_wrap(s, q, WrapPurposeView::NodeModules { file, cwd }),
                    None => finish(s, Err(diff_message(file, cwd))),
                }
            },
            FilenamePhaseView::AskedCanonical { purpose } => match probe {
                ProbeOutcomeView::Path(Some(c)) => spec_wrapped(s, c, purpose),
                _ => spec_wrap_failed(s, purpose),
            },
            FilenamePhaseView::AskedPackage { found } => match probe {
                ProbeOutcomeView::Path(Some(dir)) => if spec_is_absolute(s.monorepo_root) {
                    (
                        with_phase(s, FilenamePhaseView::Ended),
                        FilenameActionView::RewriteForBrowser {
                            package_dir: dir,
                            abs_path: spec_absolute_join(s.monorepo_root, found),
                        },
                    )
                } else {
                    finish(s, Err("Base path is not absolute"@))
                },
                _ => finish(s, Ok(found)),
            },
            FilenamePhaseView::Ended => finish(s, Err(Seq::empty())),
        }
    }
}

/// A resolution that has not started.
pub fn start_resolve_filename(
    target_env: TargetEnv,
    preserve_symlinks: bool,
    monorepo_root: String,
    base: String,
    module_specifier: String,
    alias: Vec<(String, String)>,
) -> (r: FilenameState)
    ensures
        r@ == (FilenameStateView {
            target_env,
            preserve_symlinks,
            monorepo_root: monorepo_root@,
            base: base@,
            module_specifier: module_specifier@,
            alias: pairs_view(alias@),
            phase: FilenamePhaseView::Begin,
        }),
{
    FilenameState { target_env, preserve_symlinks, monorepo_root, base, module_specifier, alias, phase: FilenamePhase::Begin }
}

fn clone_pairs(v: &Vec<(String, String)>) -> (r: Vec<(String, String)>)
    ensures
        pairs_view(r@) == pairs_view(v@),
{
    let mut r: Vec<(String, String)> = Vec::new();
    let mut i: usize = 0;
    while i < v.len()
        invariant
            0 <= i <= v@.len(),
            r@.len() == i,
            pairs_view(r@) == pairs_view(v@).take(i as int),
        decreases v@.len() - i,
    {
        let a = v[i].0.clone();
        let b = v[i].1.clone();
        assert(pairs_view(v@)[i as int] == (v@[i as int].0@, v@[i as int].1@));
        let ghost av = a@;
        let ghost bv = b@;
        r.push((a, b));
        assert(r@[i as int].0@ == av);
        assert(r@[i as int].1@ == bv);
        assert(pairs_view(r@)[i as int] == (av, bv));
        assert(pairs_view(r@) =~= pairs_view(v@).take(i + 1));
        i = i + 1;
    }
    assert(pairs_view(v@).take(v@.len() as int) =~= pairs_view(v@));
    r
}

fn with_phase_exec(s: &FilenameState, phase: FilenamePhase) -> (r: FilenameState)
    ensures
        r@ == with_phase(s@, phase@),
{
    FilenameState {
        target_env: s.target_env,
        preserve_symlinks: s.preserve_symlinks,
        monorepo_root: s.monorepo_root.clone(),
        base: s.base.clone(),
        module_specifier: s.module_specifier.clone(),
        alias: clone_pairs(&s.alias),
        phase,
    }
}

fn finish_exec(s: &FilenameState, r: Result<String, String>) -> (out: (FilenameState, FilenameAction))
    ensures
        (out.0@, out.1@) == finish(s@, match r {
            Ok(f) => Ok(f@),
            Err(m) => Err(m@),
        }),
{
    (with_phase_exec(s, FilenamePhase::Ended), FilenameAction::Finish(r))
}

fn found_exec(s: &FilenameState, f: String) -> (out: (FilenameState, FilenameAction))
    ensures
        (out.0@, out.1@) == spec_found(s@, f@),
{
    if s.target_env == TargetEnv::Browser {
        (with_phase_exec(s, FilenamePhase::AskedPackage { found: f }), FilenameAction::FindPackage(s.base.clone()))
    } else {
        finish_exec(s, Ok(f))
    }
}

fn diff_message_exec(file: &str, cwd: &str) -> (r: String)
    ensures
        r@ == diff_message(file@, cwd@),
{
    let mut mc: Vec<char> = Vec::new();
    cat(&mut mc, "failed to diff node_modules path ");
    cat(&mut mc, file);
    cat(&mut mc, " against ");
    cat(&mut mc, cwd);
    string_from_chars(mc.as_slice())
}

fn wrapped_exec(s: &FilenameState, c: String, purpose: &WrapPurpose) -> (out: (FilenameState, FilenameAction))
    ensures
        (out.0@, out.1@) == spec_wrapped(s@, c@, purpose@),
{
    match purpose {
        WrapPurpose::Specifier => finish_exec(s, Ok(c)),
        _ => found_exec(s, c),
    }
}

fn wrap_failed_exec(s: &FilenameState, purpose: &WrapPurpose) -> (out: (FilenameState, FilenameAction))
    ensures
        (out.0@, out.1@) == spec_wrap_failed(s@, purpose@),
{
    match purpose {
        WrapPurpose::Specifier => (with_phase_exec(s, FilenamePhase::AskedBaseIsFile), FilenameAction::CheckIsFile(s.base.clone())),
        WrapPurpose::Target { message } => finish_exec(s, Err(message.clone())),
        WrapPurpose::NodeModules { file, cwd } => finish_exec(s, Err(diff_message_exec(file.as_str(), cwd.as_str()))),
    }
}

fn wrap_exec(s: &FilenameState, f: String, purpose: WrapPurpose) -> (out: (FilenameState, FilenameAction))
    ensures
        (out.0@, out.1@) == spec_wrap(s@, f@, purpose@),
{
    if s.preserve_symlinks {
        let c = clean_path_string(f.as_str());
        wrapped_exec(s, c, &purpose)
    } else {
        (with_phase_exec(s, FilenamePhase::AskedCanonical { purpose }), FilenameAction::Canonicalize(f))
    }
}

fn cat(out: &mut Vec<char>, s: &str)
    ensures
        final(out)@ == old(out)@ + s@,
{
    let c = str_chars(s);
    push_all(out, c.as_slice());
}

fn quoted_exec(s: &str) -> (r: String)
    ensures
        r@ == quoted(s@),
{
    let mut out: Vec<char> = Vec::new();
    out.push('"');
    let c = str_chars(s);
    push_debug_body(&mut out, c.as_slice(), false);
    out.push('"');
    string_from_chars(out.as_slice())
}

fn after_base_exec(s: &FilenameState, base_dir: String) -> (out: (FilenameState, FilenameAction))
    ensures
        (out.0@, out.1@) == spec_after_base(s@, base_dir@),
{
    match classify_module_target(s.target_env, s.module_specifier.as_str(), &s.alias) {
        ModuleTarget::Builtin(n) => finish_exec(s, Ok(n)),
        ModuleTarget::Absolute(path) => {
            let q = quoted_exec(s.module_specifier.as_str());
            let mut mc: Vec<char> = Vec::new();
            cat(&mut mc, "failed to resolve absolute target path ");
            cat(&mut mc, q.as_str());
            let message = string_from_chars(mc.as_slice());
            (with_phase_exec(s, FilenamePhase::AskedTargetPath { message }), FilenameAction::ProbeTargetPath(path))
        },
        ModuleTarget::Relative(target) => {
            let bd = str_chars(base_dir.as_str());
            let tc = str_chars(target.as_str());
            let path = string_from_chars(path_push(bd.as_slice(), tc.as_slice()).as_slice());
            let mut mc: Vec<char> = Vec::new();
            cat(&mut mc, "failed to resolve non-absolute target path ");
            cat(&mut mc, target.as_str());
            cat(&mut mc, " (resolved as ");
            cat(&mut mc, path.as_str());
            cat(&mut mc, ")");
            let message = string_from_chars(mc.as_slice());
            (with_phase_exec(s, FilenamePhase::AskedTargetPath { message }), FilenameAction::ProbeTargetPath(path))
        },
        ModuleTarget::NodeModules(target) => {
            let t2 = target.clone();
            let b2 = base_dir.clone();
            (with_phase_exec(s, FilenamePhase::AskedNodeModules { base_dir, target }), FilenameAction::SearchNodeModules { base_dir: b2, target: t2 })
        },
    }
}

/// One step of resolving a specifier to a file name (see
/// `spec_resolve_filename_step`).
pub fn resolve_filename_step(state: &FilenameState, probe: ProbeOutcome) -> (r: (FilenameState, FilenameAction))
    requires
        probe_fits(state.phase@, probe@),
    ensures
        (r.0@, r.1@) == spec_resolve_filename_step(state@, probe@),
{
    if let ProbeOutcome::Failed(m) = probe {
        return finish_exec(state, Err(m));
    }
    match &state.phase {
        FilenamePhase::Begin => {
            let spec = str_chars(state.module_specifier.as_str());
            proof { reveal_strlit("."); }
            if !(spec.len() > 0 && spec[0] == '.') {
                proof {
                    if seq_starts_with(spec@, "."@) {
                        assert(spec@.subrange(0, 1)[0] == spec@[0]);
                    }
                }
                (with_phase_exec(state, FilenamePhase::AskedSpecifierPath), FilenameAction::ProbeSpecifierPath(state.module_specifier.clone()))
            } else {
                proof { assert(spec@.subrange(0, 1) =~= "."@); }
                (with_phase_exec(state, FilenamePhase::AskedBaseIsFile), FilenameAction::CheckIsFile(state.base.clone()))
            }
        },
        FilenamePhase::AskedSpecifierPath => match probe {
            ProbeOutcome::Path(Some(f)) => wrap_exec(state, f, WrapPurpose::Specifier),
            _ => (with_phase_exec(state, FilenamePhase::AskedBaseIsFile), FilenameAction::CheckIsFile(state.base.clone())),
        },
        FilenamePhase::AskedBaseIsFile => {
            let is_file = match probe {
                ProbeOutcome::IsFile(b) => b,
                _ => false,
            };
            let base_dir = if is_file {
                let bc = str_chars(state.base.as_str());
                match path_parent(bc.as_slice()) {
                    Some(q) => string_from_chars(q.as_slice()),
                    None => {
                        proof { reveal_strlit("."); }
                        String::from_str(".")
                    },
                }
            } else {
                state.base.clone()
            };
            after_base_exec(state, base_dir)
        },
        FilenamePhase::AskedTargetPath { message } => match probe {
            ProbeOutcome::Path(Some(f)) => wrap_exec(state, f, WrapPurpose::Target { message: message.clone() }),
            _ => finish_exec(state, Err(message.clone())),
        },
        FilenamePhase::AskedNodeModules { base_dir, target } => match probe {
            ProbeOutcome::Path(Some(f)) => (with_phase_exec(state, FilenamePhase::AskedCwd { file: f }), FilenameAction::CurrentDir),
            _ => {
                let q = quoted_exec(target.as_str());
                let mut mc: Vec<char> = Vec::new();
                cat(&mut mc, "failed find a node_modules path within ");
                cat(&mut mc, state.monorepo_root.as_str());
                cat(&mut mc, " for package ");
                cat(&mut mc, q.as_str());
                cat(&mut mc, " above ");
                cat(&mut mc, base_dir.as_str());
                let m = string_from_chars(mc.as_slice());
                finish_exec(state, Err(m))
            },
        },
        FilenamePhase::AskedCwd { file } => {
            let cwd = match probe {
                ProbeOutcome::Cwd(c) => c,
                _ => String::new(),
            };
            match relative_to_cwd(file.as_str(), cwd.as_str()) {
                Some(q) => wrap_exec(state, q, WrapPurpose::NodeModules { file: file.clone(), cwd }),
                None => finish_exec(state, Err(diff_message_exec(file.as_str(), cwd.as_str()))),
            }
        },
        FilenamePhase::AskedCanonical { purpose } => match probe {
            ProbeOutcome::Path(Some(c)) => wrapped_exec(state, c, purpose),
            _ => wrap_failed_exec(state, purpose),
        },
        FilenamePhase::AskedPackage { found } => match probe {
            ProbeOutcome::Path(Some(dir)) => match join_abspath(state.monorepo_root.as_str(), found.as_str()) {
                Ok(abs) => (with_phase_exec(state, FilenamePhase::Ended), FilenameAction::RewriteForBrowser { package_dir: dir, abs_path: abs }),
                Err(e) => {
                    let m = to_owned_string(e.message());
                    finish_exec(state, Err(m))
                },
            },
            _ => finish_exec(state, Ok(found.clone())),
        },
        FilenamePhase::Ended => finish_exec(state, Err(String::new())),
    }
}

} // verus!
