use good_fences::node_modules_search::{node_modules_search, node_modules_step, NmAction, NmCacheEntry, NmEvent};
use good_fences::probe_walk::{probe_walk_advance, probe_walk_next, probe_walk_start, ProbeStep};
use good_fences::filename_resolution::{relative_to_cwd, resolve_filename_step, start_resolve_filename, FilenameAction, FilenameState, ProbeOutcome};
use good_fences::exported_path::ExportedPath;
use good_fences::js_err::AnyError;
use good_fences::node_resolution::{
    classify_module_target, directory_index_candidates, CachedResolution, node_modules_target, package_entry_path,
    resolve_as_file_candidates, ModuleTarget, PackageJsonRewriteData,
};
use good_fences::package::{Browser, PackageJson};
use good_fences::pkgjson_exports::{PackageExportRewriteData, PackageJsonExport, PackageJsonExports};
use good_fences::resolve::{is_core_module, TargetEnv};
use good_fences::tsconfig::{TsconfigPathsCompilerOptions, TsconfigPathsJson};
use good_fences::tsconfig_resolution::{
    has_node_modules_component, inner_resolution_filename, match_failed_message, process_tsconfig, stem_slug,
    tsconfig_resolution_plan, AttemptBase, PlanEnd, ProcessedTsconfig,
};

fn strings(v: &[&str]) -> Vec<String> {
    v.iter().map(|s| s.to_string()).collect()
}

fn message(e: AnyError) -> String {
    e.to_display_string()
}

#[test]
fn file_candidates_without_extension() {
    assert_eq!(
        resolve_as_file_candidates("/p/a", &strings(&["ts", "tsx"])),
        strings(&["/p/a.js", "/p/a", "/p/a.ts", "/p/a.tsx"])
    );
}

#[test]
fn file_candidates_with_js_extension_try_typescript() {
    assert_eq!(
        resolve_as_file_candidates("/p/a.js", &strings(&["ts"])),
        strings(&["/p/a.js", "/p/a.js.ts", "/p/a.ts", "/p/a.tsx"])
    );
    assert_eq!(resolve_as_file_candidates("/p/a.mjs", &strings(&[])), strings(&["/p/a.mjs", "/p/a.mts"]));
}

#[test]
fn index_candidates() {
    assert_eq!(
        directory_index_candidates("/p/d", &strings(&["ts", "js"])),
        strings(&["/p/d/index.ts", "/p/d/index.js"])
    );
}

#[test]
fn module_classification() {
    let none: Vec<(String, String)> = vec![];
    assert_eq!(classify_module_target(TargetEnv::Node, "fs", &none), ModuleTarget::Builtin("node:fs".to_string()));
    assert_eq!(classify_module_target(TargetEnv::Node, "node:path", &none), ModuleTarget::Builtin("node:path".to_string()));
    assert_eq!(classify_module_target(TargetEnv::Browser, "fs", &none), ModuleTarget::NodeModules("fs".to_string()));
    assert_eq!(classify_module_target(TargetEnv::Node, "/abs/x", &none), ModuleTarget::Absolute("/abs/x".to_string()));
    assert_eq!(classify_module_target(TargetEnv::Node, "../x", &none), ModuleTarget::Relative("../x".to_string()));
    let alias = vec![("foo".to_string(), "./bar".to_string())];
    assert_eq!(classify_module_target(TargetEnv::Node, "foo", &alias), ModuleTarget::Relative("./bar".to_string()));
    assert!(is_core_module("fs"));
    assert!(!is_core_module("left-pad"));
}

fn hetero_rewrite() -> PackageJsonRewriteData {
    let exports = PackageJsonExports {
        entries: vec![
            (
                ".".to_string(),
                PackageJsonExport::Conditional(vec![
                    ("import".to_string(), ExportedPath::Exported("./lib/import-target.ts".to_string())),
                    ("require".to_string(), ExportedPath::Exported("./lib/require-target.ts".to_string())),
                ]),
            ),
            ("./foo".to_string(), PackageJsonExport::Single(Some("./lib/foo.ts".to_string()))),
            ("./secret".to_string(), PackageJsonExport::Single(None)),
        ],
    };
    PackageJsonRewriteData { browser_cache: None, exports: Some(PackageExportRewriteData::try_from(&exports).unwrap()) }
}

#[test]
fn package_entry_from_exports_and_main() {
    let pkg = PackageJson { main: Some("main.js".to_string()), module: None, browser: None, exports: None };
    let rewrite = hetero_rewrite();
    let entry = package_entry_path("/nm/hetero", "/nm/hetero/package.json", &pkg, &rewrite, TargetEnv::Node, &strings(&["require"]));
    assert_eq!(entry.ok().unwrap(), Some("/nm/hetero/./lib/require-target.ts".to_string()));

    let plain = PackageJsonRewriteData { browser_cache: None, exports: None };
    let entry = package_entry_path("/nm/p", "/nm/p/package.json", &pkg, &plain, TargetEnv::Node, &strings(&[]));
    assert_eq!(entry.ok().unwrap(), Some("/nm/p/main.js".to_string()));

    let browser = PackageJson {
        main: Some("main.js".to_string()),
        module: Some("module.js".to_string()),
        browser: Some(Browser::Str("browser.js".to_string())),
        exports: None,
    };
    let entry = package_entry_path("/nm/p", "/nm/p/package.json", &browser, &plain, TargetEnv::Browser, &strings(&[]));
    assert_eq!(entry.ok().unwrap(), Some("/nm/p/browser.js".to_string()));
    let entry = package_entry_path("/nm/p", "/nm/p/package.json", &browser, &plain, TargetEnv::Node, &strings(&[]));
    assert_eq!(entry.ok().unwrap(), Some("/nm/p/module.js".to_string()));
}

#[test]
fn node_modules_targets_through_exports() {
    let rewrite = hetero_rewrite();
    let conds = strings(&["import"]);
    assert_eq!(
        node_modules_target("/repo", "hetero/foo", Some(&rewrite), &conds).ok().unwrap(),
        Some("/repo/node_modules/hetero/./lib/foo.ts".to_string())
    );
    assert_eq!(
        node_modules_target("/repo", "hetero/other", Some(&rewrite), &conds).ok().unwrap(),
        Some("/repo/node_modules/hetero/other".to_string())
    );
    assert_eq!(
        message(node_modules_target("/repo", "hetero/secret", Some(&rewrite), &conds).err().unwrap()),
        "Import 'hetero/secret' is marked as private by export 'default' in /repo/node_modules/hetero/package.json"
    );
    assert_eq!(
        node_modules_target("/repo", "plain", None, &conds).ok().unwrap(),
        Some("/repo/node_modules/plain".to_string())
    );
}

fn tsconfig(base_url: Option<&str>, paths: Option<Vec<(String, Vec<String>)>>) -> TsconfigPathsJson {
    TsconfigPathsJson {
        compiler_options: TsconfigPathsCompilerOptions { base_url: base_url.map(|s| s.to_owned()), paths },
    }
}

#[test]
fn tsconfig_processing_and_plans() {
    let ts = tsconfig(
        Some("."),
        Some(vec![
            ("glob-specifier/lib/*".to_string(), strings(&["packages/glob-specifier/src/*"])),
            ("non-glob-specifier".to_string(), strings(&["packages/non-glob-specifier/lib/index"])),
        ]),
    );
    let processed = match process_tsconfig("/repo/tsconfig.json", &ts).ok().unwrap() {
        ProcessedTsconfig::HasPaths(p) => p,
        ProcessedTsconfig::NoPaths => panic!("paths expected"),
    };
    assert_eq!(processed.base_url, "/repo");

    let plan = tsconfig_resolution_plan(&processed, false, "glob-specifier/lib/something");
    let specs: Vec<(AttemptBase, String, bool)> =
        plan.attempts.iter().map(|a| (a.base, a.specifier.clone(), a.keeps_error)).collect();
    assert_eq!(
        specs,
        vec![
            (AttemptBase::Importer, "glob-specifier/lib/something".to_string(), false),
            (AttemptBase::BaseUrl, "./packages/glob-specifier/src/something".to_string(), false),
            (AttemptBase::BaseUrl, "packages/glob-specifier/src/something".to_string(), true),
        ]
    );
    match plan.end {
        PlanEnd::Resolved { filename, slug } => {
            assert_eq!(filename, "packages/glob-specifier/src/something");
            assert_eq!(slug, Some("something".to_string()));
        },
        other => panic!("unexpected end {:?}", other),
    }

    let plan = tsconfig_resolution_plan(&processed, false, "non-glob-specifier");
    assert_eq!(plan.attempts.len(), 1);
    assert_eq!(plan.attempts[0].specifier, "./packages/non-glob-specifier/lib/index");
    assert!(plan.attempts[0].slug_from_stem);
    match plan.end {
        PlanEnd::Resolved { filename, slug } => {
            assert_eq!(filename, "/repo/packages/non-glob-specifier/lib/index");
            assert_eq!(slug, Some("index".to_string()));
        },
        other => panic!("unexpected end {:?}", other),
    }

    let plan = tsconfig_resolution_plan(&processed, false, "./local");
    assert_eq!(plan.attempts.len(), 1);
    assert!(matches!(plan.end, PlanEnd::LastError));

    let plan = tsconfig_resolution_plan(&processed, false, "react");
    let specs: Vec<String> = plan.attempts.iter().map(|a| a.specifier.clone()).collect();
    assert_eq!(specs, strings(&["/repo/react", "react"]));
}

#[test]
fn tsconfig_errors() {
    let no_base = tsconfig(None, Some(vec![("a".to_string(), strings(&["b"]))]));
    assert_eq!(
        message(process_tsconfig("/repo/tsconfig.json", &no_base).err().unwrap()),
        "Failed to parse Some(\"/repo/tsconfig.json\") as tsconfig.json file: base_url is missing, but paths was set"
    );
    let two_targets = tsconfig(Some("."), Some(vec![("a".to_string(), strings(&["b", "c"]))]));
    assert_eq!(
        message(process_tsconfig("/repo/tsconfig.json", &two_targets).err().unwrap()),
        "Failed to parse \"/repo/tsconfig.json\" as tsconfig.json file: paths is not well-formed"
    );
    assert!(matches!(process_tsconfig("/repo/tsconfig.json", &tsconfig(None, None)), Ok(ProcessedTsconfig::NoPaths)));
}

#[test]
fn resolution_helpers() {
    assert!(has_node_modules_component("/repo/node_modules/x/index.js"));
    assert!(!has_node_modules_component("/repo/my_node_modules/x"));
    assert_eq!(inner_resolution_filename(false, "pkg", "/repo/node_modules/pkg/index.js"), "pkg");
    assert_eq!(inner_resolution_filename(true, "pkg", "/repo/node_modules/pkg/index.js"), "/repo/node_modules/pkg/index.js");
    assert_eq!(stem_slug("/repo/src/thing.test.ts"), Some("thing.test".to_string()));
    assert_eq!(stem_slug("/repo/src/index.ts"), None);
    assert_eq!(
        match_failed_message("@app/x", "@app/"),
        "`@app/x` matched `@app/` (from tsconfig.paths) but failed to resolve:\n"
    );
}

fn step(state: &FilenameState, probe: ProbeOutcome) -> (FilenameState, FilenameAction) {
    resolve_filename_step(state, probe)
}

#[test]
fn filename_steps_for_a_relative_import() {
    let s0 = start_resolve_filename(TargetEnv::Node, true, "/repo".to_string(), "src/a.ts".to_string(), "./b".to_string(), vec![]);
    let (s1, a1) = step(&s0, ProbeOutcome::Nothing);
    assert!(matches!(a1, FilenameAction::CheckIsFile(ref p) if p == "src/a.ts"));
    let (s2, a2) = step(&s1, ProbeOutcome::IsFile(true));
    assert!(matches!(a2, FilenameAction::ProbeTargetPath(ref p) if p == "src/./b"));
    let (_, a3) = step(&s2, ProbeOutcome::Path(Some("src/b.ts".to_string())));
    assert!(matches!(a3, FilenameAction::Finish(Ok(ref f)) if f == "src/b.ts"));
    let (_, a4) = step(&s2, ProbeOutcome::Path(None));
    assert!(matches!(a4, FilenameAction::Finish(Err(ref m)) if m == "failed to resolve non-absolute target path ./b (resolved as src/./b)"));
}

#[test]
fn filename_steps_for_a_package_and_a_builtin() {
    let s0 = start_resolve_filename(TargetEnv::Node, true, "/repo".to_string(), "/repo/src/a.ts".to_string(), "lodash".to_string(), vec![]);
    let (s1, a1) = step(&s0, ProbeOutcome::Nothing);
    assert!(matches!(a1, FilenameAction::ProbeSpecifierPath(ref p) if p == "lodash"));
    let (s2, _) = step(&s1, ProbeOutcome::Path(None));
    let (s3, a3) = step(&s2, ProbeOutcome::IsFile(false));
    assert!(matches!(a3, FilenameAction::SearchNodeModules { ref base_dir, ref target } if base_dir == "/repo/src/a.ts" && target == "lodash"));
    let (_, a4) = step(&s3, ProbeOutcome::Path(None));
    assert!(matches!(a4, FilenameAction::Finish(Err(ref m))
        if m == "failed find a node_modules path within /repo for package \"lodash\" above /repo/src/a.ts"));
    let (s5, a5) = step(&s3, ProbeOutcome::Path(Some("/repo/node_modules/lodash/index.js".to_string())));
    assert!(matches!(a5, FilenameAction::CurrentDir));
    let (_, a6) = step(&s5, ProbeOutcome::Cwd("/repo".to_string()));
    assert!(matches!(a6, FilenameAction::Finish(Ok(ref f)) if f == "node_modules/lodash/index.js"));

    let b0 = start_resolve_filename(TargetEnv::Node, true, "/repo".to_string(), "/repo/a.ts".to_string(), "fs".to_string(), vec![]);
    let (b1, _) = step(&b0, ProbeOutcome::Nothing);
    let (b2, _) = step(&b1, ProbeOutcome::Path(None));
    let (_, b3) = step(&b2, ProbeOutcome::IsFile(true));
    assert!(matches!(b3, FilenameAction::Finish(Ok(ref f)) if f == "node:fs"));
}

#[test]
fn filename_steps_for_the_browser_and_failures() {
    let s0 = start_resolve_filename(TargetEnv::Browser, true, "/repo".to_string(), "src/a.ts".to_string(), "./b".to_string(), vec![]);
    let (s1, _) = step(&s0, ProbeOutcome::Nothing);
    let (s2, _) = step(&s1, ProbeOutcome::IsFile(true));
    let (s3, a3) = step(&s2, ProbeOutcome::Path(Some("src/b.ts".to_string())));
    assert!(matches!(a3, FilenameAction::FindPackage(ref p) if p == "src/a.ts"));
    let (_, a4) = step(&s3, ProbeOutcome::Path(Some("/repo".to_string())));
    assert!(matches!(a4, FilenameAction::RewriteForBrowser { ref package_dir, ref abs_path }
        if package_dir == "/repo" && abs_path == "/repo/src/b.ts"));
    let (_, a5) = step(&s3, ProbeOutcome::Path(None));
    assert!(matches!(a5, FilenameAction::Finish(Ok(ref f)) if f == "src/b.ts"));
    let (_, a6) = step(&s1, ProbeOutcome::Failed("disk error".to_string()));
    assert!(matches!(a6, FilenameAction::Finish(Err(ref m)) if m == "disk error"));
}

#[test]
fn relative_to_cwd_diffs_paths() {
    assert_eq!(relative_to_cwd("/repo/src/b.ts", "/repo"), Some("src/b.ts".to_string()));
    assert_eq!(relative_to_cwd("src/b.ts", "/repo"), None);
}

#[test]
fn probe_walk_climbs_to_the_root_and_stops() {
    let mut w = probe_walk_start("/repo".to_string(), "/repo/a/b".to_string());
    let mut checked = Vec::new();
    let mut reported = Vec::new();
    loop {
        let dir = match probe_walk_next(&w) {
            ProbeStep::Check(d) => d,
            ProbeStep::Done => break,
            ProbeStep::DepthExceeded => panic!("walk did not end"),
        };
        checked.push(dir.clone());
        let found = dir == "/repo/a";
        let (next, report) = probe_walk_advance(&w, found);
        if report {
            reported.push(dir);
        }
        w = next;
    }
    assert_eq!(checked, vec!["/repo/a/b", "/repo/a", "/repo"]);
    assert_eq!(reported, vec!["/repo/a"]);
}

#[test]
fn probe_walk_ends_at_a_found_root() {
    let w = probe_walk_start("/repo".to_string(), "/repo".to_string());
    let (w2, report) = probe_walk_advance(&w, true);
    assert!(report);
    assert!(matches!(probe_walk_next(&w2), ProbeStep::Done));
}

#[test]
fn filename_steps_resolve_found_files_to_their_real_path() {
    let s0 = start_resolve_filename(TargetEnv::Node, false, "/repo".to_string(), "src/a.ts".to_string(), "./b".to_string(), vec![]);
    let (s1, _) = step(&s0, ProbeOutcome::Nothing);
    let (s2, _) = step(&s1, ProbeOutcome::IsFile(true));
    let (s3, a3) = step(&s2, ProbeOutcome::Path(Some("src/b.ts".to_string())));
    assert!(matches!(a3, FilenameAction::Canonicalize(ref p) if p == "src/b.ts"));
    let (_, a4) = step(&s3, ProbeOutcome::Path(Some("/repo/src/b.ts".to_string())));
    assert!(matches!(a4, FilenameAction::Finish(Ok(ref f)) if f == "/repo/src/b.ts"));
    let (_, a5) = step(&s3, ProbeOutcome::Path(None));
    assert!(matches!(a5, FilenameAction::Finish(Err(ref m)) if m == "failed to resolve non-absolute target path ./b (resolved as src/./b)"));

    let t0 = start_resolve_filename(TargetEnv::Node, false, "/repo".to_string(), "src/a.ts".to_string(), "lib/x".to_string(), vec![]);
    let (t1, _) = step(&t0, ProbeOutcome::Nothing);
    let (t2, a2) = step(&t1, ProbeOutcome::Path(Some("lib/x.ts".to_string())));
    assert!(matches!(a2, FilenameAction::Canonicalize(ref p) if p == "lib/x.ts"));
    let (_, a3) = step(&t2, ProbeOutcome::Path(None));
    assert!(matches!(a3, FilenameAction::CheckIsFile(ref p) if p == "src/a.ts"));
}

#[test]
fn filename_steps_clean_found_files_when_symlinks_are_preserved() {
    let s0 = start_resolve_filename(TargetEnv::Node, true, "/repo".to_string(), "src/a.ts".to_string(), "lib//x".to_string(), vec![]);
    let (s1, _) = step(&s0, ProbeOutcome::Nothing);
    let (_, a2) = step(&s1, ProbeOutcome::Path(Some("lib//./x.ts".to_string())));
    assert!(matches!(a2, FilenameAction::Finish(Ok(ref f)) if f == "lib/x.ts"));
}

#[test]
fn probe_walk_treats_a_trailing_separator_as_the_same_root() {
    let w = probe_walk_start("/repo/".to_string(), "/repo/a".to_string());
    let (w2, _) = probe_walk_advance(&w, false);
    assert!(matches!(probe_walk_next(&w2), ProbeStep::Check(ref d) if d == "/repo"));
    let (w3, _) = probe_walk_advance(&w2, false);
    assert!(matches!(probe_walk_next(&w3), ProbeStep::Done));
}

fn run_node_modules_search(
    cache: Vec<NmCacheEntry>,
    has_nm: &[&str],
    files: &[(&str, &str)],
    log: &mut Vec<String>,
) -> (Result<Option<String>, String>, Vec<NmCacheEntry>) {
    let mut search = node_modules_search(
        "/repo".to_string(),
        "/repo/app/src".to_string(),
        "lodash/fp".to_string(),
        strings(&["import"]),
        cache,
    );
    let mut event = NmEvent::Begin;
    loop {
        let (next, action) = node_modules_step(search, event);
        search = next;
        event = match action {
            NmAction::CheckDir(d) => {
                log.push(format!("check {d}"));
                NmEvent::DirChecked(has_nm.contains(&d.as_str()))
            },
            NmAction::ReadPackage(p) => {
                log.push(format!("read {p}"));
                NmEvent::PackageRead(None)
            },
            NmAction::ResolveFile(p) => {
                log.push(format!("resolve {p}"));
                NmEvent::FileResolved(files.iter().find(|(k, _)| *k == p).map(|(_, v)| v.to_string()))
            },
            NmAction::Finish(r) => return (r, search.cache),
        };
    }
}

#[test]
fn node_modules_search_walks_up_and_remembers() {
    let files = [("/repo/node_modules/lodash/fp", "/repo/node_modules/lodash/fp.js")];
    let mut log = Vec::new();
    let (r, cache) = run_node_modules_search(Vec::new(), &["/repo/app", "/repo"], &files, &mut log);
    assert_eq!(r, Ok(Some("/repo/node_modules/lodash/fp.js".to_string())));
    assert_eq!(
        log,
        vec![
            "check /repo/app/src",
            "check /repo/app",
            "read /repo/app/node_modules/lodash",
            "resolve /repo/app/node_modules/lodash/fp",
            "check /repo",
            "read /repo/node_modules/lodash",
            "resolve /repo/node_modules/lodash/fp",
        ]
    );
    assert_eq!(cache.len(), 2);
    assert_eq!(cache[0].dir, "/repo/app");
    assert_eq!(cache[0].resolution, CachedResolution::NoResolution);
    assert_eq!(cache[1].dir, "/repo");
    assert_eq!(cache[1].resolution, CachedResolution::Resolution("/repo/node_modules/lodash/fp.js".to_string()));

    let mut log2 = Vec::new();
    let (r2, cache2) = run_node_modules_search(cache, &["/repo/app", "/repo"], &[], &mut log2);
    assert_eq!(r2, Ok(Some("/repo/node_modules/lodash/fp.js".to_string())));
    assert_eq!(log2, vec!["check /repo/app/src", "check /repo/app", "check /repo"]);
    assert_eq!(cache2.len(), 2);
}

#[test]
fn node_modules_search_finds_nothing_and_stops_at_the_root() {
    let mut log = Vec::new();
    let (r, cache) = run_node_modules_search(Vec::new(), &[], &[], &mut log);
    assert_eq!(r, Ok(None));
    assert_eq!(log, vec!["check /repo/app/src", "check /repo/app", "check /repo"]);
    assert!(cache.is_empty());
}
