use good_fences::fences::{ExportRule, Fence, FenceCollection, ParsedFence};
use good_fences::good_fences_runner::{GoodFencesRunner, UndefinedTagReference};
use good_fences::manual_resolver::ResolvedImport;
use good_fences::repo_root::{find_git_root_from, git_root_search_path};
use good_fences::tsconfig::{TsconfigPathsCompilerOptions, TsconfigPathsJson};
use good_fences::walk_dirs::{
    add_fence_tags, dir_is_ignored, discover_js_ts_src, prunes_children, retains_entry, should_retain_file, ExternalFences,
    WalkEntry, WalkFileData,
};

fn strings(v: &[&str]) -> Vec<String> {
    v.iter().map(|s| s.to_string()).collect()
}

fn tags_fence(path: &str, tags: &[&str]) -> Fence {
    Fence {
        fence_path: path.to_owned(),
        fence: ParsedFence { tags: Some(strings(tags)), exports: None, dependencies: None, imports: None },
    }
}

fn empty_tsconfig() -> TsconfigPathsJson {
    TsconfigPathsJson { compiler_options: TsconfigPathsCompilerOptions { base_url: None, paths: None } }
}

#[test]
fn test_get_fences_for_path() {
    let fence_collection = FenceCollection {
        fences_map: vec![
            ("some/a/b/fence.json".to_string(), tags_fence("path/to/protected/fence.json", &["b"])),
            ("some/fence.json".to_string(), tags_fence("path/to/protected/fence.json", &["root"])),
            ("some/other/fence.json".to_string(), tags_fence("path/to/protected/fence.json", &["other"])),
        ],
    };
    let get = |k: &str| &fence_collection.fences_map.iter().find(|(key, _)| key == k).unwrap().1;

    assert_eq!(fence_collection.get_fences_for_path("some/file.ts"), vec![get("some/fence.json")]);
    assert_eq!(
        fence_collection.get_fences_for_path("some/other/file.ts"),
        vec![get("some/other/fence.json"), get("some/fence.json")],
        "should return multiple fences for file with multiple fences",
    );
}

fn walked() -> Vec<WalkFileData> {
    let exporting = Fence {
        fence_path: "pkg/fence.json".to_owned(),
        fence: ParsedFence {
            tags: Some(strings(&["pkg"])),
            exports: Some(vec![ExportRule {
                modules: "*".to_owned(),
                accessible_to: strings(&["app", "ghost", "*"]),
            }]),
            dependencies: None,
            imports: None,
        },
    };
    vec![
        WalkFileData::Fence(exporting),
        WalkFileData::Fence(tags_fence("app/fence.json", &["app"])),
        discover_js_ts_src("app/a.ts".to_string(), vec![("../pkg/b".to_string(), None)], &strings(&["app"])),
        WalkFileData::Nothing,
        discover_js_ts_src("pkg/b.ts".to_string(), vec![], &strings(&["old"])),
        discover_js_ts_src("pkg/b.ts".to_string(), vec![], &strings(&["pkg"])),
    ]
}

#[test]
fn runner_collects_walk_results() {
    let runner = GoodFencesRunner::new(empty_tsconfig(), walked());
    assert_eq!(runner.fence_collection.fences_map.len(), 2);
    assert_eq!(runner.fence_collection.fences_map[0].0, "pkg/fence.json");
    assert_eq!(runner.source_files.len(), 2);
    // A later result for the same path replaces the earlier one.
    let b = runner.source_files.iter().find(|f| f.source_file_path == "pkg/b.ts").unwrap();
    assert_eq!(b.tags, strings(&["pkg"]));
}

#[test]
fn runner_reports_undefined_tags() {
    let runner = GoodFencesRunner::new(empty_tsconfig(), walked());
    let refs = runner.find_undefined_tags();
    assert_eq!(refs, vec![UndefinedTagReference { tag: "ghost", referencing_fence_path: "pkg/fence.json" }]);
}

#[test]
fn runner_checks_every_file() {
    let runner = GoodFencesRunner::new(empty_tsconfig(), walked());
    let resolutions: Vec<Vec<Option<ResolvedImport>>> = runner
        .source_files
        .iter()
        .map(|f| {
            if f.source_file_path == "app/a.ts" {
                vec![Some(ResolvedImport::ProjectLocalImport("pkg/b.ts".to_string()))]
            } else {
                f.imports.iter().map(|_| None).collect()
            }
        })
        .collect();
    let result = runner.find_import_violations(&resolutions);
    assert!(result.violations.is_empty());
    assert!(result.unresolved_files.is_empty());
}

#[test]
fn walk_filters() {
    assert!(should_retain_file("fence.json"));
    assert!(should_retain_file("a.tsx"));
    assert!(!should_retain_file("a.css"));
    assert!(prunes_children("node_modules"));
    assert!(prunes_children("lib"));
    assert!(!prunes_children("src"));
    let nm = WalkEntry {
        file_name: Some("node_modules".to_string()),
        slashed_path: Some("repo/node_modules".to_string()),
        is_dir: true,
    };
    let none: Vec<String> = Vec::new();
    assert_eq!(retains_entry(Some(&nm), ExternalFences::Ignore, &none), Some(false));
    assert_eq!(retains_entry(Some(&nm), ExternalFences::Include, &none), Some(true));
    assert_eq!(retains_entry(None, ExternalFences::Include, &none), Some(false));
}

#[test]
fn ignored_dir_patterns_filter_paths() {
    let ignored = vec!["tests/.*/subdir".to_string(), "^other".to_string()];
    assert_eq!(dir_is_ignored(&ignored, "tests/walk/subdir"), Some(true));
    assert_eq!(dir_is_ignored(&ignored, "src/other"), Some(false));
    assert_eq!(dir_is_ignored(&ignored, "other/x"), Some(true));
    assert_eq!(dir_is_ignored(&vec!["(".to_string()], "x"), None);
    let sub = WalkEntry {
        file_name: Some("subdir".to_string()),
        slashed_path: Some("tests/walk/subdir".to_string()),
        is_dir: true,
    };
    assert_eq!(retains_entry(Some(&sub), ExternalFences::Include, &ignored), Some(false));
    assert_eq!(retains_entry(Some(&sub), ExternalFences::Include, &vec!["(".to_string()]), None);
}

#[test]
fn fence_tags_accumulate_once() {
    let mut state = strings(&["a"]);
    add_fence_tags(&mut state, &tags_fence("x/fence.json", &["b", "a", "b"]));
    assert_eq!(state, strings(&["a", "b"]));
}

#[test]
fn git_root_is_first_ancestor_with_git() {
    assert_eq!(git_root_search_path("/repo/pkg/src"), strings(&["/repo/pkg/src", "/repo/pkg", "/repo", "/"]));
    assert_eq!(find_git_root_from("/repo/pkg/src", &vec![false, false, true, false]), "/repo");
    assert_eq!(find_git_root_from("/repo/pkg/src", &vec![false, false, false, false]), "/");
    assert_eq!(find_git_root_from("/repo/pkg/src", &vec![true, false, true, false]), "/repo/pkg/src");
}
