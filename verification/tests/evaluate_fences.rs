use good_fences::evaluate_fences::{
    evaluate_fences, EvaluateFencesError, ImportRuleViolation, SourceFile, ViolatedFenceClause,
};
use good_fences::fences::{DependencyRule, ExportRule, Fence, FenceCollection, ParsedFence};
use good_fences::manual_resolver::ResolvedImport;

const SOURCE_INDEX: &str = "tests/evaluate_fences/path/to/source/index.ts";
const FRIEND_INDEX: &str = "tests/evaluate_fences/path/to/source/friend/index.ts";
const PROTECTED_INTERNAL: &str = "tests/evaluate_fences/path/to/protected/internal.ts";
const SOURCE_FENCE: &str = "tests/evaluate_fences/path/to/source/fence.json";
const FRIEND_FENCE: &str = "tests/evaluate_fences/path/to/source/friend/fence.json";
const PROTECTED_FENCE: &str = "tests/evaluate_fences/path/to/protected/fence.json";

fn strings(v: &[&str]) -> Vec<String> {
    v.iter().map(|s| s.to_string()).collect()
}

fn source_files() -> Vec<SourceFile> {
    vec![
        SourceFile {
            source_file_path: SOURCE_INDEX.to_owned(),
            tags: vec![],
            imports: vec![("../protected/internal".to_owned(), None), ("node:querystring".to_owned(), None)],
        },
        SourceFile {
            source_file_path: FRIEND_INDEX.to_owned(),
            tags: strings(&["friend"]),
            imports: vec![("../../protected/internal".to_owned(), None), ("node:querystring".to_owned(), None)],
        },
        SourceFile {
            source_file_path: PROTECTED_INTERNAL.to_owned(),
            tags: strings(&["protected"]),
            imports: vec![],
        },
    ]
}

/// How the imports of the two importing files resolve: the relative import
/// reaches the protected file, the `node:` import is a node module.
fn resolutions() -> Vec<Option<ResolvedImport>> {
    vec![
        Some(ResolvedImport::ProjectLocalImport(PROTECTED_INTERNAL.to_owned())),
        Some(ResolvedImport::NodeModulesImport("node:querystring".to_owned())),
    ]
}

fn parsed(
    tags: Option<Vec<String>>,
    exports: Option<Vec<ExportRule>>,
    dependencies: Option<Vec<DependencyRule>>,
    imports: Option<Vec<String>>,
) -> ParsedFence {
    ParsedFence { tags, exports, dependencies, imports }
}

fn fence(path: &str, fence: ParsedFence) -> (String, Fence) {
    (path.to_owned(), Fence { fence_path: path.to_owned(), fence })
}

fn empty_fence(path: &str) -> (String, Fence) {
    fence(path, parsed(None, None, None, None))
}

fn protected_fence(exports: Option<Vec<ExportRule>>) -> (String, Fence) {
    fence(PROTECTED_FENCE, parsed(Some(strings(&["protected"])), exports, None, None))
}

fn friend_fence() -> (String, Fence) {
    fence(FRIEND_FENCE, parsed(Some(strings(&["friend"])), None, None, None))
}

fn get<'a>(fc: &'a FenceCollection, key: &str) -> &'a Fence {
    &fc.fences_map.iter().find(|(k, _)| k == key).unwrap().1
}

fn file<'a>(files: &'a [SourceFile], path: &str) -> &'a SourceFile {
    files.iter().find(|f| f.source_file_path == path).unwrap()
}

fn export_rule(modules: &str, accessible_to: &[&str]) -> ExportRule {
    ExportRule { modules: modules.to_owned(), accessible_to: strings(accessible_to) }
}

fn dependency_rule(dependency: &str, accessible_to: &[&str]) -> DependencyRule {
    DependencyRule { dependency: dependency.to_owned(), accessible_to: strings(accessible_to) }
}

#[test]
pub fn test_imports_allow_list_empty_violation() {
    let fence_collection = FenceCollection {
        fences_map: vec![
            fence(SOURCE_FENCE, parsed(None, None, None, Some(vec![]))),
            protected_fence(None),
        ],
    };
    let files = source_files();
    let violations = evaluate_fences(&fence_collection, &files, file(&files, SOURCE_INDEX), &resolutions());
    assert_eq!(
        violations.violations,
        vec![ImportRuleViolation {
            violating_file_path: SOURCE_INDEX,
            violating_fence: get(&fence_collection, SOURCE_FENCE),
            violating_fence_clause: ViolatedFenceClause::ImportAllowList,
            violating_import_specifier: "../protected/internal",
            violating_imported_name: None,
        }]
    );
}

#[test]
pub fn test_imports_allow_list_mismatch_violation() {
    let fence_collection = FenceCollection {
        fences_map: vec![
            fence(SOURCE_FENCE, parsed(None, None, None, Some(strings(&["some_tag"])))),
            protected_fence(None),
        ],
    };
    let files = source_files();
    let violations = evaluate_fences(&fence_collection, &files, file(&files, SOURCE_INDEX), &resolutions());
    assert_eq!(
        violations.violations,
        vec![ImportRuleViolation {
            violating_file_path: SOURCE_INDEX,
            violating_fence: get(&fence_collection, SOURCE_FENCE),
            violating_fence_clause: ViolatedFenceClause::ImportAllowList,
            violating_import_specifier: "../protected/internal",
            violating_imported_name: None,
        }]
    );
}

#[test]
pub fn test_imports_exports_list_empty() {
    let fence_collection = FenceCollection {
        fences_map: vec![empty_fence(SOURCE_FENCE), protected_fence(Some(vec![]))],
    };
    let files = source_files();
    let violations = evaluate_fences(&fence_collection, &files, file(&files, SOURCE_INDEX), &resolutions());
    assert_eq!(
        violations.violations,
        vec![ImportRuleViolation {
            violating_file_path: SOURCE_INDEX,
            violating_fence: get(&fence_collection, PROTECTED_FENCE),
            violating_fence_clause: ViolatedFenceClause::ExportRule(None),
            violating_import_specifier: "../protected/internal",
            violating_imported_name: None,
        }]
    );
}

#[test]
pub fn test_imports_exports_list_mismatch() {
    let fence_collection = FenceCollection {
        fences_map: vec![
            empty_fence(SOURCE_FENCE),
            protected_fence(Some(vec![ExportRule::from_str("protected-exposed")])),
        ],
    };
    let files = source_files();
    let violations = evaluate_fences(&fence_collection, &files, file(&files, SOURCE_INDEX), &resolutions());
    assert_eq!(
        violations.violations,
        vec![ImportRuleViolation {
            violating_file_path: SOURCE_INDEX,
            violating_fence: get(&fence_collection, PROTECTED_FENCE),
            violating_fence_clause: ViolatedFenceClause::ExportRule(None),
            violating_import_specifier: "../protected/internal",
            violating_imported_name: None,
        }]
    );
}

#[test]
pub fn test_imports_exports_list_conflicting_match_allowed() {
    let fence_collection = FenceCollection {
        fences_map: vec![
            empty_fence(SOURCE_FENCE),
            friend_fence(),
            protected_fence(Some(vec![export_rule("*", &["test"]), export_rule("*", &["friend"])])),
        ],
    };
    let files = source_files();
    let violations = evaluate_fences(&fence_collection, &files, file(&files, FRIEND_INDEX), &resolutions());
    assert_eq!(violations.violations, Vec::new());
}

#[test]
pub fn test_imports_exports_list_not_on_allow_list() {
    let fence_collection = FenceCollection {
        fences_map: vec![
            empty_fence(SOURCE_FENCE),
            protected_fence(Some(vec![export_rule("internal.ts", &["nothing"])])),
        ],
    };
    let files = source_files();
    let violations = evaluate_fences(&fence_collection, &files, file(&files, SOURCE_INDEX), &resolutions());
    let d = ExportRule { modules: "internal.ts".to_owned(), accessible_to: vec!["nothing".to_owned()] };
    assert_eq!(
        violations.violations,
        vec![ImportRuleViolation {
            violating_file_path: SOURCE_INDEX,
            violating_fence: get(&fence_collection, PROTECTED_FENCE),
            violating_fence_clause: ViolatedFenceClause::ExportRule(Some(&d)),
            violating_import_specifier: "../protected/internal",
            violating_imported_name: None,
        }]
    );
}

#[test]
pub fn test_imports_exports_list_not_on_allow_list_glob() {
    let fence_collection = FenceCollection {
        fences_map: vec![
            empty_fence(SOURCE_FENCE),
            protected_fence(Some(vec![export_rule("*.ts", &["nothing"])])),
        ],
    };
    let files = source_files();
    let violations = evaluate_fences(&fence_collection, &files, file(&files, SOURCE_INDEX), &resolutions());
    let d = ExportRule { modules: "*.ts".to_owned(), accessible_to: vec!["nothing".to_owned()] };
    assert_eq!(
        violations.violations,
        vec![ImportRuleViolation {
            violating_file_path: SOURCE_INDEX,
            violating_fence: get(&fence_collection, PROTECTED_FENCE),
            violating_fence_clause: ViolatedFenceClause::ExportRule(Some(&d)),
            violating_import_specifier: "../protected/internal",
            violating_imported_name: None,
        }]
    );
}

#[test]
pub fn test_imports_exports_list_on_allow_list_glob() {
    let fence_collection = FenceCollection {
        fences_map: vec![
            empty_fence(SOURCE_FENCE),
            friend_fence(),
            protected_fence(Some(vec![export_rule("*.ts", &["friend"])])),
        ],
    };
    let files = source_files();
    let violations = evaluate_fences(&fence_collection, &files, file(&files, FRIEND_INDEX), &resolutions());
    assert_eq!(violations.violations, Vec::new());
}

#[test]
pub fn test_dependencies_not_allowed_empty_arr() {
    let fence_collection = FenceCollection {
        fences_map: vec![fence(SOURCE_FENCE, parsed(None, None, Some(vec![]), None))],
    };
    let files = source_files();
    let violations = evaluate_fences(&fence_collection, &files, file(&files, SOURCE_INDEX), &resolutions());
    assert_eq!(
        violations.violations,
        vec![ImportRuleViolation {
            violating_file_path: SOURCE_INDEX,
            violating_fence: get(&fence_collection, SOURCE_FENCE),
            violating_fence_clause: ViolatedFenceClause::DependencyRule(None),
            violating_import_specifier: "node:querystring",
            violating_imported_name: None,
        }]
    );
}

#[test]
pub fn test_dependencies_allowed_on_allow_list() {
    let fence_collection = FenceCollection {
        fences_map: vec![fence(
            SOURCE_FENCE,
            parsed(None, None, Some(vec![DependencyRule::from_str("node:querystring")]), None),
        )],
    };
    let files = source_files();
    let violations = evaluate_fences(&fence_collection, &files, file(&files, SOURCE_INDEX), &resolutions());
    assert_eq!(violations.violations, Vec::new());
}

#[test]
pub fn test_dependencies_not_allowed_when_not_accessible_to() {
    let fence_collection = FenceCollection {
        fences_map: vec![fence(
            SOURCE_FENCE,
            parsed(None, None, Some(vec![dependency_rule("node:querystring", &["some-tag"])]), None),
        )],
    };
    let files = source_files();
    let violations = evaluate_fences(&fence_collection, &files, file(&files, SOURCE_INDEX), &resolutions());
    let d = DependencyRule { dependency: "node:querystring".to_owned(), accessible_to: vec!["some-tag".to_owned()] };
    assert_eq!(
        violations.violations,
        vec![ImportRuleViolation {
            violating_file_path: SOURCE_INDEX,
            violating_fence: get(&fence_collection, SOURCE_FENCE),
            violating_fence_clause: ViolatedFenceClause::DependencyRule(Some(&d)),
            violating_import_specifier: "node:querystring",
            violating_imported_name: None,
        }]
    );
}

#[test]
pub fn test_dependencies_allowed_when_on_dependency_allow_list() {
    let fence_collection = FenceCollection {
        fences_map: vec![
            fence(SOURCE_FENCE, parsed(None, None, Some(vec![dependency_rule("node:querystring", &["friend"])]), None)),
            friend_fence(),
        ],
    };
    let files = source_files();
    let violations = evaluate_fences(&fence_collection, &files, file(&files, FRIEND_INDEX), &resolutions());
    assert_eq!(violations.violations, Vec::new());
}

#[test]
pub fn test_dependencies_not_allowed_when_on_dependency_not_on_allow_list() {
    let fence_collection = FenceCollection {
        fences_map: vec![
            fence(SOURCE_FENCE, parsed(None, None, Some(vec![dependency_rule("node:querystring", &["friendzzz"])]), None)),
            friend_fence(),
        ],
    };
    let files = source_files();
    let violations = evaluate_fences(&fence_collection, &files, file(&files, FRIEND_INDEX), &resolutions());
    let r = DependencyRule { dependency: "node:querystring".to_owned(), accessible_to: vec!["friendzzz".to_owned()] };
    assert_eq!(
        violations.violations,
        vec![ImportRuleViolation {
            violating_file_path: FRIEND_INDEX,
            violating_fence: get(&fence_collection, SOURCE_FENCE),
            violating_fence_clause: ViolatedFenceClause::DependencyRule(Some(&r)),
            violating_import_specifier: "node:querystring",
            violating_imported_name: None,
        }]
    );
}

#[test]
pub fn test_dependencies_allowed_when_on_dependency_allow_list_with_accessible_to_conflict() {
    let fence_collection = FenceCollection {
        fences_map: vec![
            fence(
                SOURCE_FENCE,
                parsed(
                    None,
                    None,
                    Some(vec![
                        dependency_rule("node:querystring", &["friend"]),
                        dependency_rule("node:querystring", &["friendzzz"]),
                    ]),
                    None,
                ),
            ),
            friend_fence(),
        ],
    };
    let files = source_files();
    let violations = evaluate_fences(&fence_collection, &files, file(&files, FRIEND_INDEX), &resolutions());
    assert_eq!(violations.violations, Vec::new());
}

#[test]
fn unresolved_and_unscanned_imports_are_reported() {
    let fence_collection = FenceCollection { fences_map: vec![] };
    let files = source_files();
    let res = vec![None, Some(ResolvedImport::ProjectLocalImport("tests/elsewhere/missing.ts".to_owned()))];
    let result = evaluate_fences(&fence_collection, &files, file(&files, SOURCE_INDEX), &res);
    assert!(result.violations.is_empty());
    assert_eq!(result.unresolved_files.len(), 2);
    assert!(matches!(result.unresolved_files[1], EvaluateFencesError::NotScanned { .. }));
}

#[test]
fn violation_messages() {
    let fence_collection = FenceCollection {
        fences_map: vec![fence(SOURCE_FENCE, parsed(None, None, Some(vec![]), None))],
    };
    let files = source_files();
    let result = evaluate_fences(&fence_collection, &files, file(&files, SOURCE_INDEX), &resolutions());
    assert_eq!(
        result.violations[0].to_display_string(),
        "Violation: Import node:querystring at tests/evaluate_fences/path/to/source/index.ts is not in allowlist of tests/evaluate_fences/path/to/source/fence.json"
    );
}

#[test]
fn same_fence_imports_are_allowed() {
    // Both files lie under the protected fence only: its export list does
    // not apply to imports from inside it.
    let fence_collection = FenceCollection { fences_map: vec![protected_fence(Some(vec![]))] };
    let mut files = source_files();
    files.push(SourceFile {
        source_file_path: "tests/evaluate_fences/path/to/protected/other.ts".to_owned(),
        tags: strings(&["protected"]),
        imports: vec![("./internal".to_owned(), None)],
    });
    let res = vec![Some(ResolvedImport::ProjectLocalImport(PROTECTED_INTERNAL.to_owned()))];
    let importer = file(&files, "tests/evaluate_fences/path/to/protected/other.ts");
    let result = evaluate_fences(&fence_collection, &files, importer, &res);
    assert!(result.violations.is_empty());
    assert!(result.unresolved_files.is_empty());
}

#[test]
fn shared_fence_is_not_violated_when_other_fences_differ() {
    // The importer lies under the outer fence (empty allow-list) and its own
    // source fence; the imported file lies under the outer fence only. The
    // outer fence covers both files, so only the source fence can object.
    let outer = "tests/evaluate_fences/path/fence.json";
    let fence_collection = FenceCollection {
        fences_map: vec![
            fence(outer, parsed(None, Some(vec![]), None, Some(vec![]))),
            fence(SOURCE_FENCE, parsed(None, None, None, None)),
        ],
    };
    let files = source_files();
    let result = evaluate_fences(&fence_collection, &files, file(&files, SOURCE_INDEX), &resolutions());
    assert!(result.violations.iter().all(|v| v.violating_fence.fence_path != outer));
    assert!(result.violations.is_empty());
}
