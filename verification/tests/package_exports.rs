use good_fences::exported_path::{ExportJsonValue, ExportedPath, ExportedPathRef};
use good_fences::pkgjson_exports::{
    clean_path, match_star_pattern, ExportCondition, PackageExportRewriteData, PackageJsonExport,
    PackageJsonExports,
};

fn json_to_export_value(v: &serde_json::Value) -> ExportJsonValue {
    match v {
        serde_json::Value::Null => ExportJsonValue::Null,
        serde_json::Value::Bool(b) => ExportJsonValue::Bool(*b),
        serde_json::Value::String(s) => ExportJsonValue::Str(s.clone()),
        _ => ExportJsonValue::Other,
    }
}

fn exported_path_from_json(text: &str) -> ExportedPath {
    let v: serde_json::Value = serde_json::from_str(text).unwrap();
    ExportedPath::from_json_value(json_to_export_value(&v))
}

#[test]
fn test_deserialize_notexported() {
    let p = exported_path_from_json("null");
    assert_eq!(p, ExportedPath::Private);
}

#[test]
fn test_deserialize_exportedpath() {
    let p = exported_path_from_json("\"abc\"");
    assert_eq!(p, ExportedPath::Exported("abc".to_string()));
}

#[test]
fn test_deserialize_unrecognized() {
    let p = exported_path_from_json("{}");
    assert_eq!(p, ExportedPath::Unrecognized);
}

#[test]
fn booleans_as_export_targets() {
    assert_eq!(exported_path_from_json("false"), ExportedPath::Private);
    assert_eq!(exported_path_from_json("true"), ExportedPath::Unrecognized);
}

#[test]
fn exported_path_refs() {
    let p = ExportedPath::Exported("./a.js".to_string());
    assert_eq!(p.as_ref(), ExportedPathRef::Exported("./a.js"));
    assert!(ExportedPathRef::Unrecognized != ExportedPathRef::Unrecognized);
    assert_eq!(ExportedPath::from_option(None), ExportedPath::Private);
}

fn conditional(targets: &[(&str, &str)]) -> PackageJsonExport {
    PackageJsonExport::Conditional(
        targets.iter().map(|(c, t)| (c.to_string(), ExportedPath::Exported(t.to_string()))).collect(),
    )
}

fn hetero() -> PackageExportRewriteData {
    let exports = PackageJsonExports {
        entries: vec![
            (".".to_string(), conditional(&[("import", "./lib/import-target.ts"), ("require", "./lib/require-target.ts")])),
            ("./foo".to_string(), PackageJsonExport::Single(Some("./lib/foo.ts".to_string()))),
            ("./lib/*".to_string(), PackageJsonExport::Single(Some("./dist/*.js".to_string()))),
            ("./internal/*".to_string(), PackageJsonExport::Single(None)),
        ],
    };
    PackageExportRewriteData::try_from(&exports).unwrap()
}

fn conditions(c: &[&str]) -> Vec<String> {
    c.iter().map(|s| s.to_string()).collect()
}

fn rewrite(data: &PackageExportRewriteData, import: &str, c: &[&str]) -> Option<(ExportedPath, ExportCondition)> {
    data.rewrite_relative_export(import, &conditions(c)).unwrap().map(|m| (m.rewritten_export, m.export_kind))
}

#[test]
fn conditional_export_picks_requested_condition() {
    let data = hetero();
    assert_eq!(
        rewrite(&data, ".", &["require"]),
        Some((ExportedPath::Exported("./lib/require-target.ts".to_string()), ExportCondition::Condition("require".to_string())))
    );
    assert_eq!(
        rewrite(&data, ".", &["import"]),
        Some((ExportedPath::Exported("./lib/import-target.ts".to_string()), ExportCondition::Condition("import".to_string())))
    );
    assert_eq!(
        rewrite(&data, ".", &["not-present", "require", "import"]),
        Some((ExportedPath::Exported("./lib/require-target.ts".to_string()), ExportCondition::Condition("require".to_string())))
    );
}

#[test]
fn single_export_is_the_default_condition() {
    let data = hetero();
    assert_eq!(
        rewrite(&data, "./foo", &["import"]),
        Some((ExportedPath::Exported("./lib/foo.ts".to_string()), ExportCondition::Default))
    );
    assert_eq!(rewrite(&data, "./bar", &["import"]), None);
}

#[test]
fn star_export_substitutes_the_match() {
    let data = hetero();
    assert_eq!(
        rewrite(&data, "./lib/a/b", &[]),
        Some((ExportedPath::Exported("./dist/a/b.js".to_string()), ExportCondition::Default))
    );
    assert_eq!(rewrite(&data, "./internal/x", &[]), Some((ExportedPath::Private, ExportCondition::Default)));
}

#[test]
fn export_keys_must_be_relative() {
    let exports = PackageJsonExports {
        entries: vec![("lib".to_string(), PackageJsonExport::Single(Some("./lib.js".to_string())))],
    };
    let err = PackageExportRewriteData::try_from(&exports).err().unwrap();
    assert_eq!(
        err.to_display_string(),
        "package.json exports fields must either be '.' or start with './'"
    );
}

#[test]
fn export_keys_hold_at_most_one_star() {
    let exports = PackageJsonExports {
        entries: vec![("./*/x/*".to_string(), PackageJsonExport::Single(Some("./lib.js".to_string())))],
    };
    let err = PackageExportRewriteData::try_from(&exports).err().unwrap();
    assert_eq!(
        err.to_display_string(),
        "Invalid star pattern './*/x/*' in package.json exports field: Star patterns may contain at most a single star match."
    );
}

#[test]
fn star_patterns_and_clean_paths() {
    assert_eq!(match_star_pattern("./lib/*.js", "./lib/a/b.js"), Some("a/b".to_string()));
    assert_eq!(match_star_pattern("./lib/*.js", "./src/a.js"), None);
    assert_eq!(clean_path("./a/../b/./c"), "./b/c");
    assert_eq!(clean_path("."), ".");
}

#[test]
fn directory_export_appends_the_rest_of_the_path() {
    let exports = PackageJsonExports {
        entries: vec![("./lib/".to_string(), PackageJsonExport::Single(Some("./dist/".to_string())))],
    };
    let data = PackageExportRewriteData::try_from(&exports).unwrap();
    assert_eq!(
        rewrite(&data, "./lib/x.js", &[]),
        Some((ExportedPath::Exported("./dist/x.js".to_string()), ExportCondition::Default))
    );
    assert_eq!(rewrite(&data, "./other/x.js", &[]), None);
}
