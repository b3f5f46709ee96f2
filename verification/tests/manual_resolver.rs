use good_fences::manual_resolver::{resolve_ts_import, ResolvedImport};
use good_fences::tsconfig::{TsconfigPathsCompilerOptions, TsconfigPathsJson};

fn paths(entries: &[(&str, &str)]) -> Option<Vec<(String, Vec<String>)>> {
    Some(entries.iter().map(|(k, v)| (k.to_string(), vec![v.to_string()])).collect())
}

fn both_paths() -> Option<Vec<(String, Vec<String>)>> {
    paths(&[
        ("glob-specifier/lib/*", "packages/glob-specifier/src/*"),
        ("non-glob-specifier", "packages/non-glob-specifier/lib/index"),
    ])
}

fn tsconfig(base_url: Option<&str>, paths: Option<Vec<(String, Vec<String>)>>) -> TsconfigPathsJson {
    TsconfigPathsJson {
        compiler_options: TsconfigPathsCompilerOptions { base_url: base_url.map(|s| s.to_owned()), paths },
    }
}

fn local(p: &str) -> Result<ResolvedImport, String> {
    Ok(ResolvedImport::ProjectLocalImport(p.to_owned()))
}

#[test]
fn test_import_resolvers_relative() {
    let result = resolve_ts_import(&tsconfig(Some("."), both_paths()), "packages/my/importing/module", "../imported/module");
    assert_eq!(result, local("packages/my/imported/module"))
}

#[test]
fn test_non_glob_specifier() {
    let result = resolve_ts_import(&tsconfig(Some("."), both_paths()), "packages/my/importing/module", "non-glob-specifier");
    assert_eq!(result, local("packages/non-glob-specifier/lib/index"))
}

#[test]
fn test_glob_specifier() {
    let result = resolve_ts_import(
        &tsconfig(Some("."), both_paths()),
        "packages/my/importing/module",
        "glob-specifier/lib/relative/after/glob/specifier/../../the/./specifier",
    );
    assert_eq!(result, local("packages/glob-specifier/src/relative/after/the/specifier"))
}

#[test]
fn test_import_resolvers_relative_with_base_url() {
    let result = resolve_ts_import(&tsconfig(Some("./base/url"), both_paths()), "packages/my/importing/module", "../imported/module");
    assert_eq!(result, local("packages/my/imported/module"))
}

#[test]
fn test_import_resolvers_relative_with_base_url_as_tsconfig_file() {
    let result = resolve_ts_import(&tsconfig(Some("./base/url"), both_paths()), "packages/my/importing/module.ts", "../imported/module");
    assert_eq!(result, local("packages/my/imported/module"))
}

#[test]
fn test_import_resolvers_relative_index() {
    let result = resolve_ts_import(&tsconfig(None, both_paths()), "packages/my/importing/module.ts", ".");
    assert_eq!(result, local("packages/my/importing/index"))
}

#[test]
fn test_import_resolvers_relative_parent_index() {
    let result = resolve_ts_import(&tsconfig(None, both_paths()), "packages/my/importing/module.ts", "..");
    assert_eq!(result, local("packages/my/index"))
}

#[test]
fn test_import_resolvers_relative_parent_specifier() {
    let result = resolve_ts_import(&tsconfig(None, both_paths()), "packages/my/importing/module.ts", "../imported/module");
    assert_eq!(result, local("packages/my/imported/module"))
}

#[test]
fn test_non_glob_specifier_with_base_url() {
    let result = resolve_ts_import(
        &tsconfig(Some("./base/url"), paths(&[("non-glob-specifier", "packages/non-glob-specifier/lib/index")])),
        "packages/my/importing/module",
        "non-glob-specifier",
    );
    assert_eq!(result, local("base/url/packages/non-glob-specifier/lib/index"))
}

#[test]
fn unknown_bare_specifier_is_a_node_module() {
    let result = resolve_ts_import(&tsconfig(None, None), "packages/my/importing/module.ts", "react");
    assert_eq!(result, Ok(ResolvedImport::NodeModulesImport("react".to_owned())))
}

#[test]
fn stylesheet_import_is_a_resource() {
    let result = resolve_ts_import(&tsconfig(None, None), "packages/my/importing/module.ts", "./styles.css");
    assert_eq!(result, Ok(ResolvedImport::ResourceFileImport))
}
