use good_fences::import_calls::{find_imports_and_requires, CallSite, CallbackParam, ImportsAndRequires};

fn import(src: &str) -> CallSite {
    CallSite::Import { source: Some(src.to_string()) }
}

fn call(callee: &str, bound: bool, arg: &str) -> CallSite {
    CallSite::IdentCall { callee: callee.to_string(), bound, first_string_arg: Some(arg.to_string()) }
}

fn then_with(src: &str, keys: &[Option<&str>]) -> CallSite {
    CallSite::ImportMemberCall {
        property: "then".to_string(),
        source: Some(src.to_string()),
        callback: CallbackParam::ObjectPattern(keys.iter().map(|k| k.map(|s| s.to_string())).collect()),
    }
}

fn imported(r: &ImportsAndRequires) -> Vec<(String, Vec<String>)> {
    r.imported_paths
        .iter()
        .map(|(p, syms)| (p.clone(), syms.iter().map(|s| s.as_str().to_string()).collect()))
        .collect()
}

fn entry(p: &str, syms: &[&str]) -> (String, Vec<String>) {
    (p.to_string(), syms.iter().map(|s| s.to_string()).collect())
}

#[test]
fn dynamic_import_takes_the_namespace() {
    let r = find_imports_and_requires(&vec![import("foo")]);
    assert_eq!(imported(&r), vec![entry("foo", &["*"])]);
    assert!(r.require_paths.is_empty());
}

#[test]
fn global_require_is_a_required_path() {
    let r = find_imports_and_requires(&vec![call("require", false, "foo")]);
    assert!(r.imported_paths.is_empty());
    assert_eq!(r.require_paths, vec!["foo".to_string()]);
}

#[test]
fn import_require_expr_test_import_expr_deep() {
    // if (true) { import('foo') } else { require('bar') }
    let r = find_imports_and_requires(&vec![import("foo"), call("require", false, "bar")]);
    assert_eq!(imported(&r), vec![entry("foo", &["*"])]);
    assert_eq!(r.require_paths, vec!["bar".to_string()]);
}

#[test]
fn import_require_expr_test_import_expr_extracts_names_arrow() {
    // import('foo').then(({a,b,c}) => { console.log(a,b,c) })
    let sites = vec![
        import("foo"),
        call("log", false, "x"),
        then_with("foo", &[Some("a"), Some("b"), Some("c")]),
    ];
    let r = find_imports_and_requires(&sites);
    assert_eq!(imported(&r), vec![entry("foo", &["a", "b", "c"])]);
    assert!(r.require_paths.is_empty());
}

#[test]
fn import_require_expr_test_import_expr_extracts_names_noarrow() {
    // import('foo').then(function myfunc({a,b,c}) { console.log(a,b,c) })
    let sites = vec![import("foo"), then_with("foo", &[Some("a"), Some("b"), Some("c")])];
    let r = find_imports_and_requires(&sites);
    assert_eq!(imported(&r), vec![entry("foo", &["a", "b", "c"])]);
    assert!(r.require_paths.is_empty());
}

#[test]
fn local_require_and_other_calls_add_nothing() {
    let sites = vec![
        call("require", true, "foo"),
        call("load", false, "bar"),
        CallSite::Other,
        CallSite::Import { source: None },
        then_with("baz", &[None]),
    ];
    let r = find_imports_and_requires(&sites);
    assert!(r.imported_paths.is_empty());
    assert!(r.require_paths.is_empty());
}

#[test]
fn then_without_names_keeps_the_namespace_and_repeats_add_once() {
    let sites = vec![
        import("foo"),
        then_with("foo", &[]),
        import("foo"),
        call("require", false, "x"),
        call("require", false, "x"),
        then_with("foo", &[Some("a"), None, Some("a")]),
    ];
    let r = find_imports_and_requires(&sites);
    assert_eq!(imported(&r), vec![entry("foo", &["a"])]);
    assert_eq!(r.require_paths, vec!["x".to_string()]);
}
