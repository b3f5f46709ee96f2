use good_fences::paths::{extension, file_segment, no_ext, path_ancestors, path_parent};

fn chars(s: &str) -> Vec<char> {
    s.chars().collect()
}

fn parent(s: &str) -> Option<String> {
    path_parent(&chars(s)).map(|v| v.into_iter().collect())
}

#[test]
fn parent_drops_the_final_component() {
    assert_eq!(parent("/repo/a/b"), Some("/repo/a".to_string()));
    assert_eq!(parent("/repo"), Some("/".to_string()));
    assert_eq!(parent("a"), Some("".to_string()));
    assert_eq!(parent("/"), None);
    assert_eq!(parent(""), None);
}

#[test]
fn parent_ignores_trailing_and_repeated_separators() {
    assert_eq!(parent("a/b/"), Some("a".to_string()));
    assert_eq!(parent("a//b"), Some("a".to_string()));
    assert_eq!(parent("a/b/."), Some("a".to_string()));
    assert_eq!(parent("//"), None);
    assert_eq!(parent("a/"), Some("".to_string()));
}

#[test]
fn ancestors_run_up_to_the_root() {
    let a: Vec<String> = path_ancestors(&chars("/x/y/")).into_iter().map(|v| v.into_iter().collect()).collect();
    assert_eq!(a, vec!["/x/y/".to_string(), "/x".to_string(), "/".to_string()]);
}

#[test]
fn file_segment_and_extension_ignore_a_trailing_separator() {
    let f: String = file_segment(&chars("a/b.css/")).into_iter().collect();
    assert_eq!(f, "b.css");
    let e: Option<String> = extension(&chars("a/b.css/")).map(|v| v.into_iter().collect());
    assert_eq!(e, Some("css".to_string()));
    assert_eq!(extension(&chars("a/..")), None);
    assert_eq!(extension(&chars("a/.hidden")), None);
    assert_eq!(no_ext("src/a.ts"), "src/a");
    assert_eq!(no_ext("src/a.ts/"), "src/a");
    assert_eq!(no_ext("src/a"), "src/a");
}
