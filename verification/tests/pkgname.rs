use good_fences::pkgname::{package_name, prefix_dotslash, split_package_import};

#[test]
fn test_package_name() {
    assert_eq!(package_name("./"), None);
    assert_eq!(package_name(""), None);
    assert_eq!(package_name("./src/index.ts"), None);
    assert_eq!(package_name("react"), Some("react"));
    assert_eq!(package_name("react-dom"), Some("react-dom"));
    assert_eq!(package_name("@react"), None);
    assert_eq!(package_name("@react/react-dom"), Some("@react/react-dom"));
    assert_eq!(
        package_name("@react/react-dom/server"),
        Some("@react/react-dom")
    );
}

#[test]
fn test_split_package_import() {
    assert_eq!(split_package_import("./"), None);
    assert_eq!(split_package_import(""), None);
    assert_eq!(split_package_import("./src/index.ts"), None);
    assert_eq!(
        split_package_import("react"),
        Some(("react", ".".to_string()))
    );
    assert_eq!(
        split_package_import("react-dom"),
        Some(("react-dom", ".".to_string()))
    );
    assert_eq!(split_package_import("@react"), None);
    assert_eq!(
        split_package_import("@react/react-dom"),
        Some(("@react/react-dom", ".".to_string()))
    );
    assert_eq!(
        split_package_import("@react/react-dom/server"),
        Some(("@react/react-dom", "./server".to_string()))
    );
}

#[test]
fn package_name_parent_dir_and_deep_paths() {
    assert_eq!(package_name(".."), None);
    assert_eq!(package_name("../x"), None);
    assert_eq!(package_name("lodash/fp/map"), Some("lodash"));
    assert_eq!(package_name("@scope/"), None);
    assert_eq!(
        split_package_import("lodash/fp/map"),
        Some(("lodash", "./fp/map".to_string()))
    );
}

#[test]
fn prefix_dotslash_adds_prefix_once() {
    assert_eq!(prefix_dotslash("a/b"), "./a/b");
    assert_eq!(prefix_dotslash("./a/b"), "./a/b");
    assert_eq!(prefix_dotslash(""), "./");
}
