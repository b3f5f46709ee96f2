use good_fences::patch_format::Patch;

fn num_hunk_lines(patch: &Patch) -> usize {
    diffy::Patch::from_str(patch.hunk_text())
        .unwrap()
        .hunks()
        .iter()
        .fold(0, |num_lines, hunk| num_lines + hunk.lines().len())
}

#[test]
fn test_parse_patch_real() {
    let patch = Patch::from_str(
        "#> foo: bar baz bing bing bang\n\
    #> target_file_md5: asdf\n\
    #> target_file_md5: 12345678\n\
    #> patch_format_version: 1\n\
    @@ -1 +1 @@\n\
    -banana original content\n\
    +banana patched content\n\
    ",
    )
    .unwrap();
    if patch.target_file_md5() != &Some("12345678".to_string()) {
        panic!(
            "Target md5 should be the last value in the header, got {:?}",
            patch.target_file_md5(),
        )
    }
    if patch.patch_format_version() != "1" {
        panic!("Patch version should match, got {}", patch.patch_format_version(),)
    }
    let num_hunk_lines = num_hunk_lines(&patch);
    if num_hunk_lines != 2 {
        panic!("Patch should be parsed to a single, 2-line hunk. Got {num_hunk_lines}")
    }
}

#[test]
fn test_parse_patch_real_crlf() {
    let patch = Patch::from_str(
        "#> foo: bar baz bing bing bang\r\n\
                #> target_file_md5: asdf\r\n\
                #> target_file_md5: 12345678\r\n\
                #> patch_format_version: 1\r\n\
                @@ -1 +1 @@\r\n\
                -banana original content\r\n\
                +banana patched content\r\n",
    )
    .unwrap();
    if patch.target_file_md5() != &Some("12345678".to_string()) {
        panic!(
            "Target md5 should be the last value in the header, got {:?}",
            patch.target_file_md5(),
        )
    }
    if patch.patch_format_version() != "1" {
        panic!("Patch version should match, got {}", patch.patch_format_version(),)
    }
    let num_hunk_lines = num_hunk_lines(&patch);
    if num_hunk_lines != 2 {
        panic!("Patch should be parsed to a single, 2-line hunk. Got {num_hunk_lines}")
    }
}

#[test]
fn test_parse_patch_header_comments() {
    let patch = Patch::from_str(
        r#"#> foo: bar baz bing bing bang
#> target_file_md5: asdf
#> target_file_md5: 12345678
#
#
# support comments as well
#
#
#
@@ -1 +1 @@
-lemon original content
+lemon patched content
"#,
    )
    .unwrap();
    if patch.target_file_md5() != &Some("12345678".to_string()) {
        panic!(
            "Target md5 should be the last value in the header, got {:?}",
            patch.target_file_md5(),
        )
    }
    let num_hunk_lines = num_hunk_lines(&patch);
    if num_hunk_lines != 2 {
        panic!("Patch should be parsed to a single, 2-line hunk. Got {num_hunk_lines}")
    }
}

#[test]
fn test_patch_parse_fail() {
    let patch = Patch::from_str(
        r#"#> patch_format_version: 1
@@ -1 +1 @@
a
"#,
    );

    let err = match patch {
        Err(e) => e,
        _ => panic!("expected patch parse err"),
    };

    let err_str = err.to_display_string();
    assert_eq!(err_str, "error parsing patch: unexpected line in hunk body",);
}

#[test]
fn test_patch_serialize() {
    let patch = Patch::from_str(
        r#"#>   target_file_md5   : 1234
#> patch_format_version: 1
# some-comments
@@ -1 +1 @@
-abcd
+apple patched content
@@ -2 +2 @@
-defg
+hello!
"#,
    )
    .unwrap();

    assert_eq!(
        "# some-comments
#> patch_format_version: 1
#> target_file_md5: 1234
@@ -1 +1 @@
-abcd
+apple patched content
@@ -2 +2 @@
-defg
+hello!
",
        patch.to_display_string(),
        "patch should serialize to a normal form",
    )
}

#[test]
fn test_load_save_patch_stable() {
    let input = r#"4,11 @@
 import { ChangeGate } from '@augloop/settings';
 import { makeItemPathKey, NotFoundError, splitItemPathKey } from '@augloop/session-cache';
 import { AddOperation, AnnotationState, DeleteOperation, SchemaObject, UpdateAnnotationMetaDataOperation, UpdateOperation } from '@augloop/types-core';
-import * as deepEqual from 'fast-deep-equal';
+import deepEqual from 'fast-deep-equal';
 import { BaseAnnotationProcessor } from './base-annotation-processor';
 import { setAnnotationStateToSent } from './session';
 import { SequencerSeedMode } from './syncmessage-sequencer';
-import * as uuidv4 from 'uuid/v4';
+import uuidv4 from 'uuid/v4';
 var StatefulAnnotationProcessor = /** @class */ (function (_super) {
     __extends(StatefulAnnotationProcessor, _super);
     function StatefulAnnotationProcessor(session) {
"#;

    let patch = Patch::from_str(input).unwrap();
    let output = patch.to_display_string();

    let mut expected_output = String::from("#> patch_format_version: 1\n");
    expected_output.push_str(input);

    assert_eq!(expected_output, output)
}

#[test]
fn unknown_patch_format_version_is_refused() {
    let err = match Patch::from_str("#> patch_format_version: 2\n@@ -1 +1 @@\n-a\n+b\n") {
        Err(e) => e,
        Ok(_) => panic!("expected a version error"),
    };
    assert_eq!(err.to_display_string(), "unrecognized patch format version 2");
}

#[test]
fn header_keys_and_values_are_trimmed_and_missing_version_is_one() {
    let patch = Patch::from_str("#   comment  \n#>  target_file_md5 :  ab:cd  \n#> no colon here\n").unwrap();
    assert_eq!(patch.patch_format_version(), "1");
    assert_eq!(patch.target_file_md5(), &Some("ab:cd".to_string()));
    assert_eq!(patch.comment_lines(), &vec!["#   comment".to_string()]);
    assert_eq!(patch.hunk_text(), "");
    assert_eq!(
        patch.to_display_string(),
        "#   comment\n#> patch_format_version: 1\n#> target_file_md5: ab:cd\n"
    );
}

#[test]
fn apply_changes_the_target_text() {
    let patch = Patch::from_str("# fix the fruit\n@@ -1 +1 @@\n-banana\n+lemon\n").unwrap();
    assert_eq!(patch.apply("banana\n").unwrap(), "lemon\n");
    assert!(patch.apply("cherry\n").is_err());
}

#[test]
fn display_then_read_gives_the_same_patch() {
    let patch = Patch::from_str("#> target_file_md5: 99\n# why\n@@ -1 +1 @@\n-x\n+y\n").unwrap();
    let again = Patch::from_str(&patch.to_display_string()).unwrap();
    assert_eq!(again.comment_lines(), patch.comment_lines());
    assert_eq!(again.target_file_md5(), patch.target_file_md5());
    assert_eq!(again.patch_format_version(), patch.patch_format_version());
    assert_eq!(again.hunk_text(), patch.hunk_text());
}
