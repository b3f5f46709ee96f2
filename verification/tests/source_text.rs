use std::cell::RefCell;
use std::rc::Rc;

use good_fences::comments::{leading_comments_at, Comment, CommentKind, CommentPosition, LineIndex, Span};
use good_fences::logger::{error_message, warn_message, Logger};
use good_fences::source_logger::{
    format_byte_offset_message, format_line_col_message, SimpleSourceFileLogger, SrcFileLogger, WrapFileLogger,
};
use good_fences::symbols::{has_disable_export_comment, SymbolTags};

#[derive(Clone, Default)]
struct Lines(Rc<RefCell<Vec<String>>>);

impl Logger for Lines {
    fn log(&self, message: String) {
        self.0.borrow_mut().push(message);
    }
}

fn line_comment(start: u32, end: u32) -> Comment {
    Comment { span: Span::new(start, end), kind: CommentKind::Line, position: CommentPosition::Leading }
}

fn comment_text<'a>(c: &Comment, source: &'a str) -> &'a str {
    let cs = c.content_span();
    &source[cs.start as usize..cs.end as usize]
}

fn make_logger(src: &str) -> WrapFileLogger<Lines> {
    WrapFileLogger::new("test.ts", src.to_string(), Lines::default())
}

#[test]
fn leading_comment_before_export() {
    let source = "// @ALLOW-UNUSED-EXPORT\nexport const x = 1;";
    let comments = vec![line_comment(0, 23)];
    let leading = leading_comments_at(&comments, source, 24);
    assert_eq!(leading.len(), 1);
    assert!(comment_text(&leading[0], source).contains("@ALLOW-UNUSED-EXPORT"));
}

#[test]
fn interior_comment_blank_lines_leads_neither() {
    let source = "const a = 1;\n\n// interior\n\nconst b = 2;";
    let comments = vec![line_comment(14, 25)];
    assert_eq!(&source[14..25], "// interior");
    let leading = leading_comments_at(&comments, source, 27);
    assert!(leading.is_empty());
}

#[test]
fn interior_comment_no_blank_line_leads_second() {
    let source = "const a = 1;\n// interior\nconst b = 2;";
    let comments = vec![line_comment(13, 24)];
    assert_eq!(&source[13..24], "// interior");
    let leading = leading_comments_at(&comments, source, 25);
    assert_eq!(leading.len(), 1);
    assert!(comment_text(&leading[0], source).contains("interior"));
}

#[test]
fn trailing_comments_do_not_lead() {
    let source = "a(); // after\nb();";
    let comments = vec![Comment { span: Span::new(5, 13), kind: CommentKind::Line, position: CommentPosition::Trailing }];
    assert!(leading_comments_at(&comments, source, 14).is_empty());
}

#[test]
fn allow_unused_comment_marks_tags() {
    let source = "//   @allow-unused-export because\nexport const x = 1;";
    let comments = vec![line_comment(0, 33)];
    let tags = SymbolTags::from_comments(&comments, source, 34);
    assert!(tags.allow_unused_comment);
    assert!(!tags.is_type_only);
    // The check that disables an export is case sensitive.
    assert!(!has_disable_export_comment(&comments, source, 34));
}

#[test]
fn allow_unused_comment_keeps_parent_tags() {
    let source = "// nothing to see\nexport type T = 1;";
    let comments = vec![line_comment(0, 17)];
    let parent = SymbolTags { allow_unused_comment: false, is_type_only: true };
    let tags = SymbolTags::from_comments_parent(parent, &comments, source, 18);
    assert!(!tags.allow_unused_comment);
    assert!(tags.is_type_only);
}

#[test]
fn disable_export_comment_is_found() {
    let source = "// @ALLOW-UNUSED-EXPORT\nexport const x = 1;";
    let comments = vec![line_comment(0, 23)];
    assert!(has_disable_export_comment(&comments, source, 24));
    let block = vec![Comment { span: Span::new(0, 23), kind: CommentKind::Block, position: CommentPosition::Leading }];
    assert!(!has_disable_export_comment(&block, "/* @ALLOW-UNUSED-EXP */\nexport const x = 1;", 24));
}

#[test]
fn line_col_single_line() {
    let logger = make_logger("hello world");
    assert_eq!(logger.line_col(0), (1, 0));
    assert_eq!(logger.line_col(6), (1, 6));
}

#[test]
fn line_col_lf_endings() {
    let logger = make_logger("abc\ndef\nghi");
    assert_eq!(logger.line_col(0), (1, 0));
    assert_eq!(logger.line_col(3), (1, 3));
    assert_eq!(logger.line_col(4), (2, 0));
    assert_eq!(logger.line_col(6), (2, 2));
    assert_eq!(logger.line_col(8), (3, 0));
}

#[test]
fn line_col_crlf_endings() {
    let logger = make_logger("abc\r\ndef\r\nghi");
    assert_eq!(logger.line_col(0), (1, 0));
    assert_eq!(logger.line_col(4), (1, 4));
    assert_eq!(logger.line_col(5), (2, 0));
    assert_eq!(logger.line_col(7), (2, 2));
    assert_eq!(logger.line_col(10), (3, 0));
}

#[test]
fn line_col_mixed_endings() {
    let logger = make_logger("a\nb\r\nc");
    assert_eq!(logger.line_col(0), (1, 0));
    assert_eq!(logger.line_col(2), (2, 0));
    assert_eq!(logger.line_col(5), (3, 0));
}

#[test]
fn line_index_starts_of_each_line() {
    let idx = LineIndex::new("x\ny\n\nz");
    assert_eq!(idx.line_col(0), (1, 0));
    assert_eq!(idx.line_col(2), (2, 0));
    assert_eq!(idx.line_col(4), (3, 0));
    assert_eq!(idx.line_col(5), (4, 0));
}

#[test]
fn source_loggers_prefix_locations() {
    let lines = Lines::default();
    let logger = WrapFileLogger::new("test.ts", "abc\ndef".to_string(), lines.clone());
    logger.src_warn(Span::new(5, 6), "bad".to_string());
    logger.src_error(Span::new(0, 1), "worse".to_string());
    let simple = SimpleSourceFileLogger::new("src/a.ts".to_string(), lines.clone());
    simple.src_warn(Span::new(12, 13), "odd".to_string());
    logger.log("plain".to_string());
    assert_eq!(
        *lines.0.borrow(),
        vec![
            "WARN: test.ts:2:1 :: bad".to_string(),
            "ERROR: test.ts:1:0 :: worse".to_string(),
            "WARN: src/a.ts:byte=12:: odd".to_string(),
            "plain".to_string(),
        ]
    );
}

#[test]
fn message_formats() {
    assert_eq!(warn_message("x"), "WARN: x");
    assert_eq!(error_message("y"), "ERROR: y");
    assert_eq!(format_line_col_message("f.ts", 10, 0, "m"), "f.ts:10:0 :: m");
    assert_eq!(format_byte_offset_message("f.ts", 305, "m"), "f.ts:byte=305:: m");
}
