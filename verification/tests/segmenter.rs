use std::cell::RefCell;
use std::rc::Rc;

use good_fences::import_calls::{CallSite, CallbackParam};
use good_fences::comments::Span;
use good_fences::logger::Logger;
use good_fences::segmenter::{
    hoisting_for_flags, segment_file, statement_error, statement_to_segment, variables_for_top_level_statements, DeclarationFlags,
    RootBinding, StatementFacts, StatementKind, ValueReference,
};
use good_fences::source_logger::WrapFileLogger;
use good_fences::symbols::{HoistingLevel, RawModuleDeps, StatementToSegmentError, Symbol, TaggedSymbol, SymbolTags, VariableScope};

#[derive(Clone, Default)]
struct Lines(Rc<RefCell<Vec<String>>>);

impl Logger for Lines {
    fn log(&self, message: String) {
        self.0.borrow_mut().push(message);
    }
}

const PLAIN: DeclarationFlags = DeclarationFlags { import: false, type_import: false, function: false };

fn binding(name: &str, start: u32, flags: DeclarationFlags) -> RootBinding {
    RootBinding { name: name.to_string(), declared_at: Span::new(start, start + name.len() as u32), flags }
}

fn reference(name: &str, at: u32, declared_at: Option<Span>) -> ValueReference {
    ValueReference { name: name.to_string(), at: Span::new(at, at + name.len() as u32), type_only: false, declared_at }
}

fn locals(v: &VariableScope) -> Vec<&str> {
    let mut n: Vec<&str> = v.local_symbols.iter().map(|(s, _)| s.as_str()).collect();
    n.sort();
    n
}

fn escaped(v: &VariableScope) -> Vec<&str> {
    let mut n: Vec<&str> = v.escaped_symbols.iter().map(|s| s.as_str()).collect();
    n.sort();
    n
}

#[test]
fn single_const_decl_is_local() {
    // const x = 1;
    let scopes = variables_for_top_level_statements(&vec![Span::new(0, 12)], &vec![binding("x", 6, PLAIN)], &vec![]);
    assert_eq!(scopes.len(), 1);
    assert!(locals(&scopes[0]).contains(&"x"));
}

#[test]
fn import_gets_import_hoisting() {
    // import { foo } from './foo';
    let flags = DeclarationFlags { import: true, type_import: false, function: false };
    let scopes = variables_for_top_level_statements(&vec![Span::new(0, 28)], &vec![binding("foo", 9, flags)], &vec![]);
    assert_eq!(scopes[0].local_symbols, vec![("foo".to_string(), HoistingLevel::ImportHoisting)]);
}

#[test]
fn function_decl_gets_function_hoisting() {
    // function bar() {}
    let flags = DeclarationFlags { import: false, type_import: false, function: true };
    let scopes = variables_for_top_level_statements(&vec![Span::new(0, 17)], &vec![binding("bar", 9, flags)], &vec![]);
    assert_eq!(scopes[0].local_symbols, vec![("bar".to_string(), HoistingLevel::FunctionHoisting)]);
}

#[test]
fn cross_statement_reference_is_escaped() {
    // const x = 1;\nconst y = x + 1;
    let spans = vec![Span::new(0, 12), Span::new(13, 29)];
    let bindings = vec![binding("x", 6, PLAIN), binding("y", 19, PLAIN)];
    let refs = vec![reference("x", 23, Some(Span::new(6, 7)))];
    let scopes = variables_for_top_level_statements(&spans, &bindings, &refs);
    assert_eq!(scopes.len(), 2);
    assert!(escaped(&scopes[1]).contains(&"x"));
    assert!(escaped(&scopes[0]).is_empty());
}

#[test]
fn same_statement_reference_is_not_escaped() {
    // const x = 1, y = x + 1;
    let spans = vec![Span::new(0, 23)];
    let bindings = vec![binding("x", 6, PLAIN), binding("y", 13, PLAIN)];
    let refs = vec![reference("x", 17, Some(Span::new(6, 7)))];
    let scopes = variables_for_top_level_statements(&spans, &bindings, &refs);
    assert!(!escaped(&scopes[0]).contains(&"x"));
}

#[test]
fn global_reference_is_escaped() {
    // console.log('hi');
    let scopes = variables_for_top_level_statements(&vec![Span::new(0, 18)], &vec![], &vec![reference("console", 0, None)]);
    assert!(escaped(&scopes[0]).contains(&"console"));
}

#[test]
fn multiple_statements_correct_scope() {
    // const a = 1;\nconst b = 2;\nconst c = a + b;
    let spans = vec![Span::new(0, 12), Span::new(13, 25), Span::new(26, 42)];
    let bindings = vec![binding("a", 6, PLAIN), binding("b", 19, PLAIN), binding("c", 32, PLAIN)];
    let refs = vec![reference("a", 36, Some(Span::new(6, 7))), reference("b", 40, Some(Span::new(19, 20)))];
    let scopes = variables_for_top_level_statements(&spans, &bindings, &refs);
    assert_eq!(scopes.len(), 3);
    assert_eq!(locals(&scopes[0]), vec!["a"]);
    assert_eq!(locals(&scopes[1]), vec!["b"]);
    assert_eq!(locals(&scopes[2]), vec!["c"]);
    assert_eq!(escaped(&scopes[2]), vec!["a", "b"]);
}

#[test]
fn type_only_references_do_not_escape() {
    let spans = vec![Span::new(0, 10), Span::new(11, 30)];
    let refs = vec![ValueReference {
        name: "T".to_string(),
        at: Span::new(20, 21),
        type_only: true,
        declared_at: Some(Span::new(5, 6)),
    }];
    let scopes = variables_for_top_level_statements(&spans, &vec![], &refs);
    assert!(escaped(&scopes[1]).is_empty());
}

#[test]
fn hoisting_levels() {
    assert_eq!(hoisting_for_flags(PLAIN), HoistingLevel::LetConstHoisting);
    let ty = DeclarationFlags { import: false, type_import: true, function: true };
    assert_eq!(hoisting_for_flags(ty), HoistingLevel::ImportHoisting);
}

fn facts(kind: StatementKind, start: u32, end: u32) -> StatementFacts {
    StatementFacts {
        kind,
        span: Span::new(start, end),
        declared_deps: RawModuleDeps::new(),
        calls: vec![],
    }
}

#[test]
fn export_declarations_keep_declared_deps_and_add_body_imports() {
    let lines = Lines::default();
    let logger = WrapFileLogger::new("test.ts", "export default import('./x');".to_string(), lines.clone());
    let mut st = facts(StatementKind::ExportDeclaration, 0, 29);
    st.declared_deps.exports_locals.push((
        good_fences::symbols::ExportedSymbol::from_name("default"),
        TaggedSymbol::new(Symbol::from_name("default"), SymbolTags { allow_unused_comment: false, is_type_only: false }),
    ));
    let require = |p: &str| CallSite::IdentCall { callee: "require".to_string(), bound: false, first_string_arg: Some(p.to_string()) };
    st.calls = vec![
        CallSite::Import { source: Some("./x".to_string()) },
        CallSite::ImportMemberCall {
            property: "then".to_string(),
            source: Some("./x".to_string()),
            callback: CallbackParam::ObjectPattern(vec![Some("a".to_string())]),
        },
        require("fs"),
        require("fs"),
    ];
    let seg = statement_to_segment(&logger, st, VariableScope::new()).unwrap();
    assert_eq!(seg.module_deps.exports_locals.len(), 1);
    assert_eq!(seg.module_deps.dynamic_imports.len(), 1);
    assert_eq!(seg.module_deps.dynamic_imports[0].1.len(), 1);
    assert_eq!(seg.module_deps.dynamic_imports[0].1[0].as_str(), "a");
    assert_eq!(seg.module_deps.requires, vec!["fs".to_string()]);
    assert!(lines.0.borrow().is_empty());
}

#[test]
fn module_level_return_is_reported() {
    let lines = Lines::default();
    let source = "const a = 1;\nreturn;\nwith (o) {}";
    let logger = WrapFileLogger::new("test.ts", source.to_string(), lines.clone());
    let statements = vec![
        facts(StatementKind::Regular, 0, 12),
        facts(StatementKind::Return, 13, 20),
        facts(StatementKind::With, 21, 32),
    ];
    let segments = segment_file(&logger, statements, &vec![binding("a", 6, PLAIN)], &vec![]);
    assert_eq!(segments.len(), 1);
    assert_eq!(segments[0].variables.local_symbols, vec![("a".to_string(), HoistingLevel::LetConstHoisting)]);
    assert_eq!(
        *lines.0.borrow(),
        vec![
            "ERROR: test.ts:2:0 :: \"return\" statements should not occur at the module level".to_string(),
            "ERROR: test.ts:3:0 :: With statements are not supported because they create new non-lexical names".to_string(),
        ]
    );
}

#[test]
fn statements_without_segments_give_and_report_their_error() {
    let lines = Lines::default();
    let logger = WrapFileLogger::new("test.ts", "return;\nwith (a) {}".to_string(), lines.clone());
    let r = statement_to_segment(&logger, facts(StatementKind::Return, 0, 7), VariableScope::new());
    assert_eq!(r.err(), Some(StatementToSegmentError::StatementUnexpectedInModuleScope("return")));
    let w = statement_to_segment(&logger, facts(StatementKind::With, 8, 19), VariableScope::new());
    assert_eq!(w.err(), Some(StatementToSegmentError::WithStatmentUnsupported));
    let logged = lines.0.borrow();
    assert_eq!(logged.len(), 2);
    assert!(logged[0].contains("\"return\" statements should not occur at the module level"));
    assert!(logged[1].contains("With statements are not supported"));
    assert_eq!(statement_error(StatementKind::Break), Some(StatementToSegmentError::StatementUnexpectedInModuleScope("break")));
    assert_eq!(statement_error(StatementKind::Regular), None);
}
