//! Cutting a parsed module into segments, one per top-level statement.
//!
//! The facts read from the syntax tree and from its semantic analysis
//! (statement kinds and spans, root-scope bindings, value references) are
//! handed in as plain values; this module decides the names each statement
//! declares and uses from elsewhere, and the dependencies of its segment.
use vstd::prelude::*;
use crate::comments::Span;
use crate::import_calls::{find_imports_and_requires, imported_view, record_calls, symbols_view, CallSite, ImportsAndRequiresView};
use crate::node_resolution::set_insert;
use crate::pkgjson_exports::{assoc_find, assoc_insert, lemma_assoc_index};
use crate::source_logger::SrcFileLogger;
use crate::symbols::{HoistingLevel, RawModuleDeps, Segment, StatementToSegmentError, Symbol, SymbolView, VariableScope};
use crate::text::{chars_eq, str_chars, string_seq_views};

verus! {

/// The flags of a declared symbol that decide how it is hoisted.
#[derive(Debug, Clone, Copy, PartialEq, Eq, Structural)]
pub struct DeclarationFlags {
    pub import: bool,
    pub type_import: bool,
    pub function: bool,
}

/// Imports (of values or types) are hoisted with their module, function
/// declarations with their value; anything else only by name.
pub open spec fn spec_hoisting(f: DeclarationFlags) -> HoistingLevel {
    if f.import || f.type_import {
        HoistingLevel::ImportHoisting
    } else if f.function {
        HoistingLevel::FunctionHoisting
    } else {
        HoistingLevel::LetConstHoisting
    }
}

/// The hoisting level of a declaration with the given flags.
pub fn hoisting_for_flags(flags: DeclarationFlags) -> (r: HoistingLevel)
    ensures
        r == spec_hoisting(flags),
{
    if flags.import || flags.type_import {
        HoistingLevel::ImportHoisting
    } else if flags.function {
        HoistingLevel::FunctionHoisting
    } else {
        HoistingLevel::LetConstHoisting
    }
}

/// A name bound in the root scope of the module, with the span of its
/// declaration.
#[derive(Debug, Clone)]
pub struct RootBinding {
    pub name: String,
    pub declared_at: Span,
    pub flags: DeclarationFlags,
}

/// A reference to a name: where it stands, whether only a type is
/// referred to, and the span of the declaration it resolves to (`None`
/// for a global that nothing in the module declares).
#[derive(Debug, Clone)]
pub struct ValueReference {
    pub name: String,
    pub at: Span,
    pub type_only: bool,
    pub declared_at: Option<Span>,
}

/// Statement spans are well formed, in source order and disjoint.
pub open spec fn spans_sorted(s: Seq<Span>) -> bool {
    &&& forall|i: int| 0 <= i < s.len() ==> (#[trigger] s[i]).start <= s[i].end
    &&& forall|i: int, j: int| 0 <= i < j < s.len() ==> (#[trigger] s[i]).end <= (#[trigger] s[j]).start
}

pub open spec fn contains_offset(s: Span, offset: u32) -> bool {
    s.start <= offset < s.end
}

/// The statement whose span holds `offset`.
pub open spec fn stmt_of(spans: Seq<Span>, offset: u32) -> Option<int> {
    if exists|i: int| 0 <= i < spans.len() && contains_offset(#[trigger] spans[i], offset) {
        Some(choose|i: int| 0 <= i < spans.len() && contains_offset(#[trigger] spans[i], offset))
    } else {
        None
    }
}

proof fn lemma_stmt_of(spans: Seq<Span>, offset: u32, i: int)
    requires
        spans_sorted(spans),
        0 <= i < spans.len(),
        contains_offset(spans[i], offset),
    ensures
        stmt_of(spans, offset) == Some(i),
{
    let j = choose|j: int| 0 <= j < spans.len() && contains_offset(#[trigger] spans[j], offset);
    if j < i {
        assert(spans[j].end <= spans[i].start);
    } else if i < j {
        assert(spans[i].end <= spans[j].start);
    }
}

/// The statement whose span holds `offset` (binary search).
fn find_stmt(spans: &Vec<Span>, offset: u32) -> (r: Option<usize>)
    requires
        spans_sorted(spans@),
    ensures
        match r {
            Some(i) => stmt_of(spans@, offset) == Some(i as int),
            None => stmt_of(spans@, offset) is None,
        },
{
    let mut lo: usize = 0;
    let mut hi: usize = spans.len();
    while lo < hi
        invariant
            spans_sorted(spans@),
            0 <= lo <= hi <= spans@.len(),
            forall|i: int| 0 <= i < lo ==> (#[trigger] spans@[i]).end <= offset,
            forall|i: int| hi <= i < spans@.len() ==> (#[trigger] spans@[i]).end > offset,
        decreases hi - lo,
    {
        let mid = lo + (hi - lo) / 2;
        if spans[mid].end <= offset {
            assert forall|i: int| 0 <= i < mid + 1 implies (#[trigger] spans@[i]).end <= offset by {
                if i < mid {
                    assert(spans@[i].end <= spans@[mid as int].start);
                }
            }
            lo = mid + 1;
        } else {
            assert forall|i: int| mid <= i < spans@.len() implies (#[trigger] spans@[i]).end > offset by {
                if i > mid {
                    assert(spans@[mid as int].end <= spans@[i].start);
                }
            }
            hi = mid;
        }
    }
    if lo < spans.len() && spans[lo].start <= offset && offset < spans[lo].end {
        proof { lemma_stmt_of(spans@, offset, lo as int); }
        Some(lo)
    } else {
        assert forall|i: int| 0 <= i < spans@.len() implies !contains_offset(#[trigger] spans@[i], offset) by {
            if i > lo {
                assert(spans@[lo as int].end <= spans@[i].start);
            }
        }
        None
    }
}

/// The local names of a scope, with their hoisting.
pub open spec fn locals_view(v: Seq<(String, HoistingLevel)>) -> Seq<(Seq<char>, HoistingLevel)> {
    v.map_values(|p: (String, HoistingLevel)| (p.0@, p.1))
}

/// The root-scope names among the first `n` bindings declared in
/// statement `k`, each with the hoisting of its declaration.
pub open spec fn locals_of(spans: Seq<Span>, bindings: Seq<RootBinding>, k: int, n: int) -> Seq<(Seq<char>, HoistingLevel)>
    decreases n,
{
    if n <= 0 {
        Seq::empty()
    } else {
        let r = locals_of(spans, bindings, k, n - 1);
        let b = bindings[n - 1];
        if stmt_of(spans, b.declared_at.start) == Some(k) {
            assoc_insert(r, b.name@, spec_hoisting(b.flags))
        } else {
            r
        }
    }
}

/// A value reference standing in statement `k` escapes it: it refers to a
/// global, or to a declaration outside the statement.
pub open spec fn escapes_from(spans: Seq<Span>, r: ValueReference, k: int) -> bool {
    &&& !r.type_only
    &&& stmt_of(spans, r.at.start) == Some(k)
    &&& match r.declared_at {
        None => true,
        Some(d) => !(d.start >= spans[k].start && d.end <= spans[k].end),
    }
}

/// The names of the first `n` references that escape statement `k`.
pub open spec fn escaped_of(spans: Seq<Span>, refs: Seq<ValueReference>, k: int, n: int) -> Seq<Seq<char>>
    decreases n,
{
    if n <= 0 {
        Seq::empty()
    } else {
        let r = escaped_of(spans, refs, k, n - 1);
        if escapes_from(spans, refs[n - 1], k) {
            set_insert(r, refs[n - 1].name@)
        } else {
            r
        }
    }
}

/// Sets the hoisting of `name`, adding it when absent.
fn local_insert(locals: &mut Vec<(String, HoistingLevel)>, name: &String, h: HoistingLevel)
    ensures
        locals_view(final(locals)@) == assoc_insert(locals_view(old(locals)@), name@, h),
{
    let ghost v0 = locals_view(locals@);
    let nc = str_chars(name.as_str());
    let mut i: usize = 0;
    while i < locals.len()
        invariant
            v0 == locals_view(locals@),
            locals@ == old(locals)@,
            nc@ == name@,
            0 <= i <= locals@.len(),
            forall|j: int| 0 <= j < i ==> (#[trigger] v0[j]).0 != name@,
        decreases locals@.len() - i,
    {
        let c = str_chars(locals[i].0.as_str());
        if chars_eq(c.as_slice(), nc.as_slice()) {
            proof {
                lemma_assoc_index(v0, name@, v0.len() as int);
                assert(v0[i as int].0 == name@);
                if assoc_find(v0, name@) != Some(i as int) {
                    let f = assoc_find(v0, name@)->0;
                    assert(f > i as int || f < i as int);
                }
            }
            locals.set(i, (name.clone(), h));
            assert(locals_view(locals@) =~= v0.update(i as int, (name@, h)));
            return;
        }
        i = i + 1;
    }
    proof { lemma_assoc_index(v0, name@, v0.len() as int); }
    locals.push((name.clone(), h));
    assert(locals_view(locals@) =~= v0.push((name@, h)));
}

/// Adds `name` to a set of names kept as a list.
fn name_insert(names: &mut Vec<String>, name: &String)
    ensures
        string_seq_views(final(names)@) == set_insert(string_seq_views(old(names)@), name@),
{
    let nc = str_chars(name.as_str());
    if crate::node_resolution::strings_contain(names, nc.as_slice()) {
        return;
    }
    let ghost v0 = string_seq_views(names@);
    names.push(name.clone());
    assert(string_seq_views(names@) =~= v0.push(name@));
}

/// Whether a reference escapes statement `k` (see `escapes_from`).
fn reference_escapes(spans: &Vec<Span>, r: &ValueReference, k: usize) -> (b: bool)
    requires
        spans_sorted(spans@),
        k < spans@.len(),
    ensures
        b == escapes_from(spans@, *r, k as int),
{
    if r.type_only {
        return false;
    }
    match find_stmt(spans, r.at.start) {
        Some(i) => {
            if i != k {
                return false;
            }
        },
        None => {
            return false;
        },
    }
    match r.declared_at {
        None => true,
        Some(d) => !(d.start >= spans[k].start && d.end <= spans[k].end),
    }
}

/// The scope of every top-level statement, in order: the root-scope names
/// it declares (with their hoisting) and the names its value references
/// take from other statements or from globals.
pub fn variables_for_top_level_statements(
    spans: &Vec<Span>,
    bindings: &Vec<RootBinding>,
    references: &Vec<ValueReference>,
) -> (r: Vec<VariableScope>)
    requires
        spans_sorted(spans@),
    ensures
        r@.len() == spans@.len(),
        forall|k: int| 0 <= k < r@.len() ==> locals_view((#[trigger] r@[k]).local_symbols@)
            == locals_of(spans@, bindings@, k, bindings@.len() as int),
        forall|k: int| 0 <= k < r@.len() ==> string_seq_views((#[trigger] r@[k]).escaped_symbols@)
            == escaped_of(spans@, references@, k, references@.len() as int),
{
    let mut out: Vec<VariableScope> = Vec::new();
    let mut k: usize = 0;
    while k < spans.len()
        invariant
            spans_sorted(spans@),
            0 <= k <= spans@.len(),
            out@.len() == k,
            forall|q: int| 0 <= q < k ==> locals_view((#[trigger] out@[q]).local_symbols@)
                == locals_of(spans@, bindings@, q, bindings@.len() as int),
            forall|q: int| 0 <= q < k ==> string_seq_views((#[trigger] out@[q]).escaped_symbols@)
                == escaped_of(spans@, references@, q, references@.len() as int),
        decreases spans@.len() - k,
    {
        let mut locals: Vec<(String, HoistingLevel)> = Vec::new();
        assert(locals_view(locals@) =~= locals_of(spans@, bindings@, k as int, 0));
        let mut j: usize = 0;
        while j < bindings.len()
            invariant
                spans_sorted(spans@),
                k < spans@.len(),
                0 <= j <= bindings@.len(),
                locals_view(locals@) == locals_of(spans@, bindings@, k as int, j as int),
            decreases bindings@.len() - j,
        {
            let b = &bindings[j];
            match find_stmt(spans, b.declared_at.start) {
                Some(i) => {
                    if i == k {
                        local_insert(&mut locals, &b.name, hoisting_for_flags(b.flags));
                    }
                },
                None => {},
            }
            j = j + 1;
        }
        let mut escaped: Vec<String> = Vec::new();
        assert(string_seq_views(escaped@) =~= escaped_of(spans@, references@, k as int, 0));
        let mut j: usize = 0;
        while j < references.len()
            invariant
                spans_sorted(spans@),
                k < spans@.len(),
                0 <= j <= references@.len(),
                string_seq_views(escaped@) == escaped_of(spans@, references@, k as int, j as int),
            decreases references@.len() - j,
        {
            if reference_escapes(spans, &references[j], k) {
                name_insert(&mut escaped, &references[j].name);
            }
            j = j + 1;
        }
        out.push(VariableScope { local_symbols: locals, escaped_symbols: escaped });
        k = k + 1;
    }
    out
}

/// The kinds of top-level statement, as segmenting tells them apart.
#[derive(Debug, Clone, Copy, PartialEq, Eq, Structural)]
pub enum StatementKind {
    /// `import ...`, `export * from ...`, `import x = require(...)`.
    ModuleDeclaration,
    /// `export ...` and `export default ...`, whose body may import.
    ExportDeclaration,
    /// Any other statement or declaration that may stand in a module.
    Regular,
    /// A `with` statement.
    With,
    Return,
    Break,
    Continue,
    /// `export = ...` and `export as namespace ...`.
    TypeScriptExport,
}

/// What the syntax tree says of one top-level statement: its kind and
/// span, the imports and exports of a module declaration or export
/// declaration, and the calls in its body, innermost first, of which
/// `import()` and `require()` add to its imports.
#[derive(Debug, Clone)]
pub struct StatementFacts {
    pub kind: StatementKind,
    pub span: Span,
    pub declared_deps: RawModuleDeps,
    pub calls: Vec<CallSite>,
}

/// Dynamic imports keyed by specifier.
pub open spec fn dyn_view(v: Seq<(String, Vec<Symbol>)>) -> Seq<(Seq<char>, Seq<SymbolView>)> {
    imported_view(v)
}

/// The dynamic imports and requires of the calls of a statement.
pub open spec fn found_in(stmt: StatementFacts) -> ImportsAndRequiresView {
    record_calls(ImportsAndRequiresView { imported: Seq::empty(), required: Seq::empty() }, stmt.calls@, stmt.calls@.len() as int)
}

/// `base` with each of the first `n` found imports set (a later one for a
/// specifier replaces an earlier).
pub open spec fn merged_dynamic(base: Seq<(Seq<char>, Seq<SymbolView>)>, found: Seq<(Seq<char>, Seq<SymbolView>)>, n: int)
    -> Seq<(Seq<char>, Seq<SymbolView>)>
    decreases n,
{
    if n <= 0 {
        base
    } else {
        assoc_insert(merged_dynamic(base, found, n - 1), found[n - 1].0, found[n - 1].1)
    }
}

/// `base` with each of the first `n` found requires added once.
pub open spec fn merged_requires(base: Seq<Seq<char>>, found: Seq<Seq<char>>, n: int) -> Seq<Seq<char>>
    decreases n,
{
    if n <= 0 {
        base
    } else {
        set_insert(merged_requires(base, found, n - 1), found[n - 1])
    }
}

/// `deps` with the dynamic imports and requires found in a statement
/// added, and everything else kept.
pub open spec fn with_found(deps: RawModuleDeps, found_dyn: Seq<(Seq<char>, Seq<SymbolView>)>, found_req: Seq<Seq<char>>, r: RawModuleDeps) -> bool {
    &&& dyn_view(r.dynamic_imports@) == merged_dynamic(dyn_view(deps.dynamic_imports@), found_dyn, found_dyn.len() as int)
    &&& string_seq_views(r.requires@) == merged_requires(string_seq_views(deps.requires@), found_req, found_req.len() as int)
    &&& r.imports == deps.imports
    &&& r.exports_from == deps.exports_from
    &&& r.exports_locals == deps.exports_locals
    &&& r.executed_paths == deps.executed_paths
}

fn dynamic_insert(v: &mut Vec<(String, Vec<Symbol>)>, key: String, value: Vec<Symbol>)
    ensures
        dyn_view(final(v)@) == assoc_insert(dyn_view(old(v)@), key@, symbols_view(value@)),
{
    let ghost v0 = dyn_view(v@);
    let ghost kv = key@;
    let kc = str_chars(key.as_str());
    let mut i: usize = 0;
    while i < v.len()
        invariant
            v0 == dyn_view(v@),
            v@ == old(v)@,
            kc@ == kv,
            kv == key@,
            0 <= i <= v@.len(),
            forall|j: int| 0 <= j < i ==> (#[trigger] v0[j]).0 != kv,
        decreases v@.len() - i,
    {
        let c = str_chars(v[i].0.as_str());
        if chars_eq(c.as_slice(), kc.as_slice()) {
            proof {
                lemma_assoc_index(v0, kv, v0.len() as int);
                assert(v0[i as int].0 == kv);
                if assoc_find(v0, kv) != Some(i as int) {
                    let f = assoc_find(v0, kv)->0;
                    assert(f > i as int || f < i as int);
                }
            }
            let ghost val = symbols_view(value@);
            v.set(i, (key, value));
            assert(dyn_view(v@) =~= v0.update(i as int, (kv, val)));
            return;
        }
        i = i + 1;
    }
    proof { lemma_assoc_index(v0, kv, v0.len() as int); }
    let ghost val = symbols_view(value@);
    v.push((key, value));
    assert(dyn_view(v@) =~= v0.push((kv, val)));
}

/// Adds the dynamic imports and requires found in a statement.
fn add_found(deps: RawModuleDeps, found_dyn: Vec<(String, Vec<Symbol>)>, found_req: &Vec<String>) -> (r: RawModuleDeps)
    ensures
        with_found(deps, imported_view(found_dyn@), string_seq_views(found_req@), r),
{
    let ghost d0 = deps;
    let ghost fd = found_dyn@;
    let ghost fdv = imported_view(fd);
    let mut deps = deps;
    let mut rest = found_dyn;
    let mut taken: usize = 0;
    let n = rest.len();
    let mut pending: Vec<(String, Vec<Symbol>)> = Vec::new();
    while rest.len() > 0
        invariant
            rest@.len() + pending@.len() == n,
            n == fd.len(),
            forall|j: int| 0 <= j < rest@.len() ==> rest@[j] == fd[j],
            forall|j: int| 0 <= j < pending@.len() ==> pending@[j] == fd[n - 1 - j],
        decreases rest@.len(),
    {
        let e = rest.pop().unwrap();
        pending.push(e);
    }
    while pending.len() > 0
        invariant
            taken + pending@.len() == n,
            n == fd.len(),
            forall|j: int| 0 <= j < pending@.len() ==> pending@[j] == fd[n - 1 - j],
            fdv == imported_view(fd),
            dyn_view(deps.dynamic_imports@) == merged_dynamic(dyn_view(d0.dynamic_imports@), fdv, taken as int),
            deps.requires == d0.requires,
            deps.imports == d0.imports,
            deps.exports_from == d0.exports_from,
            deps.exports_locals == d0.exports_locals,
            deps.executed_paths == d0.executed_paths,
        decreases pending@.len(),
    {
        let (key, value) = pending.pop().unwrap();
        assert(fd[taken as int] == (key, value));
        assert(fdv[taken as int] == (key@, symbols_view(value@)));
        dynamic_insert(&mut deps.dynamic_imports, key, value);
        taken = taken + 1;
    }
    let mut j: usize = 0;
    while j < found_req.len()
        invariant
            0 <= j <= found_req@.len(),
            dyn_view(deps.dynamic_imports@) == merged_dynamic(dyn_view(d0.dynamic_imports@), fdv, fdv.len() as int),
            string_seq_views(deps.requires@) == merged_requires(string_seq_views(d0.requires@), string_seq_views(found_req@), j as int),
            deps.imports == d0.imports,
            deps.exports_from == d0.exports_from,
            deps.exports_locals == d0.exports_locals,
            deps.executed_paths == d0.executed_paths,
        decreases found_req@.len() - j,
    {
        name_insert(&mut deps.requires, &found_req[j]);
        j = j + 1;
    }
    deps
}

/// The keyword of a statement that cannot stand at module level.
pub open spec fn unexpected_keyword(kind: StatementKind) -> Option<Seq<char>> {
    match kind {
        StatementKind::Return => Some("return"@),
        StatementKind::Break => Some("break"@),
        StatementKind::Continue => Some("continue"@),
        _ => None,
    }
}

/// The segment of a statement: a module declaration keeps the imports and
/// exports read from it; an export declaration adds to them the dynamic
/// imports and requires of its body; any other statement has only those
/// of its body; `export =` forms have none. `with`, `return`, `break` and
/// `continue` make no segment, and are reported to the logger.
pub open spec fn segment_deps_ok(stmt: StatementFacts, r: RawModuleDeps) -> bool {
    match stmt.kind {
        StatementKind::ModuleDeclaration => r == stmt.declared_deps,
        StatementKind::ExportDeclaration => with_found(stmt.declared_deps, found_in(stmt).imported, found_in(stmt).required, r),
        StatementKind::TypeScriptExport => {
            &&& r.imports@.len() == 0 && r.dynamic_imports@.len() == 0 && r.requires@.len() == 0
            &&& r.exports_from@.len() == 0 && r.exports_locals@.len() == 0 && r.executed_paths@.len() == 0
        },
        _ => {
            &&& dyn_view(r.dynamic_imports@) == merged_dynamic(Seq::empty(), found_in(stmt).imported, found_in(stmt).imported.len() as int)
            &&& string_seq_views(r.requires@) == merged_requires(Seq::empty(), found_in(stmt).required, found_in(stmt).required.len() as int)
            &&& r.imports@.len() == 0 && r.exports_from@.len() == 0 && r.exports_locals@.len() == 0
            &&& r.executed_paths@.len() == 0
        },
    }
}

/// Whether a statement of this kind makes a segment.
pub open spec fn makes_segment(kind: StatementKind) -> bool {
    kind != StatementKind::With && unexpected_keyword(kind) is None
}

fn report<L: SrcFileLogger>(file_logger: &L, span: Span, e: StatementToSegmentError) {
    file_logger.src_error(span, e.message());
}

/// The error a statement that makes no segment is reported with: `with`
/// statements are unsupported; `return`, `break` and `continue` are
/// unexpected at module level, named by their keyword.
pub open spec fn is_statement_error(kind: StatementKind, e: StatementToSegmentError) -> bool {
    match (kind, e) {
        (StatementKind::With, StatementToSegmentError::WithStatmentUnsupported) => true,
        (_, StatementToSegmentError::StatementUnexpectedInModuleScope(k)) => unexpected_keyword(kind) == Some(k@),
        _ => false,
    }
}

/// The error of a statement that makes no segment (see
/// `is_statement_error`), or none for a statement that makes one.
pub fn statement_error(kind: StatementKind) -> (r: Option<StatementToSegmentError>)
    ensures
        r is None <==> makes_segment(kind),
        r matches Some(e) ==> is_statement_error(kind, e),
{
    proof {
        reveal_strlit("return");
        reveal_strlit("break");
        reveal_strlit("continue");
    }
    match kind {
        StatementKind::With => Some(StatementToSegmentError::WithStatmentUnsupported),
        StatementKind::Return => Some(StatementToSegmentError::StatementUnexpectedInModuleScope("return")),
        StatementKind::Break => Some(StatementToSegmentError::StatementUnexpectedInModuleScope("break")),
        StatementKind::Continue => Some(StatementToSegmentError::StatementUnexpectedInModuleScope("continue")),
        _ => None,
    }
}

/// The segment of one top-level statement (see `segment_deps_ok`). A
/// statement that makes none gives its error (see `is_statement_error`),
/// which is also reported to the logger at the statement's span.
pub fn statement_to_segment<L: SrcFileLogger>(file_logger: &L, stmt: StatementFacts, variables: VariableScope) -> (r: Result<Segment, StatementToSegmentError>)
    ensures
        r is Ok <==> makes_segment(stmt.kind),
        r matches Ok(seg) ==> seg.span == stmt.span && seg.variables == variables && segment_deps_ok(stmt, seg.module_deps),
        r matches Err(e) ==> is_statement_error(stmt.kind, e),
{
    let span = stmt.span;
    if let Some(e) = statement_error(stmt.kind) {
        report(file_logger, span, e);
        return Err(e);
    }
    match stmt.kind {
        StatementKind::ModuleDeclaration => Ok(Segment { module_deps: stmt.declared_deps, variables, span }),
        StatementKind::ExportDeclaration => {
            let found = find_imports_and_requires(&stmt.calls);
            let module_deps = add_found(stmt.declared_deps, found.imported_paths, &found.require_paths);
            Ok(Segment { module_deps, variables, span })
        },
        StatementKind::TypeScriptExport => Ok(Segment { module_deps: RawModuleDeps::new(), variables, span }),
        _ => {
            let empty = RawModuleDeps::new();
            assert(dyn_view(empty.dynamic_imports@) =~= Seq::empty());
            assert(string_seq_views(empty.requires@) =~= Seq::empty());
            let found = find_imports_and_requires(&stmt.calls);
            let module_deps = add_found(empty, found.imported_paths, &found.require_paths);
            Ok(Segment { module_deps, variables, span })
        },
    }
}

/// The spans of the statements.
pub open spec fn statement_spans(stmts: Seq<StatementFacts>) -> Seq<Span> {
    stmts.map_values(|s: StatementFacts| s.span)
}

/// The indices of the first `n` statements that make a segment.
pub open spec fn segment_statements(stmts: Seq<StatementFacts>, n: int) -> Seq<int>
    decreases n,
{
    if n <= 0 {
        Seq::empty()
    } else {
        let r = segment_statements(stmts, n - 1);
        if makes_segment(stmts[n - 1].kind) { r.push(n - 1) } else { r }
    }
}

/// `seg` is the segment of statement `i` of the module.
pub open spec fn is_segment_of(seg: Segment, stmts: Seq<StatementFacts>, bindings: Seq<RootBinding>, refs: Seq<ValueReference>, i: int) -> bool {
    let spans = statement_spans(stmts);
    &&& seg.span == stmts[i].span
    &&& segment_deps_ok(stmts[i], seg.module_deps)
    &&& locals_view(seg.variables.local_symbols@) == locals_of(spans, bindings, i, bindings.len() as int)
    &&& string_seq_views(seg.variables.escaped_symbols@) == escaped_of(spans, refs, i, refs.len() as int)
}

fn spans_of(stmts: &Vec<StatementFacts>) -> (r: Vec<Span>)
    ensures
        r@ == statement_spans(stmts@),
{
    let mut r: Vec<Span> = Vec::new();
    let mut i: usize = 0;
    while i < stmts.len()
        invariant
            0 <= i <= stmts@.len(),
            r@ == statement_spans(stmts@).take(i as int),
        decreases stmts@.len() - i,
    {
        r.push(stmts[i].span);
        assert(statement_spans(stmts@).take(i + 1) =~= statement_spans(stmts@).take(i as int).push(stmts@[i as int].span));
        i = i + 1;
    }
    assert(statement_spans(stmts@).take(stmts@.len() as int) =~= statement_spans(stmts@));
    r
}

/// The segments of a module, one per top-level statement that makes one,
/// in order; the statements that make none are reported to the logger.
pub fn segment_file<L: SrcFileLogger>(
    file_logger: &L,
    statements: Vec<StatementFacts>,
    bindings: &Vec<RootBinding>,
    references: &Vec<ValueReference>,
) -> (r: Vec<Segment>)
    requires
        spans_sorted(statement_spans(statements@)),
    ensures
        r@.len() == segment_statements(statements@, statements@.len() as int).len(),
        forall|m: int| 0 <= m < r@.len() ==> is_segment_of(#[trigger] r@[m], statements@, bindings@, references@,
            segment_statements(statements@, statements@.len() as int)[m]),
{
    let ghost orig = statements@;
    let spans = spans_of(&statements);
    let variables = variables_for_top_level_statements(&spans, bindings, references);
    let ghost vorig = variables@;
    let n = statements.len();
    let mut stmts = statements;
    let mut vars = variables;
    let mut out: Vec<Segment> = Vec::new();
    let mut i: usize = 0;
    while i < n
        invariant
            n == orig.len(),
            vorig.len() == n,
            spans@ == statement_spans(orig),
            0 <= i <= n,
            stmts@ == orig.subrange(i as int, n as int),
            vars@ == vorig.subrange(i as int, n as int),
            forall|k: int| 0 <= k < n ==> locals_view((#[trigger] vorig[k]).local_symbols@)
                == locals_of(spans@, bindings@, k, bindings@.len() as int),
            forall|k: int| 0 <= k < n ==> string_seq_views((#[trigger] vorig[k]).escaped_symbols@)
                == escaped_of(spans@, references@, k, references@.len() as int),
            out@.len() == segment_statements(orig, i as int).len(),
            forall|m: int| 0 <= m < out@.len() ==> is_segment_of(#[trigger] out@[m], orig, bindings@, references@,
                segment_statements(orig, i as int)[m]),
        decreases n - i,
    {
        let st = stmts.remove(0);
        let v = vars.remove(0);
        assert(st == orig[i as int]);
        assert(v == vorig[i as int]);
        assert(stmts@ =~= orig.subrange(i + 1, n as int));
        assert(vars@ =~= vorig.subrange(i + 1, n as int));
        let ghost before = out@;
        match statement_to_segment(file_logger, st, v) {
            Ok(seg) => {
                out.push(seg);
                assert forall|m: int| 0 <= m < out@.len() implies is_segment_of(#[trigger] out@[m], orig, bindings@, references@,
                    segment_statements(orig, i + 1)[m]) by {
                    if m < before.len() {
                        assert(out@[m] == before[m]);
                    }
                }
            },
            Err(_) => {},
        }
        i = i + 1;
    }
    out
}

} // verus!
