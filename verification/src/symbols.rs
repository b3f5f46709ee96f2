//! Symbols imported into and exported from a module, and the module-level
//! dependencies of a top-level statement.
use vstd::prelude::*;
use crate::comments::{
    comments_wf, cut_text, leading_comments_at, leading_of, source_cut, spec_trim, trim_chars, valid_cut,
    Comment, CommentKind, Span,
};
use crate::text::string_from_chars;
use vstd::utf8::{encode_utf8, is_char_boundary};
use crate::text::{str_chars, str_eq};

verus! {

/// The name of a symbol.
#[derive(Debug, Clone)]
pub struct Name {
    inner: String,
}

impl View for Name {
    type V = Seq<char>;

    closed spec fn view(&self) -> Seq<char> {
        self.inner@
    }
}

impl Name {
    /// A name with the given text.
    pub fn new(s: &str) -> (r: Name)
        ensures
            r@ == s@,
    {
        Name { inner: s.to_string() }
    }

    /// A name holding the given string.
    pub fn from_string(s: String) -> (r: Name)
        ensures
            r@ == s@,
    {
        Name { inner: s }
    }

    /// The text of the name.
    pub fn as_str(&self) -> (r: &str)
        ensures
            r@ == self@,
    {
        self.inner.as_str()
    }

    /// A copy with the same text.
    pub fn duplicate(&self) -> (r: Name)
        ensures
            r@ == self@,
    {
        Name { inner: self.inner.clone() }
    }
}

impl PartialEq for Name {
    fn eq(&self, other: &Self) -> (r: bool) {
        str_eq(self.inner.as_str(), other.inner.as_str())
    }
}

impl vstd::std_specs::cmp::PartialEqSpecImpl for Name {
    open spec fn obeys_eq_spec() -> bool {
        true
    }

    open spec fn eq_spec(&self, other: &Name) -> bool {
        self@ == other@
    }
}

/// A symbol at a module boundary or within a module.
#[derive(Debug, Clone)]
pub enum Symbol {
    Named(Name),
    Default,
    Namespace,
}

/// A symbol, with its name as a character sequence.
pub enum SymbolView {
    Named(Seq<char>),
    Default,
    Namespace,
}

impl View for Symbol {
    type V = SymbolView;

    open spec fn view(&self) -> SymbolView {
        match self {
            Symbol::Named(n) => SymbolView::Named(n@),
            Symbol::Default => SymbolView::Default,
            Symbol::Namespace => SymbolView::Namespace,
        }
    }
}

impl Symbol {
    /// The symbol a name refers to: `default` is the default export.
    pub fn from_name(name: &str) -> (r: Symbol)
        ensures
            r@ == if name@ == "default"@ { SymbolView::Default } else { SymbolView::Named(name@) },
    {
        if str_eq(name, "default") {
            Symbol::Default
        } else {
            Symbol::Named(Name::new(name))
        }
    }

    /// The text of the symbol: its name, `default` or `*`.
    pub fn as_str(&self) -> (r: &str)
        ensures
            r@ == match self@ {
                SymbolView::Named(n) => n,
                SymbolView::Default => "default"@,
                SymbolView::Namespace => "*"@,
            },
    {
        match self {
            Symbol::Named(s) => s.as_str(),
            Symbol::Default => "default",
            Symbol::Namespace => "*",
        }
    }

    /// A named symbol.
    pub fn named(s: &str) -> (r: Symbol)
        ensures
            r@ == SymbolView::Named(s@),
    {
        Symbol::Named(Name::new(s))
    }
}

/// A named or default symbol exported from or imported into a file.
#[derive(Debug, Clone)]
pub enum ExportedSymbol {
    Named(Name),
    Default,
}

/// An exported symbol, with its name as a character sequence.
pub enum ExportedSymbolView {
    Named(Seq<char>),
    Default,
}

impl View for ExportedSymbol {
    type V = ExportedSymbolView;

    open spec fn view(&self) -> ExportedSymbolView {
        match self {
            ExportedSymbol::Named(n) => ExportedSymbolView::Named(n@),
            ExportedSymbol::Default => ExportedSymbolView::Default,
        }
    }
}

impl ExportedSymbol {
    /// The exported symbol a name refers to: `default` is the default
    /// export.
    pub fn from_name(name: &str) -> (r: ExportedSymbol)
        ensures
            r@ == if name@ == "default"@ { ExportedSymbolView::Default } else { ExportedSymbolView::Named(name@) },
    {
        if str_eq(name, "default") {
            ExportedSymbol::Default
        } else {
            ExportedSymbol::Named(Name::new(name))
        }
    }

    /// A copy with the same view.
    pub fn duplicate(&self) -> (r: ExportedSymbol)
        ensures
            r@ == self@,
    {
        match self {
            ExportedSymbol::Named(n) => ExportedSymbol::Named(n.duplicate()),
            ExportedSymbol::Default => ExportedSymbol::Default,
        }
    }

    /// Whether two exported symbols are the same.
    pub fn same_as(&self, other: &ExportedSymbol) -> (r: bool)
        ensures
            r == (self@ == other@),
    {
        match (self, other) {
            (ExportedSymbol::Named(a), ExportedSymbol::Named(b)) => str_eq(a.as_str(), b.as_str()),
            (ExportedSymbol::Default, ExportedSymbol::Default) => true,
            _ => false,
        }
    }
}

/// What an import takes from a module: one exported symbol, or the whole
/// namespace.
#[derive(Debug, Clone)]
pub enum ImportTarget {
    ExportedSymbol(ExportedSymbol),
    Namespace,
}

/// Metadata of a symbol.
#[derive(Debug, Clone, Copy, PartialEq, Eq, Structural, Default)]
pub struct SymbolTags {
    /// A comment allows the symbol to be unused.
    pub allow_unused_comment: bool,
    /// The symbol is type-only.
    pub is_type_only: bool,
}

/// The marker (`@ALLOW-UNUSED-EXPORT`, as bytes) of a line comment that
/// allows the symbol after it to be unused.
pub open spec fn allow_unused_marker() -> Seq<u8> {
    seq![64u8, 65u8, 76u8, 76u8, 79u8, 87u8, 45u8, 85u8, 78u8, 85u8,
        83u8, 69u8, 68u8, 45u8, 69u8, 88u8, 80u8, 79u8, 82u8, 84u8]
}

fn marker_bytes() -> (r: Vec<u8>)
    ensures
        r@ == allow_unused_marker(),
{
    let mut v: Vec<u8> = Vec::new();
    v.push(64u8); v.push(65u8); v.push(76u8); v.push(76u8); v.push(79u8);
    v.push(87u8); v.push(45u8); v.push(85u8); v.push(78u8); v.push(85u8);
    v.push(83u8); v.push(69u8); v.push(68u8); v.push(45u8); v.push(69u8);
    v.push(88u8); v.push(80u8); v.push(79u8); v.push(82u8); v.push(84u8);
    assert(v@ =~= allow_unused_marker());
    v
}

/// A byte in ASCII lower case.
pub open spec fn ascii_lower(b: u8) -> int {
    if 65 <= b <= 90 { b + 32 } else { b as int }
}

fn ascii_lower_byte(b: u8) -> (r: u8)
    ensures
        r == ascii_lower(b),
{
    if 65 <= b && b <= 90 { b + 32 } else { b }
}

/// The text of a line comment without `//` and without surrounding white
/// space, as bytes.
pub open spec fn line_comment_bytes(c: Comment, source: &str) -> Seq<u8> {
    encode_utf8(spec_trim(cut_text(source, c.span.start + 2, c.span.end as int)))
}

/// A line comment whose trimmed text starts, in any ASCII case, with the
/// allow-unused marker.
pub open spec fn allows_unused(c: Comment, source: &str) -> bool {
    let b = line_comment_bytes(c, source);
    &&& c.kind == CommentKind::Line
    &&& b.len() >= allow_unused_marker().len()
    &&& forall|i: int| 0 <= i < allow_unused_marker().len() ==> ascii_lower(#[trigger] b[i]) == ascii_lower(allow_unused_marker()[i])
}

/// A line comment whose trimmed text starts with the marker, in its case.
pub open spec fn disables_export(c: Comment, source: &str) -> bool {
    let b = line_comment_bytes(c, source);
    &&& c.kind == CommentKind::Line
    &&& b.len() >= allow_unused_marker().len()
    &&& b.subrange(0, allow_unused_marker().len() as int) == allow_unused_marker()
}

/// The text of a line comment can be cut out of the source.
pub open spec fn line_text_cuttable(c: Comment, source: &str) -> bool {
    c.kind == CommentKind::Line ==> valid_cut(source, c.span.start + 2, c.span.end as int)
}

/// The text of a line comment can be cut out of the source, and so can the
/// marker-length prefix of its trimmed text where it is that long.
pub open spec fn marker_prefix_cuttable(c: Comment, source: &str) -> bool {
    c.kind == CommentKind::Line ==> {
        &&& valid_cut(source, c.span.start + 2, c.span.end as int)
        &&& line_comment_bytes(c, source).len() >= allow_unused_marker().len()
            ==> is_char_boundary(line_comment_bytes(c, source), allow_unused_marker().len() as int)
    }
}

/// The bytes of the trimmed text of a line comment.
fn trimmed_line_bytes(c: &Comment, source: &str) -> (r: Vec<u8>)
    requires
        c.kind == CommentKind::Line,
        crate::comments::comment_wf(*c),
        valid_cut(source, c.span.start + 2, c.span.end as int),
    ensures
        r@ == line_comment_bytes(*c, source),
{
    let cs = c.content_span();
    let text = source_cut(source, cs.start, cs.end);
    let chars = str_chars(text);
    let trimmed = trim_chars(chars.as_slice());
    let line = string_from_chars(trimmed.as_slice());
    let b = line.as_str().as_bytes();
    let mut v: Vec<u8> = Vec::new();
    let mut i: usize = 0;
    while i < b.len()
        invariant
            0 <= i <= b@.len(),
            v@ == b@.subrange(0, i as int),
        decreases b@.len() - i,
    {
        v.push(b[i]);
        assert(v@ =~= b@.subrange(0, i + 1));
        i = i + 1;
    }
    assert(b@.subrange(0, b@.len() as int) =~= b@);
    v
}

/// Whether the comment is a line comment whose trimmed text starts, in any
/// ASCII case, with the marker.
fn comment_allows_unused(c: &Comment, source: &str) -> (r: bool)
    requires
        crate::comments::comment_wf(*c),
        line_text_cuttable(*c, source),
    ensures
        r == allows_unused(*c, source),
{
    if c.kind != CommentKind::Line {
        return false;
    }
    let line = trimmed_line_bytes(c, source);
    let marker = marker_bytes();
    if line.len() < marker.len() {
        return false;
    }
    let mut i: usize = 0;
    while i < marker.len()
        invariant
            marker@ == allow_unused_marker(),
            line@ == line_comment_bytes(*c, source),
            line@.len() >= marker@.len(),
            0 <= i <= marker@.len(),
            forall|k: int| 0 <= k < i ==> ascii_lower(#[trigger] line@[k]) == ascii_lower(allow_unused_marker()[k]),
        decreases marker@.len() - i,
    {
        if ascii_lower_byte(line[i]) != ascii_lower_byte(marker[i]) {
            return false;
        }
        i = i + 1;
    }
    true
}

/// Whether the comment is a line comment whose trimmed text starts with
/// the marker.
fn comment_disables_export(c: &Comment, source: &str) -> (r: bool)
    requires
        crate::comments::comment_wf(*c),
        line_text_cuttable(*c, source),
    ensures
        r == disables_export(*c, source),
{
    if c.kind != CommentKind::Line {
        return false;
    }
    let line = trimmed_line_bytes(c, source);
    let marker = marker_bytes();
    if line.len() < marker.len() {
        return false;
    }
    let mut i: usize = 0;
    while i < marker.len()
        invariant
            marker@ == allow_unused_marker(),
            line@ == line_comment_bytes(*c, source),
            line@.len() >= marker@.len(),
            0 <= i <= marker@.len(),
            forall|k: int| 0 <= k < i ==> #[trigger] line@[k] == allow_unused_marker()[k],
        decreases marker@.len() - i,
    {
        if line[i] != marker[i] {
            return false;
        }
        i = i + 1;
    }
    assert(line@.subrange(0, 20) =~= allow_unused_marker());
    true
}

/// Whether one of the line comments leading the statement at `lo` starts
/// with the marker that allows its exports to be unused.
pub fn has_disable_export_comment(comments: &[Comment], source: &str, lo: u32) -> (r: bool)
    requires
        comments_wf(comments@, source),
        valid_cut(source, 0, lo as int),
        forall|k: int| 0 <= k < leading_of(comments@, encode_utf8(source@), lo).len()
            ==> line_text_cuttable(#[trigger] leading_of(comments@, encode_utf8(source@), lo)[k], source),
    ensures
        r == exists|k: int| 0 <= k < leading_of(comments@, encode_utf8(source@), lo).len()
            && disables_export(#[trigger] leading_of(comments@, encode_utf8(source@), lo)[k], source),
{
    let leading = leading_comments_at(comments, source, lo);
    let ghost lead = leading_of(comments@, encode_utf8(source@), lo);
    let mut i: usize = 0;
    while i < leading.len()
        invariant
            leading@ == lead,
            lead == leading_of(comments@, encode_utf8(source@), lo),
            comments_wf(comments@, source),
            forall|k: int| 0 <= k < leading@.len() ==> comments@.contains(#[trigger] leading@[k]),
            forall|k: int| 0 <= k < lead.len() ==> line_text_cuttable(#[trigger] lead[k], source),
            0 <= i <= leading@.len(),
            forall|k: int| 0 <= k < i ==> !disables_export(#[trigger] lead[k], source),
        decreases leading@.len() - i,
    {
        assert(comments@.contains(leading@[i as int]));
        let ghost j = choose|j: int| 0 <= j < comments@.len() && comments@[j] == leading@[i as int];
        assert(crate::comments::comment_wf(comments@[j]));
        assert(line_text_cuttable(lead[i as int], source));
        if comment_disables_export(&leading[i], source) {
            assert(disables_export(leading_of(comments@, encode_utf8(source@), lo)[i as int], source));
            return true;
        }
        i = i + 1;
    }
    false
}

impl SymbolTags {
    /// The tags of `parent`, marked as allowed to be unused when one of the
    /// line comments leading the statement at `lo` starts, in any ASCII case,
    /// with the marker.
    pub fn from_comments_parent(parent: SymbolTags, comments: &[Comment], source: &str, lo: u32) -> (r: SymbolTags)
        requires
            comments_wf(comments@, source),
            valid_cut(source, 0, lo as int),
            forall|k: int| 0 <= k < leading_of(comments@, encode_utf8(source@), lo).len()
                ==> marker_prefix_cuttable(#[trigger] leading_of(comments@, encode_utf8(source@), lo)[k], source),
        ensures
            r.is_type_only == parent.is_type_only,
            r.allow_unused_comment == (parent.allow_unused_comment
                || exists|k: int| 0 <= k < leading_of(comments@, encode_utf8(source@), lo).len()
                    && allows_unused(#[trigger] leading_of(comments@, encode_utf8(source@), lo)[k], source)),
    {
        let mut tags = parent;
        let leading = leading_comments_at(comments, source, lo);
        let ghost lead = leading_of(comments@, encode_utf8(source@), lo);
        let mut i: usize = 0;
        while i < leading.len()
            invariant
                leading@ == lead,
                lead == leading_of(comments@, encode_utf8(source@), lo),
                comments_wf(comments@, source),
                forall|k: int| 0 <= k < leading@.len() ==> comments@.contains(#[trigger] leading@[k]),
                forall|k: int| 0 <= k < lead.len() ==> marker_prefix_cuttable(#[trigger] lead[k], source),
                0 <= i <= leading@.len(),
                tags.is_type_only == parent.is_type_only,
                tags.allow_unused_comment == (parent.allow_unused_comment
                    || exists|k: int| 0 <= k < i && allows_unused(#[trigger] lead[k], source)),
            decreases leading@.len() - i,
        {
            assert(comments@.contains(leading@[i as int]));
            let ghost j = choose|j: int| 0 <= j < comments@.len() && comments@[j] == leading@[i as int];
            assert(crate::comments::comment_wf(comments@[j]));
            assert(marker_prefix_cuttable(lead[i as int], source));
            if comment_allows_unused(&leading[i], source) {
                tags.allow_unused_comment = true;
            }
            i = i + 1;
        }
        tags
    }

    /// Default tags, marked as allowed to be unused as in
    /// `from_comments_parent`.
    pub fn from_comments(comments: &[Comment], source: &str, lo: u32) -> (r: SymbolTags)
        requires
            comments_wf(comments@, source),
            valid_cut(source, 0, lo as int),
            forall|k: int| 0 <= k < leading_of(comments@, encode_utf8(source@), lo).len()
                ==> marker_prefix_cuttable(#[trigger] leading_of(comments@, encode_utf8(source@), lo)[k], source),
        ensures
            !r.is_type_only,
            r.allow_unused_comment == exists|k: int| 0 <= k < leading_of(comments@, encode_utf8(source@), lo).len()
                && allows_unused(#[trigger] leading_of(comments@, encode_utf8(source@), lo)[k], source),
    {
        SymbolTags::from_comments_parent(SymbolTags { allow_unused_comment: false, is_type_only: false }, comments, source, lo)
    }
}

/// A symbol with its tags and source span.
#[derive(Debug, Clone)]
pub struct TaggedSymbol {
    pub symbol: Symbol,
    pub tags: SymbolTags,
    pub span: Span,
}

impl TaggedSymbol {
    /// A symbol with tags and an empty span.
    pub fn new(symbol: Symbol, tags: SymbolTags) -> (r: TaggedSymbol)
        ensures
            r.symbol == symbol,
            r.tags == tags,
            r.span == (Span { start: 0, end: 0 }),
    {
        TaggedSymbol { symbol, tags, span: Span { start: 0, end: 0 } }
    }

    /// A symbol with tags and a span.
    pub fn with_span(symbol: Symbol, tags: SymbolTags, span: Span) -> (r: TaggedSymbol)
        ensures
            r.symbol == symbol,
            r.tags == tags,
            r.span == span,
    {
        TaggedSymbol { symbol, tags, span }
    }
}

/// A symbol re-exported from another module: what is imported from it,
/// and the name it is exported under when renamed.
#[derive(Debug, Clone)]
pub struct ReExportedSymbol {
    pub imported_as: ImportTarget,
    pub exported_as: Option<ExportedSymbol>,
    pub tags: SymbolTags,
    pub span: Span,
}

/// A local symbol exported from a module, or a symbol re-exported from
/// another module, with the name it is exported under when renamed.
#[derive(Debug, Clone)]
pub struct ExportBinding {
    pub original: TaggedSymbol,
    pub exported_as: Option<ExportedSymbol>,
}

/// An export binding that cannot be read as a re-export.
#[derive(Debug, Clone, Copy, PartialEq, Eq, Structural)]
pub enum ExportBindingCoerceError {
    InvalidLocal,
}

impl ExportBindingCoerceError {
    /// The message of the error (empty).
    pub fn message(&self) -> (r: &'static str)
        ensures
            r@ == ""@,
    {
        ""
    }
}

/// The import target a symbol stands for.
pub open spec fn import_target_of(s: Symbol) -> ImportTarget {
    match s {
        Symbol::Named(n) => ImportTarget::ExportedSymbol(ExportedSymbol::Named(n)),
        Symbol::Default => ImportTarget::ExportedSymbol(ExportedSymbol::Default),
        Symbol::Namespace => ImportTarget::Namespace,
    }
}

impl ExportBinding {
    /// The binding read as a re-export: the original symbol is what is
    /// imported; the rename, tags and span are kept.
    pub fn try_into(self) -> (r: Result<ReExportedSymbol, ExportBindingCoerceError>)
        ensures
            r matches Ok(re) && re.imported_as == import_target_of(self.original.symbol)
                && re.exported_as == self.exported_as && re.tags == self.original.tags && re.span == self.original.span,
    {
        let tags = self.original.tags;
        let span = self.original.span;
        match self.original.symbol {
            Symbol::Named(name) => Ok(ReExportedSymbol {
                imported_as: ImportTarget::ExportedSymbol(ExportedSymbol::Named(name)),
                exported_as: self.exported_as,
                tags,
                span,
            }),
            Symbol::Default => Ok(ReExportedSymbol {
                imported_as: ImportTarget::ExportedSymbol(ExportedSymbol::Default),
                exported_as: self.exported_as,
                tags,
                span,
            }),
            Symbol::Namespace => Ok(ReExportedSymbol {
                imported_as: ImportTarget::Namespace,
                exported_as: self.exported_as,
                tags,
                span,
            }),
        }
    }
}

/// The imports and exports of a statement, before import specifiers are
/// resolved; each collection in source order.
#[derive(Debug, Clone)]
pub struct RawModuleDeps {
    /// `import foo, {bar as something} from './foo'`: `./foo` with
    /// `default` and `bar`.
    pub imports: Vec<(String, Vec<TaggedSymbol>)>,
    /// `import('./foo')`, with the names taken from it when they are known.
    pub dynamic_imports: Vec<(String, Vec<Symbol>)>,
    /// `require('foo')`.
    pub requires: Vec<String>,
    /// `export {default as foo, bar} from './foo'`: module to re-exports.
    pub exports_from: Vec<(String, Vec<ReExportedSymbol>)>,
    /// `export default foo`, `export {foo}`: exported name to local symbol.
    pub exports_locals: Vec<(ExportedSymbol, TaggedSymbol)>,
    /// `import './foo'`.
    pub executed_paths: Vec<String>,
}

impl RawModuleDeps {
    /// No dependency.
    pub fn new() -> (r: RawModuleDeps)
        ensures
            r.imports@.len() == 0,
            r.dynamic_imports@.len() == 0,
            r.requires@.len() == 0,
            r.exports_from@.len() == 0,
            r.exports_locals@.len() == 0,
            r.executed_paths@.len() == 0,
    {
        RawModuleDeps {
            imports: Vec::new(),
            dynamic_imports: Vec::new(),
            requires: Vec::new(),
            exports_from: Vec::new(),
            exports_locals: Vec::new(),
            executed_paths: Vec::new(),
        }
    }
}

/// How far a declaration is hoisted.
#[derive(Debug, Clone, Copy, PartialEq, Eq, Structural)]
pub enum HoistingLevel {
    /// Value and effects usable before the declaration (`import`).
    ImportHoisting,
    /// Value and effects hoisted to the top of the scope (`function`).
    FunctionHoisting,
    /// Only the name is hoisted.
    LetConstHoisting,
}

impl HoistingLevel {
    /// The label of the level.
    pub fn as_str(&self) -> (r: &'static str)
        ensures
            r@ == match self {
                HoistingLevel::ImportHoisting => "hoist:import"@,
                HoistingLevel::FunctionHoisting => "hoist:function"@,
                HoistingLevel::LetConstHoisting => "hoist:let/const"@,
            },
    {
        match self {
            HoistingLevel::ImportHoisting => "hoist:import",
            HoistingLevel::FunctionHoisting => "hoist:function",
            HoistingLevel::LetConstHoisting => "hoist:let/const",
        }
    }
}

/// The names declared in a scope (with how they are hoisted) and the
/// names it refers to that are declared elsewhere.
#[derive(Debug, Clone)]
pub struct VariableScope {
    pub local_symbols: Vec<(String, HoistingLevel)>,
    pub escaped_symbols: Vec<String>,
}

impl VariableScope {
    /// An empty scope.
    pub fn new() -> (r: VariableScope)
        ensures
            r.local_symbols@.len() == 0,
            r.escaped_symbols@.len() == 0,
    {
        VariableScope { local_symbols: Vec::new(), escaped_symbols: Vec::new() }
    }
}

/// A top-level statement of a module: its dependencies, its names and its
/// span.
#[derive(Debug, Clone)]
pub struct Segment {
    pub module_deps: RawModuleDeps,
    pub variables: VariableScope,
    pub span: Span,
}

/// A top-level statement that cannot be made a segment.
#[derive(Debug, Clone, Copy, PartialEq, Eq)]
pub enum StatementToSegmentError {
    /// A statement that cannot stand at module level (`return`, `break`,
    /// ...), named by its keyword.
    StatementUnexpectedInModuleScope(&'static str),
    /// A `with` statement.
    WithStatmentUnsupported,
}

impl StatementToSegmentError {
    /// The message of the error.
    pub fn message(&self) -> (r: String)
        ensures
            r@ == match self {
                StatementToSegmentError::StatementUnexpectedInModuleScope(k) =>
                    "\""@ + k@ + "\" statements should not occur at the module level"@,
                StatementToSegmentError::WithStatmentUnsupported =>
                    "With statements are not supported because they create new non-lexical names"@,
            },
    {
        match self {
            StatementToSegmentError::StatementUnexpectedInModuleScope(k) => {
                let mut v = str_chars("\"");
                let kc = str_chars(k);
                crate::text::push_all(&mut v, kc.as_slice());
                let tail = str_chars("\" statements should not occur at the module level");
                crate::text::push_all(&mut v, tail.as_slice());
                crate::text::string_from_chars(v.as_slice())
            },
            StatementToSegmentError::WithStatmentUnsupported =>
                "With statements are not supported because they create new non-lexical names".to_string(),
        }
    }
}

} // verus!
