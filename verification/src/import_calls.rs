//! The dynamic imports and requires of a statement: what `import('x')`,
//! `require('x')` and `import('x').then(({a, b}) => ..)` add to what the
//! statement imports. The parser reports each such call, innermost first
//! (a call is finished after the calls inside it), as a `CallSite`.
use vstd::prelude::*;
use crate::node_resolution::set_insert;
use crate::pkgjson_exports::{assoc_find, assoc_insert, lemma_assoc_index};
use crate::symbols::{Name, Symbol, SymbolView};
use crate::text::{chars_eq, str_chars, str_eq, string_seq_views};

verus! {

/// The first parameter of the callback handed to `.then(..)`.
#[derive(Debug, Clone)]
pub enum CallbackParam {
    /// The first argument is no function, the function has no parameter,
    /// or its first parameter is no object pattern.
    NoObjectPattern,
    /// An object pattern: for each property, its key when the key is a
    /// plain identifier (`{a, b: c}` gives `a` and `b`).
    ObjectPattern(Vec<Option<String>>),
}

/// A call expression of a statement, as far as imports depend on it.
#[derive(Debug, Clone)]
pub enum CallSite {
    /// `import(<source>)`, with the text of a string-literal source.
    Import { source: Option<String> },
    /// `<callee>(<args>)` with an identifier as callee: whether the name
    /// refers to a binding of the program, and the text of a
    /// string-literal first argument.
    IdentCall { callee: String, bound: bool, first_string_arg: Option<String> },
    /// `import(<source>).<property>(<callback>, ..)`.
    ImportMemberCall { property: String, source: Option<String>, callback: CallbackParam },
    /// Any other call.
    Other,
}

pub enum CallbackParamView {
    NoObjectPattern,
    ObjectPattern(Seq<Option<Seq<char>>>),
}

pub enum CallSiteView {
    Import(Option<Seq<char>>),
    IdentCall(Seq<char>, bool, Option<Seq<char>>),
    ImportMemberCall(Seq<char>, Option<Seq<char>>, CallbackParamView),
    Other,
}

pub open spec fn opt_str(o: Option<String>) -> Option<Seq<char>> {
    match o {
        Some(s) => Some(s@),
        None => None,
    }
}

pub open spec fn keys_view(v: Seq<Option<String>>) -> Seq<Option<Seq<char>>> {
    v.map_values(|o: Option<String>| opt_str(o))
}

impl View for CallbackParam {
    type V = CallbackParamView;

    open spec fn view(&self) -> CallbackParamView {
        match self {
            CallbackParam::NoObjectPattern => CallbackParamView::NoObjectPattern,
            CallbackParam::ObjectPattern(keys) => CallbackParamView::ObjectPattern(keys_view(keys@)),
        }
    }
}

impl View for CallSite {
    type V = CallSiteView;

    open spec fn view(&self) -> CallSiteView {
        match self {
            CallSite::Import { source } => CallSiteView::Import(opt_str(*source)),
            CallSite::IdentCall { callee, bound, first_string_arg } => CallSiteView::IdentCall(callee@, *bound, opt_str(*first_string_arg)),
            CallSite::ImportMemberCall { property, source, callback } => CallSiteView::ImportMemberCall(property@, opt_str(*source), callback@),
            CallSite::Other => CallSiteView::Other,
        }
    }
}

/// The dynamic imports of a statement (each path with the symbols taken
/// from it, no path twice) and the paths it requires (each once; a
/// require always takes the default export).
pub struct ImportsAndRequires {
    pub imported_paths: Vec<(String, Vec<Symbol>)>,
    pub require_paths: Vec<String>,
}

pub struct ImportsAndRequiresView {
    pub imported: Seq<(Seq<char>, Seq<SymbolView>)>,
    pub required: Seq<Seq<char>>,
}

pub open spec fn symbols_view(v: Seq<Symbol>) -> Seq<SymbolView> {
    v.map_values(|s: Symbol| s@)
}

pub open spec fn imported_view(v: Seq<(String, Vec<Symbol>)>) -> Seq<(Seq<char>, Seq<SymbolView>)> {
    v.map_values(|p: (String, Vec<Symbol>)| (p.0@, symbols_view(p.1@)))
}

impl View for ImportsAndRequires {
    type V = ImportsAndRequiresView;

    open spec fn view(&self) -> ImportsAndRequiresView {
        ImportsAndRequiresView {
            imported: imported_view(self.imported_paths@),
            required: string_seq_views(self.require_paths@),
        }
    }
}

/// `s` with `x` added, when it is not there yet.
pub open spec fn sym_insert(s: Seq<SymbolView>, x: SymbolView) -> Seq<SymbolView> {
    if s.contains(x) {
        s
    } else {
        s.push(x)
    }
}

/// `s` with the first `n` symbols of `xs` added in turn.
pub open spec fn sym_insert_all(s: Seq<SymbolView>, xs: Seq<SymbolView>, n: int) -> Seq<SymbolView>
    decreases n,
{
    if n <= 0 {
        s
    } else {
        sym_insert(sym_insert_all(s, xs, n - 1), xs[n - 1])
    }
}

/// `s` without `x`.
pub open spec fn sym_remove(s: Seq<SymbolView>, x: SymbolView) -> Seq<SymbolView>
    decreases s.len(),
{
    if s.len() == 0 {
        s
    } else if s.last() == x {
        sym_remove(s.drop_last(), x)
    } else {
        sym_remove(s.drop_last(), x).push(s.last())
    }
}

/// The symbols recorded for `path`; none when it is not recorded.
pub open spec fn entry_symbols(m: Seq<(Seq<char>, Seq<SymbolView>)>, path: Seq<char>) -> Seq<SymbolView> {
    match assoc_find(m, path) {
        Some(i) => m[i].1,
        None => Seq::empty(),
    }
}

/// The named symbols of the plain keys of an object pattern, in order.
pub open spec fn key_names(keys: Seq<Option<Seq<char>>>) -> Seq<SymbolView>
    decreases keys.len(),
{
    if keys.len() == 0 {
        Seq::empty()
    } else {
        match keys.last() {
            Some(k) => key_names(keys.drop_last()).push(SymbolView::Named(k)),
            None => key_names(keys.drop_last()),
        }
    }
}

/// The names a `.then` callback takes from the module.
pub open spec fn callback_names(cb: CallbackParamView) -> Seq<SymbolView> {
    match cb {
        CallbackParamView::NoObjectPattern => Seq::empty(),
        CallbackParamView::ObjectPattern(keys) => key_names(keys),
    }
}

/// What one call adds: `import('x')` takes the namespace of `x`; a call
/// of the global `require` with a string gives a required path; and
/// `import('x').then(cb)`, when the callback's first parameter names
/// properties, takes those names from `x` in place of the namespace.
pub open spec fn record_call(st: ImportsAndRequiresView, site: CallSiteView) -> ImportsAndRequiresView {
    match site {
        CallSiteView::Import(Some(src)) => ImportsAndRequiresView {
            imported: assoc_insert(st.imported, src, sym_insert(entry_symbols(st.imported, src), SymbolView::Namespace)),
            ..st
        },
        CallSiteView::IdentCall(callee, bound, Some(arg)) => if callee == "require"@ && !bound {
            ImportsAndRequiresView { required: set_insert(st.required, arg), ..st }
        } else {
            st
        },
        CallSiteView::ImportMemberCall(prop, Some(src), cb) => {
            let names = callback_names(cb);
            if prop == "then"@ && names.len() > 0 {
                ImportsAndRequiresView {
                    imported: assoc_insert(
                        st.imported,
                        src,
                        sym_insert_all(sym_remove(entry_symbols(st.imported, src), SymbolView::Namespace), names, names.len() as int),
                    ),
                    ..st
                }
            } else {
                st
            }
        },
        _ => st,
    }
}

/// What the first `n` calls add, in order, to `st`.
pub open spec fn record_calls(st: ImportsAndRequiresView, sites: Seq<CallSite>, n: int) -> ImportsAndRequiresView
    decreases n,
{
    if n <= 0 {
        st
    } else {
        record_call(record_calls(st, sites, n - 1), sites[n - 1]@)
    }
}

fn symbol_copy(s: &Symbol) -> (r: Symbol)
    ensures
        r@ == s@,
{
    match s {
        Symbol::Named(n) => Symbol::Named(n.duplicate()),
        Symbol::Default => Symbol::Default,
        Symbol::Namespace => Symbol::Namespace,
    }
}

fn symbol_same(a: &Symbol, b: &Symbol) -> (r: bool)
    ensures
        r == (a@ == b@),
{
    match (a, b) {
        (Symbol::Named(x), Symbol::Named(y)) => str_eq(x.as_str(), y.as_str()),
        (Symbol::Default, Symbol::Default) => true,
        (Symbol::Namespace, Symbol::Namespace) => true,
        _ => false,
    }
}

fn symbols_insert(v: &mut Vec<Symbol>, x: Symbol)
    ensures
        symbols_view(final(v)@) == sym_insert(symbols_view(old(v)@), x@),
{
    let ghost v0 = symbols_view(v@);
    let mut i: usize = 0;
    while i < v.len()
        invariant
            v0 == symbols_view(v@),
            0 <= i <= v@.len(),
            forall|j: int| 0 <= j < i ==> v0[j] != x@,
        decreases v@.len() - i,
    {
        if symbol_same(&v[i], &x) {
            assert(v0[i as int] == x@);
            return;
        }
        i = i + 1;
    }
    let ghost xv = x@;
    v.push(x);
    assert(symbols_view(v@) =~= v0.push(xv));
}

fn symbols_without(v: &Vec<Symbol>, x: &Symbol) -> (r: Vec<Symbol>)
    ensures
        symbols_view(r@) == sym_remove(symbols_view(v@), x@),
{
    let mut out: Vec<Symbol> = Vec::new();
    let mut i: usize = 0;
    assert(symbols_view(v@).subrange(0, 0) =~= Seq::<SymbolView>::empty());
    while i < v.len()
        invariant
            0 <= i <= v@.len(),
            symbols_view(out@) == sym_remove(symbols_view(v@).subrange(0, i as int), x@),
        decreases v@.len() - i,
    {
        let ghost pre = symbols_view(v@).subrange(0, i as int);
        let ghost next = symbols_view(v@).subrange(0, i + 1);
        assert(next.drop_last() =~= pre);
        assert(next.last() == v@[i as int]@);
        if !symbol_same(&v[i], x) {
            let ghost o0 = symbols_view(out@);
            let c = symbol_copy(&v[i]);
            out.push(c);
            assert(symbols_view(out@) =~= o0.push(v@[i as int]@));
        }
        i = i + 1;
    }
    assert(symbols_view(v@).subrange(0, v@.len() as int) =~= symbols_view(v@));
    out
}

fn names_of_keys(keys: &Vec<Option<String>>) -> (r: Vec<Symbol>)
    ensures
        symbols_view(r@) == key_names(keys_view(keys@)),
{
    let mut out: Vec<Symbol> = Vec::new();
    let mut i: usize = 0;
    assert(keys_view(keys@).subrange(0, 0) =~= Seq::<Option<Seq<char>>>::empty());
    while i < keys.len()
        invariant
            0 <= i <= keys@.len(),
            symbols_view(out@) == key_names(keys_view(keys@).subrange(0, i as int)),
        decreases keys@.len() - i,
    {
        let ghost pre = keys_view(keys@).subrange(0, i as int);
        let ghost next = keys_view(keys@).subrange(0, i + 1);
        assert(next.drop_last() =~= pre);
        assert(next.last() == opt_str(keys@[i as int]));
        match &keys[i] {
            Some(k) => {
                let ghost o0 = symbols_view(out@);
                out.push(Symbol::Named(Name::new(k.as_str())));
                assert(symbols_view(out@) =~= o0.push(SymbolView::Named(k@)));
            },
            None => {},
        }
        i = i + 1;
    }
    assert(keys_view(keys@).subrange(0, keys@.len() as int) =~= keys_view(keys@));
    out
}

/// The index of `path` in the recorded imports.
fn entry_index(m: &Vec<(String, Vec<Symbol>)>, path: &str) -> (r: Option<usize>)
    ensures
        match r {
            Some(i) => i < m@.len() && assoc_find(imported_view(m@), path@) == Some(i as int),
            None => assoc_find(imported_view(m@), path@) is None,
        },
{
    let ghost mv = imported_view(m@);
    proof { lemma_assoc_index(mv, path@, mv.len() as int); }
    let pc = str_chars(path);
    let mut i: usize = 0;
    while i < m.len()
        invariant
            mv == imported_view(m@),
            pc@ == path@,
            0 <= i <= m@.len(),
            forall|j: int| 0 <= j < i ==> (#[trigger] mv[j]).0 != path@,
            match assoc_find(mv, path@) {
                Some(k) => 0 <= k < mv.len() && mv[k].0 == path@ && forall|j: int| 0 <= j < k ==> mv[j].0 != path@,
                None => forall|j: int| 0 <= j < mv.len() ==> mv[j].0 != path@,
            },
        decreases m@.len() - i,
    {
        let c = str_chars(m[i].0.as_str());
        if chars_eq(c.as_slice(), pc.as_slice()) {
            assert(mv[i as int].0 == path@);
            proof {
                if let Some(k) = assoc_find(mv, path@) {
                    assert(!(k < i as int));
                    assert(!(k > i as int));
                }
            }
            return Some(i);
        }
        i = i + 1;
    }
    None
}

/// Sets the symbols of `path`, adding the path when it is new.
fn set_entry(m: &mut Vec<(String, Vec<Symbol>)>, path: &str, syms: Vec<Symbol>)
    ensures
        imported_view(final(m)@) == assoc_insert(imported_view(old(m)@), path@, symbols_view(syms@)),
{
    let ghost m0 = imported_view(m@);
    let ghost sv = symbols_view(syms@);
    match entry_index(m, path) {
        Some(i) => {
            m.set(i, (path.to_string(), syms));
            assert(imported_view(m@) =~= m0.update(i as int, (path@, sv)));
        },
        None => {
            m.push((path.to_string(), syms));
            assert(imported_view(m@) =~= m0.push((path@, sv)));
        },
    }
}

/// A copy of the symbols recorded for `path`.
fn entry_copy(m: &Vec<(String, Vec<Symbol>)>, path: &str) -> (r: Vec<Symbol>)
    ensures
        symbols_view(r@) == entry_symbols(imported_view(m@), path@),
{
    match entry_index(m, path) {
        Some(i) => {
            let src = &m[i].1;
            let mut out: Vec<Symbol> = Vec::new();
            let mut j: usize = 0;
            while j < src.len()
                invariant
                    0 <= j <= src@.len(),
                    symbols_view(out@) == symbols_view(src@).subrange(0, j as int),
                decreases src@.len() - j,
            {
                let ghost o0 = symbols_view(out@);
                let c = symbol_copy(&src[j]);
                out.push(c);
                assert(symbols_view(out@) =~= o0.push(src@[j as int]@));
                assert(symbols_view(out@) =~= symbols_view(src@).subrange(0, j + 1));
                j = j + 1;
            }
            assert(symbols_view(src@).subrange(0, src@.len() as int) =~= symbols_view(src@));
            out
        },
        None => {
            let out: Vec<Symbol> = Vec::new();
            assert(symbols_view(out@) =~= Seq::<SymbolView>::empty());
            out
        },
    }
}

impl ImportsAndRequires {
    /// Nothing imported or required.
    pub fn new() -> (r: ImportsAndRequires)
        ensures
            r@.imported.len() == 0,
            r@.required.len() == 0,
    {
        ImportsAndRequires { imported_paths: Vec::new(), require_paths: Vec::new() }
    }

    /// Records one call (see `record_call`).
    pub fn record_call_site(&mut self, site: &CallSite)
        ensures
            final(self)@ == record_call(old(self)@, site@),
    {
        match site {
            CallSite::Import { source: Some(src) } => {
                let mut syms = entry_copy(&self.imported_paths, src.as_str());
                symbols_insert(&mut syms, Symbol::Namespace);
                set_entry(&mut self.imported_paths, src.as_str(), syms);
            },
            CallSite::IdentCall { callee, bound, first_string_arg: Some(arg) } => {
                if str_eq(callee.as_str(), "require") && !*bound {
                    let ac = str_chars(arg.as_str());
                    if !crate::node_resolution::strings_contain(&self.require_paths, ac.as_slice()) {
                        let ghost r0 = string_seq_views(self.require_paths@);
                        self.require_paths.push(arg.clone());
                        assert(string_seq_views(self.require_paths@) =~= r0.push(arg@));
                    }
                }
            },
            CallSite::ImportMemberCall { property, source: Some(src), callback } => {
                let names = match callback {
                    CallbackParam::ObjectPattern(keys) => names_of_keys(keys),
                    CallbackParam::NoObjectPattern => Vec::new(),
                };
                assert(symbols_view(names@) == callback_names(callback@)) by {
                    if callback@ is NoObjectPattern {
                        assert(symbols_view(names@) =~= Seq::<SymbolView>::empty());
                    }
                };
                if str_eq(property.as_str(), "then") && names.len() > 0 {
                    let current = entry_copy(&self.imported_paths, src.as_str());
                    let mut syms = symbols_without(&current, &Symbol::Namespace);
                    let ghost base = symbols_view(syms@);
                    let ghost nv = symbols_view(names@);
                    let mut k: usize = 0;
                    assert(symbols_view(syms@) == sym_insert_all(base, nv, 0));
                    while k < names.len()
                        invariant
                            0 <= k <= names@.len(),
                            nv == symbols_view(names@),
                            symbols_view(syms@) == sym_insert_all(base, nv, k as int),
                        decreases names@.len() - k,
                    {
                        let c = symbol_copy(&names[k]);
                        symbols_insert(&mut syms, c);
                        k = k + 1;
                    }
                    set_entry(&mut self.imported_paths, src.as_str(), syms);
                }
            },
            _ => {},
        }
    }
}

/// The dynamic imports and requires of a statement whose calls are
/// `sites`, innermost first.
pub fn find_imports_and_requires(sites: &Vec<CallSite>) -> (r: ImportsAndRequires)
    ensures
        r@ == record_calls(ImportsAndRequiresView { imported: Seq::empty(), required: Seq::empty() }, sites@, sites@.len() as int),
{
    let mut r = ImportsAndRequires::new();
    assert(r@.imported =~= Seq::empty());
    assert(r@.required =~= Seq::empty());
    let mut i: usize = 0;
    while i < sites.len()
        invariant
            0 <= i <= sites@.len(),
            r@ == record_calls(ImportsAndRequiresView { imported: Seq::empty(), required: Seq::empty() }, sites@, i as int),
        decreases sites@.len() - i,
    {
        r.record_call_site(&sites[i]);
        i = i + 1;
    }
    r
}

proof fn lemma_contains_push(t: Seq<SymbolView>, a: SymbolView, y: SymbolView)
    ensures
        t.push(a).contains(y) <==> (t.contains(y) || y == a),
{
    if t.push(a).contains(y) {
        let j = choose|j: int| 0 <= j < t.push(a).len() && t.push(a)[j] == y;
        if j < t.len() {
            assert(t[j] == y);
        }
    }
    if t.contains(y) {
        let j = choose|j: int| 0 <= j < t.len() && t[j] == y;
        assert(t.push(a)[j] == y);
    }
    if y == a {
        assert(t.push(a)[t.len() as int] == y);
    }
}

proof fn lemma_sym_remove(s: Seq<SymbolView>, x: SymbolView)
    ensures
        !sym_remove(s, x).contains(x),
        forall|y: SymbolView| y != x ==> (sym_remove(s, x).contains(y) <==> s.contains(y)),
    decreases s.len(),
{
    if s.len() > 0 {
        let d = s.drop_last();
        lemma_sym_remove(d, x);
        assert(s =~= d.push(s.last()));
        assert forall|y: SymbolView| y != x implies (sym_remove(s, x).contains(y) <==> s.contains(y)) by {
            lemma_contains_push(d, s.last(), y);
            if s.last() != x {
                lemma_contains_push(sym_remove(d, x), s.last(), y);
            }
        }
        if s.last() != x {
            lemma_contains_push(sym_remove(d, x), s.last(), x);
        }
    }
}

proof fn lemma_sym_insert_all(s: Seq<SymbolView>, xs: Seq<SymbolView>, n: int)
    requires
        0 <= n <= xs.len(),
    ensures
        forall|j: int| 0 <= j < n ==> sym_insert_all(s, xs, n).contains(xs[j]),
        forall|y: SymbolView| sym_insert_all(s, xs, n).contains(y) ==> s.contains(y) || exists|j: int| 0 <= j < n && xs[j] == y,
    decreases n,
{
    if n > 0 {
        lemma_sym_insert_all(s, xs, n - 1);
        let prev = sym_insert_all(s, xs, n - 1);
        let cur = sym_insert_all(s, xs, n);
        assert forall|j: int| 0 <= j < n implies cur.contains(xs[j]) by {
            if j < n - 1 {
                let k = choose|k: int| 0 <= k < prev.len() && prev[k] == xs[j];
                if !prev.contains(xs[n - 1]) {
                    assert(cur[k] == xs[j]);
                }
            } else if !prev.contains(xs[n - 1]) {
                assert(cur[prev.len() as int] == xs[n - 1]);
            }
        }
        assert forall|y: SymbolView| cur.contains(y) implies s.contains(y) || exists|j: int| 0 <= j < n && xs[j] == y by {
            if y != xs[n - 1] && !prev.contains(xs[n - 1]) {
                let k = choose|k: int| 0 <= k < cur.len() && cur[k] == y;
                assert(prev[k] == y);
            }
        }
    }
}

proof fn lemma_key_names_named(keys: Seq<Option<Seq<char>>>)
    ensures
        forall|i: int| 0 <= i < key_names(keys).len() ==> key_names(keys)[i] is Named,
    decreases keys.len(),
{
    if keys.len() > 0 {
        lemma_key_names_named(keys.drop_last());
    }
}

proof fn lemma_entry_after_insert(m: Seq<(Seq<char>, Seq<SymbolView>)>, k: Seq<char>, v: Seq<SymbolView>)
    ensures
        entry_symbols(assoc_insert(m, k, v), k) == v,
{
    lemma_assoc_index(m, k, m.len() as int);
    let m2 = assoc_insert(m, k, v);
    lemma_assoc_index(m2, k, m2.len() as int);
    match assoc_find(m, k) {
        Some(i) => {
            assert(m2[i].0 == k);
            if let Some(i2) = assoc_find(m2, k) {
                assert(!(i2 < i));
                assert(!(i2 > i));
            }
        },
        None => {
            if let Some(i2) = assoc_find(m2, k) {
                assert(!(i2 < m.len()));
            }
        },
    }
}

/// `import('x').then(cb)` with a callback that names properties: the
/// module `x` is then taken for those names and no longer as a namespace,
/// and the required paths stay as they were.
pub proof fn law_then_names_replace_namespace(st: ImportsAndRequiresView, src: Seq<char>, keys: Seq<Option<Seq<char>>>)
    requires
        key_names(keys).len() > 0,
    ensures
        ({
            let r = record_call(st, CallSiteView::ImportMemberCall("then"@, Some(src), CallbackParamView::ObjectPattern(keys)));
            &&& !entry_symbols(r.imported, src).contains(SymbolView::Namespace)
            &&& forall|i: int| 0 <= i < key_names(keys).len() ==> entry_symbols(r.imported, src).contains(#[trigger] key_names(keys)[i])
            &&& r.required == st.required
        }),
{
    let names = key_names(keys);
    let base = sym_remove(entry_symbols(st.imported, src), SymbolView::Namespace);
    let v = sym_insert_all(base, names, names.len() as int);
    lemma_sym_remove(entry_symbols(st.imported, src), SymbolView::Namespace);
    lemma_sym_insert_all(base, names, names.len() as int);
    lemma_key_names_named(keys);
    lemma_entry_after_insert(st.imported, src, v);
    if v.contains(SymbolView::Namespace) {
        if !base.contains(SymbolView::Namespace) {
            let j = choose|j: int| 0 <= j < names.len() && names[j] == SymbolView::Namespace;
            assert(names[j] is Named);
        }
    }
}

} // verus!
