//! Rewriting of import paths into a package through the `exports` field of
//! its package.json.
use vstd::prelude::*;
use crate::exported_path::{ExportedPath, ExportedPathView};
use crate::js_err::AnyError;
use crate::paths::{clean_path_string, cleaned_path};
use crate::text::{
    chars_ends_with, chars_eq, chars_find, chars_starts_with, chars_sub, first_index_of, lemma_first_index_of, push_all,
    seq_ends_with, seq_starts_with, str_chars, string_from_chars, string_seq_views, to_owned_string,
};

verus! {


/// One entry of the `exports` field: a single target (`null` marks it
/// private), or targets by export condition, in file order.
#[derive(Debug)]
pub enum PackageJsonExport {
    Single(Option<String>),
    Conditional(Vec<(String, ExportedPath)>),
}

/// The `exports` field of a package.json: exported paths and their
/// targets, in file order.
#[derive(Debug)]
pub struct PackageJsonExports {
    pub entries: Vec<(String, PackageJsonExport)>,
}

/// Targets by export condition, as character sequences.
pub type TargetsView = Seq<(Seq<char>, ExportedPathView)>;

pub open spec fn targets_view(v: Seq<(String, ExportedPath)>) -> TargetsView {
    v.map_values(|t: (String, ExportedPath)| (t.0@, t.1@))
}

/// An export entry, as character sequences.
pub enum PackageJsonExportView {
    Single(Option<Seq<char>>),
    Conditional(TargetsView),
}

pub open spec fn export_view(e: PackageJsonExport) -> PackageJsonExportView {
    match e {
        PackageJsonExport::Single(t) => PackageJsonExportView::Single(
            match t {
                Some(s) => Some(s@),
                None => None,
            },
        ),
        PackageJsonExport::Conditional(m) => PackageJsonExportView::Conditional(targets_view(m@)),
    }
}

pub open spec fn exports_view(v: Seq<(String, PackageJsonExport)>) -> Seq<(Seq<char>, PackageJsonExportView)> {
    v.map_values(|t: (String, PackageJsonExport)| (t.0@, export_view(t.1)))
}

/// The export condition an export was found under.
#[derive(Debug, PartialEq, Eq)]
pub enum ExportCondition {
    Default,
    Condition(String),
}

pub enum ExportConditionView {
    Default,
    Condition(Seq<char>),
}

impl View for ExportCondition {
    type V = ExportConditionView;

    open spec fn view(&self) -> ExportConditionView {
        match self {
            ExportCondition::Default => ExportConditionView::Default,
            ExportCondition::Condition(s) => ExportConditionView::Condition(s@),
        }
    }
}

/// The condition named `c`: `default` is the default condition.
pub open spec fn condition_of(c: Seq<char>) -> ExportConditionView {
    if c == "default"@ {
        ExportConditionView::Default
    } else {
        ExportConditionView::Condition(c)
    }
}

impl ExportCondition {
    /// The condition named `s`.
    pub fn from_name(s: &str) -> (r: ExportCondition)
        ensures
            r@ == condition_of(s@),
    {
        let sc = str_chars(s);
        let d = str_chars("default");
        if chars_eq(sc.as_slice(), d.as_slice()) {
            ExportCondition::Default
        } else {
            ExportCondition::Condition(s.to_string())
        }
    }

    /// The name of the condition.
    pub fn to_display_string(&self) -> (r: String)
        ensures
            r@ == match self@ {
                ExportConditionView::Default => "default"@,
                ExportConditionView::Condition(c) => c,
            },
    {
        match self {
            ExportCondition::Default => "default".to_string(),
            ExportCondition::Condition(c) => c.clone(),
        }
    }
}

/// The result of a rewrite: the rewritten export, and the condition it
/// was found under.
#[derive(Debug)]
pub struct MatchedExport {
    pub rewritten_export: ExportedPath,
    pub export_kind: ExportCondition,
}

/// The derived data: literal exports keyed by (path, condition), and
/// directory and star patterns grouped by condition, in insertion order.
pub struct RewriteModel {
    pub static_exports: Seq<((Seq<char>, Seq<char>), ExportedPathView)>,
    pub directory_exports: Seq<(Seq<char>, TargetsView)>,
    pub star_exports: Seq<(Seq<char>, TargetsView)>,
}

/// Data derived from the `exports` field of a package.json, used to
/// rewrite imports into the package.
#[derive(Debug)]
pub struct PackageExportRewriteData {
    static_exports: Vec<((String, String), ExportedPath)>,
    directory_exports: Vec<(String, Vec<(String, ExportedPath)>)>,
    star_exports: Vec<(String, Vec<(String, ExportedPath)>)>,
}

pub open spec fn statics_view(v: Seq<((String, String), ExportedPath)>) -> Seq<((Seq<char>, Seq<char>), ExportedPathView)> {
    v.map_values(|t: ((String, String), ExportedPath)| ((t.0.0@, t.0.1@), t.1@))
}

pub open spec fn groups_view(v: Seq<(String, Vec<(String, ExportedPath)>)>) -> Seq<(Seq<char>, TargetsView)> {
    v.map_values(|t: (String, Vec<(String, ExportedPath)>)| (t.0@, targets_view(t.1@)))
}

impl View for PackageExportRewriteData {
    type V = RewriteModel;

    closed spec fn view(&self) -> RewriteModel {
        RewriteModel {
            static_exports: statics_view(self.static_exports@),
            directory_exports: groups_view(self.directory_exports@),
            star_exports: groups_view(self.star_exports@),
        }
    }
}

/// The first index below `n` whose key is `k`.
pub open spec fn assoc_index<K, V>(s: Seq<(K, V)>, k: K, n: int) -> Option<int>
    decreases n,
{
    if n <= 0 {
        None
    } else {
        match assoc_index(s, k, n - 1) {
            Some(i) => Some(i),
            None => if s[n - 1].0 == k { Some(n - 1) } else { None },
        }
    }
}

pub proof fn lemma_assoc_index_stable<K, V>(s: Seq<(K, V)>, k: K, m: int, n: int)
    requires
        m <= n,
        assoc_index(s, k, m) is Some,
    ensures
        assoc_index(s, k, n) == assoc_index(s, k, m),
    decreases n - m,
{
    if n > m {
        lemma_assoc_index_stable(s, k, m, n - 1);
    }
}

pub open spec fn assoc_find<K, V>(s: Seq<(K, V)>, k: K) -> Option<int> {
    assoc_index(s, k, s.len() as int)
}

pub proof fn lemma_assoc_index<K, V>(s: Seq<(K, V)>, k: K, n: int)
    requires
        0 <= n <= s.len(),
    ensures
        match assoc_index(s, k, n) {
            Some(i) => 0 <= i < n && s[i].0 == k && forall|j: int| 0 <= j < i ==> s[j].0 != k,
            None => forall|j: int| 0 <= j < n ==> s[j].0 != k,
        },
    decreases n,
{
    if n > 0 {
        lemma_assoc_index(s, k, n - 1);
    }
}

/// Insertion into an association list: the value of a present key is
/// replaced, a new key is appended.
pub open spec fn assoc_insert<K, V>(s: Seq<(K, V)>, k: K, v: V) -> Seq<(K, V)> {
    match assoc_find(s, k) {
        Some(i) => s.update(i, (k, v)),
        None => s.push((k, v)),
    }
}

/// Appends `item` to the group of `k`, creating the group when absent.
pub open spec fn group_push<K, T>(s: Seq<(K, Seq<T>)>, k: K, item: T) -> Seq<(K, Seq<T>)> {
    match assoc_find(s, k) {
        Some(i) => s.update(i, (k, s[i].1.push(item))),
        None => s.push((k, seq![item])),
    }
}

/// Whether the character at `i` of `o` (with UTF-8 bytes `b`) may make the
/// path unclean: a backslash, or a `.` or `/` after a byte `.` or `/` at
/// position `i - 1`.
pub open spec fn unclean_at(o: Seq<char>, b: Seq<u8>, i: int) -> bool {
    o[i] == '\\' || ((o[i] == '.' || o[i] == '/') && i > 0 && (b[i - 1] == 46u8 || b[i - 1] == 47u8))
}

pub open spec fn has_unclean(o: Seq<char>) -> bool {
    exists|i: int| 0 <= i < o.len() && #[trigger] unclean_at(o, vstd::utf8::encode_utf8(o), i)
}

/// A path of an exports map, normalized: `./x` and `x` are cleaned to
/// `./clean(x)` when they hold something that may be unclean, and are kept
/// otherwise; `.` is kept.
pub open spec fn spec_export_clean(p: Seq<char>) -> Seq<char> {
    if seq_starts_with(p, "./"@) {
        let o = p.subrange(2, p.len() as int);
        if has_unclean(o) { "./"@ + cleaned_path(o) } else { p }
    } else if p == "."@ {
        p
    } else if has_unclean(p) {
        "./"@ + cleaned_path(p)
    } else {
        p
    }
}

pub proof fn lemma_encode_utf8_len(chars: Seq<char>)
    ensures
        vstd::utf8::encode_utf8(chars).len() >= chars.len(),
    decreases chars.len(),
{
    if chars.len() > 0 {
        lemma_encode_utf8_len(chars.drop_first());
    }
}

/// Cleans a path of an exports map (see `spec_export_clean`).
pub fn clean_path(p: &str) -> (r: String)
    ensures
        r@ == spec_export_clean(p@),
{
    let pc = str_chars(p);
    let ds = str_chars("./");
    let dot = str_chars(".");
    proof {
        reveal_strlit("./");
        reveal_strlit(".");
    }
    let starts = chars_starts_with(pc.as_slice(), ds.as_slice());
    if !starts && chars_eq(pc.as_slice(), dot.as_slice()) {
        return p.to_string();
    }
    let o: &str = if starts { p.substring_char(2, pc.len()) } else { p };
    let bytes = o.as_bytes();
    let oc = str_chars(o);
    proof { lemma_encode_utf8_len(o@); }
    let mut i: usize = 0;
    while i < oc.len()
        invariant
            oc@ == o@,
            starts == seq_starts_with(p@, "./"@),
            starts ==> o@ == p@.subrange(2, p@.len() as int),
            !starts ==> o@ == p@ && p@ != "."@,
            bytes@ == vstd::utf8::encode_utf8(o@),
            bytes@.len() >= oc@.len(),
            0 <= i <= oc@.len(),
            forall|j: int| 0 <= j < i ==> !#[trigger] unclean_at(o@, vstd::utf8::encode_utf8(o@), j),
        decreases oc@.len() - i,
    {
        let c = oc[i];
        let complex = if c == '\\' {
            true
        } else if c == '.' || c == '/' {
            i > 0 && (bytes[i - 1] == 46u8 || bytes[i - 1] == 47u8)
        } else {
            false
        };
        if complex {
            assert(unclean_at(o@, vstd::utf8::encode_utf8(o@), i as int));
            let cleaned = clean_path_string(o);
            let mut out = str_chars("./");
            let cc = str_chars(cleaned.as_str());
            push_all(&mut out, cc.as_slice());
            return string_from_chars(out.as_slice());
        }
        i = i + 1;
    }
    p.to_string()
}

/// The part of `s` that the `*` of `pattern` stands for: the text after
/// the part of the pattern before its first `*`, and before the part after
/// it. `None` when the pattern has no `*` or `s` does not fit it.
pub open spec fn spec_match_star(pattern: Seq<char>, s: Seq<char>) -> Option<Seq<char>> {
    match first_index_of(pattern, '*') {
        None => None,
        Some(k) => {
            let prefix = pattern.subrange(0, k);
            let suffix = pattern.subrange(k + 1, pattern.len() as int);
            if !seq_starts_with(s, prefix) {
                None
            } else {
                let rem = s.subrange(prefix.len() as int, s.len() as int);
                if suffix.len() == 0 {
                    Some(rem)
                } else if seq_ends_with(rem, suffix) {
                    Some(rem.subrange(0, rem.len() - suffix.len()))
                } else {
                    None
                }
            }
        },
    }
}

/// What a star match gives is exactly what the `*` stands for: the
/// matched text is the specifier with the pattern's text before its first
/// `*` taken off the front and the text after it taken off the end.
pub proof fn law_star_match_fills_the_star(pattern: Seq<char>, s: Seq<char>, m: Seq<char>)
    requires
        spec_match_star(pattern, s) == Some(m),
    ensures
        exists|k: int| 0 <= k < pattern.len() && pattern[k] == '*'
            && (forall|j: int| 0 <= j < k ==> pattern[j] != '*')
            && s == pattern.subrange(0, k) + m + pattern.subrange(k + 1, pattern.len() as int),
{
    lemma_first_index_of(pattern, '*');
    let k = first_index_of(pattern, '*')->0;
    let prefix = pattern.subrange(0, k);
    let suffix = pattern.subrange(k + 1, pattern.len() as int);
    let rem = s.subrange(prefix.len() as int, s.len() as int);
    assert(s.subrange(0, prefix.len() as int) == prefix);
    if suffix.len() == 0 {
        assert(s =~= prefix + m + suffix);
    } else {
        assert(rem.subrange(rem.len() - suffix.len(), rem.len() as int) == suffix);
        assert(s =~= prefix + m + suffix);
    }
}

/// Every specifier of the form `before` + `m` + `after`, for a pattern
/// `before*after` whose `before` holds no `*`, matches with `m`.
pub proof fn law_star_match_finds_the_star(before: Seq<char>, after: Seq<char>, m: Seq<char>)
    requires
        forall|j: int| 0 <= j < before.len() ==> before[j] != '*',
    ensures
        spec_match_star(before + seq!['*'] + after, before + m + after) == Some(m),
{
    let pattern = before + seq!['*'] + after;
    let s = before + m + after;
    lemma_first_index_of(pattern, '*');
    assert(pattern[before.len() as int] == '*');
    let k = first_index_of(pattern, '*')->0;
    assert(k == before.len()) by {
        if k < before.len() { assert(pattern[k] == before[k]); }
        assert(!(k > before.len()));
    }
    assert(pattern.subrange(0, k) =~= before);
    assert(pattern.subrange(k + 1, pattern.len() as int) =~= after);
    assert(s.subrange(0, before.len() as int) =~= before);
    let rem = s.subrange(before.len() as int, s.len() as int);
    assert(rem =~= m + after);
    assert(rem.subrange(rem.len() - after.len(), rem.len() as int) =~= after);
    assert(rem.subrange(0, rem.len() - after.len()) =~= m);
}

/// Matches a cleaned relative import against a star pattern.
pub fn match_star_pattern(star_pattern: &str, relative_import_specifier: &str) -> (r: Option<String>)
    ensures
        match r {
            Some(m) => spec_match_star(star_pattern@, relative_import_specifier@) == Some(m@),
            None => spec_match_star(star_pattern@, relative_import_specifier@) is None,
        },
{
    let pat = str_chars(star_pattern);
    let s = str_chars(relative_import_specifier);
    proof { lemma_first_index_of(pat@, '*'); }
    let k = match chars_find(pat.as_slice(), '*') {
        Some(k) => k,
        None => { return None; },
    };
    let prefix = chars_sub(pat.as_slice(), 0, k);
    let suffix = chars_sub(pat.as_slice(), k + 1, pat.len());
    if !chars_starts_with(s.as_slice(), prefix.as_slice()) {
        return None;
    }
    let rem = chars_sub(s.as_slice(), prefix.len(), s.len());
    if suffix.len() == 0 {
        return Some(string_from_chars(rem.as_slice()));
    }
    if chars_ends_with(rem.as_slice(), suffix.as_slice()) {
        let m = chars_sub(rem.as_slice(), 0, rem.len() - suffix.len());
        return Some(string_from_chars(m.as_slice()));
    }
    None
}

/// `t` with every `*` replaced by `m`.
pub open spec fn spec_replace_star(t: Seq<char>, m: Seq<char>) -> Seq<char>
    decreases t.len(),
{
    if t.len() == 0 {
        Seq::empty()
    } else {
        spec_replace_star(t.drop_last(), m) + if t.last() == '*' { m } else { seq![t.last()] }
    }
}

/// Writes into `out` the target `resolved_to` with its `*` replaced by
/// the star match.
pub fn rewrite_star_export(star_match: &str, resolved_to: &str, out: &mut String)
    ensures
        final(out)@ == spec_replace_star(resolved_to@, star_match@),
{
    let t = str_chars(resolved_to);
    let m = str_chars(star_match);
    let mut v: Vec<char> = Vec::new();
    let mut i: usize = 0;
    while i < t.len()
        invariant
            t@ == resolved_to@,
            m@ == star_match@,
            0 <= i <= t@.len(),
            v@ == spec_replace_star(t@.take(i as int), m@),
        decreases t@.len() - i,
    {
        assert(t@.take(i + 1).drop_last() =~= t@.take(i as int));
        if t[i] == '*' {
            push_all(&mut v, m.as_slice());
        } else {
            v.push(t[i]);
        }
        i = i + 1;
        assert(v@ =~= spec_replace_star(t@.take(i as int), m@));
    }
    assert(t@.take(t@.len() as int) =~= t@);
    *out = string_from_chars(v.as_slice());
}

/// Writes into `out` the target of a directory pattern followed by the
/// rest of the import after the pattern.
pub fn rewrite_dir_export(clean_relative_import: &str, directory_pattern: &str, resolved_to: &str, out: &mut String)
    requires
        seq_starts_with(clean_relative_import@, directory_pattern@),
    ensures
        final(out)@ == resolved_to@ + clean_relative_import@.subrange(directory_pattern@.len() as int, clean_relative_import@.len() as int),
{
    let c = str_chars(clean_relative_import);
    let d = str_chars(directory_pattern);
    let mut v = str_chars(resolved_to);
    let rest = chars_sub(c.as_slice(), d.len(), c.len());
    push_all(&mut v, rest.as_slice());
    *out = string_from_chars(v.as_slice());
}

/// An export target with its exported path transformed by `f`.
pub open spec fn map_target(e: ExportedPathView, f: spec_fn(Seq<char>) -> Seq<char>) -> ExportedPathView {
    match e {
        ExportedPathView::Exported(s) => ExportedPathView::Exported(f(s)),
        ExportedPathView::Private => ExportedPathView::Private,
        ExportedPathView::Unrecognized => ExportedPathView::Unrecognized,
    }
}

/// The first literal export for `path` under the conditions `conds`, in
/// order, with the condition's name.
pub open spec fn static_match(st: Seq<((Seq<char>, Seq<char>), ExportedPathView)>, path: Seq<char>, conds: Seq<Seq<char>>)
    -> Option<(ExportedPathView, Seq<char>)>
    decreases conds.len(),
{
    if conds.len() == 0 {
        None
    } else {
        match assoc_find(st, (path, conds[0])) {
            Some(i) => Some((st[i].1, conds[0])),
            None => static_match(st, path, conds.drop_first()),
        }
    }
}

/// The first directory pattern of a group that starts `p`.
pub open spec fn first_dir_match(list: TargetsView, p: Seq<char>, n: int) -> Option<int>
    decreases n,
{
    if n <= 0 {
        None
    } else {
        match first_dir_match(list, p, n - 1) {
            Some(i) => Some(i),
            None => if seq_starts_with(p, list[n - 1].0) { Some(n - 1) } else { None },
        }
    }
}

/// The first star pattern of a group that `p` fits.
pub open spec fn first_star_match(list: TargetsView, p: Seq<char>, n: int) -> Option<int>
    decreases n,
{
    if n <= 0 {
        None
    } else {
        match first_star_match(list, p, n - 1) {
            Some(i) => Some(i),
            None => if spec_match_star(list[n - 1].0, p) is Some { Some(n - 1) } else { None },
        }
    }
}

/// The kinds of pattern groups.
pub enum PatternKind {
    Directory,
    Star,
}

/// The first pattern of the group of `cond` that matches `p`.
pub open spec fn group_match(groups: Seq<(Seq<char>, TargetsView)>, kind: PatternKind, cond: Seq<char>, p: Seq<char>)
    -> Option<(int, int)>
{
    match assoc_find(groups, cond) {
        None => None,
        Some(g) => {
            let list = groups[g].1;
            let m = match kind {
                PatternKind::Directory => first_dir_match(list, p, list.len() as int),
                PatternKind::Star => first_star_match(list, p, list.len() as int),
            };
            match m {
                Some(i) => Some((g, i)),
                None => None,
            }
        },
    }
}

/// The requested conditions other than `default` are tried in order, and
/// `default` last; the first whose group has a matching pattern wins.
pub open spec fn resolve_condition(groups: Seq<(Seq<char>, TargetsView)>, kind: PatternKind, conds: Seq<Seq<char>>, p: Seq<char>)
    -> Option<(int, int, ExportConditionView)>
    decreases conds.len(),
{
    if conds.len() == 0 {
        match group_match(groups, kind, "default"@, p) {
            Some((g, i)) => Some((g, i, ExportConditionView::Default)),
            None => None,
        }
    } else if conds[0] == "default"@ {
        resolve_condition(groups, kind, conds.drop_first(), p)
    } else {
        match group_match(groups, kind, conds[0], p) {
            Some((g, i)) => Some((g, i, ExportConditionView::Condition(conds[0]))),
            None => resolve_condition(groups, kind, conds.drop_first(), p),
        }
    }
}

/// What an import into the package is rewritten to, and under which
/// condition: literal exports first (the requested conditions, then
/// `default`), then directory patterns, then star patterns.
pub open spec fn spec_rewrite(m: RewriteModel, rel: Seq<char>, req: Seq<Seq<char>>) -> Option<(ExportedPathView, ExportConditionView)> {
    let p = spec_export_clean(rel);
    match static_match(m.static_exports, p, req.push("default"@)) {
        Some((e, c)) => Some((e, condition_of(c))),
        None => match resolve_condition(m.directory_exports, PatternKind::Directory, req, p) {
            Some((g, i, c)) => {
                let pat = m.directory_exports[g].1[i].0;
                Some((map_target(m.directory_exports[g].1[i].1, |v: Seq<char>| v + p.subrange(pat.len() as int, p.len() as int)), c))
            },
            None => match resolve_condition(m.star_exports, PatternKind::Star, req, p) {
                Some((g, i, c)) => {
                    let sm = spec_match_star(m.star_exports[g].1[i].0, p)->0;
                    Some((map_target(m.star_exports[g].1[i].1, |v: Seq<char>| spec_replace_star(v, sm)), c))
                },
                None => None,
            },
        },
    }
}


/// The literal export stored for `(path, cond)`.
fn find_static(st: &Vec<((String, String), ExportedPath)>, path: &[char], cond: &[char]) -> (r: Option<usize>)
    ensures
        match r {
            Some(i) => assoc_find(statics_view(st@), (path@, cond@)) == Some(i as int) && i < st@.len(),
            None => assoc_find(statics_view(st@), (path@, cond@)) is None,
        },
{
    let ghost sv = statics_view(st@);
    let mut i: usize = 0;
    while i < st.len()
        invariant
            sv == statics_view(st@),
            0 <= i <= st@.len(),
            assoc_index(sv, (path@, cond@), i as int) is None,
        decreases st@.len() - i,
    {
        let pk = str_chars(st[i].0.0.as_str());
        let ck = str_chars(st[i].0.1.as_str());
        assert(sv[i as int] == ((st@[i as int].0.0@, st@[i as int].0.1@), st@[i as int].1@));
        if chars_eq(pk.as_slice(), path) && chars_eq(ck.as_slice(), cond) {
            proof { lemma_assoc_index_stable(sv, (path@, cond@), i + 1, sv.len() as int); }
            return Some(i);
        }
        i = i + 1;
    }
    None
}

/// The group of `cond`.
fn find_group(groups: &Vec<(String, Vec<(String, ExportedPath)>)>, cond: &[char]) -> (r: Option<usize>)
    ensures
        match r {
            Some(i) => assoc_find(groups_view(groups@), cond@) == Some(i as int) && i < groups@.len(),
            None => assoc_find(groups_view(groups@), cond@) is None,
        },
{
    let ghost gv = groups_view(groups@);
    let mut i: usize = 0;
    while i < groups.len()
        invariant
            gv == groups_view(groups@),
            0 <= i <= groups@.len(),
            assoc_index(gv, cond@, i as int) is None,
        decreases groups@.len() - i,
    {
        let k = str_chars(groups[i].0.as_str());
        assert(gv[i as int].0 == groups@[i as int].0@);
        if chars_eq(k.as_slice(), cond) {
            proof { lemma_assoc_index_stable(gv, cond@, i + 1, gv.len() as int); }
            return Some(i);
        }
        i = i + 1;
    }
    None
}

pub open spec fn opt_int(r: Option<usize>) -> Option<int> {
    match r {
        Some(i) => Some(i as int),
        None => None,
    }
}

/// The first pattern of a group, of the given kind, that matches `p`.
fn first_pattern_match(list: &Vec<(String, ExportedPath)>, kind: &PatternKind, p: &str) -> (r: Option<usize>)
    ensures
        match kind {
            PatternKind::Directory => opt_int(r) == first_dir_match(targets_view(list@), p@, list@.len() as int),
            PatternKind::Star => opt_int(r) == first_star_match(targets_view(list@), p@, list@.len() as int),
        },
        r matches Some(i) ==> i < list@.len(),
{
    let ghost tv = targets_view(list@);
    let pc = str_chars(p);
    let mut i: usize = 0;
    while i < list.len()
        invariant
            tv == targets_view(list@),
            pc@ == p@,
            0 <= i <= list@.len(),
            match kind {
                PatternKind::Directory => first_dir_match(tv, p@, i as int) is None,
                PatternKind::Star => first_star_match(tv, p@, i as int) is None,
            },
        decreases list@.len() - i,
    {
        assert(tv[i as int].0 == list@[i as int].0@);
        let hit = match kind {
            PatternKind::Directory => {
                let pat = str_chars(list[i].0.as_str());
                chars_starts_with(pc.as_slice(), pat.as_slice())
            },
            PatternKind::Star => match_star_pattern(list[i].0.as_str(), p).is_some(),
        };
        if hit {
            proof {
                match kind {
                    PatternKind::Directory => lemma_first_dir_match_stable(tv, p@, i + 1, tv.len() as int),
                    PatternKind::Star => lemma_first_star_match_stable(tv, p@, i + 1, tv.len() as int),
                }
            }
            return Some(i);
        }
        i = i + 1;
    }
    None
}

/// The first condition (requested ones other than `default` in order,
/// then `default`) whose group holds a pattern matching `p`: the group,
/// the pattern, and the condition.
fn resolve_export_condition(
    groups: &Vec<(String, Vec<(String, ExportedPath)>)>,
    kind: &PatternKind,
    requested: &Vec<String>,
    p: &str,
) -> (r: Option<(usize, usize, ExportCondition)>)
    ensures
        match (r, resolve_condition(groups_view(groups@), *kind, string_seq_views(requested@), p@)) {
            (Some((g, i, c)), Some((g2, i2, c2))) => g == g2 && i == i2 && c@ == c2
                && g < groups@.len() && i < groups@[g as int].1@.len(),
            (None, None) => true,
            _ => false,
        },
{
    let ghost gv = groups_view(groups@);
    let ghost conds = string_seq_views(requested@);
    let d = str_chars("default");
    proof { reveal_strlit("default"); }
    assert(conds.subrange(0, conds.len() as int) =~= conds);
    let mut k: usize = 0;
    while k < requested.len()
        invariant
            gv == groups_view(groups@),
            conds == string_seq_views(requested@),
            d@ == "default"@,
            0 <= k <= requested@.len(),
            resolve_condition(gv, *kind, conds, p@) == resolve_condition(gv, *kind, conds.subrange(k as int, conds.len() as int), p@),
        decreases requested@.len() - k,
    {
        let ghost rest = conds.subrange(k as int, conds.len() as int);
        assert(rest[0] == requested@[k as int]@);
        assert(rest.drop_first() =~= conds.subrange(k + 1, conds.len() as int));
        let c = str_chars(requested[k].as_str());
        if !chars_eq(c.as_slice(), d.as_slice()) {
            match find_group(groups, c.as_slice()) {
                Some(g) => {
                    assert(gv[g as int].1 == targets_view(groups@[g as int].1@));
                    match first_pattern_match(&groups[g].1, kind, p) {
                        Some(i) => {
                            return Some((g, i, ExportCondition::Condition(requested[k].clone())));
                        },
                        None => {},
                    }
                },
                None => {},
            }
        }
        k = k + 1;
    }
    assert(conds.subrange(conds.len() as int, conds.len() as int) =~= Seq::<Seq<char>>::empty());
    match find_group(groups, d.as_slice()) {
        Some(g) => {
            assert(gv[g as int].1 == targets_view(groups@[g as int].1@));
            match first_pattern_match(&groups[g].1, kind, p) {
                Some(i) => Some((g, i, ExportCondition::Default)),
                None => None,
            }
        },
        None => None,
    }
}

impl PackageExportRewriteData {
    /// Rewrites an import path into the package (relative to the package,
    /// such as `./lib/x` or `.`) through the `exports` field, trying the
    /// requested export conditions in order. `None` when nothing matches.
    pub fn rewrite_relative_export(&self, relative_import: &str, requested_export_conditions: &Vec<String>)
        -> (r: Result<Option<MatchedExport>, AnyError>)
        ensures
            r is Ok,
            match r {
                Ok(Some(me)) => spec_rewrite(self@, relative_import@, string_seq_views(requested_export_conditions@))
                    == Some((me.rewritten_export@, me.export_kind@)),
                Ok(None) => spec_rewrite(self@, relative_import@, string_seq_views(requested_export_conditions@)) is None,
                Err(_) => false,
            },
    {
        let ghost req = string_seq_views(requested_export_conditions@);
        let ghost conds = req.push("default"@);
        let ghost st = statics_view(self.static_exports@);
        let clean = clean_path(relative_import);
        let pc = str_chars(clean.as_str());
        let d = str_chars("default");
        proof { reveal_strlit("default"); }
        assert(conds.subrange(0, conds.len() as int) =~= conds);
        let mut k: usize = 0;
        while k < requested_export_conditions.len()
            invariant
                st == statics_view(self.static_exports@),
                req == string_seq_views(requested_export_conditions@),
                conds == req.push("default"@),
                pc@ == clean@,
                clean@ == spec_export_clean(relative_import@),
                d@ == "default"@,
                0 <= k <= requested_export_conditions@.len(),
                static_match(st, clean@, conds) == static_match(st, clean@, conds.subrange(k as int, conds.len() as int)),
            decreases requested_export_conditions@.len() - k,
        {
            let ghost rest = conds.subrange(k as int, conds.len() as int);
            assert(rest[0] == requested_export_conditions@[k as int]@);
            assert(rest.drop_first() =~= conds.subrange(k + 1, conds.len() as int));
            let c = str_chars(requested_export_conditions[k].as_str());
            match find_static(&self.static_exports, pc.as_slice(), c.as_slice()) {
                Some(i) => {
                    assert(st[i as int].1 == self.static_exports@[i as int].1@);
                    assert(static_match(st, clean@, rest) == Some((st[i as int].1, rest[0])));
                    let kind = ExportCondition::from_name(requested_export_conditions[k].as_str());

                    return Ok(Some(MatchedExport { rewritten_export: self.static_exports[i].1.duplicate(), export_kind: kind }));
                },
                None => {},
            }
            k = k + 1;
        }
        proof {
            let rest = conds.subrange(k as int, conds.len() as int);
            assert(rest[0] == "default"@);
            assert(rest.drop_first() =~= Seq::<Seq<char>>::empty());
        }
        match find_static(&self.static_exports, pc.as_slice(), d.as_slice()) {
            Some(i) => {
                assert(st[i as int].1 == self.static_exports@[i as int].1@);
                return Ok(Some(MatchedExport { rewritten_export: self.static_exports[i].1.duplicate(), export_kind: ExportCondition::Default }));
            },
            None => {
                assert(static_match(st, clean@, Seq::<Seq<char>>::empty()) is None);
                assert(static_match(st, clean@, conds.subrange(k as int, conds.len() as int)) is None);
            },
        }
        assert(static_match(self@.static_exports, spec_export_clean(relative_import@), req.push("default"@)) is None);
        match resolve_export_condition(&self.directory_exports, &PatternKind::Directory, requested_export_conditions, clean.as_str()) {
            Some((g, i, c)) => {
                let ghost gv = groups_view(self.directory_exports@);
                assert(gv[g as int].1 == targets_view(self.directory_exports@[g as int].1@));
                let entry = &self.directory_exports[g].1[i];
                assert(gv[g as int].1[i as int] == (entry.0@, entry.1@));
                proof { lemma_resolve_condition(gv, PatternKind::Directory, req, clean@); }
                let rewritten = match &entry.1 {
                    ExportedPath::Exported(v) => {
                        let mut out = String::new();
                        rewrite_dir_export(clean.as_str(), entry.0.as_str(), v.as_str(), &mut out);
                        ExportedPath::Exported(out)
                    },
                    ExportedPath::Private => ExportedPath::Private,
                    ExportedPath::Unrecognized => ExportedPath::Unrecognized,
                };
                return Ok(Some(MatchedExport { rewritten_export: rewritten, export_kind: c }));
            },
            None => {},
        }
        match resolve_export_condition(&self.star_exports, &PatternKind::Star, requested_export_conditions, clean.as_str()) {
            Some((g, i, c)) => {
                let ghost gv = groups_view(self.star_exports@);
                assert(gv[g as int].1 == targets_view(self.star_exports@[g as int].1@));
                let entry = &self.star_exports[g].1[i];
                assert(gv[g as int].1[i as int] == (entry.0@, entry.1@));
                proof { lemma_resolve_condition(gv, PatternKind::Star, req, clean@); }
                let rewritten = match &entry.1 {
                    ExportedPath::Exported(v) => {
                        match match_star_pattern(entry.0.as_str(), clean.as_str()) {
                            Some(m) => {
                                let mut out = String::new();
                                rewrite_star_export(m.as_str(), v.as_str(), &mut out);
                                ExportedPath::Exported(out)
                            },
                            None => ExportedPath::Unrecognized,
                        }
                    },
                    ExportedPath::Private => ExportedPath::Private,
                    ExportedPath::Unrecognized => ExportedPath::Unrecognized,
                };
                return Ok(Some(MatchedExport { rewritten_export: rewritten, export_kind: c }));
            },
            None => {},
        }
        Ok(None)
    }
}

/// A group pattern found by `group_match` does match.
pub proof fn lemma_group_match(groups: Seq<(Seq<char>, TargetsView)>, kind: PatternKind, cond: Seq<char>, p: Seq<char>)
    ensures
        match group_match(groups, kind, cond, p) {
            Some((g, i)) => 0 <= g < groups.len() && 0 <= i < groups[g].1.len()
                && (kind is Directory ==> seq_starts_with(p, groups[g].1[i].0))
                && (kind is Star ==> spec_match_star(groups[g].1[i].0, p) is Some),
            None => true,
        },
{
    lemma_assoc_index(groups, cond, groups.len() as int);
    match assoc_find(groups, cond) {
        Some(g) => {
            let list = groups[g].1;
            lemma_first_dir_match(list, p, list.len() as int);
            lemma_first_star_match(list, p, list.len() as int);
        },
        None => {},
    }
}

/// A pattern found by `resolve_condition` does match.
pub proof fn lemma_resolve_condition(groups: Seq<(Seq<char>, TargetsView)>, kind: PatternKind, conds: Seq<Seq<char>>, p: Seq<char>)
    ensures
        match resolve_condition(groups, kind, conds, p) {
            Some((g, i, c)) => 0 <= g < groups.len() && 0 <= i < groups[g].1.len()
                && (kind is Directory ==> seq_starts_with(p, groups[g].1[i].0))
                && (kind is Star ==> spec_match_star(groups[g].1[i].0, p) is Some),
            None => true,
        },
    decreases conds.len(),
{
    if conds.len() == 0 {
        lemma_group_match(groups, kind, "default"@, p);
    } else {
        lemma_group_match(groups, kind, conds[0], p);
        lemma_resolve_condition(groups, kind, conds.drop_first(), p);
    }
}

pub proof fn lemma_first_dir_match_stable(list: TargetsView, p: Seq<char>, m: int, n: int)
    requires
        m <= n,
        first_dir_match(list, p, m) is Some,
    ensures
        first_dir_match(list, p, n) == first_dir_match(list, p, m),
    decreases n - m,
{
    if n > m {
        lemma_first_dir_match_stable(list, p, m, n - 1);
    }
}

pub proof fn lemma_first_star_match_stable(list: TargetsView, p: Seq<char>, m: int, n: int)
    requires
        m <= n,
        first_star_match(list, p, m) is Some,
    ensures
        first_star_match(list, p, n) == first_star_match(list, p, m),
    decreases n - m,
{
    if n > m {
        lemma_first_star_match_stable(list, p, m, n - 1);
    }
}

pub proof fn lemma_first_dir_match(list: TargetsView, p: Seq<char>, n: int)
    requires
        0 <= n <= list.len(),
    ensures
        match first_dir_match(list, p, n) {
            Some(i) => 0 <= i < n && seq_starts_with(p, list[i].0),
            None => true,
        },
    decreases n,
{
    if n > 0 {
        lemma_first_dir_match(list, p, n - 1);
    }
}

pub proof fn lemma_first_star_match(list: TargetsView, p: Seq<char>, n: int)
    requires
        0 <= n <= list.len(),
    ensures
        match first_star_match(list, p, n) {
            Some(i) => 0 <= i < n && spec_match_star(list[i].0, p) is Some,
            None => true,
        },
    decreases n,
{
    if n > 0 {
        lemma_first_star_match(list, p, n - 1);
    }
}


/// The targets of an export entry by condition: a single target stands
/// under `default`.
pub open spec fn entry_targets(e: PackageJsonExportView) -> TargetsView {
    match e {
        PackageJsonExportView::Single(t) => seq![(
            "default"@,
            match t {
                Some(v) => ExportedPathView::Exported(v),
                None => ExportedPathView::Private,
            },
        )],
        PackageJsonExportView::Conditional(m) => m,
    }
}

/// A target with its exported path cleaned.
pub open spec fn clean_target(e: ExportedPathView) -> ExportedPathView {
    map_target(e, |v: Seq<char>| spec_export_clean(v))
}

/// The pattern groups after adding the first `n` targets of `ts` under
/// the pattern.
pub open spec fn push_pattern_targets(groups: Seq<(Seq<char>, TargetsView)>, pattern: Seq<char>, ts: TargetsView, n: int)
    -> Seq<(Seq<char>, TargetsView)>
    decreases n,
{
    if n <= 0 {
        groups
    } else {
        group_push(push_pattern_targets(groups, pattern, ts, n - 1), ts[n - 1].0, (pattern, clean_target(ts[n - 1].1)))
    }
}

/// The literal exports after adding the first `n` targets of `ts` for
/// `path`.
pub open spec fn insert_static_targets(st: Seq<((Seq<char>, Seq<char>), ExportedPathView)>, path: Seq<char>, ts: TargetsView, n: int)
    -> Seq<((Seq<char>, Seq<char>), ExportedPathView)>
    decreases n,
{
    if n <= 0 {
        st
    } else {
        assoc_insert(insert_static_targets(st, path, ts, n - 1), (path, ts[n - 1].0), clean_target(ts[n - 1].1))
    }
}

/// Number of occurrences of `c` in `s`.
pub open spec fn count_char(s: Seq<char>, c: char) -> nat
    decreases s.len(),
{
    if s.len() == 0 {
        0
    } else {
        count_char(s.drop_last(), c) + if s.last() == c { 1nat } else { 0nat }
    }
}

pub open spec fn prefix_error_text() -> Seq<char> {
    "package.json exports fields must either be '.' or start with './'"@
}

pub open spec fn star_error_text(p: Seq<char>) -> Seq<char> {
    "Invalid star pattern '"@ + p + "' in package.json exports field: Star patterns may contain at most a single star match."@
}

/// Adds one entry of the exports field: paths must be `.` or start with
/// `./`; a path with one `*` is a star pattern; more than one `*` is an
/// error; a path with none and a trailing `/` is a directory pattern (the
/// deprecated form of node 14); any other path is literal.
pub open spec fn add_export_entry(m: RewriteModel, path: Seq<char>, e: PackageJsonExportView) -> Result<RewriteModel, Seq<char>> {
    if !seq_starts_with(path, "./"@) && path != "."@ {
        Err(prefix_error_text())
    } else {
        let ts = entry_targets(e);
        let cp = spec_export_clean(path);
        let k = count_char(path, '*');
        if k == 1 {
            Ok(RewriteModel {
                static_exports: m.static_exports,
                directory_exports: m.directory_exports,
                star_exports: push_pattern_targets(m.star_exports, cp, ts, ts.len() as int),
            })
        } else if k == 0 && seq_ends_with(path, "/"@) {
            Ok(RewriteModel {
                static_exports: m.static_exports,
                directory_exports: push_pattern_targets(m.directory_exports, cp, ts, ts.len() as int),
                star_exports: m.star_exports,
            })
        } else if k > 1 {
            Err(star_error_text(path))
        } else {
            Ok(RewriteModel {
                static_exports: insert_static_targets(m.static_exports, cp, ts, ts.len() as int),
                directory_exports: m.directory_exports,
                star_exports: m.star_exports,
            })
        }
    }
}

/// The rewrite data derived from the first `n` entries of an exports
/// field, or the error of the first entry that is refused.
pub open spec fn build_rewrite(entries: Seq<(Seq<char>, PackageJsonExportView)>, n: int) -> Result<RewriteModel, Seq<char>>
    decreases n,
{
    if n <= 0 {
        Ok(RewriteModel { static_exports: Seq::empty(), directory_exports: Seq::empty(), star_exports: Seq::empty() })
    } else {
        match build_rewrite(entries, n - 1) {
            Err(e) => Err(e),
            Ok(m) => add_export_entry(m, entries[n - 1].0, entries[n - 1].1),
        }
    }
}

/// Once an entry is refused, the error is the result.
pub proof fn lemma_build_rewrite_err(entries: Seq<(Seq<char>, PackageJsonExportView)>, m: int, n: int)
    requires
        m <= n,
        build_rewrite(entries, m) is Err,
    ensures
        build_rewrite(entries, n) == build_rewrite(entries, m),
    decreases n - m,
{
    if n > m {
        lemma_build_rewrite_err(entries, m, n - 1);
    }
}

/// An exports key that the rewrite data accepts: `.` or a path starting
/// with `./`, with at most one `*`.
pub open spec fn export_key_accepted(path: Seq<char>) -> bool {
    &&& seq_starts_with(path, "./"@) || path == "."@
    &&& count_char(path, '*') <= 1
}

/// An exports field is accepted exactly when each of its keys is `.` or
/// starts with `./`, and holds at most one `*`.
pub proof fn law_exports_accepted_iff_keys_valid(entries: Seq<(Seq<char>, PackageJsonExportView)>, n: int)
    requires
        0 <= n <= entries.len(),
    ensures
        build_rewrite(entries, n) is Ok <==> forall|i: int| 0 <= i < n ==> export_key_accepted(#[trigger] entries[i].0),
    decreases n,
{
    if n > 0 {
        law_exports_accepted_iff_keys_valid(entries, n - 1);
        if !(build_rewrite(entries, n - 1) is Ok) {
            let i = choose|i: int| 0 <= i < n - 1 && !export_key_accepted(#[trigger] entries[i].0);
            assert(!export_key_accepted(entries[i].0));
        }
    }
}

/// Appends `item` to the group of `cond`.
fn group_push_exec(groups: &mut Vec<(String, Vec<(String, ExportedPath)>)>, cond: &String, item: (String, ExportedPath))
    ensures
        groups_view(final(groups)@) == group_push(groups_view(old(groups)@), cond@, (item.0@, item.1@)),
{
    let cc = str_chars(cond.as_str());
    let ghost g0 = groups_view(groups@);
    match find_group(groups, cc.as_slice()) {
        Some(i) => {
            proof { lemma_assoc_index(g0, cond@, g0.len() as int); }
            let ghost old_list = groups@[i as int].1;
            assert(g0[i as int] == (groups@[i as int].0@, targets_view(old_list@)));
            groups[i].1.push(item);
            assert(targets_view(groups@[i as int].1@) =~= targets_view(old_list@).push((item.0@, item.1@)));
            assert(groups_view(groups@) =~= g0.update(i as int, (cond@, g0[i as int].1.push((item.0@, item.1@)))));
        },
        None => {
            let mut list: Vec<(String, ExportedPath)> = Vec::new();
            list.push(item);
            assert(targets_view(list@) =~= seq![(item.0@, item.1@)]);
            groups.push((cond.clone(), list));
            assert(groups_view(groups@) =~= g0.push((cond@, seq![(item.0@, item.1@)])));
        },
    }
}

/// Stores the literal export of `key`, replacing an earlier one.
fn static_insert_exec(st: &mut Vec<((String, String), ExportedPath)>, key: (String, String), v: ExportedPath)
    ensures
        statics_view(final(st)@) == assoc_insert(statics_view(old(st)@), (key.0@, key.1@), v@),
{
    let k0 = str_chars(key.0.as_str());
    let k1 = str_chars(key.1.as_str());
    let ghost s0 = statics_view(st@);
    let ghost kv = (key.0@, key.1@);
    let ghost vv = v@;
    match find_static(st, k0.as_slice(), k1.as_slice()) {
        Some(i) => {
            st.set(i, (key, v));
            assert(statics_view(st@) =~= s0.update(i as int, (kv, vv)));
        },
        None => {
            st.push((key, v));
            assert(statics_view(st@) =~= s0.push((kv, vv)));
        },
    }
}

/// A target with its exported path cleaned.
fn clean_target_exec(e: &ExportedPath) -> (r: ExportedPath)
    ensures
        r@ == clean_target(e@),
{
    match e {
        ExportedPath::Exported(s) => ExportedPath::Exported(clean_path(s.as_str())),
        ExportedPath::Private => ExportedPath::Private,
        ExportedPath::Unrecognized => ExportedPath::Unrecognized,
    }
}

/// The targets of an export entry by condition.
fn entry_targets_exec(e: &PackageJsonExport) -> (r: Vec<(String, ExportedPath)>)
    ensures
        targets_view(r@) == entry_targets(export_view(*e)),
{
    match e {
        PackageJsonExport::Single(t) => {
            let target = match t {
                Some(v) => ExportedPath::Exported(v.clone()),
                None => ExportedPath::Private,
            };
            let mut r: Vec<(String, ExportedPath)> = Vec::new();
            r.push(("default".to_string(), target));
            proof { reveal_strlit("default"); }
            assert(targets_view(r@) =~= entry_targets(export_view(*e)));
            r
        },
        PackageJsonExport::Conditional(m) => {
            let mut r: Vec<(String, ExportedPath)> = Vec::new();
            let mut j: usize = 0;
            while j < m.len()
                invariant
                    0 <= j <= m@.len(),
                    r@.len() == j,
                    targets_view(r@) == targets_view(m@).take(j as int),
                decreases m@.len() - j,
            {
                assert(targets_view(m@)[j as int] == (m@[j as int].0@, m@[j as int].1@));
                let key = m[j].0.clone();
                let val = m[j].1.duplicate();
                assert(key@ == m@[j as int].0@);
                let ghost kv = key@;
                let ghost vv = val@;
                assert(r@.len() == j);
                r.push((key, val));
                assert(r@[j as int].0@ == kv);
                assert(r@[j as int].1@ == vv);
                assert(targets_view(r@)[j as int] == targets_view(m@)[j as int]);
                j = j + 1;
                assert(targets_view(r@) =~= targets_view(m@).take(j as int));
            }
            assert(targets_view(m@).take(m@.len() as int) =~= targets_view(m@));
            r
        },
    }
}

/// Number of `*` in `s`.
fn count_stars(s: &[char]) -> (r: usize)
    ensures
        r == count_char(s@, '*'),
{
    let mut n: usize = 0;
    let mut i: usize = 0;
    while i < s.len()
        invariant
            0 <= i <= s@.len(),
            n == count_char(s@.take(i as int), '*'),
            n <= i,
        decreases s@.len() - i,
    {
        assert(s@.take(i + 1).drop_last() =~= s@.take(i as int));
        if s[i] == '*' {
            n = n + 1;
        }
        i = i + 1;
    }
    assert(s@.take(s@.len() as int) =~= s@);
    n
}

impl PackageExportRewriteData {
    /// Derives the rewrite data from the `exports` field of a package.json,
    /// entry by entry in order (see `add_export_entry`).
    pub fn try_from(exports_map: &PackageJsonExports) -> (r: Result<PackageExportRewriteData, AnyError>)
        ensures
            match (r, build_rewrite(exports_view(exports_map.entries@), exports_map.entries@.len() as int)) {
                (Ok(d), Ok(m)) => d@ == m,
                (Err(AnyError::Message(e)), Err(msg)) => e@ == msg,
                _ => false,
            },
    {
        let ghost ev = exports_view(exports_map.entries@);
        let mut data = PackageExportRewriteData {
            static_exports: Vec::new(),
            directory_exports: Vec::new(),
            star_exports: Vec::new(),
        };
        assert(data@ == build_rewrite(ev, 0)->Ok_0) by {
            assert(statics_view(data.static_exports@) =~= Seq::empty());
            assert(groups_view(data.directory_exports@) =~= Seq::empty());
            assert(groups_view(data.star_exports@) =~= Seq::empty());
        }
        let ds = str_chars("./");
        let dot = str_chars(".");
        let slash = str_chars("/");
        proof {
            reveal_strlit("./");
            reveal_strlit(".");
            reveal_strlit("/");
        }
        let mut n: usize = 0;
        while n < exports_map.entries.len()
            invariant
                ev == exports_view(exports_map.entries@),
                ds@ == "./"@,
                dot@ == "."@,
                slash@ == "/"@,
                0 <= n <= exports_map.entries@.len(),
                build_rewrite(ev, n as int) == Ok::<RewriteModel, Seq<char>>(data@),
            decreases exports_map.entries@.len() - n,
        {
            let path = &exports_map.entries[n].0;
            let exported = &exports_map.entries[n].1;
            let ghost m0 = data@;
            let ghost st_old = data.static_exports@;
            let ghost dir_old = data.directory_exports@;
            let ghost star_old = data.star_exports@;
            assert(ev[n as int] == (path@, export_view(*exported)));
            let pc = str_chars(path.as_str());
            if !chars_starts_with(pc.as_slice(), ds.as_slice()) && !chars_eq(pc.as_slice(), dot.as_slice()) {
                proof { lemma_build_rewrite_err(ev, n + 1, ev.len() as int); }
                return Err(AnyError::Message(
                    to_owned_string("package.json exports fields must either be '.' or start with './'"),
                ));
            }
            let targets = entry_targets_exec(exported);
            let ghost ts = targets_view(targets@);
            let cp = clean_path(path.as_str());
            let k = count_stars(pc.as_slice());
            if k == 0 && chars_ends_with(pc.as_slice(), slash.as_slice()) {
                let ghost dir0 = data@.directory_exports;
                let mut j: usize = 0;
                while j < targets.len()
                    invariant
                        ts == targets_view(targets@),
                        0 <= j <= targets@.len(),
                        groups_view(data.directory_exports@) == push_pattern_targets(dir0, cp@, ts, j as int),
                        data.static_exports@ == st_old,
                        data.star_exports@ == star_old,
                    decreases targets@.len() - j,
                {
                    assert(ts[j as int] == (targets@[j as int].0@, targets@[j as int].1@));
                    let t = clean_target_exec(&targets[j].1);
                    group_push_exec(&mut data.directory_exports, &targets[j].0, (cp.clone(), t));
                    j = j + 1;
                }
                assert(add_export_entry(m0, path@, export_view(*exported)) == Ok::<RewriteModel, Seq<char>>(data@));
            } else if k == 1 {
                let ghost star0 = data@.star_exports;
                let mut j: usize = 0;
                while j < targets.len()
                    invariant
                        ts == targets_view(targets@),
                        0 <= j <= targets@.len(),
                        groups_view(data.star_exports@) == push_pattern_targets(star0, cp@, ts, j as int),
                        data.static_exports@ == st_old,
                        data.directory_exports@ == dir_old,
                    decreases targets@.len() - j,
                {
                    assert(ts[j as int] == (targets@[j as int].0@, targets@[j as int].1@));
                    let t = clean_target_exec(&targets[j].1);
                    group_push_exec(&mut data.star_exports, &targets[j].0, (cp.clone(), t));
                    j = j + 1;
                }
                assert(add_export_entry(m0, path@, export_view(*exported)) == Ok::<RewriteModel, Seq<char>>(data@));
            } else if k > 1 {
                let mut msg = str_chars("Invalid star pattern '");
                push_all(&mut msg, pc.as_slice());
                let tail = str_chars("' in package.json exports field: Star patterns may contain at most a single star match.");
                push_all(&mut msg, tail.as_slice());
                proof { lemma_build_rewrite_err(ev, n + 1, ev.len() as int); }
                return Err(AnyError::Message(string_from_chars(msg.as_slice())));
            } else {
                let ghost st0 = data@.static_exports;
                let mut j: usize = 0;
                while j < targets.len()
                    invariant
                        ts == targets_view(targets@),
                        0 <= j <= targets@.len(),
                        statics_view(data.static_exports@) == insert_static_targets(st0, cp@, ts, j as int),
                        data.star_exports@ == star_old,
                        data.directory_exports@ == dir_old,
                    decreases targets@.len() - j,
                {
                    assert(ts[j as int] == (targets@[j as int].0@, targets@[j as int].1@));
                    let t = clean_target_exec(&targets[j].1);
                    static_insert_exec(&mut data.static_exports, (cp.clone(), targets[j].0.clone()), t);
                    j = j + 1;
                }
                assert(add_export_entry(m0, path@, export_view(*exported)) == Ok::<RewriteModel, Seq<char>>(data@));
            }
            n = n + 1;
        }
        Ok(data)
    }
}

} // verus!
