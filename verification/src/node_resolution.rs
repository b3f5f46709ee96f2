//! The decisions of node-style module resolution: which files are probed
//! and in what order, which package.json field gives a package's entry
//! point, how an import into `node_modules` is rewritten through the
//! `exports` field, and how the `browser` field replaces files. Probing
//! the file system is left to the caller.
use vstd::prelude::*;
use crate::exported_path::{ExportedPath, ExportedPathView};
use crate::js_err::AnyError;
use crate::package::{Browser, PackageJson, StringOrBool};
use crate::paths::{extension, lemma_last_index_of, lemma_stem_and_extension, file_segment, no_ext, path_push, spec_extension, spec_file_segment, spec_is_absolute, spec_no_ext, spec_push};
use crate::pkgjson_exports::{assoc_find, assoc_index, lemma_assoc_index_stable, spec_rewrite, ExportConditionView, PackageExportRewriteData};
use crate::pkgname::{spec_package_name, spec_package_subpath, split_package_import};
use crate::resolve::{is_core_module, node_builtin_names, TargetEnv};
use crate::text::{chars_eq, chars_starts_with, push_all, seq_starts_with, str_chars, string_from_chars, string_seq_views};

verus! {

/// What a `node_modules` directory remembers of an import: the file it
/// resolved to, or that it did not resolve there.
#[derive(Debug, Clone, PartialEq, Eq)]
pub enum CachedResolution {
    Resolution(String),
    NoResolution,
}

/// The final component of a path, when it has one (not empty, not `..`).
pub open spec fn spec_file_name(p: Seq<char>) -> Option<Seq<char>> {
    let f = spec_file_segment(p);
    if f.len() == 0 || f == ".."@ {
        None
    } else {
        Some(f)
    }
}

/// `PathBuf::set_extension`: the extension of the final component is
/// replaced or added; a path without a final component is unchanged.
pub open spec fn spec_set_extension(p: Seq<char>, ext: Seq<char>) -> Seq<char> {
    if spec_file_name(p) is None {
        p
    } else {
        spec_no_ext(p) + "."@ + ext
    }
}

/// The TypeScript sources that may stand behind a JavaScript extension.
pub open spec fn ts_alternate_exts(old: Option<Seq<char>>) -> Seq<Seq<char>> {
    match old {
        Some(e) => if e == "js"@ || e == "jsx"@ {
            seq!["ts"@, "tsx"@]
        } else if e == "mjs"@ {
            seq!["mts"@]
        } else if e == "cjs"@ {
            seq!["cts"@]
        } else {
            Seq::empty()
        },
        None => Seq::empty(),
    }
}

/// The files probed, in order, to resolve `path` as a file: the path
/// itself when it has an extension (else with `.js` first, then itself);
/// then the path with each configured extension appended; then, for a
/// `.js`/`.jsx`/`.mjs`/`.cjs` path, its TypeScript counterparts.
pub open spec fn spec_file_candidates(path: Seq<char>, exts: Seq<Seq<char>>) -> Seq<Seq<char>> {
    let first = if spec_extension(path) is Some {
        seq![path]
    } else {
        seq![spec_set_extension(path, "js"@), path]
    };
    match spec_file_name(path) {
        None => first,
        Some(_) => first
            + exts.map_values(|e: Seq<char>| path + "."@ + e)
            + ts_alternate_exts(spec_extension(path)).map_values(|e: Seq<char>| spec_set_extension(path, e)),
    }
}

proof fn lemma_candidates_of_stem(stem: Seq<char>, ext: Seq<char>, exts: Seq<Seq<char>>)
    requires
        stem.len() > 0,
        stem.last() != '/',
        ext.len() > 0,
        forall|j: int| 0 <= j < ext.len() ==> ext[j] != '.' && ext[j] != '/',
    ensures
        ({
            let path = stem + seq!['.'] + ext;
            let alts = ts_alternate_exts(Some(ext));
            let c = spec_file_candidates(path, exts);
            &&& c.len() == 1 + exts.len() + alts.len()
            &&& c[0] == path
            &&& forall|k: int| 0 <= k < exts.len() ==> c[1 + k] == path + "."@ + #[trigger] exts[k]
            &&& forall|k: int| 0 <= k < alts.len() ==> c[1 + exts.len() + k] == stem + seq!['.'] + #[trigger] alts[k]
        }),
{
    let path = stem + seq!['.'] + ext;
    lemma_stem_and_extension(stem, ext);
    let f = spec_file_segment(path);
    lemma_last_index_of(f, '.');
    reveal_strlit("..");
    assert(f != ".."@) by {
        assert(".."@ =~= seq!['.', '.']);
    }
    assert(f.len() > 0);
    assert(spec_file_name(path) is Some);
    reveal_strlit(".");
    let alts = ts_alternate_exts(Some(ext));
    let c = spec_file_candidates(path, exts);
    let first = seq![path];
    let mid = exts.map_values(|e: Seq<char>| path + "."@ + e);
    let last = alts.map_values(|e: Seq<char>| spec_set_extension(path, e));
    assert(c == first + mid + last);
    assert forall|k: int| 0 <= k < alts.len() implies c[1 + exts.len() + k] == stem + seq!['.'] + #[trigger] alts[k] by {
        assert(c[1 + exts.len() + k] == last[k]);
        assert("."@ == seq!['.']);
    }
    assert forall|k: int| 0 <= k < exts.len() implies c[1 + k] == path + "."@ + #[trigger] exts[k] by {
        assert(c[1 + k] == mid[k]);
    }
}

/// A script path is also looked for as its TypeScript source: after the
/// path itself and the path with each configured extension appended come,
/// for `x.js` and `x.jsx`, `x.ts` and then `x.tsx`; for `x.mjs`, `x.mts`;
/// for `x.cjs`, `x.cts`.
pub proof fn law_script_paths_also_try_typescript(stem: Seq<char>, ext: Seq<char>, exts: Seq<Seq<char>>)
    requires
        stem.len() > 0,
        stem.last() != '/',
        ext == "js"@ || ext == "jsx"@ || ext == "mjs"@ || ext == "cjs"@,
    ensures
        ({
            let path = stem + seq!['.'] + ext;
            let c = spec_file_candidates(path, exts);
            let n = exts.len() as int;
            &&& c[0] == path
            &&& forall|k: int| 0 <= k < n ==> c[1 + k] == path + "."@ + #[trigger] exts[k]
            &&& (ext == "js"@ || ext == "jsx"@) ==> c.len() == n + 3 && c[n + 1] == stem + ".ts"@ && c[n + 2] == stem + ".tsx"@
            &&& ext == "mjs"@ ==> c.len() == n + 2 && c[n + 1] == stem + ".mts"@
            &&& ext == "cjs"@ ==> c.len() == n + 2 && c[n + 1] == stem + ".cts"@
        }),
{
    reveal_strlit("js");
    reveal_strlit("jsx");
    reveal_strlit("mjs");
    reveal_strlit("cjs");
    reveal_strlit("ts");
    reveal_strlit("tsx");
    reveal_strlit("mts");
    reveal_strlit("cts");
    reveal_strlit(".ts");
    reveal_strlit(".tsx");
    reveal_strlit(".mts");
    reveal_strlit(".cts");
    lemma_candidates_of_stem(stem, ext, exts);
    let alts = ts_alternate_exts(Some(ext));
    let n = exts.len() as int;
    let c = spec_file_candidates(stem + seq!['.'] + ext, exts);
    if ext == "js"@ || ext == "jsx"@ {
        assert(alts == seq!["ts"@, "tsx"@]);
        assert(c[n + 1] == stem + seq!['.'] + alts[0]);
        assert(c[n + 2] == stem + seq!['.'] + alts[1]);
        assert(seq!['.'] + "ts"@ =~= ".ts"@);
        assert(seq!['.'] + "tsx"@ =~= ".tsx"@);
        assert(stem + seq!['.'] + "ts"@ =~= stem + ".ts"@);
        assert(stem + seq!['.'] + "tsx"@ =~= stem + ".tsx"@);
    }
    if ext == "mjs"@ {
        assert(ext.len() == 3 && ext[0] == 'm');
        assert("js"@.len() == 2 && "jsx"@[0] == 'j');
        assert(ext != "js"@ && ext != "jsx"@);
        assert(alts == seq!["mts"@]);
        assert(c[n + 1] == stem + seq!['.'] + alts[0]);
        assert(stem + seq!['.'] + "mts"@ =~= stem + ".mts"@);
    }
    if ext == "cjs"@ {
        assert(ext.len() == 3 && ext[0] == 'c');
        assert("js"@.len() == 2 && "jsx"@[0] == 'j' && "mjs"@[0] == 'm');
        assert(ext != "js"@ && ext != "jsx"@ && ext != "mjs"@);
        assert(alts == seq!["cts"@]);
        assert(c[n + 1] == stem + seq!['.'] + alts[0]);
        assert(stem + seq!['.'] + "cts"@ =~= stem + ".cts"@);
    }
}

/// A path with any other extension is looked for only as itself and with
/// each configured extension appended.
pub proof fn law_other_paths_try_no_alternates(stem: Seq<char>, ext: Seq<char>, exts: Seq<Seq<char>>)
    requires
        stem.len() > 0,
        stem.last() != '/',
        ext.len() > 0,
        forall|j: int| 0 <= j < ext.len() ==> ext[j] != '.' && ext[j] != '/',
        ext != "js"@ && ext != "jsx"@ && ext != "mjs"@ && ext != "cjs"@,
    ensures
        spec_file_candidates(stem + seq!['.'] + ext, exts).len() == exts.len() + 1,
        spec_file_candidates(stem + seq!['.'] + ext, exts)[0] == stem + seq!['.'] + ext,
        forall|k: int| 0 <= k < exts.len() ==> spec_file_candidates(stem + seq!['.'] + ext, exts)[1 + k]
            == stem + seq!['.'] + ext + "."@ + #[trigger] exts[k],
{
    lemma_candidates_of_stem(stem, ext, exts);
}

pub proof fn lemma_map_values_push<A, B>(s: Seq<A>, x: A, f: spec_fn(A) -> B)
    ensures
        s.push(x).map_values(f) =~= s.map_values(f).push(f(x)),
{
}

/// The final component of a path, when it has one.
pub fn file_name(p: &[char]) -> (r: Option<Vec<char>>)
    ensures
        match r {
            Some(f) => spec_file_name(p@) == Some(f@),
            None => spec_file_name(p@) is None,
        },
{
    let f = file_segment(p);
    let dd = str_chars("..");
    proof { reveal_strlit(".."); }
    if f.len() == 0 || chars_eq(f.as_slice(), dd.as_slice()) {
        None
    } else {
        Some(f)
    }
}

/// `path` with its extension set to `ext`.
pub fn set_extension(p: &[char], ext: &[char]) -> (r: Vec<char>)
    ensures
        r@ == spec_set_extension(p@, ext@),
{
    match file_name(p) {
        None => {
            let mut v: Vec<char> = Vec::new();
            push_all(&mut v, p);
            assert(v@ =~= p@);
            v
        },
        Some(_) => {
            let ps = string_from_chars(p);
            let stem = no_ext(ps.as_str());
            let mut v = str_chars(stem.as_str());
            v.push('.');
            push_all(&mut v, ext);
            proof { reveal_strlit("."); }
            assert(v@ =~= spec_no_ext(p@) + "."@ + ext@);
            v
        },
    }
}

/// The TypeScript alternates of an extension.
fn ts_alternates(old: &Option<Vec<char>>) -> (r: Vec<Vec<char>>)
    ensures
        r@.map_values(|v: Vec<char>| v@) == ts_alternate_exts(match old {
            Some(e) => Some(e@),
            None => None,
        }),
{
    let mut r: Vec<Vec<char>> = Vec::new();
    proof {
        reveal_strlit("js");
        reveal_strlit("jsx");
        reveal_strlit("mjs");
        reveal_strlit("cjs");
        reveal_strlit("ts");
        reveal_strlit("tsx");
        reveal_strlit("mts");
        reveal_strlit("cts");
    }
    match old {
        Some(e) => {
            let js = str_chars("js");
            let jsx = str_chars("jsx");
            let mjs = str_chars("mjs");
            let cjs = str_chars("cjs");
            if chars_eq(e.as_slice(), js.as_slice()) || chars_eq(e.as_slice(), jsx.as_slice()) {
                r.push(str_chars("ts"));
                r.push(str_chars("tsx"));
            } else if chars_eq(e.as_slice(), mjs.as_slice()) {
                r.push(str_chars("mts"));
            } else if chars_eq(e.as_slice(), cjs.as_slice()) {
                r.push(str_chars("cts"));
            }
        },
        None => {},
    }
    assert(r@.map_values(|v: Vec<char>| v@) =~= ts_alternate_exts(match old {
        Some(e) => Some(e@),
        None => None,
    }));
    r
}

/// The files to probe, in order, to resolve `path` as a file; the first
/// that exists is the resolution (see `spec_file_candidates`).
pub fn resolve_as_file_candidates(path: &str, extensions: &Vec<String>) -> (r: Vec<String>)
    ensures
        string_seq_views(r@) == spec_file_candidates(path@, string_seq_views(extensions@)),
{
    let p = str_chars(path);
    let ext = extension(p.as_slice());
    let mut out: Vec<String> = Vec::new();
    let ghost exts = string_seq_views(extensions@);
    let js = str_chars("js");
    proof { reveal_strlit("js"); reveal_strlit("."); }
    match ext {
        Some(_) => {
            out.push(path.to_string());
        },
        None => {
            let with_js = set_extension(p.as_slice(), js.as_slice());
            out.push(string_from_chars(with_js.as_slice()));
            out.push(path.to_string());
        },
    }
    let ghost first = string_seq_views(out@);
    assert(first =~= if spec_extension(path@) is Some {
        seq![path@]
    } else {
        seq![spec_set_extension(path@, "js"@), path@]
    });
    match file_name(p.as_slice()) {
        None => {
            out
        },
        Some(_) => {
            let mut i: usize = 0;
            while i < extensions.len()
                invariant
                    exts == string_seq_views(extensions@),
                    p@ == path@,
                    0 <= i <= extensions@.len(),
                    string_seq_views(out@) == first + exts.take(i as int).map_values(|e: Seq<char>| path@ + "."@ + e),
                decreases extensions@.len() - i,
            {
                let mut v: Vec<char> = Vec::new();
                push_all(&mut v, p.as_slice());
                v.push('.');
                let e = str_chars(extensions[i].as_str());
                push_all(&mut v, e.as_slice());
                let ghost f = |e: Seq<char>| path@ + "."@ + e;
                proof { reveal_strlit("."); }
                assert(exts[i as int] == extensions@[i as int]@);
                assert(v@ =~= f(exts[i as int]));
                let ghost before = out@;
                let item = string_from_chars(v.as_slice());
                out.push(item);
                proof {
                    lemma_map_values_push(before, item, |s: String| s@);
                    assert(exts.take(i + 1) =~= exts.take(i as int).push(exts[i as int]));
                    lemma_map_values_push(exts.take(i as int), exts[i as int], f);
                }
                i = i + 1;
                assert(string_seq_views(out@) =~= first + exts.take(i as int).map_values(f));
            }
            assert(exts.take(exts.len() as int) =~= exts);
            let ghost mid = string_seq_views(out@);
            let alts = ts_alternates(&ext);
            let ghost alt_exts = ts_alternate_exts(spec_extension(path@));
            assert(alts@.map_values(|v: Vec<char>| v@) == alt_exts);
            let mut j: usize = 0;
            while j < alts.len()
                invariant
                    p@ == path@,
                    alts@.map_values(|v: Vec<char>| v@) == alt_exts,
                    0 <= j <= alts@.len(),
                    string_seq_views(out@) == mid + alt_exts.take(j as int).map_values(|e: Seq<char>| spec_set_extension(path@, e)),
                decreases alts@.len() - j,
            {
                assert(alt_exts[j as int] == alts@[j as int]@);
                let v = set_extension(p.as_slice(), alts[j].as_slice());
                let ghost f = |e: Seq<char>| spec_set_extension(path@, e);
                let ghost before = out@;
                let item = string_from_chars(v.as_slice());
                out.push(item);
                proof {
                    lemma_map_values_push(before, item, |s: String| s@);
                    assert(alt_exts.take(j + 1) =~= alt_exts.take(j as int).push(alt_exts[j as int]));
                    lemma_map_values_push(alt_exts.take(j as int), alt_exts[j as int], f);
                }
                j = j + 1;
                assert(string_seq_views(out@) =~= mid + alt_exts.take(j as int).map_values(f));
            }
            assert(alt_exts.take(alt_exts.len() as int) =~= alt_exts);
            out
        },
    }
}

/// The index files probed, in order, to resolve a directory.
pub open spec fn spec_index_candidates(path: Seq<char>, exts: Seq<Seq<char>>) -> Seq<Seq<char>> {
    exts.map_values(|e: Seq<char>| spec_push(path, "index."@ + e))
}

/// The index files to probe, in order, for the directory `path`.
pub fn directory_index_candidates(path: &str, extensions: &Vec<String>) -> (r: Vec<String>)
    ensures
        string_seq_views(r@) == spec_index_candidates(path@, string_seq_views(extensions@)),
{
    let p = str_chars(path);
    let ghost exts = string_seq_views(extensions@);
    let mut out: Vec<String> = Vec::new();
    proof { reveal_strlit("index."); }
    let mut i: usize = 0;
    while i < extensions.len()
        invariant
            exts == string_seq_views(extensions@),
            p@ == path@,
            0 <= i <= extensions@.len(),
            string_seq_views(out@) == exts.take(i as int).map_values(|e: Seq<char>| spec_push(path@, "index."@ + e)),
        decreases extensions@.len() - i,
    {
        let mut name = str_chars("index.");
        let e = str_chars(extensions[i].as_str());
        push_all(&mut name, e.as_slice());
        let full = path_push(p.as_slice(), name.as_slice());
        let ghost f = |e: Seq<char>| spec_push(path@, "index."@ + e);
        assert(exts[i as int] == extensions@[i as int]@);
        assert(name@ =~= "index."@ + exts[i as int]);
        let ghost before = out@;
        let item = string_from_chars(full.as_slice());
        out.push(item);
        proof {
            lemma_map_values_push(before, item, |s: String| s@);
            assert(exts.take(i + 1) =~= exts.take(i as int).push(exts[i as int]));
            lemma_map_values_push(exts.take(i as int), exts[i as int], f);
        }
        i = i + 1;
        assert(string_seq_views(out@) =~= exts.take(i as int).map_values(f));
    }
    assert(exts.take(exts.len() as int) =~= exts);
    out
}


/// The name of an export condition, as it is displayed.
pub open spec fn condition_text(k: ExportConditionView) -> Seq<char> {
    match k {
        ExportConditionView::Default => "default"@,
        ExportConditionView::Condition(c) => c,
    }
}

/// A set of paths as an insertion-ordered sequence.
pub open spec fn set_insert(s: Seq<Seq<char>>, x: Seq<char>) -> Seq<Seq<char>> {
    if s.contains(x) {
        s
    } else {
        s.push(x)
    }
}

/// Replacements from the `browser` field of a package.json: files of the
/// package replaced by other files or ignored, and modules replaced or
/// ignored.
#[derive(Debug)]
pub struct BrowserCache {
    pub rewrites: Vec<(String, String)>,
    pub ignores: Vec<String>,
    pub module_rewrites: Vec<(String, String)>,
    pub module_ignores: Vec<String>,
}

pub struct BrowserCacheView {
    pub rewrites: Seq<(Seq<char>, Seq<char>)>,
    pub ignores: Seq<Seq<char>>,
    pub module_rewrites: Seq<(Seq<char>, Seq<char>)>,
    pub module_ignores: Seq<Seq<char>>,
}

pub open spec fn pairs_view(v: Seq<(String, String)>) -> Seq<(Seq<char>, Seq<char>)> {
    v.map_values(|p: (String, String)| (p.0@, p.1@))
}

impl View for BrowserCache {
    type V = BrowserCacheView;

    open spec fn view(&self) -> BrowserCacheView {
        BrowserCacheView {
            rewrites: pairs_view(self.rewrites@),
            ignores: string_seq_views(self.ignores@),
            module_rewrites: pairs_view(self.module_rewrites@),
            module_ignores: string_seq_views(self.module_ignores@),
        }
    }
}

/// The value of one entry of the `browser` map, once resolved: the file
/// its target resolved to (`None`: the target resolved to nothing), or
/// the boolean flag.
pub enum BrowserEntryValue {
    Target(Option<String>),
    Flag(bool),
}

/// One entry of the `browser` map added to the replacements: a resolved
/// target replaces the entry's source file (when its key is a path of
/// the package that resolved) or else the module named by the key; `false`
/// ignores the source file or module; `true` is ignored.
pub open spec fn spec_add_browser_entry(b: BrowserCacheView, key: Seq<char>, source: Option<Seq<char>>, value: BrowserEntryValueView) -> BrowserCacheView {
    match value {
        BrowserEntryValueView::Target(Some(t)) => match source {
            Some(src) => BrowserCacheView { rewrites: assoc_insert_pairs(b.rewrites, src, t), ..b },
            None => BrowserCacheView { module_rewrites: assoc_insert_pairs(b.module_rewrites, key, t), ..b },
        },
        BrowserEntryValueView::Target(None) => b,
        BrowserEntryValueView::Flag(flag) => if flag {
            b
        } else {
            match source {
                Some(src) => BrowserCacheView { ignores: set_insert(b.ignores, src), ..b },
                None => BrowserCacheView { module_ignores: set_insert(b.module_ignores, key), ..b },
            }
        },
    }
}

pub enum BrowserEntryValueView {
    Target(Option<Seq<char>>),
    Flag(bool),
}

pub open spec fn browser_entry_view(v: BrowserEntryValue) -> BrowserEntryValueView {
    match v {
        BrowserEntryValue::Target(Some(t)) => BrowserEntryValueView::Target(Some(t@)),
        BrowserEntryValue::Target(None) => BrowserEntryValueView::Target(None),
        BrowserEntryValue::Flag(f) => BrowserEntryValueView::Flag(f),
    }
}

/// Insertion into a map of paths: an existing key's value is replaced.
pub open spec fn assoc_insert_pairs(s: Seq<(Seq<char>, Seq<char>)>, k: Seq<char>, v: Seq<char>) -> Seq<(Seq<char>, Seq<char>)> {
    match assoc_find(s, k) {
        Some(i) => s.update(i, (k, v)),
        None => s.push((k, v)),
    }
}

/// The entry of `pairs` whose key is `k`.
pub(crate) fn find_pair(pairs: &Vec<(String, String)>, k: &[char]) -> (r: Option<usize>)
    ensures
        match r {
            Some(i) => assoc_find(pairs_view(pairs@), k@) == Some(i as int) && i < pairs@.len(),
            None => assoc_find(pairs_view(pairs@), k@) is None,
        },
{
    let ghost pv = pairs_view(pairs@);
    let mut i: usize = 0;
    while i < pairs.len()
        invariant
            pv == pairs_view(pairs@),
            0 <= i <= pairs@.len(),
            assoc_index(pv, k@, i as int) is None,
        decreases pairs@.len() - i,
    {
        let key = str_chars(pairs[i].0.as_str());
        assert(pv[i as int].0 == pairs@[i as int].0@);
        if chars_eq(key.as_slice(), k) {
            proof { lemma_assoc_index_stable(pv, k@, i + 1, pv.len() as int); }
            return Some(i);
        }
        i = i + 1;
    }
    None
}

pub(crate) fn pairs_insert(pairs: &mut Vec<(String, String)>, k: String, v: String)
    ensures
        pairs_view(final(pairs)@) == assoc_insert_pairs(pairs_view(old(pairs)@), k@, v@),
{
    let kc = str_chars(k.as_str());
    let ghost p0 = pairs_view(pairs@);
    let ghost kv = k@;
    let ghost vv = v@;
    match find_pair(pairs, kc.as_slice()) {
        Some(i) => {
            pairs.set(i, (k, v));
            assert(pairs_view(pairs@) =~= p0.update(i as int, (kv, vv)));
        },
        None => {
            pairs.push((k, v));
            assert(pairs_view(pairs@) =~= p0.push((kv, vv)));
        },
    }
}

/// Whether `s` holds a string equal to `x`.
pub fn strings_contain(s: &Vec<String>, x: &[char]) -> (r: bool)
    ensures
        r == string_seq_views(s@).contains(x@),
{
    let ghost sv = string_seq_views(s@);
    let mut i: usize = 0;
    while i < s.len()
        invariant
            sv == string_seq_views(s@),
            0 <= i <= s@.len(),
            forall|j: int| 0 <= j < i ==> sv[j] != x@,
        decreases s@.len() - i,
    {
        let c = str_chars(s[i].as_str());
        assert(sv[i as int] == s@[i as int]@);
        if chars_eq(c.as_slice(), x) {
            assert(sv[i as int] == x@);
            return true;
        }
        i = i + 1;
    }
    false
}

fn strings_insert(s: &mut Vec<String>, x: String)
    ensures
        string_seq_views(final(s)@) == set_insert(string_seq_views(old(s)@), x@),
{
    let xc = str_chars(x.as_str());
    if !strings_contain(s, xc.as_slice()) {
        let ghost s0 = string_seq_views(s@);
        let ghost xv = x@;
        s.push(x);
        assert(string_seq_views(s@) =~= s0.push(xv));
    }
}

impl BrowserCache {
    /// No replacements.
    pub fn new() -> (r: BrowserCache)
        ensures
            r@.rewrites.len() == 0,
            r@.ignores.len() == 0,
            r@.module_rewrites.len() == 0,
            r@.module_ignores.len() == 0,
    {
        BrowserCache { rewrites: Vec::new(), ignores: Vec::new(), module_rewrites: Vec::new(), module_ignores: Vec::new() }
    }

    /// Adds one entry of the `browser` map (see `spec_add_browser_entry`).
    pub fn add_entry(&mut self, key: &String, source: Option<String>, value: BrowserEntryValue)
        ensures
            final(self)@ == spec_add_browser_entry(old(self)@, key@, match source {
                Some(s) => Some(s@),
                None => None,
            }, browser_entry_view(value)),
    {
        match value {
            BrowserEntryValue::Target(Some(t)) => match source {
                Some(src) => pairs_insert(&mut self.rewrites, src, t),
                None => pairs_insert(&mut self.module_rewrites, key.clone(), t),
            },
            BrowserEntryValue::Target(None) => {},
            BrowserEntryValue::Flag(flag) => {
                if !flag {
                    match source {
                        Some(src) => strings_insert(&mut self.ignores, src),
                        None => strings_insert(&mut self.module_ignores, key.clone()),
                    }
                }
            },
        }
    }
}

/// Data derived from a package.json to rewrite requests for its files.
#[derive(Debug)]
pub struct PackageJsonRewriteData {
    pub browser_cache: Option<BrowserCache>,
    pub exports: Option<PackageExportRewriteData>,
}

/// A file of the package replaced through the `browser` field: a replaced
/// file that is not also ignored becomes its replacement.
pub open spec fn spec_rewrite_browser(b: Option<BrowserCacheView>, abs_path: Seq<char>) -> Seq<char> {
    match b {
        Some(bc) => match assoc_find(bc.rewrites, abs_path) {
            Some(i) => if bc.ignores.contains(abs_path) { abs_path } else { bc.rewrites[i].1 },
            None => abs_path,
        },
        None => abs_path,
    }
}

impl PackageJsonRewriteData {
    /// Rewrites an absolute path through the `browser` field, if any.
    pub fn rewrite_browser(&self, abs_path: &str) -> (r: Result<String, AnyError>)
        ensures
            r matches Ok(p) && p@ == spec_rewrite_browser(match self.browser_cache {
                Some(b) => Some(b@),
                None => None,
            }, abs_path@),
    {
        match &self.browser_cache {
            Some(bc) => {
                let a = str_chars(abs_path);
                match find_pair(&bc.rewrites, a.as_slice()) {
                    Some(i) => {
                        assert(bc@.rewrites[i as int] == (bc.rewrites@[i as int].0@, bc.rewrites@[i as int].1@));
                        if strings_contain(&bc.ignores, a.as_slice()) {
                            Ok(abs_path.to_string())
                        } else {
                            Ok(bc.rewrites[i].1.clone())
                        }
                    },
                    None => Ok(abs_path.to_string()),
                }
            },
            None => Ok(abs_path.to_string()),
        }
    }
}

pub open spec fn opt_view(o: Option<String>) -> Option<Seq<char>> {
    match o {
        Some(s) => Some(s@),
        None => None,
    }
}

/// The package.json field that names the entry point: `module`, else
/// `main`; in a browser, a string `browser` field comes first.
pub open spec fn spec_main_field(env: TargetEnv, pkg: PackageJson) -> Option<Seq<char>> {
    let fallback = if pkg.module is Some { opt_view(pkg.module) } else { opt_view(pkg.main) };
    match env {
        TargetEnv::Node => fallback,
        TargetEnv::Browser => match pkg.browser {
            Some(Browser::Str(p)) => Some(p@),
            _ => fallback,
        },
    }
}

pub open spec fn private_index_text(k: ExportConditionView, pkg_path: Seq<char>) -> Seq<char> {
    "Index export is marked as private by export '"@ + condition_text(k) + "' in "@ + pkg_path
}

pub open spec fn unrecognized_index_text() -> Seq<char> {
    "Index export had an unrecognized format and will be treated as private during resolution"@
}

pub open spec fn opt_model(o: Option<PackageExportRewriteData>) -> Option<crate::pkgjson_exports::RewriteModel> {
    match o {
        Some(d) => Some(d@),
        None => None,
    }
}

/// The path a package's entry point is resolved from (as a file, then as
/// a directory): the `.` export when the `exports` field has one (an error
/// when it is private or unrecognized), else the main field; `None` when
/// there is neither.
pub open spec fn spec_package_entry(pkg_dir: Seq<char>, pkg_path: Seq<char>, pkg: PackageJson, exports: Option<crate::pkgjson_exports::RewriteModel>,
    env: TargetEnv, conds: Seq<Seq<char>>) -> Result<Option<Seq<char>>, Seq<char>>
{
    let main = match spec_main_field(env, pkg) {
        Some(t) => Ok(Some(spec_push(pkg_dir, t))),
        None => Ok(None),
    };
    match exports {
        None => main,
        Some(m) => match spec_rewrite(m, "."@, conds) {
            None => main,
            Some((ExportedPathView::Exported(rel), _)) => Ok(Some(spec_push(pkg_dir, rel))),
            Some((ExportedPathView::Private, k)) => Err(private_index_text(k, pkg_path)),
            Some((ExportedPathView::Unrecognized, _)) => Err(unrecognized_index_text()),
        },
    }
}

pub(crate) fn push_joined(dir: &str, rel: &str) -> (r: String)
    ensures
        r@ == spec_push(dir@, rel@),
{
    let d = str_chars(dir);
    let p = str_chars(rel);
    let j = path_push(d.as_slice(), p.as_slice());
    string_from_chars(j.as_slice())
}

/// The path a package's entry point is resolved from (see
/// `spec_package_entry`).
pub fn package_entry_path(
    pkg_dir: &str,
    pkg_path: &str,
    pkg: &PackageJson,
    rewrite: &PackageJsonRewriteData,
    target_env: TargetEnv,
    export_conditions: &Vec<String>,
) -> (r: Result<Option<String>, AnyError>)
    ensures
        match (r, spec_package_entry(pkg_dir@, pkg_path@, *pkg, opt_model(rewrite.exports), target_env, string_seq_views(export_conditions@))) {
            (Ok(Some(p)), Ok(Some(q))) => p@ == q,
            (Ok(None), Ok(None)) => true,
            (Err(AnyError::Message(e)), Err(m)) => e@ == m,
            _ => false,
        },
{
    match &rewrite.exports {
        Some(rd) => {
            match rd.rewrite_relative_export(".", export_conditions) {
                Ok(Some(me)) => {
                    match &me.rewritten_export {
                        ExportedPath::Exported(rel) => {
                            return Ok(Some(push_joined(pkg_dir, rel.as_str())));
                        },
                        ExportedPath::Private => {
                            let mut msg = str_chars("Index export is marked as private by export '");
                            let k = me.export_kind.to_display_string();
                            let kc = str_chars(k.as_str());
                            push_all(&mut msg, kc.as_slice());
                            let mid = str_chars("' in ");
                            push_all(&mut msg, mid.as_slice());
                            let pp = str_chars(pkg_path);
                            push_all(&mut msg, pp.as_slice());
                            return Err(AnyError::Message(string_from_chars(msg.as_slice())));
                        },
                        ExportedPath::Unrecognized => {
                            return Err(AnyError::Message(
                                "Index export had an unrecognized format and will be treated as private during resolution".to_string(),
                            ));
                        },
                    }
                },
                _ => {},
            }
        },
        None => {},
    }
    let target: Option<&String> = match target_env {
        TargetEnv::Node => if pkg.module.is_some() { pkg.module.as_ref() } else { pkg.main.as_ref() },
        TargetEnv::Browser => match &pkg.browser {
            Some(Browser::Str(p)) => Some(p),
            _ => if pkg.module.is_some() { pkg.module.as_ref() } else { pkg.main.as_ref() },
        },
    };
    match target {
        Some(t) => Ok(Some(push_joined(pkg_dir, t.as_str()))),
        None => Ok(None),
    }
}

pub open spec fn private_import_text(target: Seq<char>, k: ExportConditionView, pkg_json: Seq<char>) -> Seq<char> {
    "Import '"@ + target + "' is marked as private by export '"@ + condition_text(k) + "' in "@ + pkg_json
}

pub open spec fn unrecognized_import_text(target: Seq<char>, k: ExportConditionView, pkg_json: Seq<char>) -> Seq<char> {
    "Import '"@ + target + "' matched export '"@ + condition_text(k) + "' in "@ + pkg_json
        + ", which has an unrecognized export format. It will be treated as private"@
}

/// The file path an import is resolved from within one `node_modules`
/// directory: the package's export of the imported subpath when its
/// package.json has an `exports` field that matches it (an error when that
/// export is private or unrecognized), else `node_modules/<import>`;
/// `None` when the import does not name a package.
pub open spec fn spec_node_modules_target(nm_dir: Seq<char>, target: Seq<char>, exports: Option<crate::pkgjson_exports::RewriteModel>,
    conds: Seq<Seq<char>>) -> Result<Option<Seq<char>>, Seq<char>>
{
    match spec_package_name(target) {
        None => Ok(None),
        Some(pkg_name) => {
            let rel = spec_package_subpath(target, pkg_name);
            let nm = spec_push(nm_dir, "node_modules"@);
            let nm_pkg = spec_push(nm, pkg_name);
            let plain = Ok(Some(spec_push(nm, target)));
            match exports {
                None => plain,
                Some(m) => match spec_rewrite(m, rel, conds) {
                    None => plain,
                    Some((ExportedPathView::Exported(p), _)) => Ok(Some(spec_push(nm_pkg, p))),
                    Some((ExportedPathView::Private, k)) => Err(private_import_text(target, k, spec_push(nm_pkg, "package.json"@))),
                    Some((ExportedPathView::Unrecognized, k)) => Err(unrecognized_import_text(target, k, spec_push(nm_pkg, "package.json"@))),
                },
            }
        },
    }
}

/// The file path an import is resolved from within the `node_modules`
/// directory under `nm_dir_path` (see `spec_node_modules_target`);
/// `rewrite` is the derived data of the package's package.json, if it
/// has one.
pub fn node_modules_target(
    nm_dir_path: &str,
    target: &str,
    rewrite: Option<&PackageJsonRewriteData>,
    export_conditions: &Vec<String>,
) -> (r: Result<Option<String>, AnyError>)
    ensures
        match (r, spec_node_modules_target(nm_dir_path@, target@, match rewrite {
            Some(rw) => opt_model(rw.exports),
            None => None,
        }, string_seq_views(export_conditions@))) {
            (Ok(Some(p)), Ok(Some(q))) => p@ == q,
            (Ok(None), Ok(None)) => true,
            (Err(AnyError::Message(e)), Err(m)) => e@ == m,
            _ => false,
        },
{
    let (package_name, rel_import) = match split_package_import(target) {
        Some(x) => x,
        None => { return Ok(None); },
    };
    let nm = push_joined(nm_dir_path, "node_modules");
    let nm_pkg = push_joined(nm.as_str(), package_name);
    let plain = push_joined(nm.as_str(), target);
    match rewrite {
        Some(rw) => match &rw.exports {
            Some(rd) => match rd.rewrite_relative_export(rel_import.as_str(), export_conditions) {
                Ok(Some(me)) => {
                    let pkg_json = push_joined(nm_pkg.as_str(), "package.json");
                    let k = me.export_kind.to_display_string();
                    match &me.rewritten_export {
                        ExportedPath::Exported(p) => Ok(Some(push_joined(nm_pkg.as_str(), p.as_str()))),
                        ExportedPath::Private => {
                            let mut msg = str_chars("Import '");
                            let t = str_chars(target);
                            push_all(&mut msg, t.as_slice());
                            let a = str_chars("' is marked as private by export '");
                            push_all(&mut msg, a.as_slice());
                            let kc = str_chars(k.as_str());
                            push_all(&mut msg, kc.as_slice());
                            let b = str_chars("' in ");
                            push_all(&mut msg, b.as_slice());
                            let pj = str_chars(pkg_json.as_str());
                            push_all(&mut msg, pj.as_slice());
                            Err(AnyError::Message(string_from_chars(msg.as_slice())))
                        },
                        ExportedPath::Unrecognized => {
                            let mut msg = str_chars("Import '");
                            let t = str_chars(target);
                            push_all(&mut msg, t.as_slice());
                            let a = str_chars("' matched export '");
                            push_all(&mut msg, a.as_slice());
                            let kc = str_chars(k.as_str());
                            push_all(&mut msg, kc.as_slice());
                            let b = str_chars("' in ");
                            push_all(&mut msg, b.as_slice());
                            let pj = str_chars(pkg_json.as_str());
                            push_all(&mut msg, pj.as_slice());
                            let c = str_chars(", which has an unrecognized export format. It will be treated as private");
                            push_all(&mut msg, c.as_slice());
                            Err(AnyError::Message(string_from_chars(msg.as_slice())))
                        },
                    }
                },
                _ => Ok(Some(plain)),
            },
            None => Ok(Some(plain)),
        },
        None => Ok(Some(plain)),
    }
}

/// How a module specifier is resolved once the importer is known.
#[derive(Debug, PartialEq, Eq)]
pub enum ModuleTarget {
    /// A built-in module of node, by its `node:` name.
    Builtin(String),
    /// An absolute path.
    Absolute(String),
    /// A path relative to the importer's directory.
    Relative(String),
    /// A package looked up in the `node_modules` directories above.
    NodeModules(String),
}

pub enum ModuleTargetView {
    Builtin(Seq<char>),
    Absolute(Seq<char>),
    Relative(Seq<char>),
    NodeModules(Seq<char>),
}

pub open spec fn module_target_view(t: ModuleTarget) -> ModuleTargetView {
    match t {
        ModuleTarget::Builtin(s) => ModuleTargetView::Builtin(s@),
        ModuleTarget::Absolute(s) => ModuleTargetView::Absolute(s@),
        ModuleTarget::Relative(s) => ModuleTargetView::Relative(s@),
        ModuleTarget::NodeModules(s) => ModuleTargetView::NodeModules(s@),
    }
}

/// A path whose first component is `.` or `..`.
pub open spec fn starts_with_dot_component(t: Seq<char>) -> bool {
    t == "."@ || t == ".."@ || seq_starts_with(t, "./"@) || seq_starts_with(t, "../"@)
}

/// For node, `node:` specifiers and the names of built-in modules are
/// built-ins; otherwise the specifier, replaced by its alias when it has
/// one, is an absolute path, a path relative to the importer (first
/// component `.` or `..`), or a package.
pub open spec fn spec_classify_module(env: TargetEnv, spec: Seq<char>, alias: Seq<(Seq<char>, Seq<char>)>) -> ModuleTargetView {
    if env == TargetEnv::Node && seq_starts_with(spec, "node:"@) {
        ModuleTargetView::Builtin(spec)
    } else if env == TargetEnv::Node && node_builtin_names().contains(spec) {
        ModuleTargetView::Builtin("node:"@ + spec)
    } else {
        let target = match assoc_find(alias, spec) {
            Some(i) => alias[i].1,
            None => spec,
        };
        if spec_is_absolute(target) {
            ModuleTargetView::Absolute(target)
        } else if starts_with_dot_component(target) {
            ModuleTargetView::Relative(target)
        } else {
            ModuleTargetView::NodeModules(target)
        }
    }
}

/// Classifies a module specifier (see `spec_classify_module`).
pub fn classify_module_target(target_env: TargetEnv, module_specifier: &str, alias: &Vec<(String, String)>) -> (r: ModuleTarget)
    ensures
        module_target_view(r) == spec_classify_module(target_env, module_specifier@, pairs_view(alias@)),
{
    let s = str_chars(module_specifier);
    let node_prefix = str_chars("node:");
    proof {
        reveal_strlit("node:");
        reveal_strlit(".");
        reveal_strlit("..");
        reveal_strlit("./");
        reveal_strlit("../");
    }
    if target_env == TargetEnv::Node {
        if chars_starts_with(s.as_slice(), node_prefix.as_slice()) {
            return ModuleTarget::Builtin(module_specifier.to_string());
        }
        if is_core_module(module_specifier) {
            let mut v = str_chars("node:");
            push_all(&mut v, s.as_slice());
            return ModuleTarget::Builtin(string_from_chars(v.as_slice()));
        }
    }
    let target: String = match find_pair(alias, s.as_slice()) {
        Some(i) => {
            assert(pairs_view(alias@)[i as int] == (alias@[i as int].0@, alias@[i as int].1@));
            alias[i].1.clone()
        },
        None => module_specifier.to_string(),
    };
    let t = str_chars(target.as_str());
    if t.len() > 0 && t[0] == '/' {
        return ModuleTarget::Absolute(target);
    }
    let dot = str_chars(".");
    let dotdot = str_chars("..");
    let ds = str_chars("./");
    let dds = str_chars("../");
    if chars_eq(t.as_slice(), dot.as_slice()) || chars_eq(t.as_slice(), dotdot.as_slice())
        || chars_starts_with(t.as_slice(), ds.as_slice()) || chars_starts_with(t.as_slice(), dds.as_slice()) {
        ModuleTarget::Relative(target)
    } else {
        ModuleTarget::NodeModules(target)
    }
}

} // verus!
