//! Resolution of import specifiers written in TypeScript sources, against
//! the `paths` of a `tsconfig.json`.
use vstd::prelude::*;
use crate::paths::{
    cleaned_path, clean_path_string, extension, lemma_ancestors_are_prefixes, normalized_relative_path,
    path_ancestors, relative_join, relative_normalize, relative_parent, relative_parent_of,
    spec_ancestors, spec_extension, spec_relative_push,
};
use crate::text::{
    bracket_list, chars_eq, chars_ends_with, chars_starts_with, chars_sub, push_all, push_bracket_list,
    seq_ends_with, seq_starts_with, str_chars, string_from_chars, string_seq_views,
};
use crate::tsconfig::{path_entries, TsconfigPathsJson};

verus! {

/// What an import specifier resolves to.
#[derive(Debug, PartialEq, Eq)]
pub enum ResolvedImport {
    /// A package from `node_modules`, by its specifier.
    NodeModulesImport(String),
    /// A file of the project, by its workspace-relative path.
    ProjectLocalImport(String),
    /// A stylesheet, image or other non-source file.
    ResourceFileImport,
}

/// A resolution, with its paths as character sequences.
pub enum ResolvedView {
    NodeModules(Seq<char>),
    ProjectLocal(Seq<char>),
    ResourceFile,
}

pub open spec fn resolved_view(r: ResolvedImport) -> ResolvedView {
    match r {
        ResolvedImport::NodeModulesImport(s) => ResolvedView::NodeModules(s@),
        ResolvedImport::ProjectLocalImport(s) => ResolvedView::ProjectLocal(s@),
        ResolvedImport::ResourceFileImport => ResolvedView::ResourceFile,
    }
}

/// The specifier actually resolved: directory imports (`.../`, `.`, `..`)
/// point at their `index`.
pub open spec fn spec_import_specifier(raw: Seq<char>) -> Seq<char> {
    if raw.len() > 0 && raw.last() == '/' {
        raw + "index"@
    } else if raw == "."@ || raw == ".."@ {
        raw + "/index"@
    } else {
        raw
    }
}

/// The specifier has an extension other than `ts`/`tsx`.
pub open spec fn has_resource_extension(s: Seq<char>) -> bool {
    match spec_extension(s) {
        Some(e) => e != "tsx"@ && e != "ts"@,
        None => false,
    }
}

/// `i` is the first `paths` entry with key `key`.
pub open spec fn is_first_path_key(entries: Seq<(String, Vec<String>)>, key: Seq<char>, i: int) -> bool {
    &&& 0 <= i < entries.len()
    &&& entries[i].0@ == key
    &&& forall|j: int| 0 <= j < i ==> entries[j].0@ != key
}

/// The `paths` entry with key `key`.
pub open spec fn lookup_paths(entries: Seq<(String, Vec<String>)>, key: Seq<char>) -> Option<int> {
    if exists|i: int| is_first_path_key(entries, key, i) {
        Some(choose|i: int| is_first_path_key(entries, key, i))
    } else {
        None
    }
}

/// A path taken from `tsconfig.paths`, under `baseUrl` when there is one,
/// lexically cleaned.
pub open spec fn spec_path_from_tsconfig(base_url: Option<Seq<char>>, s: Seq<char>) -> Seq<char> {
    match base_url {
        Some(b) => cleaned_path(spec_relative_push(spec_relative_push(Seq::empty(), b), s)),
        None => cleaned_path(s),
    }
}

/// The replacement of a `prefix/*` entry applied to the specifier.
pub open spec fn spec_switch_specifier_prefix(matched: Seq<char>, replace: Seq<char>, specifier: Seq<char>) -> Seq<char> {
    if !seq_ends_with(replace, "/*"@) {
        replace
    } else {
        replace.subrange(0, replace.len() - 2) + specifier.subrange(matched.len() - 2, specifier.len() as int)
    }
}

/// Error text for a `paths` entry that does not hold exactly one path.
pub open spec fn multiple_entries_text(entries: Seq<Seq<char>>, stub_text: Seq<char>) -> Seq<char> {
    "Expected all members of paths: to have a single entry, but got "@ + bracket_list(entries)
        + " for stub "@ + stub_text
}

/// The first ancestor of the specifier (nearest first) that `paths` maps,
/// exactly or as `stub/*`, decides the resolution.
pub open spec fn tsconfig_match(ts: TsconfigPathsJson, s: Seq<char>, ancs: Seq<Seq<char>>) -> Option<Result<Seq<char>, Seq<char>>>
    decreases ancs.len(),
{
    if ancs.len() == 0 {
        None
    } else {
        let entries = path_entries(ts);
        let base = match ts.compiler_options.base_url {
            Some(b) => Some(b@),
            None => None,
        };
        let stub = ancs[0];
        match lookup_paths(entries, stub) {
            Some(i) => {
                let e = string_seq_views(entries[i].1@);
                if e.len() != 1 {
                    Some(Err(multiple_entries_text(e, "Some("@ + bracket_list(e) + ")"@)))
                } else {
                    Some(Ok(spec_path_from_tsconfig(base, e[0])))
                }
            },
            None => {
                let star = stub + "/*"@;
                match lookup_paths(entries, star) {
                    Some(i) => {
                        let e = string_seq_views(entries[i].1@);
                        if e.len() != 1 {
                            Some(Err(multiple_entries_text(e, "None"@)))
                        } else {
                            Some(Ok(spec_path_from_tsconfig(base, spec_switch_specifier_prefix(star, e[0], s))))
                        }
                    },
                    None => tsconfig_match(ts, s, ancs.drop_first()),
                }
            },
        }
    }
}

/// How `resolve_ts_import` resolves `raw` imported from `initial_path`.
pub open spec fn spec_resolve_ts_import(ts: TsconfigPathsJson, initial_path: Seq<char>, raw: Seq<char>) -> Result<ResolvedView, Seq<char>> {
    let s = spec_import_specifier(raw);
    if has_resource_extension(s) {
        Ok(ResolvedView::ResourceFile)
    } else if seq_starts_with(s, "."@) {
        match relative_parent_of(initial_path) {
            None => Err("source path "@ + initial_path + " had no parent?"@),
            Some(p) => Ok(ResolvedView::ProjectLocal(normalized_relative_path(spec_relative_push(p, s)))),
        }
    } else {
        match tsconfig_match(ts, s, spec_ancestors(s)) {
            Some(Ok(p)) => Ok(ResolvedView::ProjectLocal(p)),
            Some(Err(m)) => Err(m),
            None => Ok(ResolvedView::NodeModules(s)),
        }
    }
}

/// Replaces the matched `prefix/*` of the specifier by the replacement's
/// prefix; replacements without a trailing `/*` are taken as they are.
fn switch_specifier_prefix(matched_star_path: &str, replace_star_path: &str, import_specifier: &str) -> (r: String)
    requires
        matched_star_path@.len() >= 2,
        matched_star_path@.len() - 2 <= import_specifier@.len(),
    ensures
        r@ == spec_switch_specifier_prefix(matched_star_path@, replace_star_path@, import_specifier@),
{
    let rep = str_chars(replace_star_path);
    let tail = str_chars("/*");
    if !chars_ends_with(rep.as_slice(), tail.as_slice()) {
        return string_from_chars(rep.as_slice());
    }
    proof { reveal_strlit("/*"); }
    let m = str_chars(matched_star_path);
    let spec = str_chars(import_specifier);
    let mut out = chars_sub(rep.as_slice(), 0, rep.len() - 2);
    let trailing = chars_sub(spec.as_slice(), m.len() - 2, spec.len());
    push_all(&mut out, trailing.as_slice());
    string_from_chars(out.as_slice())
}

/// A path from `tsconfig.paths`, under `baseUrl` when there is one, cleaned.
fn path_buf_from_tsconfig(ts: &TsconfigPathsJson, specifier_from_tsconfig_paths: &str) -> (r: String)
    ensures
        r@ == spec_path_from_tsconfig(
            match ts.compiler_options.base_url { Some(b) => Some(b@), None => None },
            specifier_from_tsconfig_paths@,
        ),
{
    proof { reveal_strlit(""); }
    match &ts.compiler_options.base_url {
        Some(base_url) => {
            let b = relative_join("", base_url.as_str());
            let joined = relative_join(b.as_str(), specifier_from_tsconfig_paths);
            clean_path_string(joined.as_str())
        },
        None => clean_path_string(specifier_from_tsconfig_paths),
    }
}

fn lookup_paths_exec(ts: &TsconfigPathsJson, key: &[char]) -> (r: Option<usize>)
    ensures
        match r {
            Some(i) => lookup_paths(path_entries(*ts), key@) == Some(i as int) && ts.compiler_options.paths is Some,
            None => lookup_paths(path_entries(*ts), key@) is None,
        },
{
    match &ts.compiler_options.paths {
        None => {
            assert(!exists|c: int| is_first_path_key(path_entries(*ts), key@, c));
            None
        },
        Some(entries) => {
            let mut i: usize = 0;
            while i < entries.len()
                invariant
                    ts.compiler_options.paths == Some(*entries),
                    0 <= i <= entries@.len(),
                    forall|j: int| 0 <= j < i ==> entries@[j].0@ != key@,
                decreases entries@.len() - i,
            {
                let k = str_chars(entries[i].0.as_str());
                if chars_eq(k.as_slice(), key) {
                    assert(is_first_path_key(entries@, key@, i as int));
                    proof {
                        let c = choose|c: int| is_first_path_key(entries@, key@, c);
                        assert(c == i) by {
                            if c < i { assert(entries@[c].0@ != key@); }
                            if c > i { assert(entries@[i as int].0@ != key@); }
                        }
                    }
                    return Some(i);
                }
                i = i + 1;
            }
            assert(!exists|c: int| is_first_path_key(entries@, key@, c));
            None
        },
    }
}

fn multiple_entries_error(entries: &Vec<String>, star: bool) -> (r: String)
    ensures
        r@ == multiple_entries_text(string_seq_views(entries@),
            if star { "None"@ } else { "Some("@ + bracket_list(string_seq_views(entries@)) + ")"@ }),
{
    let mut out = str_chars("Expected all members of paths: to have a single entry, but got ");
    push_bracket_list(&mut out, entries);
    let mid = str_chars(" for stub ");
    push_all(&mut out, mid.as_slice());
    if star {
        let none = str_chars("None");
        push_all(&mut out, none.as_slice());
    } else {
        let some = str_chars("Some(");
        push_all(&mut out, some.as_slice());
        push_bracket_list(&mut out, entries);
        let close = str_chars(")");
        push_all(&mut out, close.as_slice());
    }
    string_from_chars(out.as_slice())
}

proof fn lemma_tsconfig_match_skip(ts: TsconfigPathsJson, s: Seq<char>, ancs: Seq<Seq<char>>, a: int)
    requires
        0 <= a < ancs.len(),
        lookup_paths(path_entries(ts), ancs[a]) is None,
        lookup_paths(path_entries(ts), ancs[a] + "/*"@) is None,
    ensures
        tsconfig_match(ts, s, ancs.subrange(a, ancs.len() as int)) == tsconfig_match(ts, s, ancs.subrange(a + 1, ancs.len() as int)),
{
    assert(ancs.subrange(a, ancs.len() as int).drop_first() =~= ancs.subrange(a + 1, ancs.len() as int));
    assert(ancs.subrange(a, ancs.len() as int)[0] == ancs[a]);
}

/// Resolves an import specifier found in the file `initial_path`.
///
/// Directory imports are completed with `index`; specifiers with an
/// extension other than `ts`/`tsx` are resource files; relative
/// specifiers are joined onto the importer's directory and normalized;
/// others are looked up in `tsconfig.paths` (exact stub first, then
/// `stub/*`, for the specifier and each of its ancestors) and, failing
/// that, are node modules.
pub fn resolve_ts_import(
    tsconfig_paths: &TsconfigPathsJson,
    initial_path: &str,
    raw_import_specifier: &str,
) -> (r: Result<ResolvedImport, String>)
    ensures
        match (r, spec_resolve_ts_import(*tsconfig_paths, initial_path@, raw_import_specifier@)) {
            (Ok(v), Ok(w)) => resolved_view(v) == w,
            (Err(e), Err(m)) => e@ == m,
            _ => false,
        },
{
    let raw = str_chars(raw_import_specifier);
    let n = raw.len();
    let is_dot = n == 1 && raw[0] == '.';
    let is_dotdot = n == 2 && raw[0] == '.' && raw[1] == '.';
    assert(is_dot == (raw@ == "."@)) by {
        reveal_strlit(".");
        if raw@.len() == 1 && raw@[0] == '.' { assert(raw@ =~= "."@); }
    }
    assert(is_dotdot == (raw@ == ".."@)) by {
        reveal_strlit("..");
        if raw@.len() == 2 && raw@[0] == '.' && raw@[1] == '.' { assert(raw@ =~= ".."@); }
    }
    let mut spec: Vec<char> = Vec::new();
    push_all(&mut spec, raw.as_slice());
    if n > 0 && raw[n - 1] == '/' {
        let idx = str_chars("index");
        push_all(&mut spec, idx.as_slice());
    } else if is_dot || is_dotdot {
        let idx = str_chars("/index");
        push_all(&mut spec, idx.as_slice());
    }
    assert(spec@ =~= spec_import_specifier(raw_import_specifier@));
    let import_specifier = string_from_chars(spec.as_slice());

    match extension(spec.as_slice()) {
        Some(ext) => {
            let tsx = str_chars("tsx");
            let ts = str_chars("ts");
            if !chars_eq(ext.as_slice(), tsx.as_slice()) && !chars_eq(ext.as_slice(), ts.as_slice()) {
                return Ok(ResolvedImport::ResourceFileImport);
            }
        },
        None => {},
    }

    let dot = str_chars(".");
    if chars_starts_with(spec.as_slice(), dot.as_slice()) {
        match relative_parent(initial_path) {
            Some(p) => {
                let joined = relative_join(p.as_str(), import_specifier.as_str());
                return Ok(ResolvedImport::ProjectLocalImport(relative_normalize(joined.as_str())));
            },
            None => {
                let mut out = str_chars("source path ");
                let ip = str_chars(initial_path);
                push_all(&mut out, ip.as_slice());
                let tail = str_chars(" had no parent?");
                push_all(&mut out, tail.as_slice());
                return Err(string_from_chars(out.as_slice()));
            },
        }
    }

    let ancestors = path_ancestors(spec.as_slice());
    let ghost ancs = spec_ancestors(spec@);
    proof { lemma_ancestors_are_prefixes(spec@); }
    let star_tail = str_chars("/*");
    assert(ancs.subrange(0, ancs.len() as int) =~= ancs);
    let mut a: usize = 0;
    while a < ancestors.len()
        invariant
            ancestors@.len() == ancs.len(),
            forall|k: int| 0 <= k < ancestors@.len() ==> (#[trigger] ancestors@[k])@ == ancs[k],
            forall|k: int| 0 <= k < ancs.len() ==> {
                let x = #[trigger] ancs[k];
                x.len() <= spec@.len() && spec@.subrange(0, x.len() as int) == x
            },
            star_tail@ == "/*"@,
            0 <= a <= ancestors@.len(),
            tsconfig_match(*tsconfig_paths, spec@, ancs) == tsconfig_match(*tsconfig_paths, spec@, ancs.subrange(a as int, ancs.len() as int)),
            import_specifier@ == spec@,
            spec@ == spec_import_specifier(raw_import_specifier@),
            ancs == spec_ancestors(spec@),
            !has_resource_extension(spec@),
            !seq_starts_with(spec@, "."@),
        decreases ancestors@.len() - a,
    {
        let stub = &ancestors[a];
        let ghost rest = ancs.subrange(a as int, ancs.len() as int);
        assert(rest[0] == stub@);
        assert(rest.len() > 0);
        match lookup_paths_exec(tsconfig_paths, stub.as_slice()) {
            Some(i) => {
                let entries = match &tsconfig_paths.compiler_options.paths { Some(e) => e, None => { return Err(String::new()); } };
                let entry = &entries[i].1;
                if entry.len() != 1 {
                    let msg = multiple_entries_error(entry, false);
                    proof {
                        let e = string_seq_views(path_entries(*tsconfig_paths)[i as int].1@);
                        assert(e == string_seq_views(entry@));
                        assert(e.len() != 1);
                        assert(tsconfig_match(*tsconfig_paths, spec@, ancs.subrange(a as int, ancs.len() as int))
                            == Some(Err::<Seq<char>, Seq<char>>(multiple_entries_text(e, "Some("@ + bracket_list(e) + ")"@))));
                    }
                    return Err(msg);
                }
                return Ok(ResolvedImport::ProjectLocalImport(path_buf_from_tsconfig(tsconfig_paths, entry[0].as_str())));
            },
            None => {
                let mut star = Vec::new();
                push_all(&mut star, stub.as_slice());
                push_all(&mut star, star_tail.as_slice());
                match lookup_paths_exec(tsconfig_paths, star.as_slice()) {
                    Some(i) => {
                        let entries = match &tsconfig_paths.compiler_options.paths { Some(e) => e, None => { return Err(String::new()); } };
                        let entry = &entries[i].1;
                        if entry.len() != 1 {
                            let msg = multiple_entries_error(entry, true);
                            proof {
                                let e = string_seq_views(path_entries(*tsconfig_paths)[i as int].1@);
                                assert(e == string_seq_views(entry@));
                                assert(e.len() != 1);
                                assert(tsconfig_match(*tsconfig_paths, spec@, ancs.subrange(a as int, ancs.len() as int))
                                    == Some(Err::<Seq<char>, Seq<char>>(multiple_entries_text(e, "None"@))));
                            }
                            return Err(msg);
                        }
                        let star_str = string_from_chars(star.as_slice());
                        proof {
                            reveal_strlit("/*");
                            assert(ancs[a as int].len() <= spec@.len());
                        }
                        let switched = switch_specifier_prefix(star_str.as_str(), entry[0].as_str(), import_specifier.as_str());
                        return Ok(ResolvedImport::ProjectLocalImport(path_buf_from_tsconfig(tsconfig_paths, switched.as_str())));
                    },
                    None => {
                        proof { lemma_tsconfig_match_skip(*tsconfig_paths, spec@, ancs, a as int); }
                    },
                }
            },
        }
        a = a + 1;
    }
    assert(ancs.subrange(ancs.len() as int, ancs.len() as int) =~= Seq::<Seq<char>>::empty());
    Ok(ResolvedImport::NodeModulesImport(import_specifier))
}

/// The extensions a project-local import may stand for, in the order
/// they are tried.
pub open spec fn source_extensions() -> Seq<Seq<char>> {
    seq!["js"@, "ts"@, "d.ts"@, "tsx"@, "jsx"@]
}

/// The extensions of stylesheets, images and data files.
pub open spec fn asset_extensions() -> Seq<Seq<char>> {
    seq!["scss"@, "css"@, "svg"@, "png"@, "json"@, "gif"@]
}

fn source_extension_list() -> (v: Vec<&'static str>)
    ensures
        v@.map_values(|s: &'static str| s@) == source_extensions(),
{
    let mut v: Vec<&'static str> = Vec::new();
    v.push("js");
    v.push("ts");
    v.push("d.ts");
    v.push("tsx");
    v.push("jsx");
    assert(v@.map_values(|s: &'static str| s@) =~= source_extensions());
    v
}

fn asset_extension_list() -> (v: Vec<&'static str>)
    ensures
        v@.map_values(|s: &'static str| s@) == asset_extensions(),
{
    let mut v: Vec<&'static str> = Vec::new();
    v.push("scss");
    v.push("css");
    v.push("svg");
    v.push("png");
    v.push("json");
    v.push("gif");
    assert(v@.map_values(|s: &'static str| s@) =~= asset_extensions());
    v
}

/// A stylesheet, image or data file, by the extension of its name.
pub open spec fn is_resource_path(s: Seq<char>) -> bool {
    exists|k: int| 0 <= k < asset_extensions().len() && seq_ends_with(s, "."@ + #[trigger] asset_extensions()[k])
}

/// Whether the path names a stylesheet, image or data file.
pub fn is_resource_file(resolved: &str) -> (r: bool)
    ensures
        r == is_resource_path(resolved@),
{
    let exts = asset_extension_list();
    let s = str_chars(resolved);
    let mut k: usize = 0;
    while k < exts.len()
        invariant
            exts@.map_values(|x: &'static str| x@) == asset_extensions(),
            s@ == resolved@,
            0 <= k <= exts@.len(),
            forall|j: int| 0 <= j < k ==> !seq_ends_with(resolved@, "."@ + #[trigger] asset_extensions()[j]),
        decreases exts@.len() - k,
    {
        let mut suffix = str_chars(".");
        proof { reveal_strlit("."); }
        push_all(&mut suffix, str_chars(exts[k]).as_slice());
        assert(suffix@ == "."@ + asset_extensions()[k as int]);
        if chars_ends_with(s.as_slice(), suffix.as_slice()) {
            return true;
        }
        k = k + 1;
    }
    false
}

/// The files a project-local import may name, in the order they are
/// probed: the path with each source extension, then its `index` file with
/// each.
pub open spec fn spec_source_file_candidates(p: Seq<char>) -> Seq<Seq<char>> {
    source_extensions().map_values(|e: Seq<char>| crate::node_resolution::spec_set_extension(p, e))
        + source_extensions().map_values(|e: Seq<char>| crate::node_resolution::spec_set_extension(crate::paths::spec_push(p, "index"@), e))
}

/// The files a project-local import may name (see
/// `spec_source_file_candidates`).
pub fn source_file_candidates(import_path: &str) -> (r: Vec<String>)
    ensures
        string_seq_views(r@) == spec_source_file_candidates(import_path@),
{
    let exts = source_extension_list();
    let p = str_chars(import_path);
    let idx = str_chars("index");
    proof { reveal_strlit("index"); }
    let with_index = crate::paths::path_push(p.as_slice(), idx.as_slice());
    let ghost ev = source_extensions();
    let mut out: Vec<String> = Vec::new();
    let mut round: usize = 0;
    while round < 2
        invariant
            exts@.map_values(|x: &'static str| x@) == ev,
            ev == source_extensions(),
            p@ == import_path@,
            with_index@ == crate::paths::spec_push(import_path@, "index"@),
            0 <= round <= 2,
            round == 0 ==> out@.len() == 0,
            round == 1 ==> string_seq_views(out@) == ev.map_values(|e: Seq<char>| crate::node_resolution::spec_set_extension(import_path@, e)),
            round == 2 ==> string_seq_views(out@) == spec_source_file_candidates(import_path@),
        decreases 2 - round,
    {
        let base: &[char] = if round == 0 { p.as_slice() } else { with_index.as_slice() };
        let ghost bv = base@;
        let ghost before = string_seq_views(out@);
        let mut k: usize = 0;
        while k < exts.len()
            invariant
                exts@.map_values(|x: &'static str| x@) == ev,
                0 <= k <= exts@.len(),
                bv == base@,
                string_seq_views(out@) == before + ev.take(k as int).map_values(|e: Seq<char>| crate::node_resolution::spec_set_extension(bv, e)),
            decreases exts@.len() - k,
        {
            let e = str_chars(exts[k]);
            let c = crate::node_resolution::set_extension(base, e.as_slice());
            let ghost o = out@;
            let sc = string_from_chars(c.as_slice());
            out.push(sc);
            proof {
                lemma_views_push(o, sc);
                assert(ev.take(k + 1) =~= ev.take(k as int).push(ev[k as int]));
                assert(ev.take(k + 1).map_values(|e: Seq<char>| crate::node_resolution::spec_set_extension(bv, e))
                    =~= ev.take(k as int).map_values(|e: Seq<char>| crate::node_resolution::spec_set_extension(bv, e))
                        .push(crate::node_resolution::spec_set_extension(bv, ev[k as int])));
            }
            k = k + 1;
        }
        assert(ev.take(ev.len() as int) =~= ev);
        assert(before + ev.map_values(|e: Seq<char>| crate::node_resolution::spec_set_extension(bv, e))
            =~= string_seq_views(out@));
        if round == 0 {
            assert(before =~= Seq::<Seq<char>>::empty());
        }
        round = round + 1;
    }
    out
}

proof fn lemma_views_push(v: Seq<String>, x: String)
    ensures
        string_seq_views(v.push(x)) == string_seq_views(v).push(x@),
{
    assert(string_seq_views(v.push(x)) =~= string_seq_views(v).push(x@));
}

/// The specifiers tried again, with each source extension appended, when
/// an import does not resolve as written.
pub open spec fn spec_extension_retries(imported: Seq<char>) -> Seq<Seq<char>> {
    source_extensions().map_values(|e: Seq<char>| imported + "."@ + e)
}

/// The specifiers tried again when an import does not resolve as written.
pub fn extension_retry_specifiers(imported_path: &str) -> (r: Vec<String>)
    ensures
        string_seq_views(r@) == spec_extension_retries(imported_path@),
{
    let exts = source_extension_list();
    let ghost ev = source_extensions();
    let mut out: Vec<String> = Vec::new();
    let mut k: usize = 0;
    while k < exts.len()
        invariant
            exts@.map_values(|x: &'static str| x@) == ev,
            ev == source_extensions(),
            0 <= k <= exts@.len(),
            string_seq_views(out@) == ev.take(k as int).map_values(|e: Seq<char>| imported_path@ + "."@ + e),
        decreases exts@.len() - k,
    {
        let mut v = str_chars(imported_path);
        let dot = str_chars(".");
        proof { reveal_strlit("."); }
        push_all(&mut v, dot.as_slice());
        push_all(&mut v, str_chars(exts[k]).as_slice());
        let ghost o = out@;
        let sc = string_from_chars(v.as_slice());
        out.push(sc);
        proof {
            lemma_views_push(o, sc);
            assert(ev.take(k + 1) =~= ev.take(k as int).push(ev[k as int]));
            assert(ev.take(k + 1).map_values(|e: Seq<char>| imported_path@ + "."@ + e)
                =~= ev.take(k as int).map_values(|e: Seq<char>| imported_path@ + "."@ + e).push(imported_path@ + "."@ + ev[k as int]));
        }
        k = k + 1;
    }
    assert(ev.take(ev.len() as int) =~= ev);
    out
}

/// `pat` occurs in `s` at `i`.
pub open spec fn occurs_at(s: Seq<char>, pat: Seq<char>, i: int) -> bool {
    0 <= i && i + pat.len() <= s.len() && s.subrange(i, i + pat.len()) == pat
}

/// The first position at or after `i` at which `pat` occurs in `s`.
pub open spec fn first_occurrence_from(s: Seq<char>, pat: Seq<char>, i: int) -> Option<int>
    decreases s.len() + 1 - i,
{
    if i < 0 || i + pat.len() > s.len() {
        None
    } else if occurs_at(s, pat, i) {
        Some(i)
    } else {
        first_occurrence_from(s, pat, i + 1)
    }
}

/// `s` with the first occurrence of `pat` removed (`str::replacen` with
/// an empty replacement and a count of one).
pub open spec fn remove_first(s: Seq<char>, pat: Seq<char>) -> Seq<char> {
    match first_occurrence_from(s, pat, 0) {
        Some(i) => s.subrange(0, i) + s.subrange(i + pat.len(), s.len() as int),
        None => s,
    }
}

/// The workspace-relative form of a file resolved under `cwd`: the first
/// `cwd/` in it removed.
pub fn strip_workspace_prefix(cwd: &str, resolved: &str) -> (r: String)
    ensures
        r@ == remove_first(resolved@, cwd@ + seq!['/']),
{
    let mut pat = str_chars(cwd);
    pat.push('/');
    let s = str_chars(resolved);
    let n = s.len();
    let m = pat.len();
    if m > n {
        assert(first_occurrence_from(resolved@, pat@, 0) is None);
        return string_from_chars(s.as_slice());
    }
    let mut i: usize = 0;
    while i <= n - m
        invariant
            s@ == resolved@,
            pat@ == cwd@ + seq!['/'],
            n == s@.len(),
            m == pat@.len(),
            m <= n,
            0 <= i <= n - m + 1,
            first_occurrence_from(resolved@, pat@, 0) == first_occurrence_from(resolved@, pat@, i as int),
        decreases n - m + 1 - i,
    {
        let piece = chars_sub(s.as_slice(), i, i + m);
        if chars_eq(piece.as_slice(), pat.as_slice()) {
            assert(occurs_at(resolved@, pat@, i as int));
            let mut out = chars_sub(s.as_slice(), 0, i);
            let rest = chars_sub(s.as_slice(), i + m, n);
            push_all(&mut out, rest.as_slice());
            return string_from_chars(out.as_slice());
        }
        i = i + 1;
    }
    assert(first_occurrence_from(resolved@, pat@, i as int) is None);
    string_from_chars(s.as_slice())
}

/// How a file that the resolver found for `imported` is classified: a
/// file under `cwd` is a project file (a resource when its extension says
/// so, or a `.graphql` file), named relative to `cwd`; any other file
/// belongs to a node module.
pub open spec fn spec_classify_resolved(cwd: Seq<char>, resolved: Seq<char>, imported: Seq<char>) -> ResolvedView {
    if seq_starts_with(resolved, cwd) {
        if is_resource_path(resolved) || seq_ends_with(resolved, ".graphql"@) {
            ResolvedView::ResourceFile
        } else {
            ResolvedView::ProjectLocal(remove_first(resolved, cwd + seq!['/']))
        }
    } else {
        ResolvedView::NodeModules(imported)
    }
}

/// Classifies a file the resolver found for an import (see
/// `spec_classify_resolved`).
pub fn classify_resolved_file(cwd: &str, resolved: &str, imported_path: &str) -> (r: ResolvedImport)
    ensures
        resolved_view(r) == spec_classify_resolved(cwd@, resolved@, imported_path@),
{
    let c = str_chars(cwd);
    let s = str_chars(resolved);
    if chars_starts_with(s.as_slice(), c.as_slice()) {
        let g = str_chars(".graphql");
        proof { reveal_strlit(".graphql"); }
        if is_resource_file(resolved) || chars_ends_with(s.as_slice(), g.as_slice()) {
            ResolvedImport::ResourceFileImport
        } else {
            ResolvedImport::ProjectLocalImport(strip_workspace_prefix(cwd, resolved))
        }
    } else {
        ResolvedImport::NodeModulesImport(string_from_chars(str_chars(imported_path).as_slice()))
    }
}

/// The resolver error that means the import names a node module that has
/// no `node_modules` directory to be found in.
pub fn is_missing_node_modules_error(source_text: &str) -> (r: bool)
    ensures
        r == (source_text@ == "failed to get the node_modules path"@),
{
    crate::text::str_eq(source_text, "failed to get the node_modules path")
}

} // verus!
