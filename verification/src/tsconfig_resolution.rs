//! Resolution through the `paths` of a `tsconfig.json`: reading the
//! `compilerOptions` into patterns, and planning the resolver calls that
//! a module specifier is resolved with. The calls themselves (which probe
//! the file system) are made by the caller, in the planned order.
use vstd::prelude::*;
use crate::js_err::AnyError;
use crate::node_resolution::{lemma_map_values_push, spec_file_name};
use crate::paths::{
    clean_path_string, cleaned_path, file_segment, last_index_of, lemma_last_index_of, path_parent, path_push,
    spec_file_segment, spec_is_absolute, spec_parent, spec_push, chars_rfind,
};
use crate::pkgjson_exports::{count_char, spec_replace_star};
use crate::text::{
    chars_eq, chars_find, chars_starts_with, chars_sub, first_index_of, lemma_first_index_of, push_all, quoted,
    seq_starts_with, str_chars, string_from_chars, string_seq_views,
};
use crate::tsconfig::{TsconfigPathsJson, TsconfigPattern};

verus! {

/// The `paths` of a tsconfig.json as patterns, with the base URL they are
/// relative to.
#[derive(Debug)]
pub struct ProcessedTsconfigPaths {
    pub paths: Vec<(TsconfigPattern, Vec<String>)>,
    pub base_url: String,
}

/// A tsconfig.json, as far as resolution reads it.
#[derive(Debug)]
pub enum ProcessedTsconfig {
    HasPaths(ProcessedTsconfigPaths),
    NoPaths,
}

pub enum PatternView {
    Wildcard(Seq<char>),
    Exact(Seq<char>),
}

pub open spec fn pattern_view(p: TsconfigPattern) -> PatternView {
    match p {
        TsconfigPattern::Wildcard { prefix } => PatternView::Wildcard(prefix@),
        TsconfigPattern::Exact(s) => PatternView::Exact(s@),
    }
}

pub open spec fn paths_view(v: Seq<(TsconfigPattern, Vec<String>)>) -> Seq<(PatternView, Seq<Seq<char>>)> {
    v.map_values(|e: (TsconfigPattern, Vec<String>)| (pattern_view(e.0), string_seq_views(e.1@)))
}

/// How one `paths` entry is read.
pub enum EntryOutcome {
    Pattern(PatternView),
    Error,
    /// A key with more than one `*`, on which reading stops with a panic.
    Fatal,
}

/// A key with a `*` is a wildcard on the text before its (only) `*`;
/// other keys are exact and must map to exactly one path; no key may map
/// to an empty list.
pub open spec fn entry_outcome(key: Seq<char>, targets: Seq<Seq<char>>) -> EntryOutcome {
    if targets.len() == 0 {
        EntryOutcome::Error
    } else if count_char(key, '*') > 1 {
        EntryOutcome::Fatal
    } else if count_char(key, '*') == 1 {
        EntryOutcome::Pattern(PatternView::Wildcard(key.subrange(0, first_index_of(key, '*')->0)))
    } else if targets.len() != 1 {
        EntryOutcome::Error
    } else {
        EntryOutcome::Pattern(PatternView::Exact(key))
    }
}

/// The patterns of the first `n` entries, stopping at the first entry
/// that is refused (`Err(false)`) or fatal (`Err(true)`).
pub open spec fn read_entries(entries: Seq<(Seq<char>, Seq<Seq<char>>)>, n: int) -> Result<Seq<(PatternView, Seq<Seq<char>>)>, bool>
    decreases n,
{
    if n <= 0 {
        Ok(Seq::empty())
    } else {
        match read_entries(entries, n - 1) {
            Err(f) => Err(f),
            Ok(ps) => match entry_outcome(entries[n - 1].0, entries[n - 1].1) {
                EntryOutcome::Pattern(p) => Ok(ps.push((p, entries[n - 1].1))),
                EntryOutcome::Error => Err(false),
                EntryOutcome::Fatal => Err(true),
            },
        }
    }
}

pub open spec fn raw_paths_view(v: Seq<(String, Vec<String>)>) -> Seq<(Seq<char>, Seq<Seq<char>>)> {
    v.map_values(|e: (String, Vec<String>)| (e.0@, string_seq_views(e.1@)))
}

pub open spec fn missing_base_url_text(file_path: Seq<char>) -> Seq<char> {
    "Failed to parse Some("@ + quoted(file_path) + ") as tsconfig.json file: base_url is missing, but paths was set"@
}

pub open spec fn malformed_paths_text(file_path: Seq<char>) -> Seq<char> {
    "Failed to parse "@ + crate::text::quoted_path(file_path) + " as tsconfig.json file: paths is not well-formed"@
}

/// The processed form of a tsconfig.json read from `file_path`: without
/// `paths`, nothing to do; with `paths`, a `baseUrl` is required (taken
/// relative to the file's directory and cleaned) and every entry must be
/// well formed.
pub open spec fn spec_process_tsconfig(file_path: Seq<char>, ts: TsconfigPathsJson) -> Result<Option<(Seq<(PatternView, Seq<Seq<char>>)>, Seq<char>)>, Seq<char>> {
    match ts.compiler_options.paths {
        None => Ok(None),
        Some(raw) => match ts.compiler_options.base_url {
            None => Err(missing_base_url_text(file_path)),
            Some(url) => {
                let base = cleaned_path(spec_push(spec_parent(file_path)->0, url@));
                match read_entries(raw_paths_view(raw@), raw@.len() as int) {
                    Ok(ps) => Ok(Some((ps, base))),
                    Err(_) => Err(malformed_paths_text(file_path)),
                }
            },
        },
    }
}

/// Reading stops with a panic on this input: an entry with more than one
/// `*` is reached before any refused entry.
pub open spec fn tsconfig_reading_panics(file_path: Seq<char>, ts: TsconfigPathsJson) -> bool {
    match (ts.compiler_options.paths, ts.compiler_options.base_url) {
        (Some(raw), Some(_)) => spec_parent(file_path) is None || read_entries(raw_paths_view(raw@), raw@.len() as int) == Err::<Seq<(PatternView, Seq<Seq<char>>)>, bool>(true),
        _ => false,
    }
}

pub proof fn lemma_read_entries_err(entries: Seq<(Seq<char>, Seq<Seq<char>>)>, m: int, n: int)
    requires
        m <= n,
        read_entries(entries, m) is Err,
    ensures
        read_entries(entries, n) == read_entries(entries, m),
    decreases n - m,
{
    if n > m {
        lemma_read_entries_err(entries, m, n - 1);
    }
}

pub proof fn lemma_count_char_present(s: Seq<char>, c: char)
    requires
        count_char(s, c) > 0,
    ensures
        exists|i: int| 0 <= i < s.len() && s[i] == c,
    decreases s.len(),
{
    if s.last() != c {
        lemma_count_char_present(s.drop_last(), c);
        let i = choose|i: int| 0 <= i < s.drop_last().len() && s.drop_last()[i] == c;
        assert(s[i] == c);
    } else {
        assert(s[s.len() - 1] == c);
    }
}

/// Number of `*` in `s`.
fn count_star_chars(s: &[char]) -> (r: usize)
    ensures
        r == count_char(s@, '*'),
{
    let mut n: usize = 0;
    let mut i: usize = 0;
    while i < s.len()
        invariant
            0 <= i <= s@.len(),
            n == count_char(s@.take(i as int), '*'),
            n <= i,
        decreases s@.len() - i,
    {
        assert(s@.take(i + 1).drop_last() =~= s@.take(i as int));
        if s[i] == '*' {
            n = n + 1;
        }
        i = i + 1;
    }
    assert(s@.take(s@.len() as int) =~= s@);
    n
}

fn copy_strings(v: &Vec<String>) -> (r: Vec<String>)
    ensures
        string_seq_views(r@) == string_seq_views(v@),
{
    let mut r: Vec<String> = Vec::new();
    let mut i: usize = 0;
    while i < v.len()
        invariant
            0 <= i <= v@.len(),
            string_seq_views(r@) == string_seq_views(v@).take(i as int),
        decreases v@.len() - i,
    {
        let ghost before = r@;
        let s = v[i].clone();
        r.push(s);
        proof {
            lemma_map_values_push(before, s, |x: String| x@);
            assert(string_seq_views(v@).take(i + 1) =~= string_seq_views(v@).take(i as int).push(v@[i as int]@));
        }
        i = i + 1;
    }
    assert(string_seq_views(v@).take(v@.len() as int) =~= string_seq_views(v@));
    r
}

/// Reads the `compilerOptions` of the tsconfig.json at `file_path` (see
/// `spec_process_tsconfig`).
pub fn process_tsconfig(file_path: &str, tsconfig: &TsconfigPathsJson) -> (r: Result<ProcessedTsconfig, AnyError>)
    requires
        !tsconfig_reading_panics(file_path@, *tsconfig),
    ensures
        match (r, spec_process_tsconfig(file_path@, *tsconfig)) {
            (Ok(ProcessedTsconfig::NoPaths), Ok(None)) => true,
            (Ok(ProcessedTsconfig::HasPaths(p)), Ok(Some((ps, base)))) => paths_view(p.paths@) == ps && p.base_url@ == base,
            (Err(AnyError::Message(e)), Err(m)) => e@ == m,
            _ => false,
        },
{
    let raw = match &tsconfig.compiler_options.paths {
        Some(p) => p,
        None => { return Ok(ProcessedTsconfig::NoPaths); },
    };
    let fp = str_chars(file_path);
    let url = match &tsconfig.compiler_options.base_url {
        Some(u) => u,
        None => {
            let mut msg = str_chars("Failed to parse Some(\"");
            crate::text::push_debug_body(&mut msg, fp.as_slice(), false);
            let tail = str_chars("\") as tsconfig.json file: base_url is missing, but paths was set");
            push_all(&mut msg, tail.as_slice());
            proof {
                reveal_strlit("Failed to parse Some(\"");
                reveal_strlit("\") as tsconfig.json file: base_url is missing, but paths was set");
                reveal_strlit("Failed to parse Some(");
                reveal_strlit(") as tsconfig.json file: base_url is missing, but paths was set");
                reveal_strlit("\"");
            }
            assert(msg@ =~= missing_base_url_text(file_path@));
            return Err(AnyError::Message(string_from_chars(msg.as_slice())));
        },
    };
    let parent = match path_parent(fp.as_slice()) {
        Some(p) => p,
        None => { return Err(AnyError::Message(String::new())); },
    };
    let uc = str_chars(url.as_str());
    let joined = path_push(parent.as_slice(), uc.as_slice());
    let joined_s = string_from_chars(joined.as_slice());
    let base = clean_path_string(joined_s.as_str());
    assert(spec_parent(file_path@) == Some(parent@));
    let ghost entries = raw_paths_view(raw@);
    let mut out: Vec<(TsconfigPattern, Vec<String>)> = Vec::new();
    assert(paths_view(out@) =~= Seq::empty());
    let mut i: usize = 0;
    while i < raw.len()
        invariant
            entries == raw_paths_view(raw@),
            fp@ == file_path@,
            tsconfig.compiler_options.paths == Some(*raw),
            tsconfig.compiler_options.base_url == Some(*url),
            base@ == cleaned_path(spec_push(spec_parent(file_path@)->0, url@)),
            0 <= i <= raw@.len(),
            read_entries(entries, i as int) == Ok::<Seq<(PatternView, Seq<Seq<char>>)>, bool>(paths_view(out@)),
            read_entries(entries, raw@.len() as int) != Err::<Seq<(PatternView, Seq<Seq<char>>)>, bool>(true),
        decreases raw@.len() - i,
    {
        let key = &raw[i].0;
        let targets = &raw[i].1;
        assert(entries[i as int] == (key@, string_seq_views(targets@)));
        let kc = str_chars(key.as_str());
        let stars = count_star_chars(kc.as_slice());
        let bad = if targets.len() == 0 {
            true
        } else if stars > 1 {
            proof { lemma_read_entries_err(entries, i + 1, entries.len() as int); }
            return Err(AnyError::Message(String::new()));
        } else if stars == 1 {
            false
        } else {
            targets.len() != 1
        };
        if bad {
            proof { lemma_read_entries_err(entries, i + 1, entries.len() as int); }
            let mut msg = str_chars("Failed to parse \"");
            crate::text::push_debug_body(&mut msg, fp.as_slice(), true);
            let tail = str_chars("\" as tsconfig.json file: paths is not well-formed");
            push_all(&mut msg, tail.as_slice());
            proof {
                reveal_strlit("Failed to parse \"");
                reveal_strlit("\" as tsconfig.json file: paths is not well-formed");
                reveal_strlit("Failed to parse ");
                reveal_strlit(" as tsconfig.json file: paths is not well-formed");
                reveal_strlit("\"");
            }
            assert(msg@ =~= malformed_paths_text(file_path@));
            return Err(AnyError::Message(string_from_chars(msg.as_slice())));
        }
        let pat = if stars == 1 {
            proof {
                lemma_first_index_of(kc@, '*');
                lemma_count_char_present(kc@, '*');
            }
            let pos = match chars_find(kc.as_slice(), '*') {
                Some(p) => p,
                None => { return Err(AnyError::Message(String::new())); },
            };
            let prefix = chars_sub(kc.as_slice(), 0, pos);
            TsconfigPattern::Wildcard { prefix: string_from_chars(prefix.as_slice()) }
        } else {
            TsconfigPattern::Exact(key.clone())
        };
        let copied = copy_strings(targets);
        let ghost before = out@;
        let item = (pat, copied);
        out.push(item);
        proof {
            lemma_map_values_push(before, item, |e: (TsconfigPattern, Vec<String>)| (pattern_view(e.0), string_seq_views(e.1@)));
        }
        i = i + 1;
    }
    Ok(ProcessedTsconfig::HasPaths(ProcessedTsconfigPaths { paths: out, base_url: base }))
}


/// The importer, or the base URL of the tsconfig.json, as the place a
/// resolver call resolves from.
#[derive(Debug, Clone, Copy, PartialEq, Eq, Structural)]
pub enum AttemptBase {
    Importer,
    BaseUrl,
}

/// One call of the inner resolver: where from, which specifier; whether
/// its error is kept for the failure message; whether on success the slug
/// is taken from the stem of the resolved file.
#[derive(Debug)]
pub struct ResolveAttempt {
    pub base: AttemptBase,
    pub specifier: String,
    pub keeps_error: bool,
    pub slug_from_stem: bool,
}

/// What is returned when no call succeeds: a fixed resolution, the error
/// of the last call, or a failure naming the wildcard prefix that matched.
#[derive(Debug)]
pub enum PlanEnd {
    Resolved { filename: String, slug: Option<String> },
    LastError,
    MatchFailed { prefix: String },
}

/// The calls to make in order (the first that succeeds is the
/// resolution), and what to return when none does.
#[derive(Debug)]
pub struct ResolutionPlan {
    pub attempts: Vec<ResolveAttempt>,
    pub end: PlanEnd,
}

pub struct AttemptView {
    pub base: AttemptBase,
    pub specifier: Seq<char>,
    pub keeps_error: bool,
    pub slug_from_stem: bool,
}

pub enum PlanEndView {
    Resolved(Seq<char>, Option<Seq<char>>),
    LastError,
    MatchFailed(Seq<char>),
}

pub open spec fn attempt_view(a: ResolveAttempt) -> AttemptView {
    AttemptView { base: a.base, specifier: a.specifier@, keeps_error: a.keeps_error, slug_from_stem: a.slug_from_stem }
}

pub open spec fn plan_end_view(e: PlanEnd) -> PlanEndView {
    match e {
        PlanEnd::Resolved { filename, slug } => PlanEndView::Resolved(filename@, match slug {
            Some(s) => Some(s@),
            None => None,
        }),
        PlanEnd::LastError => PlanEndView::LastError,
        PlanEnd::MatchFailed { prefix } => PlanEndView::MatchFailed(prefix@),
    }
}

pub open spec fn plan_view(p: ResolutionPlan) -> (Seq<AttemptView>, PlanEndView) {
    (p.attempts@.map_values(|a: ResolveAttempt| attempt_view(a)), plan_end_view(p.end))
}

pub open spec fn call(base: AttemptBase, specifier: Seq<char>) -> AttemptView {
    AttemptView { base: base, specifier: specifier, keeps_error: false, slug_from_stem: false }
}

/// A relative specifier: `..`, or one starting with `./` or `../`.
pub open spec fn is_relative_specifier(s: Seq<char>) -> bool {
    s == ".."@ || seq_starts_with(s, "./"@) || seq_starts_with(s, "../"@)
}

pub open spec fn entry_matches(p: PatternView, s: Seq<char>) -> bool {
    match p {
        PatternView::Wildcard(prefix) => seq_starts_with(s, prefix),
        PatternView::Exact(from) => from == s,
    }
}

/// The first of the first `n` entries that matches `s`.
pub open spec fn first_entry(paths: Seq<(PatternView, Seq<Seq<char>>)>, s: Seq<char>, n: int) -> Option<int>
    decreases n,
{
    if n <= 0 {
        None
    } else {
        match first_entry(paths, s, n - 1) {
            Some(i) => Some(i),
            None => if entry_matches(paths[n - 1].0, s) { Some(n - 1) } else { None },
        }
    }
}

/// For each of the first `n` targets of a wildcard entry, with its `*`
/// replaced by the matched text: the specifier from the importer, then
/// the replacement from the base URL as `./<replaced>` and as is (whose
/// error is kept).
pub open spec fn wildcard_attempts(targets: Seq<Seq<char>>, s: Seq<char>, extra: Seq<char>, n: int) -> Seq<AttemptView>
    decreases n,
{
    if n <= 0 {
        Seq::empty()
    } else {
        let r = spec_replace_star(targets[n - 1], extra);
        wildcard_attempts(targets, s, extra, n - 1).push(call(AttemptBase::Importer, s)).push(call(AttemptBase::BaseUrl, "./"@ + r)).push(
            AttemptView { base: AttemptBase::BaseUrl, specifier: r, keeps_error: true, slug_from_stem: false },
        )
    }
}

/// The plan for a specifier: relative specifiers, and any specifier from
/// a file inside `node_modules`, go to the inner resolver as they are.
/// Otherwise the first `paths` entry that matches decides: a wildcard
/// tries each of its targets (and, with a single target and a non-empty
/// prefix, falls back to the replaced target itself); an exact entry
/// resolves its target from the base URL (an absolute target is taken as
/// is, and failing that the target is joined onto the base URL). Without a
/// match, a bare specifier is tried under the base URL, then as is.
pub open spec fn spec_resolution_plan(paths: Seq<(PatternView, Seq<Seq<char>>)>, base_url: Seq<char>, base_in_nm: bool, s: Seq<char>)
    -> (Seq<AttemptView>, PlanEndView)
{
    if is_relative_specifier(s) || base_in_nm {
        (seq![call(AttemptBase::Importer, s)], PlanEndView::LastError)
    } else {
        match first_entry(paths, s, paths.len() as int) {
            Some(i) => match paths[i].0 {
                PatternView::Wildcard(prefix) => {
                    let to = paths[i].1;
                    let extra = s.subrange(prefix.len() as int, s.len() as int);
                    let atts = wildcard_attempts(to, s, extra, to.len() as int);
                    if to.len() == 1 && prefix.len() > 0 {
                        let r = spec_replace_star(to[0], extra);
                        (atts, PlanEndView::Resolved(r, Some(spec_file_segment(r))))
                    } else {
                        (atts, PlanEndView::MatchFailed(prefix))
                    }
                },
                PatternView::Exact(_) => {
                    let t = paths[i].1[0];
                    if spec_is_absolute(t) {
                        (Seq::empty(), PlanEndView::Resolved(t, Some(spec_file_segment(t))))
                    } else {
                        (
                            seq![AttemptView { base: AttemptBase::BaseUrl, specifier: "./"@ + t, keeps_error: false, slug_from_stem: true }],
                            PlanEndView::Resolved(spec_push(base_url, t), Some(spec_file_segment(t))),
                        )
                    }
                },
            },
            None => if !seq_starts_with(s, "."@) {
                (seq![call(AttemptBase::Importer, spec_push(base_url, s)), call(AttemptBase::Importer, s)], PlanEndView::LastError)
            } else {
                (seq![call(AttemptBase::Importer, s)], PlanEndView::LastError)
            },
        }
    }
}

proof fn lemma_wildcard_attempts(targets: Seq<Seq<char>>, s: Seq<char>, extra: Seq<char>, n: int)
    requires
        0 <= n <= targets.len(),
    ensures
        wildcard_attempts(targets, s, extra, n).len() == 3 * n,
        forall|j: int| 0 <= j < n ==> {
            let a = wildcard_attempts(targets, s, extra, n);
            let r = spec_replace_star(#[trigger] targets[j], extra);
            &&& a[3 * j] == call(AttemptBase::Importer, s)
            &&& a[3 * j + 1] == call(AttemptBase::BaseUrl, "./"@ + r)
            &&& a[3 * j + 2] == (AttemptView { base: AttemptBase::BaseUrl, specifier: r, keeps_error: true, slug_from_stem: false })
        },
    decreases n,
{
    if n > 0 {
        lemma_wildcard_attempts(targets, s, extra, n - 1);
        let prev = wildcard_attempts(targets, s, extra, n - 1);
        let a = wildcard_attempts(targets, s, extra, n);
        assert forall|j: int| 0 <= j < n implies {
            let r = spec_replace_star(#[trigger] targets[j], extra);
            &&& a[3 * j] == call(AttemptBase::Importer, s)
            &&& a[3 * j + 1] == call(AttemptBase::BaseUrl, "./"@ + r)
            &&& a[3 * j + 2] == (AttemptView { base: AttemptBase::BaseUrl, specifier: r, keeps_error: true, slug_from_stem: false })
        } by {
            if j < n - 1 {
                let r = spec_replace_star(targets[j], extra);
                assert(prev[3 * j] == call(AttemptBase::Importer, s));
                assert(prev[3 * j + 1] == call(AttemptBase::BaseUrl, "./"@ + r));
                assert(a[3 * j] == prev[3 * j]);
                assert(a[3 * j + 1] == prev[3 * j + 1]);
                assert(a[3 * j + 2] == prev[3 * j + 2]);
            }
        }
    }
}

proof fn lemma_first_entry_is(paths: Seq<(PatternView, Seq<Seq<char>>)>, s: Seq<char>, i: int, n: int)
    requires
        0 <= i < n <= paths.len(),
        entry_matches(paths[i].0, s),
        forall|j: int| 0 <= j < i ==> !entry_matches(#[trigger] paths[j].0, s),
    ensures
        first_entry(paths, s, n) == Some(i),
    decreases n,
{
    if n - 1 > i {
        lemma_first_entry_is(paths, s, i, n - 1);
    } else {
        lemma_first_entry_none(paths, s, i);
    }
}

proof fn lemma_first_entry_none(paths: Seq<(PatternView, Seq<Seq<char>>)>, s: Seq<char>, n: int)
    requires
        0 <= n <= paths.len(),
        forall|j: int| 0 <= j < n ==> !entry_matches(#[trigger] paths[j].0, s),
    ensures
        first_entry(paths, s, n) is None,
    decreases n,
{
    if n > 0 {
        lemma_first_entry_none(paths, s, n - 1);
    }
}

/// When the first matching `paths` entry of a bare specifier is a
/// wildcard, the plan tries each of the entry's targets in order, three
/// calls per target: the specifier from the importer, then the target
/// with its `*` replaced by the rest of the specifier, from the base URL
/// as `./<target>` and as is. Unless the entry has a single target, a
/// plan none of whose calls succeeds fails naming the entry's prefix.
pub proof fn law_wildcard_plan_tries_every_target(
    paths: Seq<(PatternView, Seq<Seq<char>>)>,
    base_url: Seq<char>,
    base_in_nm: bool,
    s: Seq<char>,
    i: int,
    prefix: Seq<char>,
)
    requires
        !is_relative_specifier(s),
        !base_in_nm,
        0 <= i < paths.len(),
        paths[i].0 == PatternView::Wildcard(prefix),
        seq_starts_with(s, prefix),
        forall|j: int| 0 <= j < i ==> !entry_matches(#[trigger] paths[j].0, s),
    ensures
        ({
            let atts = spec_resolution_plan(paths, base_url, base_in_nm, s).0;
            let rest = s.subrange(prefix.len() as int, s.len() as int);
            &&& atts.len() == 3 * paths[i].1.len()
            &&& paths[i].1.len() != 1 ==> spec_resolution_plan(paths, base_url, base_in_nm, s).1 == PlanEndView::MatchFailed(prefix)
            &&& forall|j: int| 0 <= j < paths[i].1.len() ==> {
                let r = spec_replace_star(#[trigger] paths[i].1[j], rest);
                &&& atts[3 * j] == call(AttemptBase::Importer, s)
                &&& atts[3 * j + 1] == call(AttemptBase::BaseUrl, "./"@ + r)
                &&& atts[3 * j + 2] == (AttemptView { base: AttemptBase::BaseUrl, specifier: r, keeps_error: true, slug_from_stem: false })
            }
        }),
{
    lemma_first_entry_is(paths, s, i, paths.len() as int);
    let rest = s.subrange(prefix.len() as int, s.len() as int);
    lemma_wildcard_attempts(paths[i].1, s, rest, paths[i].1.len() as int);
}

/// Planning stops with a panic: the matching exact entry has no target.
pub open spec fn plan_panics(paths: Seq<(PatternView, Seq<Seq<char>>)>, base_in_nm: bool, s: Seq<char>) -> bool {
    !(is_relative_specifier(s) || base_in_nm) && match first_entry(paths, s, paths.len() as int) {
        Some(i) => paths[i].0 is Exact && paths[i].1.len() == 0,
        None => false,
    }
}

pub proof fn lemma_first_entry(paths: Seq<(PatternView, Seq<Seq<char>>)>, s: Seq<char>, m: int, n: int)
    requires
        0 <= m <= n <= paths.len(),
    ensures
        first_entry(paths, s, m) is Some ==> first_entry(paths, s, n) == first_entry(paths, s, m),
    decreases n - m,
{
    if n > m {
        lemma_first_entry(paths, s, m, n - 1);
    }
}

pub proof fn lemma_first_entry_range(paths: Seq<(PatternView, Seq<Seq<char>>)>, s: Seq<char>, n: int)
    requires
        0 <= n <= paths.len(),
    ensures
        first_entry(paths, s, n) matches Some(i) ==> 0 <= i < n && entry_matches(paths[i].0, s),
    decreases n,
{
    if n > 0 {
        lemma_first_entry_range(paths, s, n - 1);
    }
}

fn make_call(base: AttemptBase, specifier: String) -> (r: ResolveAttempt)
    ensures
        attempt_view(r) == call(base, specifier@),
{
    ResolveAttempt { base: base, specifier: specifier, keeps_error: false, slug_from_stem: false }
}

fn replace_star(t: &String, extra: &[char]) -> (r: String)
    ensures
        r@ == spec_replace_star(t@, extra@),
{
    let ex = string_from_chars(extra);
    let mut out = String::new();
    crate::pkgjson_exports::rewrite_star_export(ex.as_str(), t.as_str(), &mut out);
    out
}

fn last_segment(p: &String) -> (r: String)
    ensures
        r@ == spec_file_segment(p@),
{
    let c = str_chars(p.as_str());
    let f = file_segment(c.as_slice());
    string_from_chars(f.as_slice())
}

/// Plans the resolution of `module_specifier` through the `paths` of a
/// tsconfig.json (see `spec_resolution_plan`); `base_in_node_modules`
/// tells whether the importer lies inside a `node_modules` directory.
pub fn tsconfig_resolution_plan(tsconfig: &ProcessedTsconfigPaths, base_in_node_modules: bool, module_specifier: &str) -> (r: ResolutionPlan)
    requires
        !plan_panics(paths_view(tsconfig.paths@), base_in_node_modules, module_specifier@),
    ensures
        plan_view(r) == spec_resolution_plan(paths_view(tsconfig.paths@), tsconfig.base_url@, base_in_node_modules, module_specifier@),
{
    let s = str_chars(module_specifier);
    let ghost pv = paths_view(tsconfig.paths@);
    let dd = str_chars("..");
    let ds = str_chars("./");
    let dds = str_chars("../");
    let dot = str_chars(".");
    proof {
        reveal_strlit("..");
        reveal_strlit("./");
        reveal_strlit("../");
        reveal_strlit(".");
    }
    let mut attempts: Vec<ResolveAttempt> = Vec::new();
    let relative = chars_eq(s.as_slice(), dd.as_slice()) || chars_starts_with(s.as_slice(), ds.as_slice())
        || chars_starts_with(s.as_slice(), dds.as_slice());
    if relative || base_in_node_modules {
        attempts.push(make_call(AttemptBase::Importer, module_specifier.to_string()));
        let r = ResolutionPlan { attempts: attempts, end: PlanEnd::LastError };
        assert(plan_view(r).0 =~= seq![call(AttemptBase::Importer, module_specifier@)]);
        return r;
    }
    assert(relative == is_relative_specifier(module_specifier@));
    let mut i: usize = 0;
    while i < tsconfig.paths.len()
        invariant
            pv == paths_view(tsconfig.paths@),
            s@ == module_specifier@,
            attempts@.len() == 0,
            !plan_panics(pv, base_in_node_modules, module_specifier@),
            !(is_relative_specifier(module_specifier@) || base_in_node_modules),
            dot@ == "."@,
            0 <= i <= tsconfig.paths@.len(),
            first_entry(pv, s@, i as int) is None,
        decreases tsconfig.paths@.len() - i,
    {
        let pat = &tsconfig.paths[i].0;
        let to = &tsconfig.paths[i].1;
        assert(pv[i as int] == (pattern_view(*pat), string_seq_views(to@)));
        let matched = match pat {
            TsconfigPattern::Wildcard { prefix } => {
                let pc = str_chars(prefix.as_str());
                chars_starts_with(s.as_slice(), pc.as_slice())
            },
            TsconfigPattern::Exact(from) => {
                let fc = str_chars(from.as_str());
                chars_eq(fc.as_slice(), s.as_slice())
            },
        };
        if matched {
            proof {
                assert(first_entry(pv, s@, i + 1) == Some(i as int));
                lemma_first_entry(pv, s@, i + 1, pv.len() as int);
            }
            match pat {
                TsconfigPattern::Wildcard { prefix } => {
                    let pc = str_chars(prefix.as_str());
                    let extra = chars_sub(s.as_slice(), pc.len(), s.len());
                    let ghost tv = string_seq_views(to@);
                    assert(attempts@.map_values(|a: ResolveAttempt| attempt_view(a)) =~= Seq::<AttemptView>::empty());
                    let mut j: usize = 0;
                    while j < to.len()
                        invariant
                            tv == string_seq_views(to@),
                            s@ == module_specifier@,
                            0 <= j <= to@.len(),
                            attempts@.map_values(|a: ResolveAttempt| attempt_view(a)) == wildcard_attempts(tv, s@, extra@, j as int),
                        decreases to@.len() - j,
                    {
                        assert(tv[j as int] == to@[j as int]@);
                        let r = replace_star(&to[j], extra.as_slice());
                        let mut dr = str_chars("./");
                        let rc = str_chars(r.as_str());
                        push_all(&mut dr, rc.as_slice());
                        proof { reveal_strlit("./"); }
                        let a1 = make_call(AttemptBase::Importer, module_specifier.to_string());
                        let a2 = make_call(AttemptBase::BaseUrl, string_from_chars(dr.as_slice()));
                        let a3 = ResolveAttempt { base: AttemptBase::BaseUrl, specifier: r, keeps_error: true, slug_from_stem: false };
                        let ghost b0 = attempts@;
                        attempts.push(a1);
                        let ghost b1 = attempts@;
                        attempts.push(a2);
                        let ghost b2 = attempts@;
                        attempts.push(a3);
                        proof {
                            let f = |a: ResolveAttempt| attempt_view(a);
                            lemma_map_values_push(b0, a1, f);
                            lemma_map_values_push(b1, a2, f);
                            lemma_map_values_push(b2, a3, f);
                        }
                        j = j + 1;
                    }
                    let end = if to.len() == 1 && pc.len() > 0 {
                        assert(tv[0] == to@[0]@);
                        let r = replace_star(&to[0], extra.as_slice());
                        let slug = last_segment(&r);
                        PlanEnd::Resolved { filename: r, slug: Some(slug) }
                    } else {
                        PlanEnd::MatchFailed { prefix: prefix.clone() }
                    };
                    return ResolutionPlan { attempts: attempts, end: end };
                },
                TsconfigPattern::Exact(_) => {
                    assert(string_seq_views(to@)[0] == to@[0]@);
                    let t = &to[0];
                    let tc = str_chars(t.as_str());
                    let slug = last_segment(t);
                    if tc.len() > 0 && tc[0] == '/' {
                        let r = ResolutionPlan { attempts: attempts, end: PlanEnd::Resolved { filename: t.clone(), slug: Some(slug) } };
                        assert(plan_view(r).0 =~= Seq::<AttemptView>::empty());
                        return r;
                    }
                    let mut dt = str_chars("./");
                    push_all(&mut dt, tc.as_slice());
                    attempts.push(ResolveAttempt { base: AttemptBase::BaseUrl, specifier: string_from_chars(dt.as_slice()), keeps_error: false, slug_from_stem: true });
                    let bu = str_chars(tsconfig.base_url.as_str());
                    let joined = path_push(bu.as_slice(), tc.as_slice());
                    let r = ResolutionPlan { attempts: attempts, end: PlanEnd::Resolved { filename: string_from_chars(joined.as_slice()), slug: Some(slug) } };
                    assert(plan_view(r).0 =~= seq![AttemptView { base: AttemptBase::BaseUrl, specifier: "./"@ + t@, keeps_error: false, slug_from_stem: true }]);
                    return r;
                },
            }
        }
        i = i + 1;
    }
    if !chars_starts_with(s.as_slice(), dot.as_slice()) {
        let bu = str_chars(tsconfig.base_url.as_str());
        let joined = path_push(bu.as_slice(), s.as_slice());
        attempts.push(make_call(AttemptBase::Importer, string_from_chars(joined.as_slice())));
        attempts.push(make_call(AttemptBase::Importer, module_specifier.to_string()));
        let r = ResolutionPlan { attempts: attempts, end: PlanEnd::LastError };
        assert(plan_view(r).0[0] == call(AttemptBase::Importer, spec_push(tsconfig.base_url@, module_specifier@)));
        assert(plan_view(r).0[1] == call(AttemptBase::Importer, module_specifier@));
        assert(plan_view(r).0 =~= seq![call(AttemptBase::Importer, spec_push(tsconfig.base_url@, module_specifier@)), call(AttemptBase::Importer, module_specifier@)]);
        r
    } else {
        attempts.push(make_call(AttemptBase::Importer, module_specifier.to_string()));
        let r = ResolutionPlan { attempts: attempts, end: PlanEnd::LastError };
        assert(plan_view(r).0[0] == call(AttemptBase::Importer, module_specifier@));
        assert(plan_view(r).0 =~= seq![call(AttemptBase::Importer, module_specifier@)]);
        r
    }
}


/// `node_modules` is a whole component of `p` starting at `i`.
pub open spec fn node_modules_at(p: Seq<char>, i: int) -> bool {
    &&& 0 <= i
    &&& i + 12 <= p.len()
    &&& p.subrange(i, i + 12) == "node_modules"@
    &&& (i == 0 || p[i - 1] == '/')
    &&& (i + 12 == p.len() || p[i + 12] == '/')
}

/// Some component of the path is `node_modules`.
pub open spec fn has_node_modules(p: Seq<char>) -> bool {
    exists|i: int| #[trigger] node_modules_at(p, i)
}

/// Whether some component of `p` is `node_modules`.
pub fn has_node_modules_component(p: &str) -> (r: bool)
    ensures
        r == has_node_modules(p@),
{
    let c = str_chars(p);
    let nm = str_chars("node_modules");
    proof { reveal_strlit("node_modules"); }
    if c.len() < 12 {
        assert forall|i: int| !#[trigger] node_modules_at(p@, i) by {}
        return false;
    }
    let mut i: usize = 0;
    let n: usize = c.len();
    let last: usize = n - 12;
    while i <= last
        invariant
            n == c@.len(),
            last == c@.len() - 12,
            c@ == p@,
            nm@ == "node_modules"@,
            nm@.len() == 12,
            c@.len() >= 12,
            0 <= i <= c@.len() - 11,
            forall|j: int| 0 <= j < i ==> !#[trigger] node_modules_at(p@, j),
        decreases c@.len() - i,
    {
        let end: usize = i + 12;
        let piece = chars_sub(c.as_slice(), i, end);
        let before_ok = i == 0 || c[i - 1] == '/';
        let after_ok = end == c.len() || c[end] == '/';
        if before_ok && after_ok && chars_eq(piece.as_slice(), nm.as_slice()) {
            assert(node_modules_at(p@, i as int));
            return true;
        }
        i = i + 1;
    }
    assert forall|j: int| !#[trigger] node_modules_at(p@, j) by {
        if 0 <= j < i {
        }
    }
    false
}

/// The file an inner resolution names: a file inside `node_modules`
/// reached from outside `node_modules` is named by the module specifier
/// instead.
pub open spec fn spec_inner_filename(base_in_nm: bool, module_specifier: Seq<char>, resolved: Seq<char>) -> Seq<char> {
    if !base_in_nm && has_node_modules(resolved) {
        module_specifier
    } else {
        resolved
    }
}

/// The file an inner resolution names (see `spec_inner_filename`).
pub fn inner_resolution_filename(base_in_node_modules: bool, module_specifier: &str, resolved: &str) -> (r: String)
    ensures
        r@ == spec_inner_filename(base_in_node_modules, module_specifier@, resolved@),
{
    if !base_in_node_modules && has_node_modules_component(resolved) {
        module_specifier.to_string()
    } else {
        resolved.to_string()
    }
}

/// `Path::file_stem`: the final component without its extension.
pub open spec fn spec_file_stem(p: Seq<char>) -> Option<Seq<char>> {
    match spec_file_name(p) {
        None => None,
        Some(f) => Some(match last_index_of(f, '.') {
            None => f,
            Some(i) => if i == 0 { f } else { f.subrange(0, i) },
        }),
    }
}

/// The slug of a file resolved through an exact `paths` entry: the stem
/// of its name, unless that is `index`.
pub open spec fn spec_stem_slug(p: Seq<char>) -> Option<Seq<char>> {
    match spec_file_stem(p) {
        Some(s) => if s == "index"@ { None } else { Some(s) },
        None => None,
    }
}

/// The slug of a file resolved through an exact `paths` entry.
pub fn stem_slug(resolved: &str) -> (r: Option<String>)
    ensures
        match r {
            Some(s) => spec_stem_slug(resolved@) == Some(s@),
            None => spec_stem_slug(resolved@) is None,
        },
{
    let c = str_chars(resolved);
    let name = match crate::node_resolution::file_name(c.as_slice()) {
        Some(n) => n,
        None => { return None; },
    };
    proof { lemma_last_index_of(name@, '.'); }
    let stem = match chars_rfind(name.as_slice(), '.') {
        None => name,
        Some(i) => if i == 0 { name } else { chars_sub(name.as_slice(), 0, i) },
    };
    let index = str_chars("index");
    proof { reveal_strlit("index"); }
    if chars_eq(stem.as_slice(), index.as_slice()) {
        None
    } else {
        Some(string_from_chars(stem.as_slice()))
    }
}

pub open spec fn match_failed_text(module_specifier: Seq<char>, prefix: Seq<char>) -> Seq<char> {
    "`"@ + module_specifier + "` matched `"@ + prefix + "` (from tsconfig.paths) but failed to resolve:\n"@
}

/// The head of the failure message of a wildcard entry that matched but
/// whose targets all failed; the errors follow it.
pub fn match_failed_message(module_specifier: &str, prefix: &str) -> (r: String)
    ensures
        r@ == match_failed_text(module_specifier@, prefix@),
{
    let mut v = str_chars("`");
    let a = str_chars(module_specifier);
    push_all(&mut v, a.as_slice());
    let b = str_chars("` matched `");
    push_all(&mut v, b.as_slice());
    let c = str_chars(prefix);
    push_all(&mut v, c.as_slice());
    let d = str_chars("` (from tsconfig.paths) but failed to resolve:\n");
    push_all(&mut v, d.as_slice());
    string_from_chars(v.as_slice())
}

/// How a resolution plan ended, given the outcomes of its calls.
#[derive(Debug)]
pub enum Settled {
    /// A file, with its slug.
    Resolved { filename: String, slug: Option<String> },
    /// The error of the call with this index is the result.
    AttemptError(usize),
    /// A wildcard entry matched and all its targets failed.
    MatchFailed { prefix: String },
}

pub enum SettledView {
    Resolved(Seq<char>, Option<Seq<char>>),
    AttemptError(int),
    MatchFailed(Seq<char>),
}

pub open spec fn settled_view(s: Settled) -> SettledView {
    match s {
        Settled::Resolved { filename, slug } => SettledView::Resolved(filename@, match slug {
            Some(x) => Some(x@),
            None => None,
        }),
        Settled::AttemptError(k) => SettledView::AttemptError(k as int),
        Settled::MatchFailed { prefix } => SettledView::MatchFailed(prefix@),
    }
}

/// The outcome of one call of the inner resolver: the file and slug it
/// resolved to, or `None` when it failed.
pub open spec fn outcome_view(o: Option<(String, Option<String>)>) -> Option<(Seq<char>, Option<Seq<char>>)> {
    match o {
        Some((f, s)) => Some((f@, match s {
            Some(x) => Some(x@),
            None => None,
        })),
        None => None,
    }
}

/// The index of the first call that succeeded among the first `n`.
pub open spec fn first_success(outcomes: Seq<Option<(Seq<char>, Option<Seq<char>>)>>, n: int) -> Option<int>
    decreases n,
{
    if n <= 0 {
        None
    } else {
        match first_success(outcomes, n - 1) {
            Some(k) => Some(k),
            None => if outcomes[n - 1] is Some { Some(n - 1) } else { None },
        }
    }
}

/// The result of a plan: the first call that succeeded gives the file (a
/// file inside `node_modules` reached from outside it is named by the
/// specifier of the call) and its slug (taken from the file's stem when
/// the call says so); when every call failed, the end of the plan decides,
/// the error of the last call standing for `LastError`.
pub open spec fn spec_settle(
    attempts: Seq<AttemptView>,
    end: PlanEndView,
    importer_in_nm: bool,
    base_url_in_nm: bool,
    outcomes: Seq<Option<(Seq<char>, Option<Seq<char>>)>>,
) -> SettledView {
    match first_success(outcomes, outcomes.len() as int) {
        Some(k) => {
            let a = attempts[k];
            let in_nm = match a.base {
                AttemptBase::Importer => importer_in_nm,
                AttemptBase::BaseUrl => base_url_in_nm,
            };
            let f = spec_inner_filename(in_nm, a.specifier, (outcomes[k]->0).0);
            SettledView::Resolved(f, if a.slug_from_stem { spec_stem_slug(f) } else { (outcomes[k]->0).1 })
        },
        None => match end {
            PlanEndView::Resolved(f, s) => SettledView::Resolved(f, s),
            PlanEndView::LastError => SettledView::AttemptError(outcomes.len() - 1),
            PlanEndView::MatchFailed(p) => SettledView::MatchFailed(p),
        },
    }
}

fn copy_opt_string(s: &Option<String>) -> (r: Option<String>)
    ensures
        match (r, *s) {
            (Some(a), Some(b)) => a@ == b@,
            (None, None) => true,
            _ => false,
        },
{
    match s {
        Some(x) => Some(x.clone()),
        None => None,
    }
}

/// The result of a resolution plan (see `spec_settle`), given the outcomes
/// of its calls made in order up to the first that succeeded; the flags
/// say whether the importer and the base URL lie inside `node_modules`.
pub fn settle_resolution(
    plan: &ResolutionPlan,
    importer_in_node_modules: bool,
    base_url_in_node_modules: bool,
    outcomes: &Vec<Option<(String, Option<String>)>>,
) -> (r: Settled)
    requires
        outcomes@.len() <= plan.attempts@.len(),
        forall|k: int| 0 <= k < outcomes@.len() - 1 ==> (#[trigger] outcomes@[k]) is None,
        outcomes@.len() < plan.attempts@.len() ==> outcomes@.len() > 0 && outcomes@.last() is Some,
        plan.end is LastError ==> plan.attempts@.len() > 0,
    ensures
        settled_view(r) == spec_settle(plan_view(*plan).0, plan_view(*plan).1, importer_in_node_modules,
            base_url_in_node_modules, outcomes@.map_values(|o: Option<(String, Option<String>)>| outcome_view(o))),
{
    let ghost ov = outcomes@.map_values(|o: Option<(String, Option<String>)>| outcome_view(o));
    let ghost av = plan_view(*plan).0;
    let mut k: usize = 0;
    while k < outcomes.len()
        invariant
            0 <= k <= outcomes@.len(),
            outcomes@.len() <= plan.attempts@.len(),
            av == plan_view(*plan).0,
            ov == outcomes@.map_values(|o: Option<(String, Option<String>)>| outcome_view(o)),
            first_success(ov, k as int) is None,
            forall|j: int| 0 <= j < k ==> (#[trigger] outcomes@[j]) is None,
        decreases outcomes@.len() - k,
    {
        match &outcomes[k] {
            Some((file, slug)) => {
                assert(first_success(ov, k + 1) == Some(k as int));
                proof { lemma_first_success_stable(ov, k + 1, ov.len() as int); }
                let a = &plan.attempts[k];
                assert(av[k as int] == attempt_view(*a));
                let in_nm = match a.base {
                    AttemptBase::Importer => importer_in_node_modules,
                    AttemptBase::BaseUrl => base_url_in_node_modules,
                };
                let f = inner_resolution_filename(in_nm, a.specifier.as_str(), file.as_str());
                let s = if a.slug_from_stem { stem_slug(f.as_str()) } else { copy_opt_string(slug) };
                return Settled::Resolved { filename: f, slug: s };
            },
            None => {},
        }
        k = k + 1;
    }
    match &plan.end {
        PlanEnd::Resolved { filename, slug } => Settled::Resolved { filename: filename.clone(), slug: copy_opt_string(slug) },
        PlanEnd::LastError => {
            assert(outcomes@.len() == plan.attempts@.len());
            Settled::AttemptError(outcomes.len() - 1)
        },
        PlanEnd::MatchFailed { prefix } => Settled::MatchFailed { prefix: prefix.clone() },
    }
}

proof fn lemma_first_success_stable(o: Seq<Option<(Seq<char>, Option<Seq<char>>)>>, m: int, n: int)
    requires
        m <= n,
        first_success(o, m) is Some,
    ensures
        first_success(o, n) == first_success(o, m),
    decreases n - m,
{
    if n > m {
        lemma_first_success_stable(o, m, n - 1);
    }
}

} // verus!
