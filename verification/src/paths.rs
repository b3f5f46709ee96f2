//! Slash-separated path strings.
//!
//! Paths are handled as strings with `/` as the separator. As with
//! `std::path` on Unix, trailing separators and trailing `.` segments do
//! not count: the parent of `a/b/` is `a`, the parent of `a//b` is `a`.
//! Lexical cleaning and relative-path normalization are delegated to the
//! `path-clean` and `relative-path` crates.
use vstd::prelude::*;
use crate::text::{chars_sub, push_all, seq_starts_with, str_chars, string_from_chars};

verus! {

/// Index of the last occurrence of `c` in `s`.
pub open spec fn last_index_of(s: Seq<char>, c: char) -> Option<int>
    decreases s.len(),
{
    if s.len() == 0 {
        None
    } else if s.last() == c {
        Some(s.len() - 1)
    } else {
        last_index_of(s.drop_last(), c)
    }
}

pub proof fn lemma_last_index_of(s: Seq<char>, c: char)
    ensures
        match last_index_of(s, c) {
            Some(i) => 0 <= i < s.len() && s[i] == c && forall|j: int| i < j < s.len() ==> s[j] != c,
            None => forall|j: int| 0 <= j < s.len() ==> s[j] != c,
        },
    decreases s.len(),
{
    if s.len() > 0 && s.last() != c {
        lemma_last_index_of(s.drop_last(), c);
        assert forall|j: int| 0 <= j < s.len() - 1 implies s.drop_last()[j] == s[j] by {}
    }
}

/// Index of the last occurrence of `c` in `s`.
pub fn chars_rfind(s: &[char], c: char) -> (r: Option<usize>)
    ensures
        match r {
            Some(i) => last_index_of(s@, c) == Some(i as int),
            None => last_index_of(s@, c) is None,
        },
{
    proof { lemma_last_index_of(s@, c); }
    let mut i: usize = s.len();
    while i > 0
        invariant
            i <= s@.len(),
            forall|j: int| i <= j < s@.len() ==> s@[j] != c,
            match last_index_of(s@, c) {
                Some(k) => 0 <= k < s@.len() && s@[k] == c && forall|j: int| k < j < s@.len() ==> s@[j] != c,
                None => forall|j: int| 0 <= j < s@.len() ==> s@[j] != c,
            },
        decreases i,
    {
        i = i - 1;
        if s[i] == c {
            return Some(i);
        }
    }
    None
}

/// The path starts at the root.
pub open spec fn spec_is_absolute(p: Seq<char>) -> bool {
    p.len() > 0 && p[0] == '/'
}

/// The path without trailing separators and trailing `.` segments, as
/// `Path` ignores them: stops at a single character, so `"/"` stays.
pub open spec fn trim_trailing_seps(p: Seq<char>) -> Seq<char>
    decreases p.len(),
{
    if p.len() > 1 && (p.last() == '/' || (p.last() == '.' && p[p.len() - 2] == '/')) {
        trim_trailing_seps(p.drop_last())
    } else {
        p
    }
}

pub proof fn lemma_trim_trailing_seps(p: Seq<char>)
    ensures
        trim_trailing_seps(p).len() <= p.len(),
        p.subrange(0, trim_trailing_seps(p).len() as int) == trim_trailing_seps(p),
        p.len() > 0 ==> trim_trailing_seps(p).len() > 0,
        p.len() > 0 ==> trim_trailing_seps(p)[0] == p[0],
        trim_trailing_seps(trim_trailing_seps(p)) == trim_trailing_seps(p),
    decreases p.len(),
{
    if p.len() > 1 && (p.last() == '/' || (p.last() == '.' && p[p.len() - 2] == '/')) {
        lemma_trim_trailing_seps(p.drop_last());
        let t = trim_trailing_seps(p);
        assert(p.subrange(0, t.len() as int) =~= p.drop_last().subrange(0, t.len() as int));
    } else {
        assert(p.subrange(0, p.len() as int) =~= p);
    }
}

/// The parent of a path (`Path::parent`): the path up to the separator
/// before its final component, without trailing separators; `None` for
/// `""` and the root.
pub open spec fn spec_parent(p: Seq<char>) -> Option<Seq<char>> {
    let t = trim_trailing_seps(p);
    if t.len() == 0 || t == seq!['/'] {
        None
    } else {
        match last_index_of(t, '/') {
            None => Some(Seq::empty()),
            Some(i) => if i == 0 { Some(seq!['/']) } else { Some(trim_trailing_seps(t.subrange(0, i))) },
        }
    }
}

/// `base` extended by `p` (`PathBuf::push`): an absolute `p` replaces
/// `base`, otherwise the two are joined with a separator.
pub open spec fn spec_push(base: Seq<char>, p: Seq<char>) -> Seq<char> {
    if spec_is_absolute(p) {
        p
    } else if base.len() == 0 {
        p
    } else if base.last() == '/' {
        base + p
    } else {
        base + seq!['/'] + p
    }
}

/// The path followed by all of its ancestors (`Path::ancestors`).
pub open spec fn spec_ancestors(p: Seq<char>) -> Seq<Seq<char>>
    decreases p.len(),
{
    match spec_parent(p) {
        None => seq![p],
        Some(q) => if q.len() < p.len() { seq![p] + spec_ancestors(q) } else { seq![p] },
    }
}

/// The final segment of a path, once trailing separators and `.` segments
/// are dropped: what `Path::file_name` gives, except that for the root,
/// `.` and `..` (where it gives none) this is their own text.
pub open spec fn spec_file_segment(p: Seq<char>) -> Seq<char> {
    let t = trim_trailing_seps(p);
    match last_index_of(t, '/') {
        None => t,
        Some(i) => t.subrange(i + 1, t.len() as int),
    }
}

/// The extension of the final segment (`Path::extension`): the text after
/// its last `.` when that `.` is not its first character; none for `.`/`..`.
pub open spec fn spec_extension(p: Seq<char>) -> Option<Seq<char>> {
    let f = spec_file_segment(p);
    if f == seq!['.', '.'] {
        None
    } else {
        match last_index_of(f, '.') {
            None => None,
            Some(i) => if i == 0 { None } else { Some(f.subrange(i + 1, f.len() as int)) },
        }
    }
}

/// The path without the extension of its final segment (and so without
/// trailing separators); unchanged when there is no extension.
pub open spec fn spec_no_ext(p: Seq<char>) -> Seq<char> {
    match spec_extension(p) {
        None => p,
        Some(e) => {
            let t = trim_trailing_seps(p);
            t.subrange(0, t.len() - e.len() - 1)
        },
    }
}

pub proof fn lemma_parent_shorter(p: Seq<char>)
    ensures
        spec_parent(p) matches Some(q) ==> q.len() < p.len() && p.subrange(0, q.len() as int) == q,
{
    lemma_trim_trailing_seps(p);
    let t = trim_trailing_seps(p);
    lemma_last_index_of(t, '/');
    if t.len() == 1 && t[0] == '/' {
        assert(t =~= seq!['/']);
    }
    if let Some(q) = spec_parent(p) {
        match last_index_of(t, '/') {
            None => {
                assert(p.subrange(0, 0) =~= q);
            },
            Some(i) => {
                if i == 0 {
                    assert(t.len() >= 2);
                    assert(p.subrange(0, 1) =~= q);
                } else {
                    let u = t.subrange(0, i);
                    lemma_trim_trailing_seps(u);
                    assert(p.subrange(0, q.len() as int) =~= u.subrange(0, q.len() as int));
                }
            },
        }
    }
}

/// Length of the path without trailing separators and `.` segments.
pub fn trimmed_len(p: &[char]) -> (n: usize)
    ensures
        n <= p.len(),
        p@.subrange(0, n as int) == trim_trailing_seps(p@),
{
    let mut n: usize = p.len();
    assert(p@.subrange(0, n as int) =~= p@);
    while n > 1 && (p[n - 1] == '/' || (p[n - 1] == '.' && p[n - 2] == '/'))
        invariant
            n <= p@.len(),
            trim_trailing_seps(p@.subrange(0, n as int)) == trim_trailing_seps(p@),
        decreases n,
    {
        assert(p@.subrange(0, n as int).drop_last() =~= p@.subrange(0, n - 1));
        n = n - 1;
    }
    n
}

/// The path starts at the root.
pub fn is_absolute(p: &[char]) -> (r: bool)
    ensures
        r == spec_is_absolute(p@),
{
    p.len() > 0 && p[0] == '/'
}

/// The parent of a path.
pub fn path_parent(p: &[char]) -> (r: Option<Vec<char>>)
    ensures
        match r {
            Some(q) => spec_parent(p@) == Some(q@),
            None => spec_parent(p@) is None,
        },
{
    let n = trimmed_len(p);
    let t = chars_sub(p, 0, n);
    assert(t@ == trim_trailing_seps(p@));
    if n == 0 || (n == 1 && t[0] == '/') {
        assert(t@.len() == 1 && t@[0] == '/' ==> t@ =~= seq!['/']);
        return None;
    }
    assert(t@ != seq!['/']) by {
        if t@ == seq!['/'] { assert(t@.len() == 1 && t@[0] == '/'); }
    }
    proof { lemma_last_index_of(t@, '/'); }
    match chars_rfind(t.as_slice(), '/') {
        None => Some(Vec::new()),
        Some(i) => {
            if i == 0 {
                let mut v: Vec<char> = Vec::new();
                v.push('/');
                assert(v@ =~= seq!['/']);
                Some(v)
            } else {
                let u = chars_sub(t.as_slice(), 0, i);
                let m = trimmed_len(u.as_slice());
                Some(chars_sub(u.as_slice(), 0, m))
            }
        },
    }
}

/// `base` extended by `p`.
pub fn path_push(base: &[char], p: &[char]) -> (r: Vec<char>)
    ensures
        r@ == spec_push(base@, p@),
{
    if is_absolute(p) || base.len() == 0 {
        let mut v: Vec<char> = Vec::new();
        push_all(&mut v, p);
        assert(v@ =~= p@);
        v
    } else {
        let mut v: Vec<char> = Vec::new();
        push_all(&mut v, base);
        if base[base.len() - 1] != '/' {
            v.push('/');
        }
        push_all(&mut v, p);
        v
    }
}

/// The path followed by all of its ancestors.
pub fn path_ancestors(p: &[char]) -> (r: Vec<Vec<char>>)
    ensures
        r@.len() == spec_ancestors(p@).len(),
        forall|k: int| 0 <= k < r@.len() ==> (#[trigger] r@[k])@ == spec_ancestors(p@)[k],
    decreases p@.len(),
{
    proof { lemma_parent_shorter(p@); }
    let mut first: Vec<char> = Vec::new();
    push_all(&mut first, p);
    assert(first@ =~= p@);
    let mut r: Vec<Vec<char>> = Vec::new();
    r.push(first);
    match path_parent(p) {
        None => r,
        Some(q) => {
            let rest = path_ancestors(q.as_slice());
            let mut i: usize = 0;
            while i < rest.len()
                invariant
                    0 <= i <= rest@.len(),
                    rest@.len() == spec_ancestors(q@).len(),
                    forall|k: int| 0 <= k < rest@.len() ==> (#[trigger] rest@[k])@ == spec_ancestors(q@)[k],
                    r@.len() == 1 + i,
                    r@[0]@ == p@,
                    forall|k: int| 1 <= k < r@.len() ==> (#[trigger] r@[k])@ == spec_ancestors(q@)[k - 1],
                decreases rest@.len() - i,
            {
                let mut c: Vec<char> = Vec::new();
                push_all(&mut c, rest[i].as_slice());
                assert(c@ =~= rest@[i as int]@);
                r.push(c);
                i = i + 1;
            }
            assert forall|k: int| 0 <= k < r@.len() implies (#[trigger] r@[k])@ == spec_ancestors(p@)[k] by {
                if k > 0 {
                    assert(spec_ancestors(p@)[k] == spec_ancestors(q@)[k - 1]);
                }
            }
            r
        },
    }
}

/// The final segment of a path.
pub fn file_segment(p: &[char]) -> (r: Vec<char>)
    ensures
        r@ == spec_file_segment(p@),
{
    let n = trimmed_len(p);
    let t = chars_sub(p, 0, n);
    proof { lemma_last_index_of(t@, '/'); }
    match chars_rfind(t.as_slice(), '/') {
        None => t,
        Some(i) => {
            assert(i < t.len());
            chars_sub(t.as_slice(), i + 1, t.len())
        },
    }
}

/// The extension of the final segment.
pub fn extension(p: &[char]) -> (r: Option<Vec<char>>)
    ensures
        match r {
            Some(e) => spec_extension(p@) == Some(e@),
            None => spec_extension(p@) is None,
        },
{
    let f = file_segment(p);
    if f.len() == 2 && f[0] == '.' && f[1] == '.' {
        assert(f@ =~= seq!['.', '.']);
        return None;
    }
    assert(f@ != seq!['.', '.']) by {
        if f@ == seq!['.', '.'] { assert(f@.len() == 2 && f@[0] == '.' && f@[1] == '.'); }
    }
    proof { lemma_last_index_of(f@, '.'); }
    match chars_rfind(f.as_slice(), '.') {
        None => None,
        Some(i) => if i == 0 { None } else { Some(chars_sub(f.as_slice(), i + 1, f.len())) },
    }
}

/// The path without the extension of its final segment.
pub fn no_ext(p: &str) -> (r: String)
    ensures
        r@ == spec_no_ext(p@),
{
    let v = str_chars(p);
    match extension(v.as_slice()) {
        None => string_from_chars(v.as_slice()),
        Some(e) => {
            let n = trimmed_len(v.as_slice());
            let t = chars_sub(v.as_slice(), 0, n);
            proof {
                lemma_last_index_of(t@, '/');
                let f = spec_file_segment(v@);
                lemma_last_index_of(f, '.');
            }
            string_from_chars(chars_sub(t.as_slice(), 0, t.len() - e.len() - 1).as_slice())
        },
    }
}

/// Result of `path_clean::clean` (lexical cleaning: repeated separators,
/// `.` segments and resolvable `..` segments removed; `"."` for an empty
/// result) on a path given as a string.
pub uninterp spec fn cleaned_path(p: Seq<char>) -> Seq<char>;

/// `path_clean::clean` on a UTF-8 path string. Besides naming the result,
/// it states the rooted-path rule of the crate's documentation: a path that
/// starts at the root still does after cleaning.
#[verifier::external_body]
pub(crate) fn clean_path_string(p: &str) -> (r: String)
    ensures
        r@ == cleaned_path(p@),
        spec_is_absolute(p@) ==> spec_is_absolute(r@),
{
    path_clean::clean(p).to_string_lossy().into_owned()
}

/// `relative_path::RelativePathBuf::push`: a leading separator of `p` is
/// dropped, and a separator is inserted unless `base` is empty or already
/// ends with one.
pub open spec fn spec_relative_push(base: Seq<char>, p: Seq<char>) -> Seq<char> {
    let other = if p.len() > 0 && p[0] == '/' { p.drop_first() } else { p };
    if base.len() > 0 && base.last() != '/' {
        base + seq!['/'] + other
    } else {
        base + other
    }
}

/// `RelativePath::join` (which is `to_relative_path_buf` followed by
/// `push`), as the crate's source defines it.
#[verifier::external_body]
pub(crate) fn relative_join(base: &str, p: &str) -> (r: String)
    ensures
        r@ == spec_relative_push(base@, p@),
{
    relative_path::RelativePath::new(base).join(p).into_string()
}

/// Result of `RelativePath::normalize`: `.` segments dropped and `..`
/// segments resolved against the preceding segment where there is one.
pub uninterp spec fn normalized_relative_path(p: Seq<char>) -> Seq<char>;

/// `RelativePath::normalize`.
#[verifier::external_body]
pub(crate) fn relative_normalize(p: &str) -> (r: String)
    ensures
        r@ == normalized_relative_path(p@),
{
    relative_path::RelativePath::new(p).normalize().into_string()
}

/// Result of `RelativePath::parent`: the path without its final component,
/// after dropping trailing `.` components.
pub uninterp spec fn relative_parent_of(p: Seq<char>) -> Option<Seq<char>>;

/// `RelativePath::parent`: `None` exactly for the empty path, as its source
/// shows.
#[verifier::external_body]
pub(crate) fn relative_parent(p: &str) -> (r: Option<String>)
    ensures
        r matches Some(q) ==> relative_parent_of(p@) == Some(q@),
        r is None ==> relative_parent_of(p@) is None,
        r is None <==> p@.len() == 0,
{
    relative_path::RelativePath::new(p).parent().map(|q| q.as_str().to_string())
}

/// Result of `pathdiff::diff_paths`: the path that leads from `base` to
/// `path`, as a string, or `None` when the crate finds none.
pub uninterp spec fn diffed_path(path: Seq<char>, base: Seq<char>) -> Option<Seq<char>>;

/// `pathdiff::diff_paths` on two path strings. Besides naming the result,
/// it states the two cases its source settles first: an absolute path
/// against a relative base is the path itself, and a relative path against
/// an absolute base has no answer.
#[verifier::external_body]
pub(crate) fn diff_paths(path: &str, base: &str) -> (r: Option<String>)
    ensures
        r matches Some(q) ==> diffed_path(path@, base@) == Some(q@),
        r is None ==> diffed_path(path@, base@) is None,
        spec_is_absolute(path@) && !spec_is_absolute(base@) ==> r is Some && r->0@ == path@,
        !spec_is_absolute(path@) && spec_is_absolute(base@) ==> r is None,
{
    pathdiff::diff_paths(path, base).map(|p| p.to_string_lossy().into_owned())
}

/// `base` joined with `path` and cleaned, when `base` is absolute.
pub open spec fn spec_absolute_join(base: Seq<char>, path: Seq<char>) -> Seq<char> {
    cleaned_path(if spec_is_absolute(path) { path } else { spec_push(base, path) })
}

/// Joins `path` onto the absolute `base` and cleans the result.
pub fn absolute_join(base: &str, path: &str) -> (r: String)
    requires
        spec_is_absolute(base@),
    ensures
        r@ == spec_absolute_join(base@, path@),
        spec_is_absolute(r@),
{
    let b = str_chars(base);
    let p = str_chars(path);
    let joined = if is_absolute(p.as_slice()) {
        p
    } else {
        path_push(b.as_slice(), p.as_slice())
    };
    assert(spec_is_absolute(joined@)) by {
        if !spec_is_absolute(p@) {
            assert(joined@[0] == b@[0]);
        }
    }
    let js = string_from_chars(joined.as_slice());
    clean_path_string(js.as_str())
}

/// Every ancestor of a path is a prefix of it.
pub proof fn lemma_ancestors_are_prefixes(p: Seq<char>)
    ensures
        forall|k: int| 0 <= k < spec_ancestors(p).len() ==> {
            let a = #[trigger] spec_ancestors(p)[k];
            a.len() <= p.len() && p.subrange(0, a.len() as int) == a
        },
    decreases p.len(),
{
    lemma_parent_shorter(p);
    match spec_parent(p) {
        None => {
            assert(spec_ancestors(p) == seq![p]);
            assert(p.subrange(0, p.len() as int) =~= p);
        },
        Some(q) => {
            lemma_ancestors_are_prefixes(q);
            assert(p.subrange(0, p.len() as int) =~= p);
            assert forall|k: int| 0 <= k < spec_ancestors(p).len() implies {
                let a = #[trigger] spec_ancestors(p)[k];
                a.len() <= p.len() && p.subrange(0, a.len() as int) == a
            } by {
                if k > 0 {
                    let a = spec_ancestors(q)[k - 1];
                    assert(spec_ancestors(p)[k] == a);
                    assert(q.subrange(0, a.len() as int) == a);
                    assert(p.subrange(0, a.len() as int) =~= q.subrange(0, a.len() as int));
                }
            }
        },
    }
}
/// A path made of a stem, a `.` and an extension without `.` or `/` has
/// that extension, and without it is the stem (when the stem's final
/// segment is not empty).
pub proof fn lemma_stem_and_extension(stem: Seq<char>, ext: Seq<char>)
    requires
        stem.len() > 0,
        stem.last() != '/',
        ext.len() > 0,
        forall|j: int| 0 <= j < ext.len() ==> ext[j] != '.' && ext[j] != '/',
    ensures
        spec_extension(stem + seq!['.'] + ext) == Some(ext),
        spec_no_ext(stem + seq!['.'] + ext) == stem,
{
    let p = stem + seq!['.'] + ext;
    let n = stem.len() as int;
    assert(p.last() == ext.last());
    assert(trim_trailing_seps(p) == p);
    lemma_last_index_of(p, '/');
    lemma_last_index_of(stem, '/');
    assert forall|j: int| n <= j < p.len() implies p[j] != '/' by {
        if j > n { assert(p[j] == ext[j - n - 1]); }
    }
    let start: int = match last_index_of(p, '/') {
        Some(i) => i + 1,
        None => 0,
    };
    assert(start < n) by {
        if let Some(i) = last_index_of(p, '/') {
            assert(i < n);
            assert(p[i] == stem[i]);
            assert(i != n - 1);
        }
    }
    let f = spec_file_segment(p);
    assert(f == p.subrange(start, p.len() as int));
    lemma_last_index_of(f, '.');
    let k = n - start;
    assert(f[k] == '.');
    assert forall|j: int| k < j < f.len() implies f[j] != '.' by {
        assert(f[j] == ext[j - k - 1]);
    }
    assert(last_index_of(f, '.') == Some(k)) by {
        if let Some(i) = last_index_of(f, '.') {
            assert(!(i < k));
            assert(!(i > k));
        }
    }
    assert(f != seq!['.', '.']) by {
        assert(f.last() == ext.last());
    }
    assert(f.subrange(k + 1, f.len() as int) =~= ext);
    assert(p.subrange(0, p.len() - ext.len() - 1) =~= stem);
}

} // verus!
