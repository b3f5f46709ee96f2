//! Splitting of bare package import specifiers (`@scope/pkg/sub/path`).
use vstd::prelude::*;
use crate::text::{
    chars_find, chars_starts_with, chars_sub, first_index_of, lemma_first_index_of, push_all,
    seq_starts_with, str_chars, string_from_chars, to_owned_string,
};

verus! {

/// Position of the first `/` in `s`, or `s.len()` when there is none.
pub open spec fn slash_index(s: Seq<char>) -> int {
    match first_index_of(s, '/') {
        Some(i) => i,
        None => s.len() as int,
    }
}

/// The package named by an import specifier: `None` for relative
/// specifiers (`.`/`..` first segment), for the empty string, and for a scope
/// with no package (`@scope`); the scope plus the next segment for scoped
/// packages; the first segment otherwise.
pub open spec fn spec_package_name(s: Seq<char>) -> Option<Seq<char>> {
    if s.len() == 0 {
        None
    } else {
        let idx = slash_index(s);
        if s[0] == '@' {
            if idx + 1 >= s.len() {
                None
            } else {
                match first_index_of(s.subrange(idx + 1, s.len() as int), '/') {
                    Some(t) => Some(s.subrange(0, idx + t + 1)),
                    None => Some(s),
                }
            }
        } else if s.subrange(0, idx) == seq!['.'] || s.subrange(0, idx) == seq!['.', '.'] {
            None
        } else {
            Some(s.subrange(0, idx))
        }
    }
}

/// `./` prepended unless already present.
pub open spec fn spec_prefix_dotslash(s: Seq<char>) -> Seq<char> {
    if seq_starts_with(s, seq!['.', '/']) {
        s
    } else {
        seq!['.', '/'] + s
    }
}

/// The package-relative part of a specifier, given the package name `pkg`.
pub open spec fn spec_package_subpath(s: Seq<char>, pkg: Seq<char>) -> Seq<char> {
    let rest = s.subrange(pkg.len() as int, s.len() as int);
    if rest.len() > 0 && rest[0] == '/' {
        seq!['.'] + rest
    } else if rest.len() == 0 {
        seq!['.']
    } else if seq_starts_with(rest, seq!['.', '/']) {
        rest
    } else {
        spec_prefix_dotslash(rest)
    }
}

proof fn lemma_package_name_prefix(s: Seq<char>)
    ensures
        spec_package_name(s) matches Some(p) ==> p.len() <= s.len() && s.subrange(0, p.len() as int) == p,
{
    lemma_first_index_of(s, '/');
    if s.len() > 0 && s[0] == '@' && slash_index(s) + 1 < s.len() {
        lemma_first_index_of(s.subrange(slash_index(s) + 1, s.len() as int), '/');
    }
    if let Some(p) = spec_package_name(s) {
        assert(s.subrange(0, p.len() as int) =~= p);
    }
}

/// Extracts the package name from a package import specifier.
pub fn package_name(import_specifier: &str) -> (r: Option<&str>)
    ensures
        match r {
            Some(p) => spec_package_name(import_specifier@) == Some(p@),
            None => spec_package_name(import_specifier@) is None,
        },
{
    let s = str_chars(import_specifier);
    let n = s.len();
    if n == 0 {
        return None;
    }
    proof { lemma_first_index_of(s@, '/'); }
    let idx = match chars_find(s.as_slice(), '/') {
        Some(i) => i,
        None => n,
    };
    if s[0] == '@' {
        if idx >= n - 1 {
            return None;
        }
        let tail = chars_sub(s.as_slice(), idx + 1, n);
        match chars_find(tail.as_slice(), '/') {
            Some(tail_len) => {
                proof { lemma_first_index_of(tail@, '/'); }
                Some(import_specifier.substring_char(0, idx + tail_len + 1))
            },
            None => Some(import_specifier),
        }
    } else {
        let first = chars_sub(s.as_slice(), 0, idx);
        let is_dot = first.len() == 1 && first[0] == '.';
        let is_dotdot = first.len() == 2 && first[0] == '.' && first[1] == '.';
        assert(is_dot == (first@ == seq!['.'])) by {
            if first@.len() == 1 && first@[0] == '.' {
                assert(first@ =~= seq!['.']);
            }
        }
        assert(is_dotdot == (first@ == seq!['.', '.'])) by {
            if first@.len() == 2 && first@[0] == '.' && first@[1] == '.' {
                assert(first@ =~= seq!['.', '.']);
            }
        }
        if is_dot || is_dotdot {
            None
        } else {
            Some(import_specifier.substring_char(0, idx))
        }
    }
}

/// Prefixes `./` to a specifier that does not already start with it.
pub fn prefix_dotslash(import_specifier: &str) -> (r: String)
    ensures
        r@ == spec_prefix_dotslash(import_specifier@),
{
    let s = str_chars(import_specifier);
    let ds: [char; 2] = ['.', '/'];
    assert(ds@ =~= seq!['.', '/']);
    if chars_starts_with(s.as_slice(), ds.as_slice()) {
        to_owned_string(import_specifier)
    } else {
        let mut out: Vec<char> = Vec::new();
        out.push('.');
        out.push('/');
        push_all(&mut out, s.as_slice());
        assert(out@ =~= seq!['.', '/'] + s@);
        string_from_chars(out.as_slice())
    }
}

/// Splits a package import into the package name and the `./`-relative
/// subpath within the package.
pub fn split_package_import(import_specifier: &str) -> (r: Option<(&str, String)>)
    ensures
        match r {
            Some((pkg, sub)) => spec_package_name(import_specifier@) == Some(pkg@)
                && sub@ == spec_package_subpath(import_specifier@, pkg@),
            None => spec_package_name(import_specifier@) is None,
        },
{
    match package_name(import_specifier) {
        Some(pkg) => {
            proof { lemma_package_name_prefix(import_specifier@); }
            let s = str_chars(import_specifier);
            let pv = str_chars(pkg);
            let idx = pv.len();
            let rest = chars_sub(s.as_slice(), idx, s.len());
            let ds: [char; 2] = ['.', '/'];
            assert(ds@ =~= seq!['.', '/']);
            if rest.len() > 0 && rest[0] == '/' {
                let mut out: Vec<char> = Vec::new();
                out.push('.');
                push_all(&mut out, rest.as_slice());
                assert(out@ =~= seq!['.'] + rest@);
                Some((pkg, string_from_chars(out.as_slice())))
            } else if rest.len() == 0 {
                let mut out: Vec<char> = Vec::new();
                out.push('.');
                assert(out@ =~= seq!['.']);
                Some((pkg, string_from_chars(out.as_slice())))
            } else if chars_starts_with(rest.as_slice(), ds.as_slice()) {
                Some((pkg, string_from_chars(rest.as_slice())))
            } else {
                let rest_str = string_from_chars(rest.as_slice());
                Some((pkg, prefix_dotslash(rest_str.as_str())))
            }
        },
        None => None,
    }
}

} // verus!
