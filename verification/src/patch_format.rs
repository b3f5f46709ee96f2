//! The patch file format: a header of `#> key: value` properties and `#`
//! comment lines, followed by unified-diff hunks that `diffy` parses and
//! applies.
use vstd::prelude::*;
use vstd::utf8::{decode_utf8, encode_scalar, encode_utf8, is_char_boundary};
use vstd::string::StringSliceAdditionalSpecFns;
use crate::comments::{spec_trim, trim_chars};
use crate::js_err::AnyError;
use crate::manual_resolver::first_occurrence_from;
use crate::node_resolution::{assoc_insert_pairs, find_pair, pairs_insert, pairs_view};
use crate::pkgjson_exports::{assoc_find, lemma_encode_utf8_len};
use crate::text::{
    chars_find, chars_starts_with, chars_sub, first_index_of, lemma_first_index_of, push_all, seq_starts_with, str_chars,
    str_eq, string_from_chars, string_seq_views, to_owned_string,
};

verus! {

/// The UTF-8 encoding of a concatenation is the concatenation of the
/// encodings.
pub proof fn lemma_encode_utf8_concat(a: Seq<char>, b: Seq<char>)
    ensures
        encode_utf8(a + b) == encode_utf8(a) + encode_utf8(b),
    decreases a.len(),
{
    if a.len() == 0 {
        assert(a + b =~= b);
        assert(encode_utf8(a) + encode_utf8(b) =~= encode_utf8(b));
    } else {
        assert((a + b).drop_first() =~= a.drop_first() + b);
        assert((a + b)[0] == a[0]);
        lemma_encode_utf8_concat(a.drop_first(), b);
        assert(encode_utf8(a + b) =~= encode_utf8(a) + encode_utf8(b));
    }
}

/// The encoding of a part of `c` is no longer than that of `c`, and the
/// encodings of two adjacent parts add up.
pub proof fn lemma_encode_utf8_sub(c: Seq<char>, a: int, m: int, b: int)
    requires
        0 <= a <= m <= b <= c.len(),
    ensures
        encode_utf8(c.subrange(a, b)).len() == encode_utf8(c.subrange(a, m)).len() + encode_utf8(c.subrange(m, b)).len(),
        encode_utf8(c.subrange(a, b)).len() <= encode_utf8(c).len(),
{
    assert(c.subrange(a, b) =~= c.subrange(a, m) + c.subrange(m, b));
    lemma_encode_utf8_concat(c.subrange(a, m), c.subrange(m, b));
    assert(c =~= c.subrange(0, a) + c.subrange(a, b) + c.subrange(b, c.len() as int));
    lemma_encode_utf8_concat(c.subrange(0, a) + c.subrange(a, b), c.subrange(b, c.len() as int));
    lemma_encode_utf8_concat(c.subrange(0, a), c.subrange(a, b));
}

/// Number of bytes of the UTF-8 encoding of `c` (`char::len_utf8`).
pub fn char_utf8_len(c: char) -> (r: usize)
    ensures
        r == encode_scalar(c as u32).len(),
{
    proof { vstd::utf8::char_is_scalar(c); }
    let u = c as u32;
    if u <= 0x7F {
        1
    } else if u <= 0x7FF {
        2
    } else if u <= 0xFFFF {
        3
    } else {
        4
    }
}

/// Number of bytes of the UTF-8 encoding of `c[from..to]`.
pub fn utf8_len(c: &[char], from: usize, to: usize) -> (r: usize)
    requires
        from <= to <= c@.len(),
        encode_utf8(c@).len() <= usize::MAX,
    ensures
        r == encode_utf8(c@.subrange(from as int, to as int)).len(),
{
    let mut acc: usize = 0;
    let mut i: usize = from;
    assert(c@.subrange(from as int, from as int) =~= Seq::<char>::empty());
    while i < to
        invariant
            from <= i <= to <= c@.len(),
            encode_utf8(c@).len() <= usize::MAX,
            acc == encode_utf8(c@.subrange(from as int, i as int)).len(),
        decreases to - i,
    {
        proof {
            lemma_encode_utf8_sub(c@, from as int, i as int, i + 1);
            let one = c@.subrange(i as int, i + 1);
            assert(one.drop_first() =~= Seq::<char>::empty());
            assert(one[0] == c@[i as int]);
            assert(encode_utf8(one.drop_first()) == Seq::<u8>::empty());
            assert(encode_utf8(one) == encode_scalar(one[0] as u32) + encode_utf8(one.drop_first()));
            assert(encode_utf8(one) =~= encode_scalar(one[0] as u32));
        }
        let w = char_utf8_len(c[i]);
        acc = acc + w;
        i = i + 1;
    }
    acc
}

/// Index of the first `'\n'` at or after `from`, or the length of `c`.
pub open spec fn next_newline(c: Seq<char>, from: int) -> int
    decreases c.len() - from,
{
    if from < 0 || from >= c.len() {
        c.len() as int
    } else if c[from] == '\n' {
        from
    } else {
        next_newline(c, from + 1)
    }
}

pub proof fn lemma_next_newline(c: Seq<char>, from: int)
    requires
        0 <= from <= c.len(),
    ensures
        from <= next_newline(c, from) <= c.len(),
        next_newline(c, from) < c.len() ==> c[next_newline(c, from)] == '\n',
        forall|k: int| from <= k < next_newline(c, from) ==> c[k] != '\n',
    decreases c.len() - from,
{
    if from < c.len() && c[from] != '\n' {
        lemma_next_newline(c, from + 1);
    }
}

/// End of the text of the line that starts at `from`, as `str::lines`
/// yields it: before the `'\n'` that ends the line, and before a `'\r'`
/// that precedes that `'\n'`.
pub open spec fn line_end(c: Seq<char>, from: int) -> int {
    let nl = next_newline(c, from);
    if nl < c.len() && nl > from && c[nl - 1] == '\r' {
        nl - 1
    } else {
        nl
    }
}

/// The property of a `#>` line, given the text after the `#>`: the part
/// before the first `:` and the part after it, both trimmed; no property
/// when the text has no `:`.
pub open spec fn header_entry(t: Seq<char>) -> Option<(Seq<char>, Seq<char>)> {
    match first_index_of(t, ':') {
        Some(i) => Some((spec_trim(t.subrange(0, i)), spec_trim(t.subrange(i + 1, t.len() as int)))),
        None => None,
    }
}

/// What the header scan has found: the properties (a later line replaces
/// the value of an earlier one with the same key), the comment lines, and
/// the byte offset at which the hunks start (none when every line belongs
/// to the header).
pub struct HeaderScan {
    pub values: Seq<(Seq<char>, Seq<char>)>,
    pub comments: Seq<Seq<char>>,
    pub rest_at: Option<int>,
}

/// Scan of the header from the line that starts at character `pos`, where
/// `head` counts the bytes of the lines read so far, each line as
/// `str::lines` gives it plus one byte for its line ending.
pub open spec fn scan_header(
    c: Seq<char>,
    pos: int,
    head: int,
    values: Seq<(Seq<char>, Seq<char>)>,
    comments: Seq<Seq<char>>,
) -> HeaderScan
    decreases c.len() + 1 - pos,
{
    if pos < 0 || pos >= c.len() {
        HeaderScan { values, comments, rest_at: None }
    } else {
        proof { lemma_next_newline(c, pos); }
        let nl = next_newline(c, pos);
        let end = line_end(c, pos);
        let line = spec_trim(c.subrange(pos, end));
        let next_head = head + encode_utf8(c.subrange(pos, end)).len() + 1;
        if seq_starts_with(line, seq!['#', '>']) {
            let values2 = match header_entry(line.subrange(2, line.len() as int)) {
                Some(kv) => assoc_insert_pairs(values, kv.0, kv.1),
                None => values,
            };
            scan_header(c, nl + 1, next_head, values2, comments)
        } else if seq_starts_with(line, seq!['#']) {
            scan_header(c, nl + 1, next_head, values, comments.push(line))
        } else {
            HeaderScan { values, comments, rest_at: Some(head) }
        }
    }
}

/// The header of the patch text `s`.
pub open spec fn header_of(s: Seq<char>) -> HeaderScan {
    scan_header(s, 0, 0, seq![], seq![])
}

/// The byte offset at which the header ends falls on a character boundary
/// of `s` (cutting `s` there would otherwise panic).
pub open spec fn header_cut_ok(s: Seq<char>) -> bool {
    match header_of(s).rest_at {
        Some(h) => is_char_boundary(encode_utf8(s), h),
        None => true,
    }
}

/// The text after the header: `s` from the byte offset at which the header
/// ends, or nothing when every line belongs to the header.
pub open spec fn header_rest(s: Seq<char>) -> Seq<char> {
    match header_of(s).rest_at {
        Some(h) => decode_utf8(encode_utf8(s).subrange(h, encode_utf8(s).len() as int)),
        None => seq![],
    }
}

/// Index of the first `'\n'` at or after `from`.
fn find_newline(c: &[char], from: usize) -> (r: usize)
    requires
        from <= c@.len(),
    ensures
        r == next_newline(c@, from as int),
{
    let mut i = from;
    while i < c.len() && c[i] != '\n'
        invariant
            from <= i <= c@.len(),
            next_newline(c@, i as int) == next_newline(c@, from as int),
        decreases c@.len() - i,
    {
        i = i + 1;
    }
    i
}

/// Splits the patch text into its header properties, its comment lines and
/// the text of its hunks.
fn parse_header(s: &str) -> (r: (Vec<(String, String)>, Vec<String>, &str))
    requires
        header_cut_ok(s@),
    ensures
        pairs_view(r.0@) == header_of(s@).values,
        string_seq_views(r.1@) == header_of(s@).comments,
        r.2@ == header_rest(s@),
{
    let c = str_chars(s);
    let n = c.len();
    let ghost cs = s@;
    let total = s.as_bytes().len();
    let mut values: Vec<(String, String)> = Vec::new();
    let mut comments: Vec<String> = Vec::new();
    let mut pos: usize = 0;
    let mut head: usize = 0;
    let hash_gt = vec!['#', '>'];
    let hash = vec!['#'];
    proof {
        assert(s.spec_bytes() == encode_utf8(cs));
        assert(cs.subrange(0, 0) =~= Seq::<char>::empty());
        assert(pairs_view(values@) =~= Seq::<(Seq<char>, Seq<char>)>::empty());
        assert(string_seq_views(comments@) =~= Seq::<Seq<char>>::empty());
    }
    while pos < n
        invariant
            c@ == cs,
            cs == s@,
            n == cs.len(),
            total == encode_utf8(cs).len(),
            hash_gt@ == seq!['#', '>'],
            hash@ == seq!['#'],
            header_cut_ok(cs),
            0 <= pos <= n,
            head <= encode_utf8(cs.subrange(0, pos as int)).len(),
            scan_header(cs, pos as int, head as int, pairs_view(values@), string_seq_views(comments@)) == header_of(cs),
        decreases n - pos,
    {
        let nl = find_newline(c.as_slice(), pos);
        proof { lemma_next_newline(cs, pos as int); }
        let end = if nl < n && nl > pos && c[nl - 1] == '\r' {
            nl - 1
        } else {
            nl
        };
        proof {
            lemma_encode_utf8_sub(cs, 0, pos as int, end as int);
            lemma_encode_utf8_sub(cs, 0, end as int, n as int);
        }
        let width = utf8_len(c.as_slice(), pos, end);
        let raw = chars_sub(c.as_slice(), pos, end);
        let line = trim_chars(raw.as_slice());
        let ghost vals0 = pairs_view(values@);
        let ghost coms0 = string_seq_views(comments@);
        if chars_starts_with(line.as_slice(), hash_gt.as_slice()) {
            let after = chars_sub(line.as_slice(), 2, line.len());
            match chars_find(after.as_slice(), ':') {
                Some(i) => {
                    proof { lemma_first_index_of(after@, ':'); }
                    let k0 = chars_sub(after.as_slice(), 0, i);
                    let v0 = chars_sub(after.as_slice(), i + 1, after.len());
                    let k = trim_chars(k0.as_slice());
                    let v = trim_chars(v0.as_slice());
                    pairs_insert(&mut values, string_from_chars(k.as_slice()), string_from_chars(v.as_slice()));
                },
                None => {},
            }
        } else if chars_starts_with(line.as_slice(), hash.as_slice()) {
            comments.push(string_from_chars(line.as_slice()));
            proof { assert(string_seq_views(comments@) =~= coms0.push(line@)); }
        } else {
            proof {
                vstd::utf8::encode_utf8_decode_utf8(s@);
            }
            let (_, rest) = s.split_at(head);
            proof {
                vstd::utf8::encode_utf8_decode_utf8(rest@);
            }
            return (values, comments, rest);
        }
        proof {
            assert(scan_header(cs, pos as int, head as int, vals0, coms0) == scan_header(
                cs,
                nl + 1,
                head + width + 1,
                pairs_view(values@),
                string_seq_views(comments@),
            ));
        }
        if nl >= n {
            proof {
                assert(scan_header(cs, nl + 1, head + width + 1, pairs_view(values@), string_seq_views(comments@)).values
                    == pairs_view(values@));
            }
            proof {
                reveal_strlit("");
            }
            return (values, comments, "");
        }
        proof {
            lemma_encode_utf8_sub(cs, 0, end as int, nl + 1);
            lemma_encode_utf8_len(cs.subrange(end as int, nl + 1));
        }
        head = head + width + 1;
        pos = nl + 1;
    }
    proof {
        reveal_strlit("");
    }
    (values, comments, "")
}


/// A decimal digit.
pub open spec fn is_decimal_digit(c: char) -> bool {
    '0' <= c && c <= '9'
}

/// The number that a string of decimal digits writes.
pub open spec fn digits_value(s: Seq<char>) -> int
    decreases s.len(),
{
    if s.len() == 0 {
        0
    } else {
        digits_value(s.drop_last()) * 10 + ((s.last() as u32) as int - 48)
    }
}

/// The number a hunk range field holds when it reads as one (as
/// `usize::from_str` reads it: an optional `+`, then one or more digits).
pub open spec fn numeral_value(s: Seq<char>) -> Option<int> {
    let d = if s.len() > 0 && s[0] == '+' { s.drop_first() } else { s };
    if d.len() > 0 && (forall|i: int| 0 <= i < d.len() ==> is_decimal_digit(#[trigger] d[i])) {
        Some(digits_value(d))
    } else {
        None
    }
}

/// A hunk range `start[,len]` (the length is 1 when left out) whose end
/// `start + len` stays within `usize` whenever both numbers do.
pub open spec fn range_end_fits(r: Seq<char>) -> bool {
    let nums = match first_index_of(r, ',') {
        Some(i) => (numeral_value(r.subrange(0, i)), numeral_value(r.subrange(i + 1, r.len() as int))),
        None => (numeral_value(r), Some(1int)),
    };
    match nums {
        (Some(a), Some(b)) => a <= usize::MAX && b <= usize::MAX ==> a + b <= usize::MAX,
        _ => true,
    }
}

/// A hunk header line `@@ -<range> +<range> @@...`: the end of each of its
/// two ranges stays within `usize`. Lines of other forms are not hunk
/// headers and ask nothing.
pub open spec fn header_line_fits(line: Seq<char>) -> bool {
    seq_starts_with(line, "@@ "@) ==> {
        let body = line.subrange(3, line.len() as int);
        match first_occurrence_from(body, " @@"@, 0) {
            None => true,
            Some(k) => {
                let ranges = body.subrange(0, k);
                match first_index_of(ranges, ' ') {
                    None => true,
                    Some(j) => {
                        let r1 = ranges.subrange(0, j);
                        let r2 = ranges.subrange(j + 1, ranges.len() as int);
                        &&& (seq_starts_with(r1, "-"@) ==> range_end_fits(r1.subrange(1, r1.len() as int)))
                        &&& (seq_starts_with(r2, "+"@) ==> range_end_fits(r2.subrange(1, r2.len() as int)))
                    },
                }
            },
        }
    }
}

/// Every hunk header line of the hunk text has ranges whose ends stay
/// within `usize` (diffy adds start and length without an overflow check
/// when it compares consecutive hunks).
pub open spec fn hunk_numbers_fit(t: Seq<char>) -> bool {
    forall|p: int|
        0 <= p <= t.len() && (p == 0 || t[p - 1] == '\n') ==> #[trigger] header_line_fits(
            t.subrange(p, next_newline(t, p)),
        )
}

/// The display text of the error `diffy::Patch::from_str` gives on the
/// hunk text, or none when diffy parses it.
pub uninterp spec fn diffy_parse_error(text: Seq<char>) -> Option<Seq<char>>;

/// The text `diffy::apply` makes of `base` with the hunks parsed from
/// `hunks`, or none when a hunk does not apply.
pub uninterp spec fn diffy_applied(base: Seq<char>, hunks: Seq<char>) -> Option<Seq<char>>;

#[verifier::external_type_specification]
#[verifier::external_body]
pub struct ExApplyError(diffy::ApplyError);

/// `diffy::Patch::from_str` on the hunk text. The contract claims that the
/// result is `Ok` exactly when the name `diffy_parse_error` gives none, and
/// otherwise carries the display text of diffy's `ParsePatchError`, which
/// diffy writes as `error parsing patch: ` and the reason.
#[verifier::external_body]
fn check_hunks(text: &str) -> (r: Result<(), String>)
    requires
        hunk_numbers_fit(text@),
    ensures
        match r {
            Ok(_) => diffy_parse_error(text@) is None,
            Err(m) => diffy_parse_error(text@) == Some(m@) && seq_starts_with(m@, "error parsing patch: "@),
        },
{
    match diffy::Patch::from_str(text) {
        Ok(_) => Ok(()),
        Err(e) => Err(e.to_string()),
    }
}

/// `diffy::apply` of the hunks, parsed by `diffy::Patch::from_str` (which
/// the `requires` says succeeds on them), to `base`. The contract claims
/// that the result is the patched text named by `diffy_applied`, or diffy's
/// `ApplyError` exactly when that name gives none.
#[verifier::external_body]
fn apply_hunks(base: &str, hunks: &str) -> (r: Result<String, diffy::ApplyError>)
    requires
        hunk_numbers_fit(hunks@),
        diffy_parse_error(hunks@) is None,
    ensures
        match r {
            Ok(t) => diffy_applied(base@, hunks@) == Some(t@),
            Err(_) => diffy_applied(base@, hunks@) is None,
        },
{
    let patch = diffy::Patch::from_str(hunks).expect("the hunk text was checked when the patch was read");
    diffy::apply(base, &patch)
}

/// A patch read from its text: the comment lines saying why it is needed,
/// the md5 of the file it is meant for, the version of its format, and the
/// text of its hunks, which diffy parses.
pub struct Patch {
    comment_lines: Vec<String>,
    target_file_md5: Option<String>,
    patch_format_version: String,
    hunks: String,
}

pub struct PatchView {
    pub comment_lines: Seq<Seq<char>>,
    pub target_file_md5: Option<Seq<char>>,
    pub patch_format_version: Seq<char>,
    pub hunks: Seq<char>,
}

pub open spec fn opt_string_view(o: Option<String>) -> Option<Seq<char>> {
    match o {
        Some(s) => Some(s@),
        None => None,
    }
}

impl View for Patch {
    type V = PatchView;

    closed spec fn view(&self) -> PatchView {
        PatchView {
            comment_lines: string_seq_views(self.comment_lines@),
            target_file_md5: opt_string_view(self.target_file_md5),
            patch_format_version: self.patch_format_version@,
            hunks: self.hunks@,
        }
    }
}

/// The value of `key` in an association list of properties.
pub open spec fn assoc_value(values: Seq<(Seq<char>, Seq<char>)>, key: Seq<char>) -> Option<Seq<char>> {
    match assoc_find(values, key) {
        Some(i) => Some(values[i].1),
        None => None,
    }
}

/// The value of `key` among the header properties.
pub open spec fn header_value(h: HeaderScan, key: Seq<char>) -> Option<Seq<char>> {
    assoc_value(h.values, key)
}

/// What reading the patch text `s` gives: the patch, or the text of the
/// error. A `patch_format_version` other than `1` is refused; without one
/// the version is `1`. The md5 is the last `target_file_md5` of the header;
/// the hunks are the text after the header, which diffy must parse.
pub open spec fn spec_patch_parse(s: Seq<char>) -> Result<PatchView, Seq<char>> {
    let h = header_of(s);
    let rest = header_rest(s);
    let version = header_value(h, "patch_format_version"@);
    if version is Some && version->0 != "1"@ {
        Err("unrecognized patch format version "@ + version->0)
    } else {
        match diffy_parse_error(rest) {
            Some(m) => Err(m),
            None => Ok(
                PatchView {
                    comment_lines: h.comments,
                    target_file_md5: header_value(h, "target_file_md5"@),
                    patch_format_version: "1"@,
                    hunks: rest,
                },
            ),
        }
    }
}

/// The comment lines, each followed by a line break.
pub open spec fn comment_block(c: Seq<Seq<char>>) -> Seq<char>
    decreases c.len(),
{
    if c.len() == 0 {
        seq![]
    } else {
        comment_block(c.drop_last()) + c.last() + seq!['\n']
    }
}

/// The text of a patch: its comment lines, the format version, the md5
/// when there is one, then the hunks.
pub open spec fn patch_text(p: PatchView) -> Seq<char> {
    comment_block(p.comment_lines) + "#> patch_format_version: "@ + p.patch_format_version + seq!['\n']
        + match p.target_file_md5 {
        Some(m) => "#> target_file_md5: "@ + m + seq!['\n'],
        None => seq![],
    } + p.hunks
}

/// The value of `key` among the properties read.
fn lookup_value(values: &Vec<(String, String)>, key: &str) -> (r: Option<String>)
    ensures
        opt_string_view(r) == assoc_value(pairs_view(values@), key@),
{
    let k = str_chars(key);
    match find_pair(values, k.as_slice()) {
        Some(i) => {
            assert(pairs_view(values@)[i as int].1 == values@[i as int].1@);
            Some(values[i].1.clone())
        },
        None => None,
    }
}

impl Patch {
    #[verifier::type_invariant]
    spec fn hunks_parse(self) -> bool {
        &&& hunk_numbers_fit(self.hunks@)
        &&& diffy_parse_error(self.hunks@) is None
    }

    /// Reads a patch from its text (see `spec_patch_parse`).
    pub fn from_str(s: &str) -> (r: Result<Patch, AnyError>)
        requires
            header_cut_ok(s@),
            hunk_numbers_fit(header_rest(s@)),
        ensures
            match r {
                Ok(p) => spec_patch_parse(s@) == Ok::<PatchView, Seq<char>>(p@),
                Err(e) => e matches AnyError::Message(m) && spec_patch_parse(s@) == Err::<PatchView, Seq<char>>(m@),
            },
    {
        let (values, comment_lines, remainder) = parse_header(s);
        let ghost h = header_of(s@);
        let patch_format_version = match lookup_value(&values, "patch_format_version") {
            None => to_owned_string("1"),
            Some(p) => {
                if str_eq(p.as_str(), "1") {
                    to_owned_string("1")
                } else {
                    let mut msg = str_chars("unrecognized patch format version ");
                    let pc = str_chars(p.as_str());
                    push_all(&mut msg, pc.as_slice());
                    return Err(AnyError::msg(string_from_chars(msg.as_slice())));
                }
            },
        };
        let target_file_md5 = lookup_value(&values, "target_file_md5");
        match check_hunks(remainder) {
            Ok(_) => {},
            Err(m) => {
                return Err(AnyError::msg(m));
            },
        }
        let p = Patch { comment_lines, target_file_md5, patch_format_version, hunks: to_owned_string(remainder) };
        proof {
            assert(p@.comment_lines == h.comments);
        }
        Ok(p)
    }

    /// Applies the hunks to `target` (`diffy::apply`).
    pub fn apply(&self, target: &str) -> (r: Result<String, diffy::ApplyError>)
        ensures
            match r {
                Ok(t) => diffy_applied(target@, self@.hunks) == Some(t@),
                Err(_) => diffy_applied(target@, self@.hunks) is None,
            },
    {
        proof { use_type_invariant(self); }
        apply_hunks(target, self.hunks.as_str())
    }

    /// The text of the patch (see `patch_text`).
    pub fn to_display_string(&self) -> (r: String)
        ensures
            r@ == patch_text(self@),
    {
        let mut out: Vec<char> = Vec::new();
        let mut i: usize = 0;
        let ghost cv = string_seq_views(self.comment_lines@);
        while i < self.comment_lines.len()
            invariant
                cv == string_seq_views(self.comment_lines@),
                0 <= i <= self.comment_lines@.len(),
                out@ == comment_block(cv.subrange(0, i as int)),
            decreases self.comment_lines@.len() - i,
        {
            let line = str_chars(self.comment_lines[i].as_str());
            push_all(&mut out, line.as_slice());
            out.push('\n');
            proof {
                let next = cv.subrange(0, i + 1);
                assert(next.drop_last() =~= cv.subrange(0, i as int));
                assert(next.last() == cv[i as int]);
            }
            i = i + 1;
        }
        proof { assert(cv.subrange(0, cv.len() as int) =~= cv); }
        let version_key = str_chars("#> patch_format_version: ");
        push_all(&mut out, version_key.as_slice());
        let version = str_chars(self.patch_format_version.as_str());
        push_all(&mut out, version.as_slice());
        out.push('\n');
        let ghost before_md5 = out@;
        match &self.target_file_md5 {
            Some(m) => {
                let md5_key = str_chars("#> target_file_md5: ");
                push_all(&mut out, md5_key.as_slice());
                let mc = str_chars(m.as_str());
                push_all(&mut out, mc.as_slice());
                out.push('\n');
            },
            None => {},
        }
        let hunks = str_chars(self.hunks.as_str());
        push_all(&mut out, hunks.as_slice());
        proof {
            let md5_part = match self@.target_file_md5 {
                Some(m) => "#> target_file_md5: "@ + m + seq!['\n'],
                None => Seq::<char>::empty(),
            };
            assert(out@ =~= before_md5 + md5_part + self@.hunks);
            assert(before_md5 =~= comment_block(self@.comment_lines) + "#> patch_format_version: "@
                + self@.patch_format_version + seq!['\n']);
        }
        string_from_chars(out.as_slice())
    }

    /// The comment lines of the header.
    pub fn comment_lines(&self) -> (r: &Vec<String>)
        ensures
            string_seq_views(r@) == self@.comment_lines,
    {
        &self.comment_lines
    }

    /// The md5 of the file the patch is meant for.
    pub fn target_file_md5(&self) -> (r: &Option<String>)
        ensures
            opt_string_view(*r) == self@.target_file_md5,
    {
        &self.target_file_md5
    }

    /// The version of the patch format.
    pub fn patch_format_version(&self) -> (r: &str)
        ensures
            r@ == self@.patch_format_version,
    {
        self.patch_format_version.as_str()
    }

    /// The text of the hunks.
    pub fn hunk_text(&self) -> (r: &str)
        ensures
            r@ == self@.hunks,
    {
        self.hunks.as_str()
    }
}

} // verus!
