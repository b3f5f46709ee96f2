//! Source positions: comments that lead a statement, and the line and
//! column of a byte offset.
use vstd::prelude::*;
use vstd::utf8::{decode_utf8, encode_utf8, is_char_boundary, valid_utf8};
use vstd::string::StringSliceAdditionalSpecFns;

verus! {

/// A byte range `[start, end)` of a source text.
#[derive(Debug, Clone, Copy, PartialEq, Eq, Structural, Default)]
pub struct Span {
    pub start: u32,
    pub end: u32,
}

impl Span {
    pub fn new(start: u32, end: u32) -> (r: Span)
        ensures
            r.start == start,
            r.end == end,
    {
        Span { start, end }
    }
}

/// `//` comments and `/* */` comments.
#[derive(Debug, Clone, Copy, PartialEq, Eq, Structural)]
pub enum CommentKind {
    Line,
    Block,
}

/// Whether the parser attached a comment to what follows it, or to the
/// end of the line before it.
#[derive(Debug, Clone, Copy, PartialEq, Eq, Structural)]
pub enum CommentPosition {
    Leading,
    Trailing,
}

/// A comment of a source text, with the span of its delimiters included.
#[derive(Debug, Clone, Copy, PartialEq, Eq, Structural)]
pub struct Comment {
    pub span: Span,
    pub kind: CommentKind,
    pub position: CommentPosition,
}

/// The comment has room for its delimiters.
pub open spec fn comment_wf(c: Comment) -> bool {
    match c.kind {
        CommentKind::Line => c.span.start + 2 <= c.span.end,
        CommentKind::Block => c.span.start + 4 <= c.span.end,
    }
}

impl Comment {
    /// The span of the comment's text, without `//` or `/*` and `*/`.
    pub fn content_span(&self) -> (r: Span)
        requires
            comment_wf(*self),
        ensures
            r.start == self.span.start + 2,
            r.end == match self.kind {
                CommentKind::Line => self.span.end as int,
                CommentKind::Block => self.span.end - 2,
            },
    {
        match self.kind {
            CommentKind::Line => Span { start: self.span.start + 2, end: self.span.end },
            CommentKind::Block => Span { start: self.span.start + 2, end: self.span.end - 2 },
        }
    }
}

pub open spec fn is_gap_byte(b: u8) -> bool {
    b == 32u8 || b == 9u8 || b == 10u8 || b == 13u8
}

/// Number of `\n` bytes in `bytes[from..to)`.
pub open spec fn newlines_in(bytes: Seq<u8>, from: int, to: int) -> nat
    decreases to - from,
{
    if to <= from {
        0
    } else {
        newlines_in(bytes, from, to - 1) + if bytes[to - 1] == 10u8 { 1nat } else { 0nat }
    }
}

/// `bytes[from..to)` is whitespace (space, tab, `\n`, `\r`) holding no
/// blank line (fewer than two `\n`).
pub open spec fn gap_attached(bytes: Seq<u8>, from: int, to: int) -> bool {
    &&& forall|i: int| from <= i < to ==> is_gap_byte(#[trigger] bytes[i])
    &&& newlines_in(bytes, from, to) < 2
}

/// A byte range that can be cut out of the source.
pub open spec fn valid_cut(source: &str, from: int, to: int) -> bool {
    let b = encode_utf8(source@);
    &&& 0 <= from <= to <= b.len()
    &&& is_char_boundary(b, from)
    &&& is_char_boundary(b, to)
}

/// Whether the source between `from` and `to` is whitespace without a
/// blank line.
pub fn is_attached_gap(source: &str, from: u32, to: u32) -> (r: bool)
    requires
        valid_cut(source, from as int, to as int),
    ensures
        r == gap_attached(encode_utf8(source@), from as int, to as int),
{
    let bytes = source.as_bytes();
    let mut i: usize = from as usize;
    let mut newlines: usize = 0;
    while i < to as usize
        invariant
            bytes@ == encode_utf8(source@),
            from <= i <= to,
            to <= bytes@.len(),
            forall|k: int| from <= k < i ==> is_gap_byte(#[trigger] bytes@[k]),
            newlines == newlines_in(bytes@, from as int, i as int),
            newlines <= i - from,
        decreases to - i,
    {
        let b = bytes[i];
        if !(b == 32u8 || b == 9u8 || b == 10u8 || b == 13u8) {
            return false;
        }
        if b == 10u8 {
            newlines = newlines + 1;
        }
        i = i + 1;
    }
    newlines < 2
}

/// The comments are in source order, within the source, and well formed.
pub open spec fn comments_wf(comments: Seq<Comment>, source: &str) -> bool {
    &&& forall|i: int| 0 <= i < comments.len() ==> comment_wf(#[trigger] comments[i])
    &&& forall|i: int| 0 <= i < comments.len() ==> valid_cut(source, (#[trigger] comments[i]).span.start as int, comments[i].span.end as int)
    &&& forall|i: int, j: int| 0 <= i < j < comments.len() ==> (#[trigger] comments[i]).span.end <= (#[trigger] comments[j]).span.start
}

/// The first index at or after which no comment ends at or before `pos`.
pub open spec fn is_partition_point(comments: Seq<Comment>, pos: u32, k: int) -> bool {
    &&& 0 <= k <= comments.len()
    &&& forall|i: int| 0 <= i < k ==> (#[trigger] comments[i]).span.end <= pos
    &&& forall|i: int| k <= i < comments.len() ==> (#[trigger] comments[i]).span.end > pos
}

/// `e` with the trailing comments just before it removed.
pub open spec fn trim_trailing(comments: Seq<Comment>, e: int) -> int
    decreases e,
{
    if e > 0 && comments[e - 1].position == CommentPosition::Trailing {
        trim_trailing(comments, e - 1)
    } else {
        e
    }
}

/// The start of the block of comments ending at `s`, each attached to the
/// next without a blank line.
pub open spec fn block_start(comments: Seq<Comment>, bytes: Seq<u8>, s: int) -> int
    decreases s,
{
    if s > 0 && gap_attached(bytes, comments[s - 1].span.end as int, comments[s].span.start as int) {
        block_start(comments, bytes, s - 1)
    } else {
        s
    }
}

/// The comments leading the statement that starts at `pos`: the block of
/// comments, each attached to the next and the last to the statement by
/// whitespace without a blank line, that ends at the last comment ending
/// at or before `pos` that is not a trailing comment (and none if that one
/// is not attached to the statement).
pub open spec fn spec_leading(comments: Seq<Comment>, bytes: Seq<u8>, pos: u32, partition: int) -> (int, int) {
    let e = trim_trailing(comments, partition);
    if e == 0 {
        (0, 0)
    } else if !gap_attached(bytes, comments[e - 1].span.end as int, pos as int) {
        (0, 0)
    } else {
        (block_start(comments, bytes, e - 1), e)
    }
}

pub proof fn lemma_trim_trailing(comments: Seq<Comment>, e: int)
    requires
        0 <= e <= comments.len(),
    ensures
        0 <= trim_trailing(comments, e) <= e,
    decreases e,
{
    if e > 0 && comments[e - 1].position == CommentPosition::Trailing {
        lemma_trim_trailing(comments, e - 1);
    }
}

pub proof fn lemma_block_start(comments: Seq<Comment>, bytes: Seq<u8>, s: int)
    requires
        0 <= s < comments.len(),
    ensures
        0 <= block_start(comments, bytes, s) <= s,
    decreases s,
{
    if s > 0 && gap_attached(bytes, comments[s - 1].span.end as int, comments[s].span.start as int) {
        lemma_block_start(comments, bytes, s - 1);
    }
}

/// Index of the first comment that ends after `pos` (binary search).
fn partition_point(comments: &[Comment], pos: u32) -> (r: usize)
    requires
        forall|i: int, j: int| 0 <= i < j < comments@.len() ==> (#[trigger] comments@[i]).span.end <= (#[trigger] comments@[j]).span.end,
    ensures
        is_partition_point(comments@, pos, r as int),
{
    let mut lo: usize = 0;
    let mut hi: usize = comments.len();
    while lo < hi
        invariant
            forall|i: int, j: int| 0 <= i < j < comments@.len() ==> (#[trigger] comments@[i]).span.end <= (#[trigger] comments@[j]).span.end,
            0 <= lo <= hi <= comments@.len(),
            forall|i: int| 0 <= i < lo ==> (#[trigger] comments@[i]).span.end <= pos,
            forall|i: int| hi <= i < comments@.len() ==> (#[trigger] comments@[i]).span.end > pos,
        decreases hi - lo,
    {
        let mid = lo + (hi - lo) / 2;
        if comments[mid].span.end <= pos {
            assert forall|i: int| 0 <= i < mid + 1 implies (#[trigger] comments@[i]).span.end <= pos by {
                if i < mid {
                    assert(comments@[i].span.end <= comments@[mid as int].span.end);
                }
            }
            lo = mid + 1;
        } else {
            assert forall|i: int| mid <= i < comments@.len() implies (#[trigger] comments@[i]).span.end > pos by {
                if i > mid {
                    assert(comments@[mid as int].span.end <= comments@[i].span.end);
                }
            }
            hi = mid;
        }
    }
    lo
}

/// There is at most one partition point.
pub proof fn lemma_partition_unique(comments: Seq<Comment>, pos: u32, p: int, q: int)
    requires
        is_partition_point(comments, pos, p),
        q == partition_index(comments, pos),
    ensures
        q == p,
{
    assert(is_partition_point(comments, pos, q));
    if q < p {
        assert(comments[q].span.end <= pos);
    } else if p < q {
        assert(comments[p].span.end <= pos);
    }
}

/// The partition point of the comments at `pos`.
pub open spec fn partition_index(comments: Seq<Comment>, pos: u32) -> int {
    choose|p: int| is_partition_point(comments, pos, p)
}

/// The comments leading the statement that starts at `pos` (see
/// `spec_leading`).
pub open spec fn leading_of(comments: Seq<Comment>, bytes: Seq<u8>, pos: u32) -> Seq<Comment> {
    let (a, b) = spec_leading(comments, bytes, pos, partition_index(comments, pos));
    comments.subrange(a, b)
}

/// The contiguous run of comments leading the statement that starts at
/// `statement_start` (see `spec_leading`).
pub fn leading_comments_at<'a>(comments: &'a [Comment], source: &str, statement_start: u32) -> (r: &'a [Comment])
    requires
        comments_wf(comments@, source),
        valid_cut(source, 0, statement_start as int),
    ensures
        r@ == leading_of(comments@, encode_utf8(source@), statement_start),
        forall|k: int| 0 <= k < r@.len() ==> comments@.contains(#[trigger] r@[k]),
{
    let ghost bytes = encode_utf8(source@);
    assert forall|i: int, j: int| 0 <= i < j < comments@.len() implies (#[trigger] comments@[i]).span.end <= (#[trigger] comments@[j]).span.end by {
        assert(comments@[i].span.end <= comments@[j].span.start);
        assert(valid_cut(source, comments@[j].span.start as int, comments@[j].span.end as int));
    }
    let p = partition_point(comments, statement_start);
    assert(is_partition_point(comments@, statement_start, p as int));
    proof {
        let q = partition_index(comments@, statement_start);
        lemma_partition_unique(comments@, statement_start, p as int, q);
    }
    if p == 0 {
        proof { assert(trim_trailing(comments@, 0) == 0); }
        return vstd::slice::slice_subrange(comments, 0, 0);
    }
    let mut e = p;
    while e > 0 && comments[e - 1].position == CommentPosition::Trailing
        invariant
            0 <= e <= p <= comments@.len(),
            trim_trailing(comments@, p as int) == trim_trailing(comments@, e as int),
        decreases e,
    {
        e = e - 1;
    }
    if e == 0 {
        return vstd::slice::slice_subrange(comments, 0, 0);
    }
    let last = comments[e - 1];
    assert(comments@[e - 1].span.end <= statement_start);
    assert(valid_cut(source, comments@[e - 1].span.start as int, comments@[e - 1].span.end as int));
    if !is_attached_gap(source, last.span.end, statement_start) {
        return vstd::slice::slice_subrange(comments, 0, 0);
    }
    let mut s = e - 1;
    let mut done = false;
    while !done && s > 0
        invariant
            comments_wf(comments@, source),
            bytes == encode_utf8(source@),
            0 <= s < e <= comments@.len(),
            block_start(comments@, bytes, (e - 1) as int) == block_start(comments@, bytes, s as int),
            done ==> block_start(comments@, bytes, s as int) == s,
        decreases s + (if done { 0int } else { 1int }),
    {
        let prev = comments[s - 1];
        let curr = comments[s];
        assert(comments@[s - 1].span.end <= comments@[s as int].span.start);
        assert(valid_cut(source, comments@[s - 1].span.start as int, comments@[s - 1].span.end as int));
        assert(valid_cut(source, comments@[s as int].span.start as int, comments@[s as int].span.end as int));
        if !is_attached_gap(source, prev.span.end, curr.span.start) {
            done = true;
        } else {
            s = s - 1;
        }
    }
    let r = vstd::slice::slice_subrange(comments, s, e);
    assert forall|k: int| 0 <= k < r@.len() implies comments@.contains(#[trigger] r@[k]) by {
        assert(r@[k] == comments@[s + k]);
    }
    r
}


/// The offsets at which the lines of `bytes[..n)` start: 0, and one past
/// each `\n`.
pub open spec fn line_starts_upto(bytes: Seq<u8>, n: int) -> Seq<u32>
    decreases n,
{
    if n <= 0 {
        seq![0u32]
    } else {
        line_starts_upto(bytes, n - 1) + if bytes[n - 1] == 10u8 { seq![n as u32] } else { Seq::<u32>::empty() }
    }
}

/// Line starts are increasing and begin at 0.
pub open spec fn starts_wf(starts: Seq<u32>) -> bool {
    &&& starts.len() > 0
    &&& starts[0] == 0
    &&& forall|i: int, j: int| 0 <= i < j < starts.len() ==> (#[trigger] starts[i]) < (#[trigger] starts[j])
}

/// `line` (from 1) and `col` (from 0) locate the byte at `offset`: the
/// line is the last one that starts at or before it.
pub open spec fn is_line_col(starts: Seq<u32>, offset: u32, line: int, col: int) -> bool {
    &&& 1 <= line <= starts.len()
    &&& starts[line - 1] <= offset
    &&& line < starts.len() ==> offset < starts[line]
    &&& col == offset - starts[line - 1]
}

/// The first byte of a line is column 0 of that line, and no other line
/// and column locate it.
pub proof fn law_line_start_is_column_zero(starts: Seq<u32>, k: int, line: int, col: int)
    requires
        starts_wf(starts),
        0 <= k < starts.len(),
        is_line_col(starts, starts[k], line, col),
    ensures
        line == k + 1,
        col == 0,
{
    if line - 1 < k {
        assert(starts[line] <= starts[k]);
    } else if line - 1 > k {
        assert(starts[k] < starts[line - 1]);
    }
}

/// The line starts of a source text, for turning byte offsets into lines
/// and columns.
pub struct LineIndex {
    line_starts: Vec<u32>,
}

impl LineIndex {
    pub closed spec fn starts(&self) -> Seq<u32> {
        self.line_starts@
    }

    /// A copy of the index.
    pub fn duplicate(&self) -> (r: LineIndex)
        ensures
            r.starts() == self.starts(),
    {
        let mut v: Vec<u32> = Vec::new();
        let mut i: usize = 0;
        while i < self.line_starts.len()
            invariant
                0 <= i <= self.line_starts@.len(),
                v@ == self.line_starts@.subrange(0, i as int),
            decreases self.line_starts@.len() - i,
        {
            v.push(self.line_starts[i]);
            assert(v@ =~= self.line_starts@.subrange(0, i + 1));
            i = i + 1;
        }
        assert(v@ =~= self.line_starts@);
        LineIndex { line_starts: v }
    }

    /// The line starts of `source`.
    pub fn new(source: &str) -> (r: LineIndex)
        requires
            encode_utf8(source@).len() < u32::MAX,
        ensures
            r.starts() == line_starts_upto(encode_utf8(source@), encode_utf8(source@).len() as int),
            starts_wf(r.starts()),
    {
        LineIndex { line_starts: compute_line_starts(source) }
    }

    /// The 1-based line and 0-based column of a byte offset.
    pub fn line_col(&self, byte_offset: u32) -> (r: (usize, usize))
        requires
            starts_wf(self.starts()),
        ensures
            is_line_col(self.starts(), byte_offset, r.0 as int, r.1 as int),
    {
        let starts = &self.line_starts;
        let mut lo: usize = 0;
        let mut hi: usize = starts.len();
        while lo < hi
            invariant
                starts_wf(starts@),
                0 <= lo <= hi <= starts@.len(),
                forall|i: int| 0 <= i < lo ==> (#[trigger] starts@[i]) <= byte_offset,
                forall|i: int| hi <= i < starts@.len() ==> (#[trigger] starts@[i]) > byte_offset,
            decreases hi - lo,
        {
            let mid = lo + (hi - lo) / 2;
            if starts[mid] <= byte_offset {
                assert forall|i: int| 0 <= i < mid + 1 implies (#[trigger] starts@[i]) <= byte_offset by {
                    if i < mid {
                        assert(starts@[i] < starts@[mid as int]);
                    }
                }
                lo = mid + 1;
            } else {
                assert forall|i: int| mid <= i < starts@.len() implies (#[trigger] starts@[i]) > byte_offset by {
                    if i > mid {
                        assert(starts@[mid as int] < starts@[i]);
                    }
                }
                hi = mid;
            }
        }
        assert(starts@[0] <= byte_offset);
        let line = lo;
        let col = byte_offset - starts[line - 1];
        (line, col as usize)
    }
}

/// The offsets at which the lines of `source` start.
pub fn compute_line_starts(source: &str) -> (r: Vec<u32>)
    requires
        encode_utf8(source@).len() < u32::MAX,
    ensures
        r@ == line_starts_upto(encode_utf8(source@), encode_utf8(source@).len() as int),
        starts_wf(r@),
{
    let bytes = source.as_bytes();
    let mut starts: Vec<u32> = Vec::new();
    starts.push(0);
    let mut i: usize = 0;
    while i < bytes.len()
        invariant
            bytes@.len() < u32::MAX,
            0 <= i <= bytes@.len(),
            starts@ == line_starts_upto(bytes@, i as int),
            starts_wf(starts@),
            starts@.last() <= i,
        decreases bytes@.len() - i,
    {
        if bytes[i] == 10u8 {
            let ghost before = starts@;
            starts.push((i + 1) as u32);
            assert forall|a: int, b: int| 0 <= a < b < starts@.len() implies (#[trigger] starts@[a]) < (#[trigger] starts@[b]) by {
                if b == starts@.len() - 1 && a < b {
                    assert(before[a] <= before.last());
                }
            }
        } else {
            assert(line_starts_upto(bytes@, i + 1) =~= line_starts_upto(bytes@, i as int));
        }
        i = i + 1;
    }
    starts
}


/// The characters of `source` between the byte offsets `from` and `to`.
pub open spec fn cut_text(source: &str, from: int, to: int) -> Seq<char> {
    decode_utf8(encode_utf8(source@).subrange(from, to))
}

proof fn lemma_boundary_in_suffix(bytes: Seq<u8>, a: int, i: int)
    requires
        valid_utf8(bytes),
        0 <= a <= i <= bytes.len(),
        is_char_boundary(bytes, a),
        is_char_boundary(bytes, i),
    ensures
        valid_utf8(bytes.subrange(a, bytes.len() as int)),
        is_char_boundary(bytes.subrange(a, bytes.len() as int), i - a),
{
    let rest = bytes.subrange(a, bytes.len() as int);
    vstd::utf8::valid_utf8_split(bytes, a);
    vstd::utf8::is_char_boundary_start_end_of_seq(rest);
    if i < bytes.len() {
        vstd::utf8::is_char_boundary_iff_not_is_continuation_byte(bytes, i);
        vstd::utf8::is_char_boundary_iff_not_is_continuation_byte(rest, i - a);
        assert(rest[i - a] == bytes[i]);
    } else {
        assert(i - a == rest.len());
    }
}

/// The part of `source` between two byte offsets.
pub fn source_cut<'a>(source: &'a str, from: u32, to: u32) -> (r: &'a str)
    requires
        valid_cut(source, from as int, to as int),
    ensures
        r@ == cut_text(source, from as int, to as int),
{
    let ghost bytes = encode_utf8(source@);
    proof {
        vstd::utf8::encode_utf8_valid_utf8(source@);
        lemma_boundary_in_suffix(bytes, from as int, to as int);
    }
    let (_, rest) = source.split_at(from as usize);
    let (t, _) = rest.split_at((to - from) as usize);
    proof {
        assert(t.spec_bytes() =~= bytes.subrange(from as int, to as int));
        vstd::utf8::encode_utf8_decode_utf8(t@);
    }
    t
}

/// A character with the Unicode `White_Space` property, which is what
/// `char::is_whitespace` and `str::trim` go by.
pub open spec fn is_white_space(c: char) -> bool {
    let u = c as u32;
    ||| 9 <= u <= 13
    ||| u == 32
    ||| u == 0x85
    ||| u == 0xA0
    ||| u == 0x1680
    ||| 0x2000 <= u <= 0x200A
    ||| u == 0x2028
    ||| u == 0x2029
    ||| u == 0x202F
    ||| u == 0x205F
    ||| u == 0x3000
}

/// Whether `c` is white space.
pub fn white_space(c: char) -> (r: bool)
    ensures
        r == is_white_space(c),
{
    let u = c as u32;
    (9 <= u && u <= 13) || u == 32 || u == 0x85 || u == 0xA0 || u == 0x1680
        || (0x2000 <= u && u <= 0x200A) || u == 0x2028 || u == 0x2029 || u == 0x202F
        || u == 0x205F || u == 0x3000
}

/// `s` without its leading white space.
pub open spec fn trim_start(s: Seq<char>) -> Seq<char>
    decreases s.len(),
{
    if s.len() > 0 && is_white_space(s[0]) {
        trim_start(s.drop_first())
    } else {
        s
    }
}

/// `s` without its trailing white space.
pub open spec fn trim_end(s: Seq<char>) -> Seq<char>
    decreases s.len(),
{
    if s.len() > 0 && is_white_space(s.last()) {
        trim_end(s.drop_last())
    } else {
        s
    }
}

/// `s` without leading and trailing white space (`str::trim`).
pub open spec fn spec_trim(s: Seq<char>) -> Seq<char> {
    trim_end(trim_start(s))
}

/// `s` without leading and trailing white space.
pub fn trim_chars(s: &[char]) -> (r: Vec<char>)
    ensures
        r@ == spec_trim(s@),
{
    let n = s.len();
    let mut lo: usize = 0;
    assert(s@.subrange(0, n as int) =~= s@);
    while lo < n && white_space(s[lo])
        invariant
            n == s@.len(),
            0 <= lo <= n,
            trim_start(s@) == trim_start(s@.subrange(lo as int, n as int)),
        decreases n - lo,
    {
        assert(s@.subrange(lo as int, n as int).drop_first() =~= s@.subrange(lo + 1, n as int));
        lo = lo + 1;
    }
    let ghost t = s@.subrange(lo as int, n as int);
    assert(trim_start(t) == t);
    let mut hi: usize = n;
    while hi > lo && white_space(s[hi - 1])
        invariant
            n == s@.len(),
            0 <= lo <= hi <= n,
            t == s@.subrange(lo as int, n as int),
            trim_end(t) == trim_end(s@.subrange(lo as int, hi as int)),
        decreases hi - lo,
    {
        assert(s@.subrange(lo as int, hi as int).drop_last() =~= s@.subrange(lo as int, hi - 1));
        hi = hi - 1;
    }
    assert(t.subrange(0, t.len() as int) =~= t);
    let mut r: Vec<char> = Vec::new();
    let mut i: usize = lo;
    while i < hi
        invariant
            0 <= lo <= i <= hi <= n,
            n == s@.len(),
            r@ == s@.subrange(lo as int, i as int),
        decreases hi - i,
    {
        r.push(s[i]);
        assert(r@ =~= s@.subrange(lo as int, i + 1));
        i = i + 1;
    }
    r
}

} // verus!
