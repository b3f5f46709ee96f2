//! What holds of the patch text across reading and writing: the text of a
//! patch that was read reads back as the same patch.
use vstd::prelude::*;
use vstd::utf8::{encode_scalar, encode_utf8, is_char_boundary, pop_first_scalar};
use crate::comments::{is_white_space, spec_trim, trim_end, trim_start};
use crate::node_resolution::assoc_insert_pairs;
use crate::patch_format::{
    comment_block, header_cut_ok, header_entry, header_of, header_rest, header_value,
    lemma_encode_utf8_concat, lemma_next_newline, line_end, next_newline, patch_text, scan_header,
    spec_patch_parse, HeaderScan,
};
use crate::pkgjson_exports::{assoc_find, assoc_index, lemma_assoc_index, lemma_assoc_index_stable};
use crate::text::{first_index_of, lemma_first_index_of, seq_starts_with};

verus! {

/// `x` holds no line break.
pub open spec fn no_newline(x: Seq<char>) -> bool {
    forall|k: int| 0 <= k < x.len() ==> x[k] != '\n'
}

/// A comment line as the header keeps it: it starts with `#` but not with
/// `#>`, ends in a character that is not white space, and is one line.
pub open spec fn comment_shaped(x: Seq<char>) -> bool {
    &&& x.len() > 0
    &&& x[0] == '#'
    &&& !(x.len() > 1 && x[1] == '>')
    &&& !is_white_space(x.last())
    &&& no_newline(x)
}

/// A property value as the header keeps it: trimmed, and one line.
pub open spec fn value_shaped(x: Seq<char>) -> bool {
    &&& no_newline(x)
    &&& x.len() > 0 ==> !is_white_space(x[0]) && !is_white_space(x.last())
}

proof fn lemma_trim_start(x: Seq<char>)
    ensures
        trim_start(x).len() <= x.len(),
        trim_start(x) == x.subrange(x.len() - trim_start(x).len(), x.len() as int),
        trim_start(x).len() > 0 ==> !is_white_space(trim_start(x)[0]),
    decreases x.len(),
{
    if x.len() > 0 && is_white_space(x[0]) {
        let d = x.drop_first();
        lemma_trim_start(d);
        let t = trim_start(d);
        assert(d.subrange(d.len() - t.len(), d.len() as int) =~= x.subrange(x.len() - t.len(), x.len() as int));
    } else {
        assert(x.subrange(0, x.len() as int) =~= x);
    }
}

proof fn lemma_trim_end(x: Seq<char>)
    ensures
        trim_end(x).len() <= x.len(),
        trim_end(x) == x.subrange(0, trim_end(x).len() as int),
        trim_end(x).len() > 0 ==> !is_white_space(trim_end(x).last()),
    decreases x.len(),
{
    if x.len() > 0 && is_white_space(x.last()) {
        let d = x.drop_last();
        lemma_trim_end(d);
        let t = trim_end(d);
        assert(d.subrange(0, t.len() as int) =~= x.subrange(0, t.len() as int));
    } else {
        assert(x.subrange(0, x.len() as int) =~= x);
    }
}

/// Trimming keeps a contiguous part of the text, whose ends are not white
/// space.
proof fn lemma_trim_slice(x: Seq<char>) -> (r: (int, int))
    ensures
        0 <= r.0 <= r.1 <= x.len(),
        spec_trim(x) == x.subrange(r.0, r.1),
        spec_trim(x).len() > 0 ==> !is_white_space(spec_trim(x)[0]) && !is_white_space(spec_trim(x).last()),
{
    lemma_trim_start(x);
    let y = trim_start(x);
    lemma_trim_end(y);
    let z = trim_end(y);
    let a = x.len() - y.len();
    assert(z =~= x.subrange(a, a + z.len()));
    if z.len() > 0 {
        assert(z[0] == y[0]);
    }
    (a, a + z.len())
}

/// Text whose ends are not white space is its own trim.
proof fn lemma_trim_fixed(x: Seq<char>)
    requires
        x.len() > 0 ==> !is_white_space(x[0]) && !is_white_space(x.last()),
    ensures
        spec_trim(x) == x,
{
    assert(trim_start(x) == x);
    assert(trim_end(x) == x);
}

proof fn lemma_sub_no_newline(x: Seq<char>, a: int, b: int)
    requires
        no_newline(x),
        0 <= a <= b <= x.len(),
    ensures
        no_newline(x.subrange(a, b)),
{
    assert forall|k: int| 0 <= k < b - a implies x.subrange(a, b)[k] != '\n' by {
        assert(x.subrange(a, b)[k] == x[a + k]);
    }
}

/// Every comment line and every property value that the header scan
/// collects has the shape the header keeps.
proof fn lemma_scan_shapes(
    c: Seq<char>,
    pos: int,
    head: int,
    values: Seq<(Seq<char>, Seq<char>)>,
    comments: Seq<Seq<char>>,
)
    requires
        forall|i: int| 0 <= i < values.len() ==> value_shaped(#[trigger] values[i].1),
        forall|i: int| 0 <= i < comments.len() ==> comment_shaped(#[trigger] comments[i]),
    ensures
        forall|i: int|
            0 <= i < scan_header(c, pos, head, values, comments).values.len() ==> value_shaped(
                #[trigger] scan_header(c, pos, head, values, comments).values[i].1,
            ),
        forall|i: int|
            0 <= i < scan_header(c, pos, head, values, comments).comments.len() ==> comment_shaped(
                #[trigger] scan_header(c, pos, head, values, comments).comments[i],
            ),
    decreases c.len() + 1 - pos,
{
    if pos < 0 || pos >= c.len() {
    } else {
        lemma_next_newline(c, pos);
        let nl = next_newline(c, pos);
        let end = line_end(c, pos);
        let raw = c.subrange(pos, end);
        assert(no_newline(raw)) by {
            assert forall|k: int| 0 <= k < raw.len() implies raw[k] != '\n' by {
                assert(raw[k] == c[pos + k]);
            }
        }
        let line = spec_trim(raw);
        let sl = lemma_trim_slice(raw);
        lemma_sub_no_newline(raw, sl.0, sl.1);
        let next_head = head + encode_utf8(raw).len() + 1;
        if seq_starts_with(line, seq!['#', '>']) {
            let t = line.subrange(2, line.len() as int);
            lemma_sub_no_newline(line, 2, line.len() as int);
            let values2 = match header_entry(t) {
                Some(kv) => assoc_insert_pairs(values, kv.0, kv.1),
                None => values,
            };
            match first_index_of(t, ':') {
                Some(i) => {
                    lemma_first_index_of(t, ':');
                    let u = t.subrange(i + 1, t.len() as int);
                    lemma_sub_no_newline(t, i + 1, t.len() as int);
                    let su = lemma_trim_slice(u);
                    lemma_sub_no_newline(u, su.0, su.1);
                    let v = spec_trim(u);
                    assert(value_shaped(v));
                    let k = spec_trim(t.subrange(0, i));
                    lemma_assoc_index(values, k, values.len() as int);
                    assert forall|j: int| 0 <= j < values2.len() implies value_shaped(#[trigger] values2[j].1) by {
                        match assoc_find(values, k) {
                            Some(f) => {
                                if j != f {
                                    assert(values2[j] == values[j]);
                                }
                            },
                            None => {
                                if j < values.len() {
                                    assert(values2[j] == values[j]);
                                }
                            },
                        }
                    }
                },
                None => {},
            }
            lemma_scan_shapes(c, nl + 1, next_head, values2, comments);
        } else if seq_starts_with(line, seq!['#']) {
            assert(line[0] == line.subrange(0, 1)[0]);
            if line.len() > 1 && line[1] == '>' {
                assert(line.subrange(0, 2) =~= seq!['#', '>']);
            }
            assert(comment_shaped(line));
            let comments2 = comments.push(line);
            assert forall|j: int| 0 <= j < comments2.len() implies comment_shaped(#[trigger] comments2[j]) by {
                if j < comments.len() {
                    assert(comments2[j] == comments[j]);
                }
            }
            lemma_scan_shapes(c, nl + 1, next_head, values, comments2);
        } else {
        }
    }
}


/// The line at `pos` is `x` when `x` is followed by a line break there and
/// does not end in `'\r'`.
proof fn lemma_line_at(c: Seq<char>, pos: int, x: Seq<char>)
    requires
        0 <= pos,
        pos + x.len() < c.len(),
        c.subrange(pos, pos + x.len()) == x,
        c[pos + x.len()] == '\n',
        no_newline(x),
        x.len() == 0 || x.last() != '\r',
    ensures
        next_newline(c, pos) == pos + x.len(),
        line_end(c, pos) == pos + x.len(),
        c.subrange(pos, line_end(c, pos)) == x,
{
    lemma_next_newline(c, pos);
    let nl = next_newline(c, pos);
    if nl < pos + x.len() {
        assert(c[nl] == x[nl - pos]);
    }
    if nl > pos + x.len() {
        assert(c[pos + x.len()] != '\n');
    }
    if x.len() > 0 {
        assert(c[nl - 1] == x[x.len() - 1]);
    }
}

/// `a` is a prefix of `c`.
pub open spec fn is_prefix(a: Seq<char>, c: Seq<char>) -> bool {
    a.len() <= c.len() && c.subrange(0, a.len() as int) == a
}

proof fn lemma_block_prefix(cl: Seq<Seq<char>>, k: int)
    requires
        0 <= k <= cl.len(),
    ensures
        is_prefix(comment_block(cl.subrange(0, k)), comment_block(cl)),
    decreases cl.len(),
{
    if k == cl.len() {
        assert(cl.subrange(0, k) =~= cl);
        assert(comment_block(cl).subrange(0, comment_block(cl).len() as int) =~= comment_block(cl));
    } else {
        let d = cl.drop_last();
        lemma_block_prefix(d, k);
        assert(d.subrange(0, k) =~= cl.subrange(0, k));
        let a = comment_block(cl.subrange(0, k));
        let b = comment_block(d);
        let c = comment_block(cl);
        assert(c == b + cl.last() + seq!['\n']);
        assert(c.subrange(0, a.len() as int) =~= b.subrange(0, a.len() as int));
    }
}

proof fn lemma_prefix_trans(a: Seq<char>, b: Seq<char>, c: Seq<char>)
    requires
        is_prefix(a, b),
        is_prefix(b, c),
    ensures
        is_prefix(a, c),
{
    assert(c.subrange(0, a.len() as int) =~= b.subrange(0, a.len() as int));
}

proof fn lemma_newline_len()
    ensures
        encode_utf8(seq!['\n']).len() == 1,
{
    let one = seq!['\n'];
    assert(one.drop_first() =~= Seq::<char>::empty());
    assert(encode_utf8(one) == encode_scalar('\n' as u32) + encode_utf8(one.drop_first()));
}

/// Encoded length of `a + x + "\n"`.
proof fn lemma_line_bytes(a: Seq<char>, x: Seq<char>)
    ensures
        encode_utf8(a + x + seq!['\n']).len() == encode_utf8(a).len() + encode_utf8(x).len() + 1,
{
    lemma_encode_utf8_concat(a, x);
    lemma_encode_utf8_concat(a + x, seq!['\n']);
    lemma_newline_len();
}

/// Reading the comment block of `cl` at the start of `c` collects its
/// lines as the header's comments.
proof fn lemma_scan_comment_block(c: Seq<char>, cl: Seq<Seq<char>>, k: int)
    requires
        0 <= k <= cl.len(),
        forall|i: int| 0 <= i < cl.len() ==> comment_shaped(#[trigger] cl[i]),
        comment_block(cl).len() < c.len(),
        is_prefix(comment_block(cl), c),
    ensures
        header_of(c) == scan_header(
            c,
            comment_block(cl.subrange(0, k)).len() as int,
            encode_utf8(comment_block(cl.subrange(0, k))).len() as int,
            seq![],
            cl.subrange(0, k),
        ),
    decreases k,
{
    if k == 0 {
        assert(cl.subrange(0, 0) =~= Seq::<Seq<char>>::empty());
        assert(encode_utf8(Seq::<char>::empty()) == Seq::<u8>::empty());
    } else {
        lemma_scan_comment_block(c, cl, k - 1);
        let prev = cl.subrange(0, k - 1);
        let cur = cl.subrange(0, k);
        assert(cur.drop_last() =~= prev);
        let x = cl[k - 1];
        assert(cur.last() == x);
        let a = comment_block(prev);
        let b = comment_block(cur);
        assert(b == a + x + seq!['\n']);
        lemma_block_prefix(cl, k);
        lemma_prefix_trans(b, comment_block(cl), c);
        let p = a.len() as int;
        assert(c.subrange(p, p + x.len()) =~= x) by {
            assert forall|j: int| 0 <= j < x.len() implies c.subrange(p, p + x.len())[j] == x[j] by {
                assert(c[p + j] == c.subrange(0, b.len() as int)[p + j]);
                assert(b[p + j] == x[j]);
            }
        }
        assert(c[p + x.len()] == '\n') by {
            assert(c[p + x.len()] == c.subrange(0, b.len() as int)[p + x.len()]);
        }
        assert(comment_shaped(x));
        assert(is_white_space('\r'));
        lemma_line_at(c, p, x);
        lemma_trim_fixed(x);
        assert(!seq_starts_with(x, seq!['#', '>'])) by {
            if seq_starts_with(x, seq!['#', '>']) {
                assert(x[1] == x.subrange(0, 2)[1]);
            }
        }
        assert(seq_starts_with(x, seq!['#'])) by {
            assert(x.subrange(0, 1) =~= seq!['#']);
        }
        assert(prev.push(x) =~= cur);
        lemma_line_bytes(a, x);
    }
}

/// In valid text, the end of the encoding of a prefix is a character
/// boundary.
proof fn lemma_boundary_after_prefix(a: Seq<char>, b: Seq<char>)
    ensures
        is_char_boundary(encode_utf8(a + b), encode_utf8(a).len() as int),
    decreases a.len(),
{
    vstd::utf8::encode_utf8_valid_utf8(a + b);
    lemma_encode_utf8_concat(a, b);
    if a.len() == 0 {
        assert(encode_utf8(a).len() == 0);
    } else {
        let ab = a + b;
        let bytes = encode_utf8(ab);
        vstd::utf8::encode_utf8_first_scalar(ab);
        assert(ab.drop_first() =~= a.drop_first() + b);
        assert(ab[0] == a[0]);
        assert(pop_first_scalar(bytes) =~= encode_utf8(ab.drop_first()));
        lemma_boundary_after_prefix(a.drop_first(), b);
        assert(encode_utf8(a) == encode_scalar(a[0] as u32) + encode_utf8(a.drop_first()));
    }
}

proof fn lemma_next_newline_shift(p: Seq<char>, h: Seq<char>, i: int)
    requires
        0 <= i <= h.len(),
    ensures
        next_newline(p + h, p.len() + i) == p.len() + next_newline(h, i),
    decreases h.len() - i,
{
    if i < h.len() {
        assert((p + h)[p.len() + i] == h[i]);
        if h[i] != '\n' {
            lemma_next_newline_shift(p, h, i + 1);
        }
    }
}

/// The first line of `h` as the header reads it.
pub open spec fn first_line(h: Seq<char>) -> Seq<char> {
    spec_trim(h.subrange(0, line_end(h, 0)))
}

/// Reading text that goes on with `h` at `p.len()`: the header ends there
/// unless the first line of `h` reads as a comment or a property.
proof fn lemma_scan_rest(p: Seq<char>, h: Seq<char>, values: Seq<(Seq<char>, Seq<char>)>, comments: Seq<Seq<char>>)
    requires
        h.len() == 0 || !seq_starts_with(first_line(h), seq!['#']),
    ensures
        scan_header(p + h, p.len() as int, encode_utf8(p).len() as int, values, comments) == (HeaderScan {
            values,
            comments,
            rest_at: if h.len() == 0 { None } else { Some(encode_utf8(p).len() as int) },
        }),
{
    let c = p + h;
    if h.len() > 0 {
        lemma_next_newline_shift(p, h, 0);
        lemma_next_newline(h, 0);
        let nl = next_newline(h, 0);
        if nl > 0 && nl < h.len() {
            assert(c[p.len() + nl - 1] == h[nl - 1]);
        }
        let e = line_end(h, 0);
        assert(line_end(c, p.len() as int) == p.len() + e);
        assert(c.subrange(p.len() as int, p.len() + e) =~= h.subrange(0, e));
        if seq_starts_with(first_line(h), seq!['#', '>']) {
            assert(first_line(h).subrange(0, 1) =~= seq!['#']);
        }
    }
}


proof fn lemma_line_in(a: Seq<char>, x: Seq<char>, rest: Seq<char>)
    ensures
        ({
            let c = a + x + seq!['\n'] + rest;
            &&& a.len() + x.len() < c.len()
            &&& c.subrange(a.len() as int, (a.len() + x.len()) as int) == x
            &&& c[(a.len() + x.len()) as int] == '\n'
        }),
{
    let c = a + x + seq!['\n'] + rest;
    assert(c.subrange(a.len() as int, (a.len() + x.len()) as int) =~= x);
    assert(c[(a.len() + x.len()) as int] == (a + x + seq!['\n'])[(a.len() + x.len()) as int]);
}

/// Facts about the key text of a written property line: the text after
/// `#>` is ` key: value`, and the key part trims to `key`.
proof fn lemma_key_part(key: Seq<char>, value: Seq<char>)
    requires
        key.len() > 0,
        !is_white_space(key[0]),
        !is_white_space(key.last()),
        forall|j: int| 0 <= j < key.len() ==> key[j] != ':',
    ensures
        ({
            let t = seq![' '] + key + seq![':', ' '] + value;
            &&& first_index_of(t, ':') == Some(key.len() as int + 1)
            &&& spec_trim(t.subrange(0, key.len() as int + 1)) == key
            &&& t.subrange(key.len() as int + 2, t.len() as int) == seq![' '] + value
        }),
{
    let t = seq![' '] + key + seq![':', ' '] + value;
    let i: int = key.len() as int + 1;
    lemma_first_index_of(t, ':');
    assert(t[i] == ':');
    assert forall|j: int| 0 <= j < i implies t[j] != ':' by {
        if j > 0 {
            assert(t[j] == key[j - 1]);
        }
    }
    let k0 = t.subrange(0, i);
    assert(k0.drop_first() =~= key);
    assert(trim_start(k0) == trim_start(k0.drop_first()));
    lemma_trim_fixed(key);
    assert(trim_start(key) == key);
    assert(t.subrange(key.len() as int + 2, t.len() as int) =~= seq![' '] + value);
}

/// `" " + v` trims to `v` when `v` is trimmed.
proof fn lemma_value_part(v: Seq<char>)
    requires
        v.len() > 0 ==> !is_white_space(v[0]) && !is_white_space(v.last()),
    ensures
        spec_trim(seq![' '] + v) == v,
{
    let t = seq![' '] + v;
    assert(t.drop_first() =~= v);
    assert(trim_start(t) == trim_start(v));
    lemma_trim_fixed(v);
    assert(trim_start(v) == v);
    if v.len() == 0 {
        assert(trim_start(v) == v);
    }
}

/// Reading the version line `#> patch_format_version: 1` at the start of
/// the header properties.
proof fn lemma_version_line(a: Seq<char>, rest: Seq<char>, head: int, comments: Seq<Seq<char>>)
    ensures
        ({
            let x = "#> patch_format_version: "@ + "1"@;
            let c = a + x + seq!['\n'] + rest;
            scan_header(c, a.len() as int, head, seq![], comments) == scan_header(
                c,
                ((a.len() + x.len()) as int + 1) as int,
                head + encode_utf8(x).len() + 1,
                seq![("patch_format_version"@, "1"@)],
                comments,
            )
        }),
{
    reveal_strlit("#> patch_format_version: ");
    reveal_strlit("1");
    reveal_strlit("patch_format_version");
    let key = "patch_format_version"@;
    let x = "#> patch_format_version: "@ + "1"@;
    let c = a + x + seq!['\n'] + rest;
    assert(x =~= seq!['#', '>'] + (seq![' '] + key + seq![':', ' '] + seq!['1']));
    lemma_line_in(a, x, rest);
    assert(no_newline(x));
    assert(x.last() == '1');
    lemma_line_at(c, a.len() as int, x);
    lemma_trim_fixed(x);
    assert(x.subrange(0, 2) =~= seq!['#', '>']);
    let t = x.subrange(2, x.len() as int);
    assert(t =~= seq![' '] + key + seq![':', ' '] + seq!['1']);
    assert forall|j: int| 0 <= j < key.len() implies key[j] != ':' by {}
    lemma_key_part(key, seq!['1']);
    lemma_value_part(seq!['1']);
    assert(seq!['1'] =~= "1"@);
    assert(header_entry(t) == Some((key, "1"@)));
    assert(assoc_index(Seq::<(Seq<char>, Seq<char>)>::empty(), key, 0) is None);
    assert(assoc_insert_pairs(seq![], key, "1"@) =~= seq![(key, "1"@)]);
}

/// Reading the md5 line `#> target_file_md5: <m>` after the version line.
proof fn lemma_md5_line(a: Seq<char>, m: Seq<char>, rest: Seq<char>, head: int, comments: Seq<Seq<char>>)
    requires
        value_shaped(m),
    ensures
        ({
            let x = "#> target_file_md5: "@ + m;
            let c = a + x + seq!['\n'] + rest;
            scan_header(c, a.len() as int, head, seq![("patch_format_version"@, "1"@)], comments)
                == scan_header(
                c,
                ((a.len() + x.len()) as int + 1) as int,
                head + encode_utf8(x).len() + 1,
                seq![("patch_format_version"@, "1"@), ("target_file_md5"@, m)],
                comments,
            )
        }),
{
    reveal_strlit("#> target_file_md5: ");
    reveal_strlit("1");
    reveal_strlit("patch_format_version");
    reveal_strlit("target_file_md5");
    let key = "target_file_md5"@;
    let x = "#> target_file_md5: "@ + m;
    let c = a + x + seq!['\n'] + rest;
    let vals = seq![("patch_format_version"@, "1"@)];
    assert(x =~= seq!['#', '>'] + (seq![' '] + key + seq![':', ' '] + m));
    lemma_line_in(a, x, rest);
    assert(no_newline(x)) by {
        assert forall|k: int| 0 <= k < x.len() implies x[k] != '\n' by {
            if k >= 20 {
                assert(x[k] == m[k - 20]);
            }
        }
    }
    assert(x.last() != '\r') by {
        if m.len() > 0 {
            assert(x.last() == m.last());
            assert(is_white_space('\r'));
        }
    }
    lemma_line_at(c, a.len() as int, x);
    assert forall|j: int| 0 <= j < key.len() implies key[j] != ':' by {}
    let line = spec_trim(x);
    if m.len() > 0 {
        assert(x.last() == m.last());
        lemma_trim_fixed(x);
    } else {
        let y = seq!['#', '>'] + (seq![' '] + key + seq![':']);
        assert(x =~= y.push(' '));
        assert(x.drop_last() =~= y);
        assert(trim_end(x) == trim_end(y));
        lemma_trim_fixed(y);
        assert(trim_start(x) == x);
        assert(trim_end(y) == y);
        assert(line == y);
    }
    assert(line.subrange(0, 2) =~= seq!['#', '>']);
    let t = line.subrange(2, line.len() as int);
    if m.len() > 0 {
        assert(t =~= seq![' '] + key + seq![':', ' '] + m);
        lemma_key_part(key, m);
        lemma_value_part(m);
        assert(header_entry(t) == Some((key, m)));
    } else {
        let t2 = seq![' '] + key + seq![':', ' '];
        assert(t =~= t2.drop_last());
        lemma_first_index_of(t, ':');
        assert(t[key.len() as int + 1] == ':');
        assert forall|j: int| 0 <= j < key.len() as int + 1 implies t[j] != ':' by {
            if j > 0 {
                assert(t[j] == key[j - 1]);
            }
        }
        let k0 = t.subrange(0, key.len() as int + 1);
        assert(k0.drop_first() =~= key);
        assert(trim_start(k0) == trim_start(k0.drop_first()));
        lemma_trim_fixed(key);
        assert(trim_start(key) == key);
        assert(t.subrange(key.len() as int + 2, t.len() as int) =~= Seq::<char>::empty());
        assert(trim_start(Seq::<char>::empty()) == Seq::<char>::empty());
        assert(m =~= Seq::<char>::empty());
        assert(header_entry(t) == Some((key, m)));
    }
    assert(vals[0].0 != key) by {
        assert(vals[0].0.len() != key.len());
    }
    assert(assoc_index(vals, key, 0) is None);
    assert(assoc_index(vals, key, 1) is None);
    assert(assoc_insert_pairs(vals, key, m) =~= vals.push((key, m)));
    assert(vals.push((key, m)) =~= seq![("patch_format_version"@, "1"@), ("target_file_md5"@, m)]);
}


/// The hunks of a patch begin with a line that the header would read as a
/// comment or a property line.
pub open spec fn hunks_open_like_header(h: Seq<char>) -> bool {
    h.len() > 0 && seq_starts_with(first_line(h), seq!['#'])
}

/// Reading the text of a patch that was read from `s` gives the same
/// patch: comment lines, md5, format version and hunks. This holds for
/// every text that reads as a patch, except when its hunks begin with a
/// line that the header would read as a comment or a property line.
pub proof fn law_patch_text_reads_back(s: Seq<char>)
    requires
        spec_patch_parse(s) is Ok,
        !hunks_open_like_header(spec_patch_parse(s)->Ok_0.hunks),
    ensures
        header_cut_ok(patch_text(spec_patch_parse(s)->Ok_0)),
        spec_patch_parse(patch_text(spec_patch_parse(s)->Ok_0)) == spec_patch_parse(s),
{
    reveal_strlit("1");
    reveal_strlit("patch_format_version");
    reveal_strlit("target_file_md5");
    let v = spec_patch_parse(s)->Ok_0;
    let h = header_of(s);
    lemma_scan_shapes(s, 0, 0, seq![], seq![]);
    let cl = v.comment_lines;
    assert(cl == h.comments);
    let cb = comment_block(cl);
    let x1 = "#> patch_format_version: "@ + "1"@;
    let md5_part = match v.target_file_md5 {
        Some(m) => "#> target_file_md5: "@ + m + seq!['\n'],
        None => Seq::<char>::empty(),
    };
    let hunks = v.hunks;
    let after_version = cb + x1 + seq!['\n'];
    let prefix = after_version + md5_part;
    let text = patch_text(v);
    assert(v.patch_format_version == "1"@);
    assert(text =~= prefix + hunks);
    // the comment lines
    assert(cl.subrange(0, cl.len() as int) =~= cl);
    assert(is_prefix(cb, text)) by {
        assert(text.subrange(0, cb.len() as int) =~= cb);
    }
    lemma_scan_comment_block(text, cl, cl.len() as int);
    // the version line
    let rest1 = md5_part + hunks;
    assert(text =~= cb + x1 + seq!['\n'] + rest1);
    lemma_version_line(cb, rest1, encode_utf8(cb).len() as int, cl);
    lemma_line_bytes(cb, x1);
    let vals1 = seq![("patch_format_version"@, "1"@)];
    // the md5 line, when there is one
    let vals = match v.target_file_md5 {
        Some(m) => vals1.push(("target_file_md5"@, m)),
        None => vals1,
    };
    match v.target_file_md5 {
        Some(m) => {
            let i = assoc_find(h.values, "target_file_md5"@)->Some_0;
            lemma_assoc_index(h.values, "target_file_md5"@, h.values.len() as int);
            assert(m == h.values[i].1);
            assert(value_shaped(m));
            let x2 = "#> target_file_md5: "@ + m;
            assert(text =~= after_version + x2 + seq!['\n'] + hunks);
            assert(md5_part =~= x2 + seq!['\n']);
            lemma_md5_line(after_version, m, hunks, encode_utf8(after_version).len() as int, cl);
            lemma_line_bytes(after_version, x2);
            assert(prefix =~= after_version + x2 + seq!['\n']);
            assert(vals1.push(("target_file_md5"@, m)) =~= seq![("patch_format_version"@, "1"@), ("target_file_md5"@, m)]);
        },
        None => {
            assert(prefix =~= after_version);
        },
    }
    // the hunks
    lemma_scan_rest(prefix, hunks, vals, cl);
    assert(header_of(text) == (HeaderScan {
        values: vals,
        comments: cl,
        rest_at: if hunks.len() == 0 { None } else { Some(encode_utf8(prefix).len() as int) },
    }));
    lemma_boundary_after_prefix(prefix, hunks);
    lemma_encode_utf8_concat(prefix, hunks);
    let bytes = encode_utf8(text);
    if hunks.len() > 0 {
        assert(bytes.subrange(encode_utf8(prefix).len() as int, bytes.len() as int) =~= encode_utf8(hunks));
        vstd::utf8::encode_utf8_decode_utf8(hunks);
    }
    assert(header_rest(text) == hunks);
    // the properties read back
    assert(assoc_index(vals, "patch_format_version"@, 0) is None);
    assert(assoc_index(vals, "patch_format_version"@, 1) == Some(0int));
    lemma_assoc_index_stable(vals, "patch_format_version"@, 1, vals.len() as int);
    assert(header_value(header_of(text), "patch_format_version"@) == Some("1"@));
    assert(vals[0].0 != "target_file_md5"@) by {
        assert(vals[0].0.len() != "target_file_md5"@.len());
    }
    assert(assoc_index(vals, "target_file_md5"@, 0) is None);
    assert(assoc_index(vals, "target_file_md5"@, 1) is None);
    assert(header_value(header_of(text), "target_file_md5"@) == v.target_file_md5);
    assert(header_rest(s) == hunks);
}

} // verus!
