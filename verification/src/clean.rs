//! Cleaning of a text written indented, such as a raw string in source code.
use vstd::prelude::*;

use crate::chars::{
    byte_len, chars_of, count_leading_ws, has_prefix, has_prefix_at, is_blank, is_blank_str,
    is_white_space, lemma_leading_ws, lemma_leading_ws_facts, lemma_line_len, leading_ws, line_len,
    lines_chars,
    skip_prefix, spec_lines, split_lines, strip_cr, utf8_len,
};

verus! {

/// `lines` without its first line when that one is empty and others follow.
pub open spec fn drop_first_empty(lines: Seq<Seq<char>>) -> Seq<Seq<char>> {
    if lines.len() > 1 && lines[0].len() == 0 {
        lines.drop_first()
    } else {
        lines
    }
}

/// `lines` without its last line when that one is blank.
pub open spec fn drop_last_blank(lines: Seq<Seq<char>>) -> Seq<Seq<char>> {
    if lines.len() > 0 && is_blank(lines.last()) {
        lines.drop_last()
    } else {
        lines
    }
}

/// The leading whitespace of `line`.
pub open spec fn white_prefix(line: Seq<char>) -> Seq<char> {
    line.take(leading_ws(line) as int)
}

/// Whether every line of `lines` starts with `prefix` or is blank.
pub open spec fn all_start_with(lines: Seq<Seq<char>>, prefix: Seq<char>) -> bool {
    forall|i: int|
        0 <= i < lines.len() ==> has_prefix(#[trigger] lines[i], prefix) || is_blank(lines[i])
}

/// `lines` with `prefix` removed from every line that is not blank.
pub open spec fn dedent(lines: Seq<Seq<char>>, prefix: Seq<char>) -> Seq<Seq<char>> {
    lines.map_values(
        |l: Seq<char>|
            if is_blank(l) {
                l
            } else {
                l.skip(prefix.len() as int)
            },
    )
}

/// The cleaned lines of `src`: a first empty line and a last blank line are
/// dropped, and when more than one line is left and every line that is not
/// blank starts with the leading whitespace of the first line, that
/// whitespace is removed from them.
pub open spec fn spec_clean_lines(src: Seq<char>) -> Seq<Seq<char>> {
    let lines = drop_last_blank(drop_first_empty(spec_lines(src)));
    let prefix = white_prefix(lines[0]);
    if lines.len() > 1 && prefix.len() > 0 && all_start_with(lines, prefix) {
        dedent(lines, prefix)
    } else {
        lines
    }
}

/// The cleaned lines of `src`.
pub fn lines(src: &str) -> (result_lines: Vec<&str>)
    ensures
        lines_chars(result_lines@) == spec_clean_lines(src@),
{
    let src_lines = split_lines(src);
    let ghost all = lines_chars(src_lines@);
    let n = src_lines.len();
    let mut result_lines: Vec<&str> = Vec::new();
    if n == 0 {
        proof {
            assert(lines_chars(result_lines@) =~= spec_clean_lines(src@));
        }
        return result_lines;
    }
    let first: usize = if n > 1 && byte_len(src_lines[0]) == 0 {
        1
    } else {
        0
    };
    proof {
        assert(all[0] == src_lines@[0]@);
        if n > 1 && all[0].len() == 0 {
            assert(utf8_len(all[0]) == 0);
        }
        if first == 1 {
            vstd::utf8::encode_utf8_valid_utf8(all[0]);
            assert(all[0].len() == 0) by {
                if all[0].len() > 0 {
                    vstd::utf8::encode_utf8_first_scalar(all[0]);
                    vstd::utf8::char_is_scalar(all[0][0]);
                }
            }
        }
    }
    let ghost dropped = drop_first_empty(all);
    assert(dropped =~= all.skip(first as int));
    let mut i: usize = first;
    while i < n
        invariant
            first <= i <= n,
            n == src_lines@.len(),
            all == lines_chars(src_lines@),
            dropped == all.skip(first as int),
            lines_chars(result_lines@) == all.subrange(first as int, i as int),
        decreases n - i,
    {
        let ghost before = lines_chars(result_lines@);
        result_lines.push(src_lines[i]);
        proof {
            assert(lines_chars(result_lines@) =~= before.push(all[i as int]));
            assert(all.subrange(first as int, i + 1) =~= all.subrange(first as int, i as int).push(
                all[i as int],
            ));
        }
        i = i + 1;
    }
    assert(lines_chars(result_lines@) =~= dropped);
    let m = result_lines.len();
    if m > 0 && is_blank_str(result_lines[m - 1]) {
        result_lines.pop();
    }
    let ghost kept = drop_last_blank(dropped);
    assert(lines_chars(result_lines@) =~= kept);
    let m = result_lines.len();
    if m <= 1 {
        return result_lines;
    }
    let first_line = result_lines[0];
    let first_chars = chars_of(first_line);
    let k = count_leading_ws(&first_chars);
    proof {
        lemma_leading_ws_facts(first_line@);
        assert(kept[0] == first_line@);
    }
    if k == 0 {
        return result_lines;
    }
    let white_prefix_str = first_line.substring_char(0, k);
    let prefix_chars = chars_of(white_prefix_str);
    let prefix_bytes = byte_len(white_prefix_str);
    let ghost prefix = white_prefix(kept[0]);
    assert(prefix == prefix_chars@);
    // Check that every line that is not blank starts with the prefix
    let mut j: usize = 0;
    while j < m
        invariant
            j <= m,
            m == result_lines@.len(),
            lines_chars(result_lines@) == kept,
            kept == drop_last_blank(drop_first_empty(spec_lines(src@))),
            prefix == white_prefix(kept[0]),
            prefix.len() > 0,
            m > 1,
            prefix == prefix_chars@,
            forall|x: int| 0 <= x < j ==> has_prefix(#[trigger] kept[x], prefix) || is_blank(kept[x]),
        decreases m - j,
    {
        let line = result_lines[j];
        assert(kept[j as int] == line@);
        let line_chars = chars_of(line);
        if !has_prefix_at(&line_chars, 0, &prefix_chars) && !is_blank_str(line) {
            proof {
                assert(line_chars@.skip(0) =~= line_chars@);
                assert(!has_prefix(kept[j as int], prefix) && !is_blank(kept[j as int]));
                assert(!all_start_with(kept, prefix));
            }
            return result_lines;
        }
        proof {
            assert(line_chars@.skip(0) =~= line_chars@);
        }
        j = j + 1;
    }
    // Remove the prefix from every line that is not blank
    let mut dedented: Vec<&str> = Vec::new();
    let mut j: usize = 0;
    while j < m
        invariant
            j <= m,
            m == result_lines@.len(),
            lines_chars(result_lines@) == kept,
            kept == drop_last_blank(drop_first_empty(spec_lines(src@))),
            prefix == white_prefix(kept[0]),
            prefix.len() > 0,
            m > 1,
            prefix == prefix_chars@,
            prefix_bytes == utf8_len(prefix),
            all_start_with(kept, prefix),
            lines_chars(dedented@) == dedent(kept, prefix).take(j as int),
        decreases m - j,
    {
        let line = result_lines[j];
        assert(kept[j as int] == line@);
        let ghost before = lines_chars(dedented@);
        let ghost d = dedent(kept, prefix);
        let piece = if is_blank_str(line) {
            line
        } else {
            assert(has_prefix(kept[j as int], prefix));
            skip_prefix(line, Ghost(prefix.len() as int), prefix_bytes)
        };
        assert(piece@ == d[j as int]);
        dedented.push(piece);
        proof {
            assert(lines_chars(dedented@) =~= before.push(piece@));
            assert(d.take(j + 1) =~= d.take(j as int).push(d[j as int]));
        }
        j = j + 1;
    }
    proof {
        assert(dedent(kept, prefix).take(m as int) =~= dedent(kept, prefix));
    }
    dedented
}

/// The lines of a text that starts with a line feed are an empty line, then
/// the lines of the rest.
pub proof fn lemma_lines_after_newline(src: Seq<char>)
    ensures
        spec_lines(seq!['\n'] + src) == seq![Seq::<char>::empty()] + spec_lines(src),
{
    let s = seq!['\n'] + src;
    assert(s[0] == '\n');
    assert(line_len(s) == 0);
    assert(s.take(0) =~= Seq::<char>::empty());
    assert(s.skip(1) =~= src);
}

/// A first empty line changes nothing to the cleaning: when the first line
/// of `src` is not empty, cleaning `"\n" + src` gives the lines that
/// cleaning `src` gives; in particular the common indentation is removed
/// whether the text starts with a line feed or not.
pub proof fn lemma_clean_ignores_leading_newline(src: Seq<char>)
    requires
        spec_lines(src).len() > 0,
        spec_lines(src)[0].len() > 0,
    ensures
        spec_clean_lines(seq!['\n'] + src) == spec_clean_lines(src),
{
    lemma_lines_after_newline(src);
    let l = spec_lines(src);
    let l2 = seq![Seq::<char>::empty()] + l;
    assert(l2[0].len() == 0);
    assert(l2.drop_first() =~= l);
    assert(drop_first_empty(l2) == l);
    assert(drop_first_empty(l) == l);
}

/// Two lines indented by the same spaces `p`, with no empty first line,
/// lose that indentation: cleaning `p + a + "\n" + p + b` gives `a` and
/// `b`, when `a` and `b` start with no whitespace, hold no line feed, and
/// `a` ends with no carriage return.
pub proof fn lemma_clean_two_indented_lines(p: Seq<char>, a: Seq<char>, b: Seq<char>)
    requires
        p.len() > 0,
        forall|k: int| 0 <= k < p.len() ==> #[trigger] p[k] == ' ',
        a.len() > 0,
        b.len() > 0,
        !is_white_space(a[0]),
        !is_white_space(b[0]),
        forall|k: int| 0 <= k < a.len() ==> #[trigger] a[k] != '\n',
        forall|k: int| 0 <= k < b.len() ==> #[trigger] b[k] != '\n',
        a.last() != '\r',
    ensures
        spec_clean_lines(p + a + seq!['\n'] + p + b) == seq![a, b],
{
    let l1 = p + a;
    let l2 = p + b;
    let src = l1 + seq!['\n'] + l2;
    assert(p + a + seq!['\n'] + p + b =~= src);
    let n1 = l1.len() as int;
    assert forall|k: int| 0 <= k < n1 implies #[trigger] src[k] != '\n' by {
        assert(src[k] == l1[k]);
        if k < p.len() {
            assert(l1[k] == p[k]);
        } else {
            assert(l1[k] == a[k - p.len()]);
        }
    }
    assert(src[n1] == '\n');
    lemma_line_len(src, n1);
    assert(src.take(n1) =~= l1);
    assert(l1.last() == a.last());
    assert(strip_cr(l1) == l1);
    assert(src.skip(n1 + 1) =~= l2);
    assert forall|k: int| 0 <= k < l2.len() implies #[trigger] l2[k] != '\n' by {
        if k < p.len() {
            assert(l2[k] == p[k]);
        } else {
            assert(l2[k] == b[k - p.len()]);
        }
    }
    lemma_line_len(l2, l2.len() as int);
    assert(spec_lines(l2) == seq![l2]);
    assert(spec_lines(src) =~= seq![l1, l2]);
    let lines = seq![l1, l2];
    assert(drop_first_empty(lines) == lines);
    assert(l2[p.len() as int] == b[0]);
    assert(!is_blank(l2));
    assert(lines.last() == l2);
    assert(drop_last_blank(lines) == lines);
    assert forall|k: int| 0 <= k < p.len() implies is_white_space(#[trigger] l1[k]) by {
        assert(l1[k] == p[k]);
    }
    assert(l1[p.len() as int] == a[0]);
    lemma_leading_ws(l1, p.len() as int);
    assert(white_prefix(l1) =~= p);
    assert(l1.take(p.len() as int) =~= p);
    assert(l2.take(p.len() as int) =~= p);
    assert(has_prefix(lines[0], p));
    assert(has_prefix(lines[1], p));
    assert(all_start_with(lines, p));
    assert(!is_blank(l1)) by {
        assert(!is_white_space(l1[p.len() as int]));
    }
    assert(l1.skip(p.len() as int) =~= a);
    assert(l2.skip(p.len() as int) =~= b);
    assert(dedent(lines, p) =~= seq![a, b]);
}

} // verus!
