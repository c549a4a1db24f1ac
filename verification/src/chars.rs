//! Character classes and small helpers over the characters of a `str`.
use vstd::prelude::*;
use vstd::string::StringSliceAdditionalSpecFns;
use vstd::utf8::*;

verus! {

/// The Unicode `White_Space` property, as `char::is_whitespace` documents it.
pub open spec fn is_white_space(c: char) -> bool {
    let u = c as u32;
    ||| 0x9 <= u <= 0xd
    ||| u == 0x20
    ||| u == 0x85
    ||| u == 0xa0
    ||| u == 0x1680
    ||| 0x2000 <= u <= 0x200a
    ||| u == 0x2028
    ||| u == 0x2029
    ||| u == 0x202f
    ||| u == 0x205f
    ||| u == 0x3000
}

/// Whether `c` is one of the ASCII digits `0` to `9`.
pub open spec fn is_ascii_digit(c: char) -> bool {
    '0' <= c <= '9'
}

/// Whether `c` can open a bullet list item.
pub open spec fn is_bullet(c: char) -> bool {
    c == '-' || c == '*' || c == '+'
}

/// Number of leading whitespace characters of `s` (what `trim_start` removes).
pub open spec fn leading_ws(s: Seq<char>) -> nat
    decreases s.len(),
{
    if s.len() > 0 && is_white_space(s[0]) {
        1 + leading_ws(s.drop_first())
    } else {
        0
    }
}

/// Whether every character of `s` is whitespace (`s.trim().is_empty()`).
pub open spec fn is_blank(s: Seq<char>) -> bool {
    forall|j: int| 0 <= j < s.len() ==> is_white_space(#[trigger] s[j])
}

/// Number of leading ASCII digits of `s`.
pub open spec fn digit_run(s: Seq<char>) -> nat
    decreases s.len(),
{
    if s.len() > 0 && is_ascii_digit(s[0]) {
        1 + digit_run(s.drop_first())
    } else {
        0
    }
}

/// Number of leading characters of `s` equal to `c`.
pub open spec fn run_of(s: Seq<char>, c: char) -> nat
    decreases s.len(),
{
    if s.len() > 0 && s[0] == c {
        1 + run_of(s.drop_first(), c)
    } else {
        0
    }
}

/// Number of characters of `s` before its first newline.
pub open spec fn line_len(s: Seq<char>) -> nat
    decreases s.len(),
{
    if s.len() > 0 && s[0] != '\n' {
        1 + line_len(s.drop_first())
    } else {
        0
    }
}

/// `l` without a final carriage return.
pub open spec fn strip_cr(l: Seq<char>) -> Seq<char> {
    if l.len() > 0 && l.last() == '\r' {
        l.drop_last()
    } else {
        l
    }
}

/// The lines of `s`, as `str::lines` documents them: `s` is split at each
/// `\n`, a `\r` just before a `\n` is dropped, and a final line ending adds
/// no empty line.
pub open spec fn spec_lines(s: Seq<char>) -> Seq<Seq<char>>
    decreases s.len(),
{
    if s.len() == 0 {
        Seq::empty()
    } else if line_len(s) >= s.len() {
        seq![s]
    } else {
        seq![strip_cr(s.take(line_len(s) as int))] + spec_lines(s.skip(line_len(s) + 1 as int))
    }
}

/// The characters of each line.
pub open spec fn lines_chars<'s>(lines: Seq<&'s str>) -> Seq<Seq<char>> {
    lines.map_values(|l: &'s str| l@)
}

/// The visual column of the first character of `s` that is neither a space
/// nor a tab: a space counts one column, a tab four.
pub open spec fn visual_column(s: Seq<char>) -> int
    decreases s.len(),
{
    if s.len() > 0 && s[0] == ' ' {
        1 + visual_column(s.drop_first())
    } else if s.len() > 0 && s[0] == '\t' {
        4 + visual_column(s.drop_first())
    } else {
        0
    }
}

/// Number of bytes of the UTF-8 encoding of `s`.
pub open spec fn utf8_len(s: Seq<char>) -> int {
    encode_utf8(s).len() as int
}

/// Whether `s` starts with the characters of `p`.
pub open spec fn has_prefix(s: Seq<char>, p: Seq<char>) -> bool {
    p.len() <= s.len() && s.take(p.len() as int) == p
}

pub proof fn lemma_visual_column_nonneg(s: Seq<char>)
    ensures
        visual_column(s) >= 0,
    decreases s.len(),
{
    if s.len() > 0 {
        lemma_visual_column_nonneg(s.drop_first());
    }
}

/// A run of `k` whitespace characters ended by a non-whitespace character (or
/// by the end) is what `leading_ws` counts.
pub proof fn lemma_leading_ws(s: Seq<char>, k: int)
    requires
        0 <= k <= s.len(),
        forall|j: int| 0 <= j < k ==> is_white_space(#[trigger] s[j]),
        k == s.len() || !is_white_space(s[k]),
    ensures
        leading_ws(s) == k,
    decreases k,
{
    if k > 0 {
        let t = s.drop_first();
        assert forall|j: int| 0 <= j < k - 1 implies is_white_space(#[trigger] t[j]) by {
            assert(t[j] == s[j + 1]);
        }
        if k - 1 < t.len() {
            assert(t[k - 1] == s[k]);
        }
        lemma_leading_ws(t, k - 1);
    }
}

/// The same for `digit_run`.
pub proof fn lemma_digit_run(s: Seq<char>, k: int)
    requires
        0 <= k <= s.len(),
        forall|j: int| 0 <= j < k ==> is_ascii_digit(#[trigger] s[j]),
        k == s.len() || !is_ascii_digit(s[k]),
    ensures
        digit_run(s) == k,
    decreases k,
{
    if k > 0 {
        let t = s.drop_first();
        assert forall|j: int| 0 <= j < k - 1 implies is_ascii_digit(#[trigger] t[j]) by {
            assert(t[j] == s[j + 1]);
        }
        if k - 1 < t.len() {
            assert(t[k - 1] == s[k]);
        }
        lemma_digit_run(t, k - 1);
    }
}

/// What `digit_run` counts are digits, and the one after them is not.
pub proof fn lemma_digit_run_facts(s: Seq<char>)
    ensures
        digit_run(s) <= s.len(),
        forall|j: int| 0 <= j < digit_run(s) ==> is_ascii_digit(#[trigger] s[j]),
        digit_run(s) < s.len() ==> !is_ascii_digit(s[digit_run(s) as int]),
    decreases s.len(),
{
    if s.len() > 0 && is_ascii_digit(s[0]) {
        let t = s.drop_first();
        lemma_digit_run_facts(t);
        assert forall|j: int| 0 <= j < digit_run(s) implies is_ascii_digit(#[trigger] s[j]) by {
            if j > 0 {
                assert(s[j] == t[j - 1]);
            }
        }
        if digit_run(s) < s.len() {
            assert(s[digit_run(s) as int] == t[digit_run(t) as int]);
        }
    }
}

/// The same for `run_of`.
pub proof fn lemma_run_of(s: Seq<char>, c: char, k: int)
    requires
        0 <= k <= s.len(),
        forall|j: int| 0 <= j < k ==> #[trigger] s[j] == c,
        k == s.len() || s[k] != c,
    ensures
        run_of(s, c) == k,
    decreases k,
{
    if k > 0 {
        let t = s.drop_first();
        assert forall|j: int| 0 <= j < k - 1 implies #[trigger] t[j] == c by {
            assert(t[j] == s[j + 1]);
        }
        if k - 1 < t.len() {
            assert(t[k - 1] == s[k]);
        }
        lemma_run_of(t, c, k - 1);
    }
}

/// What `run_of` counts are characters equal to `c`, and the one after them
/// is not.
pub proof fn lemma_run_of_facts(s: Seq<char>, c: char)
    ensures
        run_of(s, c) <= s.len(),
        forall|j: int| 0 <= j < run_of(s, c) ==> #[trigger] s[j] == c,
        run_of(s, c) < s.len() ==> s[run_of(s, c) as int] != c,
    decreases s.len(),
{
    if s.len() > 0 && s[0] == c {
        let t = s.drop_first();
        lemma_run_of_facts(t, c);
        assert forall|j: int| 0 <= j < run_of(s, c) implies #[trigger] s[j] == c by {
            if j > 0 {
                assert(s[j] == t[j - 1]);
            }
        }
        if run_of(s, c) < s.len() {
            assert(s[run_of(s, c) as int] == t[run_of(t, c) as int]);
        }
    }
}

/// The same for `line_len`.
pub proof fn lemma_line_len(s: Seq<char>, k: int)
    requires
        0 <= k <= s.len(),
        forall|j: int| 0 <= j < k ==> #[trigger] s[j] != '\n',
        k == s.len() || s[k] == '\n',
    ensures
        line_len(s) == k,
    decreases k,
{
    if k > 0 {
        let t = s.drop_first();
        assert forall|j: int| 0 <= j < k - 1 implies #[trigger] t[j] != '\n' by {
            assert(t[j] == s[j + 1]);
        }
        if k - 1 < t.len() {
            assert(t[k - 1] == s[k]);
        }
        lemma_line_len(t, k - 1);
    }
}

/// What `line_len` counts are not newlines, and the one after them is one.
pub proof fn lemma_line_len_facts(s: Seq<char>)
    ensures
        line_len(s) <= s.len(),
        forall|j: int| 0 <= j < line_len(s) ==> #[trigger] s[j] != '\n',
        line_len(s) < s.len() ==> s[line_len(s) as int] == '\n',
    decreases s.len(),
{
    if s.len() > 0 && s[0] != '\n' {
        let t = s.drop_first();
        lemma_line_len_facts(t);
        assert forall|j: int| 0 <= j < line_len(s) implies #[trigger] s[j] != '\n' by {
            if j > 0 {
                assert(s[j] == t[j - 1]);
            }
        }
        if line_len(s) < s.len() {
            assert(s[line_len(s) as int] == t[line_len(t) as int]);
        }
    }
}

/// No line of `s` holds a line feed.
pub proof fn lemma_lines_have_no_newline(s: Seq<char>)
    ensures
        forall|i: int, j: int|
            0 <= i < spec_lines(s).len() && 0 <= j < spec_lines(s)[i].len() ==> #[trigger] spec_lines(
                s,
            )[i][j] != '\n',
    decreases s.len(),
{
    if s.len() > 0 {
        lemma_line_len_facts(s);
        let k = line_len(s) as int;
        if k < s.len() {
            lemma_lines_have_no_newline(s.skip(k + 1));
            let first = strip_cr(s.take(k));
            let rest = spec_lines(s.skip(k + 1));
            assert forall|i: int, j: int|
                0 <= i < spec_lines(s).len() && 0 <= j < spec_lines(s)[i].len() implies #[trigger] spec_lines(
                s,
            )[i][j] != '\n' by {
                if i == 0 {
                    assert(spec_lines(s)[0] == first);
                    assert(first[j] == s[j]);
                } else {
                    assert(spec_lines(s)[i] == rest[i - 1]);
                }
            }
        }
    }
}

/// ASCII characters take one byte each.
pub proof fn lemma_utf8_len_ascii_run(s: Seq<char>, k: int, m: int)
    requires
        0 <= k,
        0 <= m,
        k + m <= s.len(),
        forall|j: int| k <= j < k + m ==> '\0' <= #[trigger] s[j] <= '\u{7f}',
    ensures
        utf8_len(s.take(k + m)) == utf8_len(s.take(k)) + m,
{
    let a = s.take(k);
    let b = s.subrange(k, k + m);
    assert(s.take(k + m) =~= a + b);
    lemma_encode_utf8_concat(a, b);
    assert(is_ascii_chars(b)) by {
        assert forall|j| 0 <= j < b.len() implies '\0' <= #[trigger] b[j] <= '\u{7f}' by {
            assert(b[j] == s[k + j]);
        }
    }
    is_ascii_chars_encode_utf8(b);
}

/// A line ending adds one byte.
pub proof fn lemma_utf8_len_newline(s: Seq<char>, k: int)
    requires
        0 <= k < s.len(),
        s[k] == '\n',
    ensures
        utf8_len(s.take(k + 1)) == utf8_len(s.take(k)) + 1,
{
    assert(s.take(k + 1) =~= s.take(k) + seq!['\n']);
    lemma_encode_utf8_concat(s.take(k), seq!['\n']);
    assert(seq!['\n'].drop_first() =~= Seq::<char>::empty());
    assert(encode_utf8(seq!['\n']) =~= encode_scalar('\n' as u32) + encode_utf8(
        Seq::<char>::empty(),
    ));
}

/// What `leading_ws` counts are whitespace characters, and the one after them
/// is not.
pub proof fn lemma_leading_ws_facts(s: Seq<char>)
    ensures
        leading_ws(s) <= s.len(),
        forall|j: int| 0 <= j < leading_ws(s) ==> is_white_space(#[trigger] s[j]),
        leading_ws(s) < s.len() ==> !is_white_space(s[leading_ws(s) as int]),
    decreases s.len(),
{
    if s.len() > 0 && is_white_space(s[0]) {
        let t = s.drop_first();
        lemma_leading_ws_facts(t);
        assert forall|j: int| 0 <= j < leading_ws(s) implies is_white_space(#[trigger] s[j]) by {
            if j > 0 {
                assert(s[j] == t[j - 1]);
            }
        }
        if leading_ws(s) < s.len() {
            assert(s[leading_ws(s) as int] == t[leading_ws(t) as int]);
        }
    }
}

/// A blank sequence is all leading whitespace.
pub proof fn lemma_blank_leading_ws(s: Seq<char>)
    ensures
        is_blank(s) <==> leading_ws(s) == s.len(),
{
    lemma_leading_ws_facts(s);
    if leading_ws(s) == s.len() {
        assert forall|j: int| 0 <= j < s.len() implies is_white_space(#[trigger] s[j]) by {}
    }
}

/// The UTF-8 encoding of a concatenation is the concatenation of encodings.
pub proof fn lemma_encode_utf8_concat(a: Seq<char>, b: Seq<char>)
    ensures
        encode_utf8(a + b) == encode_utf8(a) + encode_utf8(b),
    decreases a.len(),
{
    if a.len() == 0 {
        assert(a + b =~= b);
        assert(encode_utf8(a) =~= Seq::<u8>::empty());
        assert(encode_utf8(a) + encode_utf8(b) =~= encode_utf8(b));
    } else {
        assert((a + b).drop_first() =~= a.drop_first() + b);
        assert((a + b)[0] == a[0]);
        lemma_encode_utf8_concat(a.drop_first(), b);
        assert(encode_utf8(a + b) =~= encode_scalar(a[0] as u32) + (encode_utf8(a.drop_first())
            + encode_utf8(b)));
    }
}

/// Splitting `s` after `k` characters splits its UTF-8 bytes too.
pub proof fn lemma_utf8_len_split(s: Seq<char>, k: int)
    requires
        0 <= k <= s.len(),
    ensures
        utf8_len(s) == utf8_len(s.take(k)) + utf8_len(s.skip(k)),
{
    assert(s =~= s.take(k) + s.skip(k));
    lemma_encode_utf8_concat(s.take(k), s.skip(k));
}

/// The end of the encoding of a prefix is a character boundary of the whole.
pub proof fn lemma_char_boundary_concat(a: Seq<char>, b: Seq<char>)
    ensures
        is_char_boundary(encode_utf8(a + b), encode_utf8(a).len() as int),
    decreases a.len(),
{
    let bytes = encode_utf8(a + b);
    encode_utf8_valid_utf8(a + b);
    if a.len() == 0 {
        assert(encode_utf8(a) =~= Seq::<u8>::empty());
    } else {
        let c = a[0];
        assert((a + b).drop_first() =~= a.drop_first() + b);
        assert((a + b)[0] == c);
        encode_utf8_first_scalar(a + b);
        char_is_scalar(c);
        lemma_char_boundary_concat(a.drop_first(), b);
        assert(encode_utf8(a) =~= encode_scalar(c as u32) + encode_utf8(a.drop_first()));
        let n = encode_scalar(c as u32).len() as int;
        assert(bytes =~= encode_scalar(c as u32) + encode_utf8(a.drop_first() + b));
        assert(pop_first_scalar(bytes) =~= encode_utf8(a.drop_first() + b));
        assert(encode_scalar(c as u32).len() > 0);
    }
}

/// Characters whose encodings are equal are equal.
pub proof fn lemma_encode_utf8_injective(a: Seq<char>, b: Seq<char>)
    requires
        encode_utf8(a) == encode_utf8(b),
    ensures
        a == b,
{
    encode_utf8_decode_utf8(a);
    encode_utf8_decode_utf8(b);
}

/// Copies the characters of `s` into a vector.
pub fn chars_of(s: &str) -> (v: Vec<char>)
    ensures
        v@ == s@,
{
    let mut v: Vec<char> = Vec::new();
    for c in it: s.chars()
        invariant
            v@ == it.seq().take(it.index() as int),
            it.seq() == s@,
    {
        v.push(c);
    }
    v
}

/// The length of `s` in bytes (`str::len`).
pub fn byte_len(s: &str) -> (n: usize)
    ensures
        n == utf8_len(s@),
{
    s.as_bytes().len()
}

/// `str::lines`: the lines of `s`.
pub fn split_lines<'s>(s: &'s str) -> (v: Vec<&'s str>)
    ensures
        lines_chars(v@) == spec_lines(s@),
{
    let chars = chars_of(s);
    let n = chars.len();
    let ghost all = s@;
    let mut v: Vec<&'s str> = Vec::new();
    let mut rest: &'s str = s;
    let mut i: usize = 0;
    proof {
        assert(all.skip(0) =~= all);
        assert(lines_chars(v@) =~= Seq::<Seq<char>>::empty());
    }
    while i < n
        invariant
            chars@ == all,
            all == s@,
            n == chars.len(),
            i <= n,
            i < n ==> rest@ == all.skip(i as int),
            spec_lines(all) == lines_chars(v@) + spec_lines(all.skip(i as int)),
        decreases n - i,
    {
        let ghost t = all.skip(i as int);
        let mut j: usize = i;
        while j < n && chars[j] != '\n'
            invariant
                i <= j <= n,
                chars@ == all,
                n == chars.len(),
                t == all.skip(i as int),
                forall|x: int| 0 <= x < j - i ==> #[trigger] t[x] != '\n',
            decreases n - j,
        {
            assert(t[j - i] == chars@[j as int]);
            j = j + 1;
        }
        let k = j - i;
        proof {
            if j < n {
                assert(t[k as int] == chars@[j as int]);
            }
            lemma_line_len(t, k as int);
        }
        let end = if j < n && k > 0 && chars[j - 1] == '\r' {
            k - 1
        } else {
            k
        };
        let line = rest.substring_char(0, end);
        let ghost before = lines_chars(v@);
        v.push(line);
        proof {
            assert(lines_chars(v@) =~= before.push(line@));
        }
        if j == n {
            proof {
                assert(spec_lines(t) =~= seq![t]);
                assert(t.subrange(0, end as int) =~= t);
                assert(before.push(line@) =~= before + spec_lines(t));
                assert(all.skip(n as int) =~= Seq::<char>::empty());
                assert(lines_chars(v@) + spec_lines(all.skip(n as int)) =~= lines_chars(v@));
            }
            i = n;
        } else {
            let whole = rest.substring_char(0, k);
            proof {
                assert(t[k as int] == '\n');
                assert(t.take(k as int) =~= whole@);
                if k > 0 && chars@[j - 1] == '\r' {
                    assert(t[k - 1] == chars@[j - 1]);
                    assert(strip_cr(t.take(k as int)) =~= line@);
                } else {
                    if k > 0 {
                        assert(t[k - 1] == chars@[j - 1]);
                    }
                    assert(strip_cr(t.take(k as int)) =~= line@);
                }
                assert(t.skip(k + 1) =~= all.skip(j + 1));
                assert(spec_lines(t) =~= seq![line@] + spec_lines(all.skip(j + 1)));
                assert(before.push(line@) + spec_lines(all.skip(j + 1)) =~= before + (seq![line@]
                    + spec_lines(all.skip(j + 1))));
                lemma_utf8_len_newline(t, k as int);
                lemma_utf8_len_split(t, k + 1);
            }
            // the byte length of `rest` bounds the bytes skipped
            let _rest_bytes = byte_len(rest);
            let skipped = byte_len(whole) + 1;
            rest = skip_prefix(rest, Ghost((k + 1) as int), skipped);
            proof {
                assert(rest@ =~= all.skip(j + 1));
            }
            i = j + 1;
        }
    }
    v
}

/// `char::is_whitespace`: whether `c` has the Unicode `White_Space` property.
pub fn is_whitespace(c: char) -> (r: bool)
    ensures
        r == is_white_space(c),
{
    let u = c as u32;
    (0x9 <= u && u <= 0xd) || u == 0x20 || u == 0x85 || u == 0xa0 || u == 0x1680 || (0x2000 <= u
        && u <= 0x200a) || u == 0x2028 || u == 0x2029 || u == 0x202f || u == 0x205f || u == 0x3000
}

/// Number of leading whitespace characters of `chars`.
pub fn count_leading_ws(chars: &Vec<char>) -> (k: usize)
    ensures
        k == leading_ws(chars@),
{
    let mut k: usize = 0;
    while k < chars.len() && is_whitespace(chars[k])
        invariant
            0 <= k <= chars.len(),
            forall|j: int| 0 <= j < k ==> is_white_space(#[trigger] chars@[j]),
        decreases chars.len() - k,
    {
        k = k + 1;
    }
    proof {
        lemma_leading_ws(chars@, k as int);
    }
    k
}

/// Number of leading ASCII digits of `chars` from position `from` on.
pub fn count_digits(chars: &Vec<char>, from: usize) -> (d: usize)
    requires
        from <= chars.len(),
    ensures
        d == digit_run(chars@.skip(from as int)),
        from + d <= chars.len(),
{
    let ghost t = chars@.skip(from as int);
    let mut d: usize = 0;
    while from + d < chars.len() && '0' <= chars[from + d] && chars[from + d] <= '9'
        invariant
            from + d <= chars.len(),
            t == chars@.skip(from as int),
            forall|j: int| 0 <= j < d ==> is_ascii_digit(#[trigger] t[j]),
        decreases chars.len() - from - d,
    {
        assert(t[d as int] == chars@[from + d]);
        d = d + 1;
    }
    proof {
        if (d as int) < t.len() {
            assert(t[d as int] == chars@[from + d]);
        }
        lemma_digit_run(t, d as int);
    }
    d
}

/// Number of characters equal to `c` at the start of `chars` from position
/// `from` on.
pub fn count_run(chars: &Vec<char>, from: usize, c: char) -> (n: usize)
    requires
        from <= chars.len(),
    ensures
        n == run_of(chars@.skip(from as int), c),
        from + n <= chars.len(),
        forall|j: int| from <= j < from + n ==> chars@[j] == c,
{
    let ghost t = chars@.skip(from as int);
    let mut n: usize = 0;
    while from + n < chars.len() && chars[from + n] == c
        invariant
            from + n <= chars.len(),
            t == chars@.skip(from as int),
            forall|j: int| 0 <= j < n ==> #[trigger] t[j] == c,
        decreases chars.len() - from - n,
    {
        assert(t[n as int] == chars@[from + n]);
        n = n + 1;
    }
    proof {
        if (n as int) < t.len() {
            assert(t[n as int] == chars@[from + n]);
        }
        lemma_run_of(t, c, n as int);
        assert forall|j: int| from <= j < from + n implies chars@[j] == c by {
            assert(t[j - from] == chars@[j]);
        }
    }
    n
}

/// `str::trim_start`: `s` without its leading whitespace.
pub fn trim_start(s: &str) -> (r: &str)
    ensures
        r@ == s@.skip(leading_ws(s@) as int),
{
    let chars = chars_of(s);
    let k = count_leading_ws(&chars);
    proof {
        lemma_leading_ws_facts(s@);
    }
    s.substring_char(k, chars.len())
}

/// Whether `s` holds only whitespace (`s.trim().is_empty()`).
pub fn is_blank_str(s: &str) -> (r: bool)
    ensures
        r == is_blank(s@),
{
    let chars = chars_of(s);
    let k = count_leading_ws(&chars);
    proof {
        lemma_blank_leading_ws(s@);
    }
    k == chars.len()
}

/// Whether `chars`, from position `from` on, starts with `p`.
pub fn has_prefix_at(chars: &Vec<char>, from: usize, p: &Vec<char>) -> (r: bool)
    requires
        from <= chars.len(),
    ensures
        r == has_prefix(chars@.skip(from as int), p@),
{
    let ghost t = chars@.skip(from as int);
    if p.len() > chars.len() - from {
        return false;
    }
    let mut j: usize = 0;
    while j < p.len()
        invariant
            j <= p.len(),
            p.len() <= chars.len() - from,
            t == chars@.skip(from as int),
            forall|i: int| 0 <= i < j ==> t[i] == p@[i],
        decreases p.len() - j,
    {
        if chars[from + j] != p[j] {
            assert(t.take(p.len() as int)[j as int] != p@[j as int]);
            return false;
        }
        j = j + 1;
    }
    assert(t.take(p.len() as int) =~= p@);
    true
}

/// The part of `s` after its first `k` characters, taken without walking
/// `s` again: `k` and `byte_len` are the character count and the byte length
/// of that first part.
pub(crate) fn skip_prefix<'a>(s: &'a str, k: Ghost<int>, byte_len: usize) -> (r: &'a str)
    requires
        0 <= k@ <= s@.len(),
        byte_len == utf8_len(s@.take(k@)),
    ensures
        r@ == s@.skip(k@),
{
    proof {
        assert(s@ =~= s@.take(k@) + s@.skip(k@));
        lemma_char_boundary_concat(s@.take(k@), s@.skip(k@));
        lemma_encode_utf8_concat(s@.take(k@), s@.skip(k@));
    }
    let (_, rest) = s.split_at(byte_len);
    proof {
        let bytes = encode_utf8(s@);
        assert(rest.spec_bytes() =~= encode_utf8(s@.skip(k@)));
        lemma_encode_utf8_injective(rest@, s@.skip(k@));
    }
    rest
}

} // verus!
