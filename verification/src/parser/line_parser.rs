use vstd::prelude::*;

use crate::chars::{
    byte_len, chars_of, count_leading_ws, count_run, lemma_leading_ws_facts, lemma_run_of_facts,
    lemma_utf8_len_ascii_run, lemma_utf8_len_split, skip_prefix, leading_ws, run_of,
};
use crate::parser::text_parser::{
    count_leading_quotes, find_list_marker, list_marker_fits, spec_find_list_marker,
    spec_is_quote, ListContext, ListMarkerInfo,
};
use crate::text::{
    compounds_view, raw, styled, Composite, CompositeStyle, CompositeView, Compound,
    CompoundView, Line, LineView, Spans,
};

verus! {

/// The inline marker at position `i` of `s` under the styles `f`, if any:
/// its length and the styles after it. A backquote opens or closes a code
/// span; inside a code span nothing else is a marker. Otherwise `**`
/// toggles bold, `*` italic and `~~` strikeout.
pub open spec fn marker_at(s: Seq<char>, i: int, f: Spans) -> Option<(int, Spans)> {
    if s[i] == '`' {
        Some((1, Spans { code: !f.code, italic: f.italic, bold: f.bold, strikeout: f.strikeout }))
    } else if f.code {
        None
    } else if s[i] == '*' && i + 1 < s.len() && s[i + 1] == '*' {
        Some((2, Spans { code: f.code, italic: f.italic, bold: !f.bold, strikeout: f.strikeout }))
    } else if s[i] == '*' {
        Some((1, Spans { code: f.code, italic: !f.italic, bold: f.bold, strikeout: f.strikeout }))
    } else if s[i] == '~' && i + 1 < s.len() && s[i + 1] == '~' {
        Some((2, Spans { code: f.code, italic: f.italic, bold: f.bold, strikeout: !f.strikeout }))
    } else {
        None
    }
}

/// `acc` with the compound of `s[a..b]` under `f` added, when it is not empty.
pub open spec fn close_segment(
    acc: Seq<CompoundView>,
    s: Seq<char>,
    a: int,
    b: int,
    f: Spans,
) -> Seq<CompoundView> {
    if a < b {
        acc.push(styled(s.subrange(a, b), f))
    } else {
        acc
    }
}

/// The inline parse of `s` from position `i` on, where the current segment
/// started at `start`, the styles are `f` and `acc` holds the compounds
/// already closed: the compounds and the styles at the end of the line.
pub open spec fn inline_from(
    s: Seq<char>,
    i: int,
    start: int,
    f: Spans,
    acc: Seq<CompoundView>,
) -> (Seq<CompoundView>, Spans)
    decreases s.len() - i,
{
    if i < 0 || i >= s.len() {
        (close_segment(acc, s, start, s.len() as int, f), f)
    } else {
        match marker_at(s, i, f) {
            Some((m, g)) => inline_from(s, i + m, i + m, g, close_segment(acc, s, start, i, f)),
            None => inline_from(s, i + 1, start, f, acc),
        }
    }
}

/// The compounds of the line content `s` parsed under the styles `f`, and
/// the styles in force at its end.
pub open spec fn spec_inline(s: Seq<char>, f: Spans) -> (Seq<CompoundView>, Spans) {
    inline_from(s, 0, 0, f, Seq::empty())
}

/// Whether `s` starts with a code fence, three backquotes.
pub open spec fn starts_with_fence(s: Seq<char>) -> bool {
    run_of(s, '`') >= 3
}

/// The fence line `s`: its compound is what follows the backquotes.
pub open spec fn fence_line(s: Seq<char>) -> LineView {
    LineView::CodeFence(
        CompositeView { style: CompositeStyle::Paragraph, compounds: seq![raw(s.skip(3))] },
    )
}

/// Where the content of a list item starts: after the leading whitespace
/// and the marker (as far as the line goes).
pub open spec fn list_content_start(s: Seq<char>, info: ListMarkerInfo) -> int {
    let k = leading_ws(s) as int;
    if info.width <= s.len() - k {
        k + info.width
    } else {
        s.len() as int
    }
}

/// Where the content of a quote line starts: after the leading whitespace,
/// the `>` and the space after it (as far as the line goes).
pub open spec fn quote_content_start(s: Seq<char>) -> int {
    let k = leading_ws(s) as int;
    if 2 <= s.len() - k {
        k + 2
    } else {
        s.len() as int
    }
}

/// The level of the header that `s` opens (one to six `#` then a space),
/// zero when it opens none.
pub open spec fn header_level(s: Seq<char>) -> nat {
    let h = run_of(s, '#');
    if 1 <= h <= 6 && h < s.len() && s[h as int] == ' ' {
        h
    } else {
        0
    }
}

/// Whether `s` is a horizontal rule: three dashes or more, and nothing else.
pub open spec fn is_rule(s: Seq<char>) -> bool {
    run_of(s, '-') >= 3 && run_of(s, '-') == s.len()
}

/// A normal line of style `style` whose content `c` is parsed under `f`.
pub open spec fn styled_line(style: CompositeStyle, c: Seq<char>, f: Spans) -> (LineView, Spans) {
    let (cs, g) = spec_inline(c, f);
    (LineView::Normal(CompositeView { style, compounds: cs }), g)
}

/// The parse of the line `s` under the styles `f`, given the list marker
/// that starts it, whether it is a quote line and the list depth it takes:
/// the line and the styles at its end.
///
/// A line that starts with three backquotes is a code fence; one that starts
/// with four spaces is code; then come list items, quotes, headers,
/// horizontal rules, and paragraphs.
pub open spec fn spec_parse_line(
    s: Seq<char>,
    f: Spans,
    marker: Option<ListMarkerInfo>,
    is_quote: bool,
    depth: u8,
) -> (LineView, Spans) {
    if starts_with_fence(s) {
        (fence_line(s), f)
    } else if run_of(s, ' ') >= 4 {
        (
            LineView::Normal(
                CompositeView { style: CompositeStyle::Code, compounds: seq![raw(s.skip(4))] },
            ),
            f,
        )
    } else if marker is Some {
        styled_line(
            CompositeStyle::ListItem(depth),
            s.skip(list_content_start(s, marker->0)),
            f,
        )
    } else if is_quote {
        styled_line(CompositeStyle::Quote, s.skip(quote_content_start(s)), f)
    } else if header_level(s) > 0 {
        styled_line(
            CompositeStyle::Header(header_level(s) as u8),
            s.skip(header_level(s) + 1 as int),
            f,
        )
    } else if is_rule(s) {
        (LineView::HorizontalRule, f)
    } else {
        styled_line(CompositeStyle::Paragraph, s, f)
    }
}

/// A line between code fences: the closing fence, or a code line holding
/// the whole line.
pub open spec fn spec_as_code(s: Seq<char>) -> LineView {
    if starts_with_fence(s) {
        fence_line(s)
    } else {
        LineView::Normal(CompositeView { style: CompositeStyle::Code, compounds: seq![raw(s)] })
    }
}

/// The line `s` parsed on its own: no style carried from a previous line,
/// and the list depth of a line with no open list.
pub open spec fn spec_line(s: Seq<char>) -> LineView {
    spec_parse_line(s, Spans::none(), spec_find_list_marker(s), spec_is_quote(s), 0).0
}

/// The marker a reference points to.
pub open spec fn marker_value(m: Option<&ListMarkerInfo>) -> Option<ListMarkerInfo> {
    match m {
        Some(info) => Some(*info),
        None => None,
    }
}

/// Parses one line of a markdown text.
pub struct LineParser<'s> {
    pub src: &'s str,
    pub code: bool,
    pub italic: bool,
    pub bold: bool,
    pub strikeout: bool,
}

impl<'s> LineParser<'s> {
    /// The inline styles the parser is in.
    pub open spec fn spans(&self) -> Spans {
        Spans { code: self.code, italic: self.italic, bold: self.bold, strikeout: self.strikeout }
    }

    /// A parser of `src`, in no inline style.
    pub fn from(src: &'s str) -> (p: LineParser<'s>)
        ensures
            p.src == src,
            p.spans() == Spans::none(),
    {
        LineParser { src, code: false, italic: false, bold: false, strikeout: false }
    }

    /// The compound of `piece` under the current styles.
    fn compound(&self, piece: &'s str) -> (c: Compound<'s>)
        ensures
            c@ == styled(piece@, self.spans()),
    {
        Compound {
            src: piece,
            bold: self.bold,
            italic: self.italic,
            code: self.code,
            strikeout: self.strikeout,
        }
    }

    /// Parses the inline styles of `content`, from the styles the parser is
    /// in, which it leaves as they are at the end of `content`.
    fn parse_compounds(&mut self, content: &'s str) -> (cs: Vec<Compound<'s>>)
        ensures
            (compounds_view(cs@), final(self).spans()) == spec_inline(content@, old(self).spans()),
            final(self).src == old(self).src,
    {
        let chars = chars_of(content);
        let n = chars.len();
        let ghost s = content@;
        let mut compounds: Vec<Compound<'s>> = Vec::new();
        let mut i: usize = 0;
        let mut start: usize = 0;
        // the characters of `content` from `start` on
        let mut rest: &'s str = content;
        proof {
            assert(compounds_view(compounds@) =~= Seq::<CompoundView>::empty());
            assert(s.skip(0) =~= s);
        }
        while i < n
            invariant
                chars@ == s,
                s == content@,
                n == chars.len(),
                start <= i <= n,
                rest@ == s.skip(start as int),
                self.src == old(self).src,
                spec_inline(s, old(self).spans()) == inline_from(
                    s,
                    i as int,
                    start as int,
                    self.spans(),
                    compounds_view(compounds@),
                ),
            decreases n - i,
        {
            let c = chars[i];
            let m: usize = if c == '`' {
                1
            } else if self.code {
                0
            } else if c == '*' && i + 1 < n && chars[i + 1] == '*' {
                2
            } else if c == '*' {
                1
            } else if c == '~' && i + 1 < n && chars[i + 1] == '~' {
                2
            } else {
                0
            };
            if m == 0 {
                i = i + 1;
            } else {
                let ghost before = compounds_view(compounds@);
                let piece = rest.substring_char(0, i - start);
                proof {
                    assert(piece@ =~= s.subrange(start as int, i as int));
                }
                if start < i {
                    let compound = self.compound(piece);
                    compounds.push(compound);
                    proof {
                        assert(compounds_view(compounds@) =~= before.push(compound@));
                    }
                }
                if c == '`' {
                    self.code = !self.code;
                } else if c == '*' && m == 2 {
                    self.bold = !self.bold;
                } else if c == '*' {
                    self.italic = !self.italic;
                } else {
                    self.strikeout = !self.strikeout;
                }
                proof {
                    let t = s.skip(start as int);
                    let k = (i - start) as int;
                    assert forall|j: int| k <= j < k + m implies '\0' <= #[trigger] t[j] <= '\u{7f}' by {
                        assert(t[j] == chars@[start + j]);
                    }
                    lemma_utf8_len_ascii_run(t, k, m as int);
                    assert(t.take(k) =~= piece@);
                    lemma_utf8_len_split(t, k + m);
                }
                // the byte length of `rest` bounds the bytes skipped
                let _rest_bytes = byte_len(rest);
                let skipped = byte_len(piece) + m;
                rest = skip_prefix(rest, Ghost((i - start + m) as int), skipped);
                i = i + m;
                start = i;
                proof {
                    assert(rest@ =~= s.skip(start as int));
                }
            }
        }
        if start < n {
            let ghost before = compounds_view(compounds@);
            let compound = self.compound(rest);
            compounds.push(compound);
            proof {
                assert(s.subrange(start as int, n as int) =~= rest@);
                assert(compounds_view(compounds@) =~= before.push(compound@));
            }
        }
        compounds
    }

    /// A normal line of style `style` whose content is `src[from..]`.
    fn styled_line(&mut self, style: CompositeStyle, from: usize) -> (line: Line<'s>)
        requires
            from <= old(self).src@.len(),
        ensures
            (line@, final(self).spans()) == styled_line(
                style,
                old(self).src@.skip(from as int),
                old(self).spans(),
            ),
            final(self).src == old(self).src,
    {
        let content = self.src.substring_char(from, self.src.unicode_len());
        let compounds = self.parse_compounds(content);
        Line::Normal(Composite { style, compounds })
    }

    /// Parses the line, given the innermost open list, the quote level, the
    /// list marker that starts the line, whether it is a quote line and the
    /// list depth it takes. The open list and the quote level are context
    /// only: what the line is follows from the marker, the quote flag and
    /// the depth.
    pub fn parse_line_with_context(
        &mut self,
        _current_list: Option<&ListContext>,
        _quote_level: u32,
        list_marker: Option<&ListMarkerInfo>,
        is_quote: bool,
        depth: u8,
    ) -> (line: Line<'s>)
        ensures
            (line@, final(self).spans()) == spec_parse_line(
                old(self).src@,
                old(self).spans(),
                marker_value(list_marker),
                is_quote,
                depth,
            ),
            final(self).src == old(self).src,
    {
        let chars = chars_of(self.src);
        let n = chars.len();
        let ghost s = self.src@;
        if count_run(&chars, 0, '`') >= 3 {
            proof {
                assert(chars@.skip(0) =~= s);
            }
            return self.fence_line(&chars);
        }
        proof {
            assert(chars@.skip(0) =~= s);
        }
        if count_run(&chars, 0, ' ') >= 4 {
            let rest = self.src.substring_char(4, n);
            return Line::new_code(Compound::raw_str(rest));
        }
        match list_marker {
            Some(info) => {
                let k = count_leading_ws(&chars);
                proof {
                    lemma_leading_ws_facts(s);
                }
                let width = info.width as usize;
                let from = if width <= n - k {
                    k + width
                } else {
                    n
                };
                return self.styled_line(CompositeStyle::ListItem(depth), from);
            },
            None => {},
        }
        if is_quote {
            let k = count_leading_ws(&chars);
            proof {
                lemma_leading_ws_facts(s);
            }
            let from = if 2 <= n - k {
                k + 2
            } else {
                n
            };
            return self.styled_line(CompositeStyle::Quote, from);
        }
        let h = count_run(&chars, 0, '#');
        if 1 <= h && h <= 6 && h < n && chars[h] == ' ' {
            return self.styled_line(CompositeStyle::Header(h as u8), h + 1);
        }
        let r = count_run(&chars, 0, '-');
        if r >= 3 && r == n {
            return Line::HorizontalRule;
        }
        self.styled_line(CompositeStyle::Paragraph, 0)
    }

    /// The fence line of the parser's source.
    fn fence_line(&self, chars: &Vec<char>) -> (line: Line<'s>)
        requires
            chars@ == self.src@,
            starts_with_fence(self.src@),
        ensures
            line@ == fence_line(self.src@),
    {
        proof {
            lemma_run_of_facts(self.src@, '`');
        }
        let mut compounds: Vec<Compound<'s>> = Vec::new();
        compounds.push(Compound::raw_str(self.src.substring_char(3, chars.len())));
        proof {
            assert(compounds_view(compounds@) =~= seq![raw(self.src@.skip(3))]);
        }
        Line::CodeFence(Composite { style: CompositeStyle::Paragraph, compounds })
    }

    /// The line as it reads between code fences: the closing fence, or a
    /// code line holding the whole line.
    pub fn as_code(self) -> (line: Line<'s>)
        ensures
            line@ == spec_as_code(self.src@),
    {
        let chars = chars_of(self.src);
        let r = count_run(&chars, 0, '`');
        proof {
            assert(chars@.skip(0) =~= self.src@);
        }
        if r >= 3 {
            self.fence_line(&chars)
        } else {
            Line::new_code(Compound::raw_str(self.src))
        }
    }
}

impl<'s> Line<'s> {
    /// The line `s` parsed on its own.
    pub fn from(s: &'s str) -> (line: Line<'s>)
        requires
            list_marker_fits(s@),
        ensures
            line@ == spec_line(s@),
    {
        let marker = find_list_marker(s);
        let (is_quote, _) = count_leading_quotes(s);
        let mut parser = LineParser::from(s);
        parser.parse_line_with_context(None, 0, marker.as_ref(), is_quote, 0)
    }
}

} // verus!
