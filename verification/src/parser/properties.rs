//! Properties that hold of every parse.
use vstd::prelude::*;

use crate::chars::{
    digit_run, is_ascii_digit, is_blank, is_bullet, is_white_space, leading_ws, lemma_digit_run_facts,
    lemma_run_of_facts, run_of, visual_column,
};
use crate::parser::line_parser::{
    close_segment, header_level, inline_from, marker_at, spec_as_code, spec_inline,
    spec_line, spec_parse_line, starts_with_fence, styled_line,
};
use crate::parser::options::Options;
use crate::parser::text_parser::{
    close_lists, initial_run, line_depth, list_marker_fits, nesting_fits, opens_ordered_item, parse_in_state,
    pop_deeper, run_fits, spec_enter_item, spec_find_list_marker, spec_is_quote,
    spec_nesting_depth, spec_run, spec_step, step_fits, ListContext, ListMarkerInfo,
    ParseStateView, RunView,
};
use crate::text::{raw, styled, CompositeStyle, CompositeView, CompoundView, LineView, Spans};

verus! {

/// The open list at position `i` of `stack` has depth `i`.
pub open spec fn list_levels(stack: Seq<ListContext>) -> bool {
    forall|i: int| 0 <= i < stack.len() ==> (#[trigger] stack[i]).depth == i
}

/// The containers of a parse state are consistent: one open list per
/// nesting level, and at most one open quote.
pub open spec fn state_wf(st: ParseStateView) -> bool {
    &&& list_levels(st.list_stack)
    &&& st.quote_stack.len() <= 1
}

/// When the open lists are one per level, a list item is at most one level
/// deeper than the innermost open list.
pub proof fn lemma_nesting_depth_bound(stack: Seq<ListContext>, column: u32)
    requires
        list_levels(stack),
    ensures
        0 <= spec_nesting_depth(stack, column) <= stack.len(),
    decreases stack.len(),
{
    if stack.len() > 0 {
        assert(stack.last() == stack[stack.len() - 1]);
        let rest = stack.drop_last();
        assert(list_levels(rest)) by {
            assert forall|i: int| 0 <= i < rest.len() implies (#[trigger] rest[i]).depth == i by {
                assert(rest[i] == stack[i]);
            }
        }
        lemma_nesting_depth_bound(rest, column);
    }
}

/// A depth computed without overflow fits in a `u8`.
pub proof fn lemma_nesting_depth_fits(stack: Seq<ListContext>, column: u32)
    requires
        nesting_fits(stack, column),
    ensures
        0 <= spec_nesting_depth(stack, column) <= 255,
    decreases stack.len(),
{
    if stack.len() > 0 && column < stack.last().marker_column + stack.last().marker_width
        && column != stack.last().marker_column {
        lemma_nesting_depth_fits(stack.drop_last(), column);
    }
}

/// With one open list per level, closing the lists deeper than `depth`
/// keeps the first `depth + 1` of them.
pub proof fn lemma_pop_deeper(stack: Seq<ListContext>, depth: u8)
    requires
        list_levels(stack),
        depth <= stack.len(),
    ensures
        pop_deeper(stack, depth) == stack.take(
            if depth + 1 <= stack.len() {
                depth + 1
            } else {
                stack.len() as int
            },
        ),
    decreases stack.len(),
{
    if stack.len() > 0 && stack.last().depth > depth {
        let rest = stack.drop_last();
        assert(stack.last() == stack[stack.len() - 1]);
        assert(list_levels(rest)) by {
            assert forall|i: int| 0 <= i < rest.len() implies (#[trigger] rest[i]).depth == i by {
                assert(rest[i] == stack[i]);
            }
        }
        lemma_pop_deeper(rest, depth);
        assert(rest.take(depth + 1) =~= stack.take(depth + 1));
    } else {
        if stack.len() > 0 {
            assert(stack.last() == stack[stack.len() - 1]);
        }
        assert(stack.take(stack.len() as int) =~= stack);
    }
}

/// After a list item of depth `depth` (at most one level deeper than the
/// innermost open list), exactly `depth + 1` lists are open, one per level,
/// the innermost of them at that depth and able to go on.
pub proof fn lemma_enter_item(stack: Seq<ListContext>, info: ListMarkerInfo, depth: u8)
    requires
        list_levels(stack),
        depth <= stack.len(),
    ensures
        list_levels(spec_enter_item(stack, info, depth)),
        spec_enter_item(stack, info, depth).len() == depth + 1,
        spec_enter_item(stack, info, depth).last().depth == depth,
        spec_enter_item(stack, info, depth).last().can_continue,
{
    lemma_pop_deeper(stack, depth);
    let s = pop_deeper(stack, depth);
    let r = spec_enter_item(stack, info, depth);
    if s.len() > 0 && s.last().depth == depth {
        assert(s.last() == s[s.len() - 1]);
        assert forall|i: int| 0 <= i < r.len() implies (#[trigger] r[i]).depth == i by {
            if i < r.len() - 1 {
                assert(r[i] == s[i]);
                assert(s[i] == stack[i]);
            }
        }
    } else {
        if s.len() > 0 {
            assert(s.last() == s[s.len() - 1]);
        }
        assert forall|i: int| 0 <= i < r.len() implies (#[trigger] r[i]).depth == i by {
            if i < r.len() - 1 {
                assert(r[i] == s[i]);
                assert(s[i] == stack[i]);
            }
        }
    }
}

/// Marking the lists as not continuing keeps them, level by level.
pub proof fn lemma_close_lists(stack: Seq<ListContext>)
    ensures
        close_lists(stack).len() == stack.len(),
        forall|i: int|
            0 <= i < stack.len() ==> (#[trigger] close_lists(stack)[i]).depth == stack[i].depth
                && !close_lists(stack)[i].can_continue,
        list_levels(stack) ==> list_levels(close_lists(stack)),
{
}

/// A line parsed as a list item is parsed outside code fences, starts with a
/// list marker, and takes the depth computed for it.
pub proof fn lemma_list_item_source(r: RunView, line: Seq<char>, options: Options, d: u8)
    requires
        parse_in_state(r, line, options).0 matches LineView::Normal(c) && c.style
            == CompositeStyle::ListItem(d),
    ensures
        !r.state.between_fences,
        spec_find_list_marker(line) is Some,
        d == line_depth(r.state, line) as u8,
{
}

/// A list marker found without overflow is at least two columns wide.
pub proof fn lemma_marker_width(line: Seq<char>)
    requires
        list_marker_fits(line),
        spec_find_list_marker(line) is Some,
    ensures
        spec_find_list_marker(line)->0.width >= 2,
{
}

/// Right after a list item whose marker stands at `info.column`, a marker
/// at the same column gets the same depth.
pub proof fn lemma_enter_item_same_column(stack: Seq<ListContext>, info: ListMarkerInfo, d: u8)
    requires
        list_levels(stack),
        d == spec_nesting_depth(stack, info.column),
        info.width > 0,
    ensures
        spec_nesting_depth(spec_enter_item(stack, info, d), info.column) == d,
    decreases stack.len(),
{
    let c = info.column;
    let s2 = spec_enter_item(stack, info, d);
    if stack.len() == 0 {
        assert(s2.last() == s2[0]);
        assert(s2.drop_last().len() == 0);
    } else {
        let top = stack.last();
        assert(top == stack[stack.len() - 1]);
        let rest = stack.drop_last();
        assert(list_levels(rest)) by {
            assert forall|i: int| 0 <= i < rest.len() implies (#[trigger] rest[i]).depth == i by {
                assert(rest[i] == stack[i]);
            }
        }
        if c >= top.marker_column + top.marker_width {
            assert(pop_deeper(stack, d) == stack);
            assert(s2.last() == s2[s2.len() - 1]);
        } else if c == top.marker_column {
            assert(pop_deeper(stack, d) == stack);
            assert(s2.last() == s2[s2.len() - 1]);
            assert(s2[s2.len() - 1].marker_column == top.marker_column);
        } else {
            lemma_nesting_depth_bound(rest, c);
            if d == stack.len() - 1 {
                assert(pop_deeper(stack, d) == stack);
                assert(s2.last() == s2[s2.len() - 1]);
                assert(s2.drop_last() =~= rest);
            } else {
                assert(pop_deeper(stack, d) == pop_deeper(rest, d));
                assert(spec_enter_item(stack, info, d) == spec_enter_item(rest, info, d));
                lemma_enter_item_same_column(rest, info, d);
            }
        }
    }
}

/// Two list items in a row whose markers stand at the same column are at
/// the same depth: the same indentation gives items of the same level.
pub proof fn lemma_same_column_same_level(
    r: RunView,
    line1: Seq<char>,
    line2: Seq<char>,
    options: Options,
    d1: u8,
    d2: u8,
)
    requires
        state_wf(r.state),
        step_fits(r.state, line1),
        spec_step(r, line1, options).1 matches Some(LineView::Normal(c)) && c.style
            == CompositeStyle::ListItem(d1),
        spec_step(spec_step(r, line1, options).0, line2, options).1 matches Some(
            LineView::Normal(c),
        ) && c.style == CompositeStyle::ListItem(d2),
        spec_find_list_marker(line1) matches Some(i1) && spec_find_list_marker(line2) matches Some(
            i2,
        ) && i1.column == i2.column,
    ensures
        d1 == d2,
{
    let info = spec_find_list_marker(line1)->0;
    let r2 = spec_step(r, line1, options).0;
    lemma_list_item_source(r, line1, options, d1);
    lemma_list_item_source(r2, line2, options, d2);
    lemma_nesting_depth_fits(r.state.list_stack, info.column);
    lemma_marker_width(line1);
    lemma_enter_item_same_column(r.state.list_stack, info, d1);
}

/// Every line of a parse keeps the containers consistent.
pub proof fn lemma_step_wf(r: RunView, line: Seq<char>, options: Options)
    requires
        state_wf(r.state),
        step_fits(r.state, line),
    ensures
        state_wf(spec_step(r, line, options).0.state),
{
    let (parsed, carried) = parse_in_state(r, line, options);
    let st = r.state;
    match parsed {
        LineView::Normal(c) => {
            match c.style {
                CompositeStyle::ListItem(d) => {
                    lemma_list_item_source(r, line, options, d);
                    let info = spec_find_list_marker(line)->0;
                    lemma_nesting_depth_bound(st.list_stack, info.column);
                    lemma_nesting_depth_fits(st.list_stack, info.column);
                    lemma_enter_item(st.list_stack, info, d);
                },
                _ => {
                    lemma_close_lists(st.list_stack);
                },
            }
        },
        _ => {},
    }
}

/// Along every parse from a consistent state, the containers stay
/// consistent: the open list at position `i` of the stack has depth `i`, so
/// that a list item never nests more than one level under the lists open
/// before it, and at most one quote is open.
pub proof fn lemma_run_wf(r: RunView, lines: Seq<Seq<char>>, options: Options)
    requires
        state_wf(r.state),
        run_fits(r, lines, options),
    ensures
        state_wf(spec_run(r, lines, options).0.state),
    decreases lines.len(),
{
    if lines.len() > 0 {
        lemma_step_wf(r, lines[0], options);
        lemma_run_wf(spec_step(r, lines[0], options).0, lines.drop_first(), options);
    }
}

/// A parse starts in a consistent state.
pub proof fn lemma_initial_wf()
    ensures
        state_wf(initial_run().state),
{
}

/// A list item of depth `d`, in a consistent state, leaves `d + 1` lists
/// open, the innermost at depth `d` and able to go on.
pub proof fn lemma_list_item_line(r: RunView, line: Seq<char>, options: Options, d: u8)
    requires
        state_wf(r.state),
        step_fits(r.state, line),
        spec_step(r, line, options).1 matches Some(LineView::Normal(c)) && c.style
            == CompositeStyle::ListItem(d),
    ensures
        d <= r.state.list_stack.len(),
        spec_step(r, line, options).0.state.list_stack.len() == d + 1,
        spec_step(r, line, options).0.state.list_stack.last().depth == d,
        spec_step(r, line, options).0.state.list_stack.last().can_continue,
{
    lemma_list_item_source(r, line, options, d);
    let info = spec_find_list_marker(line)->0;
    lemma_nesting_depth_bound(r.state.list_stack, info.column);
    lemma_nesting_depth_fits(r.state.list_stack, info.column);
    lemma_enter_item(r.state.list_stack, info, d);
}

/// A blank line is no fence, no list item, no quote and no rule: parsed
/// outside fences, it is a paragraph or a code line.
pub proof fn lemma_blank_line_parse(
    line: Seq<char>,
    f: Spans,
    marker: Option<ListMarkerInfo>,
    is_quote: bool,
    depth: u8,
)
    requires
        is_blank(line),
        marker is None,
        !is_quote,
    ensures
        spec_parse_line(line, f, marker, is_quote, depth).0 matches LineView::Normal(c) && (c.style
            == CompositeStyle::Paragraph || c.style == CompositeStyle::Code),
{
    lemma_run_of_facts(line, '`');
    lemma_run_of_facts(line, '#');
    lemma_run_of_facts(line, '-');
    if run_of(line, '`') > 0 {
        assert(is_white_space(line[0]));
    }
    if run_of(line, '#') > 0 {
        assert(is_white_space(line[0]));
    }
    if run_of(line, '-') > 0 {
        assert(is_white_space(line[0]));
    }
}

/// A blank line has no list marker and is no quote.
pub proof fn lemma_blank_line_unmarked(line: Seq<char>)
    requires
        is_blank(line),
    ensures
        spec_find_list_marker(line) is None,
        !spec_is_quote(line),
{
    crate::chars::lemma_blank_leading_ws(line);
    assert(line.skip(leading_ws(line) as int).len() == 0);
}

/// A blank line marks every open list as not able to go on, and closes
/// none of them.
pub proof fn lemma_blank_line_closes_lists(r: RunView, line: Seq<char>, options: Options)
    requires
        is_blank(line),
    ensures
        spec_step(r, line, options).0.state.list_stack == close_lists(r.state.list_stack),
        spec_step(r, line, options).1 is Some,
{
    lemma_blank_line_unmarked(line);
    lemma_run_of_facts(line, '`');
    if run_of(line, '`') > 0 {
        assert(is_white_space(line[0]));
    }
    if !r.state.between_fences {
        lemma_blank_line_parse(
            line,
            r.carried,
            spec_find_list_marker(line),
            spec_is_quote(line),
            line_depth(r.state, line) as u8,
        );
    }
}

/// A line that starts with a code fence opens or closes a fenced block and
/// closes every open list; it goes into the text only when the options keep
/// fences.
pub proof fn lemma_fence_line(r: RunView, line: Seq<char>, options: Options)
    requires
        starts_with_fence(line),
    ensures
        spec_step(r, line, options).0.state.between_fences == !r.state.between_fences,
        spec_step(r, line, options).0.state.list_stack.len() == 0,
        spec_step(r, line, options).1 is Some <==> options.keep_code_fences,
{
}

/// Between code fences, a line that is no fence goes into the text as a
/// code line holding the whole line, and no inline style is carried on.
pub proof fn lemma_line_between_fences(r: RunView, line: Seq<char>, options: Options)
    requires
        r.state.between_fences,
        !starts_with_fence(line),
    ensures
        spec_step(r, line, options).1 == Some(spec_as_code(line)),
        spec_as_code(line) == LineView::Normal(
            crate::text::CompositeView { style: CompositeStyle::Code, compounds: seq![raw(line)] },
        ),
        spec_step(r, line, options).0.carried == Spans::none(),
        spec_step(r, line, options).0.state.between_fences,
{
}

/// Outside code fences, a line indented by four spaces is a code line
/// holding the rest of the line, even when a list marker follows.
pub proof fn lemma_four_spaces_code(r: RunView, line: Seq<char>, options: Options)
    requires
        !r.state.between_fences,
        run_of(line, ' ') >= 4,
    ensures
        spec_step(r, line, options).1 == Some(
            LineView::Normal(
                crate::text::CompositeView {
                    style: CompositeStyle::Code,
                    compounds: seq![raw(line.skip(4))],
                },
            ),
        ),
{
    lemma_run_of_facts(line, ' ');
    lemma_run_of_facts(line, '`');
    if run_of(line, '`') > 0 {
        assert(line[0] == ' ');
    }
}

/// Without span continuation in the options, no inline style is carried
/// from a line to the next.
pub proof fn lemma_no_continuation(r: RunView, line: Seq<char>, options: Options)
    requires
        !options.continue_inline_code,
        !options.continue_italic,
        !options.continue_bold,
        !options.continue_strikeout,
    ensures
        spec_step(r, line, options).0.carried == Spans::none(),
{
}

/// The text has at most one line per input line, and exactly one per input
/// line when the options keep code fences.
pub proof fn lemma_run_line_count(r: RunView, lines: Seq<Seq<char>>, options: Options)
    ensures
        spec_run(r, lines, options).1.len() <= lines.len(),
        options.keep_code_fences ==> spec_run(r, lines, options).1.len() == lines.len(),
    decreases lines.len(),
{
    if lines.len() > 0 {
        lemma_run_line_count(spec_step(r, lines[0], options).0, lines.drop_first(), options);
    }
}

/// A text of one line that is no code fence parses to that line parsed on
/// its own.
pub proof fn lemma_single_line(line: Seq<char>, options: Options)
    requires
        !starts_with_fence(line),
    ensures
        spec_run(initial_run(), seq![line], options).1 == seq![spec_line(line)],
{
    let lines = seq![line];
    assert(lines.drop_first() =~= Seq::<Seq<char>>::empty());
    assert(lines[0] == line);
    assert(line_depth(initial_run().state, line) == 0);
    let (r1, out) = spec_step(initial_run(), line, options);
    assert(out == Some(spec_line(line)));
    assert(spec_run(r1, lines.drop_first(), options).1 == Seq::<LineView>::empty());
    assert(seq![spec_line(line)] + Seq::<LineView>::empty() =~= seq![spec_line(line)]);
}

/// Whether `s` holds no inline marker character.
pub open spec fn is_plain(s: Seq<char>) -> bool {
    forall|j: int| 0 <= j < s.len() ==> #[trigger] s[j] != '`' && s[j] != '*' && s[j] != '~'
}

/// Plain characters extend the current segment.
pub proof fn lemma_plain_inline_from(
    s: Seq<char>,
    i: int,
    start: int,
    f: Spans,
    acc: Seq<CompoundView>,
)
    requires
        is_plain(s),
        0 <= start <= i <= s.len(),
    ensures
        inline_from(s, i, start, f, acc) == (close_segment(acc, s, start, s.len() as int, f), f),
    decreases s.len() - i,
{
    if i < s.len() {
        assert(s[i] != '`' && s[i] != '*' && s[i] != '~');
        assert(marker_at(s, i, f) is None);
        lemma_plain_inline_from(s, i + 1, start, f, acc);
    }
}

/// A content with no inline marker character is one compound holding it
/// all, in the styles it starts in, which it leaves unchanged.
pub proof fn lemma_plain_inline(s: Seq<char>, f: Spans)
    requires
        is_plain(s),
    ensures
        spec_inline(s, f).1 == f,
        s.len() > 0 ==> spec_inline(s, f).0 == seq![crate::text::styled(s, f)],
        s.len() == 0 ==> spec_inline(s, f).0 == Seq::<CompoundView>::empty(),
{
    lemma_plain_inline_from(s, 0, 0, f, Seq::empty());
    assert(s.subrange(0, s.len() as int) =~= s);
    assert(Seq::<CompoundView>::empty().push(crate::text::styled(s, f)) =~= seq![
        crate::text::styled(s, f),
    ]);
}

/// Characters that are no inline marker leave the parse state as it is.
pub proof fn lemma_inline_plain_run(
    s: Seq<char>,
    i: int,
    j: int,
    start: int,
    f: Spans,
    acc: Seq<CompoundView>,
)
    requires
        0 <= start <= i <= j <= s.len(),
        forall|k: int| i <= k < j ==> #[trigger] s[k] != '`' && s[k] != '*' && s[k] != '~',
    ensures
        inline_from(s, i, start, f, acc) == inline_from(s, j, start, f, acc),
    decreases j - i,
{
    if i < j {
        assert(s[i] != '`' && s[i] != '*' && s[i] != '~');
        assert(marker_at(s, i, f) is None);
        lemma_inline_plain_run(s, i + 1, j, start, f, acc);
    }
}

/// A backquote opens or closes a code span and changes no other style:
/// bold, italic and strikeout are the same after it as before it.
pub proof fn lemma_backquote_toggles_only_code(s: Seq<char>, i: int, f: Spans)
    requires
        0 <= i < s.len(),
        s[i] == '`',
    ensures
        marker_at(s, i, f) matches Some((m, g)) && m == 1 && g.code == !f.code && g.bold == f.bold
            && g.italic == f.italic && g.strikeout == f.strikeout,
{
}

/// Inside a code span, only a backquote is a marker: emphasis characters
/// are text.
pub proof fn lemma_code_span_is_literal(s: Seq<char>, i: int, f: Spans)
    requires
        0 <= i < s.len(),
        f.code,
        s[i] != '`',
    ensures
        marker_at(s, i, f) is None,
{
}

/// The styles `f` with bold set to `b` and code to `c`.
pub open spec fn bold_code(b: bool, c: bool) -> Spans {
    Spans { code: c, italic: false, bold: b, strikeout: false }
}

/// A code span inside a bold span stays bold: `**a`b`c**`, with `a`, `b`
/// and `c` plain and not empty, is the bold `a`, the bold code `b` and the
/// bold `c`, and no style is left open after it.
pub proof fn lemma_code_inside_bold(a: Seq<char>, b: Seq<char>, c: Seq<char>)
    requires
        is_plain(a),
        is_plain(b),
        is_plain(c),
        a.len() > 0,
        b.len() > 0,
        c.len() > 0,
    ensures
        ({
            let s = seq!['*', '*'] + a + seq!['`'] + b + seq!['`'] + c + seq!['*', '*'];
            spec_inline(s, Spans::none()) == (
                seq![
                    crate::text::styled(a, bold_code(true, false)),
                    crate::text::styled(b, bold_code(true, true)),
                    crate::text::styled(c, bold_code(true, false)),
                ],
                Spans::none(),
            )
        }),
{
    let s = seq!['*', '*'] + a + seq!['`'] + b + seq!['`'] + c + seq!['*', '*'];
    let p1: int = 2 + a.len() as int;
    let p2: int = p1 + 1 + b.len();
    let p3: int = p2 + 1 + c.len();
    assert(s.len() == p3 + 2);
    assert(s[0] == '*' && s[1] == '*');
    assert forall|k: int| 2 <= k < p1 implies #[trigger] s[k] == a[k - 2] by {}
    assert(s[p1] == '`');
    assert forall|k: int| p1 + 1 <= k < p2 implies #[trigger] s[k] == b[k - p1 - 1] by {}
    assert(s[p2] == '`');
    assert forall|k: int| p2 + 1 <= k < p3 implies #[trigger] s[k] == c[k - p2 - 1] by {}
    assert(s[p3] == '*' && s[p3 + 1] == '*');
    assert forall|k: int| 2 <= k < p1 implies #[trigger] s[k] != '`' && s[k] != '*' && s[k]
        != '~' by {
        assert(s[k] == a[k - 2]);
    }
    assert forall|k: int| p1 + 1 <= k < p2 implies #[trigger] s[k] != '`' && s[k] != '*' && s[k]
        != '~' by {
        assert(s[k] == b[k - p1 - 1]);
    }
    assert forall|k: int| p2 + 1 <= k < p3 implies #[trigger] s[k] != '`' && s[k] != '*' && s[k]
        != '~' by {
        assert(s[k] == c[k - p2 - 1]);
    }
    let none = Spans::none();
    let bo = bold_code(true, false);
    let bc = bold_code(true, true);
    let e = Seq::<CompoundView>::empty();
    let acc1 = seq![crate::text::styled(a, bo)];
    let acc2 = acc1.push(crate::text::styled(b, bc));
    let acc3 = acc2.push(crate::text::styled(c, bo));
    assert(s.subrange(2, p1) =~= a);
    assert(s.subrange(p1 + 1, p2) =~= b);
    assert(s.subrange(p2 + 1, p3) =~= c);
    assert(close_segment(e, s, 0, 0, none) == e);
    assert(inline_from(s, 0, 0, none, e) == inline_from(s, 2, 2, bo, e));
    lemma_inline_plain_run(s, 2, p1, 2, bo, e);
    assert(e.push(crate::text::styled(a, bo)) =~= acc1);
    assert(inline_from(s, p1, 2, bo, e) == inline_from(s, p1 + 1, p1 + 1, bc, acc1));
    lemma_inline_plain_run(s, p1 + 1, p2, p1 + 1, bc, acc1);
    assert(inline_from(s, p2, p1 + 1, bc, acc1) == inline_from(s, p2 + 1, p2 + 1, bo, acc2));
    lemma_inline_plain_run(s, p2 + 1, p3, p2 + 1, bo, acc2);
    assert(inline_from(s, p3, p2 + 1, bo, acc2) == inline_from(s, p3 + 2, p3 + 2, none, acc3));
    assert(inline_from(s, p3 + 2, p3 + 2, none, acc3) == (acc3, none));
    assert(acc3 =~= seq![
        crate::text::styled(a, bo),
        crate::text::styled(b, bc),
        crate::text::styled(c, bo),
    ]);
}

/// Whether the line `s` can only be a paragraph: it starts with no
/// whitespace, digit, quote, backquote, header or dash, and a `*` or `+` at
/// its start is followed by something else than a space or a tab.
pub open spec fn opens_paragraph(s: Seq<char>) -> bool {
    &&& s.len() > 0
    &&& !is_white_space(s[0])
    &&& !is_ascii_digit(s[0])
    &&& s[0] != '>'
    &&& s[0] != '`'
    &&& s[0] != '#'
    &&& s[0] != '-'
    &&& (s[0] == '*' || s[0] == '+') ==> s.len() > 1 && s[1] != ' ' && s[1] != '\t'
}

/// Such a line has no list marker, is no quote, no fence and not blank, and
/// it parses as a paragraph of its inline styles.
pub proof fn lemma_paragraph_line(s: Seq<char>, f: Spans, depth: u8)
    requires
        opens_paragraph(s),
    ensures
        spec_find_list_marker(s) is None,
        !spec_is_quote(s),
        !starts_with_fence(s),
        !is_blank(s),
        spec_parse_line(s, f, None, false, depth) == styled_line(CompositeStyle::Paragraph, s, f),
{
    assert(leading_ws(s) == 0);
    assert(s.skip(0) =~= s);
    assert(digit_run(s) == 0);
    assert(run_of(s, '`') == 0);
    assert(run_of(s, ' ') == 0);
    assert(run_of(s, '#') == 0);
    assert(run_of(s, '-') == 0);
}

/// `Line::from("**a`b`c**")`, with `a`, `b` and `c` plain and not empty, is
/// a paragraph of the bold `a`, the bold code `b` and the bold `c`.
pub proof fn lemma_line_code_inside_bold(a: Seq<char>, b: Seq<char>, c: Seq<char>)
    requires
        is_plain(a),
        is_plain(b),
        is_plain(c),
        a.len() > 0,
        b.len() > 0,
        c.len() > 0,
    ensures
        spec_line(seq!['*', '*'] + a + seq!['`'] + b + seq!['`'] + c + seq!['*', '*'])
            == LineView::Normal(
            CompositeView {
                style: CompositeStyle::Paragraph,
                compounds: seq![
                    styled(a, bold_code(true, false)),
                    styled(b, bold_code(true, true)),
                    styled(c, bold_code(true, false)),
                ],
            },
        ),
{
    let s = seq!['*', '*'] + a + seq!['`'] + b + seq!['`'] + c + seq!['*', '*'];
    assert(s[0] == '*' && s[1] == '*');
    lemma_paragraph_line(s, Spans::none(), 0);
    lemma_code_inside_bold(a, b, c);
}

/// Outside code fences, the styles carried to the next line are, style by
/// style, those still open at the end of the line when the options let that
/// style go on, and none otherwise.
pub proof fn lemma_carried_styles(r: RunView, line: Seq<char>, options: Options)
    requires
        !r.state.between_fences,
    ensures
        ({
            let open_at_end = spec_parse_line(
                line,
                r.carried,
                spec_find_list_marker(line),
                spec_is_quote(line),
                line_depth(r.state, line) as u8,
            ).1;
            let carried = spec_step(r, line, options).0.carried;
            &&& carried.code == (options.continue_inline_code && open_at_end.code)
            &&& carried.italic == (options.continue_italic && open_at_end.italic)
            &&& carried.bold == (options.continue_bold && open_at_end.bold)
            &&& carried.strikeout == (options.continue_strikeout && open_at_end.strikeout)
        }),
{
}

/// The styles with only strikeout set to `b`.
pub open spec fn strikeout_only(b: bool) -> Spans {
    Spans { code: false, italic: false, bold: false, strikeout: b }
}

/// A strikeout left open at the end of a line goes on in the next line when
/// the options ask for it: `~~a` then `b` (plain, not empty, `b` a paragraph
/// line) are the struck `a`, then `b` struck exactly when
/// `continue_strikeout` is set.
pub proof fn lemma_strikeout_goes_on(a: Seq<char>, b: Seq<char>, options: Options)
    requires
        is_plain(a),
        a.len() > 0,
        is_plain(b),
        opens_paragraph(b),
    ensures
        spec_run(initial_run(), seq![seq!['~', '~'] + a, b], options).1 == seq![
            LineView::Normal(
                CompositeView {
                    style: CompositeStyle::Paragraph,
                    compounds: seq![styled(a, strikeout_only(true))],
                },
            ),
            LineView::Normal(
                CompositeView {
                    style: CompositeStyle::Paragraph,
                    compounds: seq![styled(b, strikeout_only(options.continue_strikeout))],
                },
            ),
        ],
{
    let l1 = seq!['~', '~'] + a;
    let lines = seq![l1, b];
    let none = Spans::none();
    let st = strikeout_only(true);
    // the first line
    assert(l1[0] == '~' && l1[1] == '~');
    lemma_paragraph_line(l1, none, 0);
    assert forall|k: int| 2 <= k < l1.len() implies #[trigger] l1[k] != '`' && l1[k] != '*'
        && l1[k] != '~' by {
        assert(l1[k] == a[k - 2]);
    }
    let e = Seq::<CompoundView>::empty();
    assert(inline_from(l1, 0, 0, none, e) == inline_from(l1, 2, 2, st, e));
    lemma_inline_plain_run(l1, 2, l1.len() as int, 2, st, e);
    assert(l1.subrange(2, l1.len() as int) =~= a);
    assert(e.push(styled(a, st)) =~= seq![styled(a, st)]);
    assert(spec_inline(l1, none) == (seq![styled(a, st)], st));
    let r0 = initial_run();
    assert(line_depth(r0.state, l1) == 0);
    let r1 = spec_step(r0, l1, options).0;
    assert(r1.state.list_stack == r0.state.list_stack);
    assert(!r1.state.between_fences);
    assert(r1.carried == strikeout_only(options.continue_strikeout));
    // the second line
    lemma_paragraph_line(b, r1.carried, 0);
    lemma_plain_inline(b, r1.carried);
    assert(line_depth(r1.state, b) == 0);
    let r2 = spec_step(r1, b, options).0;
    assert(lines[0] == l1);
    assert(lines.drop_first() =~= seq![b]);
    assert(seq![b].drop_first() =~= Seq::<Seq<char>>::empty());
    assert(seq![b][0] == b);
    assert(spec_run(r2, Seq::<Seq<char>>::empty(), options).1 == Seq::<LineView>::empty());
    let o1 = LineView::Normal(
        CompositeView { style: CompositeStyle::Paragraph, compounds: seq![styled(a, st)] },
    );
    let o2 = LineView::Normal(
        CompositeView {
            style: CompositeStyle::Paragraph,
            compounds: seq![styled(b, strikeout_only(options.continue_strikeout))],
        },
    );
    assert(spec_step(r0, l1, options).1 == Some(o1));
    assert(spec_step(r1, b, options).1 == Some(o2));
    assert(spec_run(r1, seq![b], options).1 =~= seq![o2]);
    assert(spec_run(r0, lines, options).1 =~= seq![o1] + seq![o2]);
    assert(seq![o1] + seq![o2] =~= seq![o1, o2]);
}

/// Whether `l` is a list item line.
pub open spec fn is_list_item(l: LineView) -> bool {
    l matches LineView::Normal(c) && c.style is ListItem
}

/// A line that is not blank and that goes into the text as neither a list
/// item nor a code fence (a paragraph, a header, a quote, a code line, a
/// rule) leaves the open lists as they are: only list items, blank lines
/// and code fences change them.
pub proof fn lemma_text_line_keeps_lists(r: RunView, line: Seq<char>, options: Options)
    requires
        !is_blank(line),
        spec_step(r, line, options).1 matches Some(l) && !(l is CodeFence) && !is_list_item(l),
    ensures
        spec_step(r, line, options).0.state.list_stack == r.state.list_stack,
{
}

/// The list context that an item with marker `info` opens at `depth`.
pub open spec fn opened_list(info: ListMarkerInfo, depth: u8) -> ListContext {
    ListContext {
        marker_column: info.column,
        marker_width: info.width,
        depth,
        is_ordered: info.is_ordered,
        can_continue: true,
    }
}

/// A list item nested deeper than every open list opens a new list, which
/// records the column and the width of the item's marker.
pub proof fn lemma_new_list_records_marker(r: RunView, line: Seq<char>, options: Options, d: u8)
    requires
        state_wf(r.state),
        spec_step(r, line, options).1 matches Some(LineView::Normal(c)) && c.style
            == CompositeStyle::ListItem(d),
        d == r.state.list_stack.len(),
    ensures
        spec_step(r, line, options).0.state.list_stack == r.state.list_stack.push(
            opened_list(spec_find_list_marker(line)->0, d),
        ),
{
    lemma_list_item_source(r, line, options, d);
    let stack = r.state.list_stack;
    lemma_pop_deeper(stack, d);
    assert(stack.take(stack.len() as int) =~= stack);
    if stack.len() > 0 {
        assert(stack.last() == stack[stack.len() - 1]);
    }
}

/// The first list item of a text is at depth 0 and opens one list, which
/// records the column and the width of its marker.
pub proof fn lemma_first_item_opens_list(line: Seq<char>, options: Options, d: u8)
    requires
        spec_step(initial_run(), line, options).1 matches Some(LineView::Normal(c)) && c.style
            == CompositeStyle::ListItem(d),
    ensures
        d == 0,
        spec_step(initial_run(), line, options).0.state.list_stack == seq![
            opened_list(spec_find_list_marker(line)->0, 0),
        ],
{
    lemma_list_item_source(initial_run(), line, options, d);
    lemma_new_list_records_marker(initial_run(), line, options, d);
    assert(Seq::<ListContext>::empty().push(opened_list(spec_find_list_marker(line)->0, 0))
        =~= seq![opened_list(spec_find_list_marker(line)->0, 0)]);
}

/// The depth of a list item whose marker stands at `column` when a single
/// list is open: one when the marker reaches that list's content column,
/// zero otherwise.
pub proof fn lemma_depth_under_one_list(ctx: ListContext, column: u32)
    requires
        ctx.depth == 0,
    ensures
        spec_nesting_depth(seq![ctx], column) == if column >= ctx.marker_column
            + ctx.marker_width {
            1int
        } else {
            0int
        },
{
    assert(seq![ctx].last() == ctx);
    assert(seq![ctx].drop_last() =~= Seq::<ListContext>::empty());
    assert(spec_nesting_depth(Seq::<ListContext>::empty(), column) == 0);
    assert(seq![ctx].len() == 1);
}

/// Two list items in a row at the start of a text: the second nests under
/// the first exactly when its marker reaches the first item's content
/// column, the first marker's column plus its width.
pub proof fn lemma_second_item_depth(a: Seq<char>, b: Seq<char>, options: Options, db: u8)
    requires
        spec_step(initial_run(), a, options).1 matches Some(l) && is_list_item(l),
        spec_step(spec_step(initial_run(), a, options).0, b, options).1 matches Some(
            LineView::Normal(c),
        ) && c.style == CompositeStyle::ListItem(db),
    ensures
        spec_find_list_marker(a) matches Some(ma) && spec_find_list_marker(b) matches Some(mb) && db
            == if mb.column >= ma.column + ma.width {
            1u8
        } else {
            0u8
        },
{
    let da = match spec_step(initial_run(), a, options).1 {
        Some(LineView::Normal(c)) => match c.style {
            CompositeStyle::ListItem(d) => d,
            _ => 0,
        },
        _ => 0,
    };
    lemma_first_item_opens_list(a, options, da);
    let r1 = spec_step(initial_run(), a, options).0;
    lemma_list_item_source(r1, b, options, db);
    let ma = spec_find_list_marker(a)->0;
    let mb = spec_find_list_marker(b)->0;
    lemma_depth_under_one_list(opened_list(ma, 0), mb.column);
}

/// A paragraph line between two list items does not close the list: at the
/// start of a text, a list item, then a line that is not blank and is
/// neither a list item nor a fence, then a list item whose marker reaches
/// the first item's content column, nests that last item at depth one.
pub proof fn lemma_list_survives_text_line(
    a: Seq<char>,
    t: Seq<char>,
    b: Seq<char>,
    options: Options,
    db: u8,
)
    requires
        spec_step(initial_run(), a, options).1 matches Some(l) && is_list_item(l),
        !is_blank(t),
        spec_step(spec_step(initial_run(), a, options).0, t, options).1 matches Some(l) && !(
        l is CodeFence) && !is_list_item(l),
        spec_step(
            spec_step(spec_step(initial_run(), a, options).0, t, options).0,
            b,
            options,
        ).1 matches Some(LineView::Normal(c)) && c.style == CompositeStyle::ListItem(db),
    ensures
        spec_find_list_marker(a) matches Some(ma) && spec_find_list_marker(b) matches Some(mb) && db
            == if mb.column >= ma.column + ma.width {
            1u8
        } else {
            0u8
        },
{
    let da = match spec_step(initial_run(), a, options).1 {
        Some(LineView::Normal(c)) => match c.style {
            CompositeStyle::ListItem(d) => d,
            _ => 0,
        },
        _ => 0,
    };
    lemma_first_item_opens_list(a, options, da);
    let r1 = spec_step(initial_run(), a, options).0;
    lemma_text_line_keeps_lists(r1, t, options);
    let r2 = spec_step(r1, t, options).0;
    lemma_list_item_source(r2, b, options, db);
    let ma = spec_find_list_marker(a)->0;
    let mb = spec_find_list_marker(b)->0;
    lemma_depth_under_one_list(opened_list(ma, 0), mb.column);
}

/// Outside code spans, `**` toggles bold only, a lone `*` italic only, and
/// `~~` strikeout only; a lone `~` is text.
pub proof fn lemma_emphasis_markers(s: Seq<char>, i: int, f: Spans)
    requires
        0 <= i < s.len(),
        !f.code,
    ensures
        s[i] == '*' && i + 1 < s.len() && s[i + 1] == '*' ==> marker_at(s, i, f) == Some(
            (2int, Spans { bold: !f.bold, ..f }),
        ),
        s[i] == '*' && !(i + 1 < s.len() && s[i + 1] == '*') ==> marker_at(s, i, f) == Some(
            (1int, Spans { italic: !f.italic, ..f }),
        ),
        s[i] == '~' && i + 1 < s.len() && s[i + 1] == '~' ==> marker_at(s, i, f) == Some(
            (2int, Spans { strikeout: !f.strikeout, ..f }),
        ),
        s[i] == '~' && !(i + 1 < s.len() && s[i + 1] == '~') ==> marker_at(s, i, f) is None,
        s[i] != '`' && s[i] != '*' && s[i] != '~' ==> marker_at(s, i, f) is None,
{
}

/// A list marker is what starts the line after its leading whitespace: a
/// bullet, or digits then `.` or `)`, taking `width - 1` characters, and
/// followed by a space, a tab or the end of the line; its column is the
/// visual column of the line (for lines of at most `u32::MAX`
/// characters).
pub proof fn lemma_list_marker_text(line: Seq<char>)
    requires
        list_marker_fits(line),
        line.len() <= u32::MAX,
        spec_find_list_marker(line) is Some,
    ensures
        ({
            let info = spec_find_list_marker(line)->0;
            let t = line.skip(leading_ws(line) as int);
            let w = info.width as int;
            &&& info.column == visual_column(line)
            &&& info.depth == 0
            &&& 2 <= w <= t.len() + 1
            &&& (w - 1 == t.len() || t[w - 1] == ' ' || t[w - 1] == '\t')
            &&& if info.is_ordered {
                &&& w >= 3
                &&& forall|k: int| 0 <= k < w - 2 ==> is_ascii_digit(#[trigger] t[k])
                &&& (t[w - 2] == '.' || t[w - 2] == ')')
            } else {
                &&& w == 2
                &&& is_bullet(t[0])
            }
        }),
{
    let t = line.skip(leading_ws(line) as int);
    lemma_digit_run_facts(t);
    crate::chars::lemma_leading_ws_facts(line);
    crate::chars::lemma_visual_column_nonneg(line);
    let info = spec_find_list_marker(line)->0;
    let d = digit_run(t) as int;
    if info.is_ordered {
        assert(d <= u32::MAX);
        assert((d as u32) as int == d);
        assert(info.width == d + 2);
        assert(opens_ordered_item(t));
    } else {
        assert(info.width == 2);
    }
}

/// A header line: one to six `#`, a space, and the header's content.
pub proof fn lemma_header_line(h: nat, c: Seq<char>)
    requires
        1 <= h <= 6,
    ensures
        ({
            let s = Seq::new(h, |k: int| '#') + seq![' '] + c;
            spec_line(s) == styled_line(CompositeStyle::Header(h as u8), c, Spans::none()).0
        }),
{
    let s = Seq::new(h, |k: int| '#') + seq![' '] + c;
    assert forall|k: int| 0 <= k < h implies #[trigger] s[k] == '#' by {}
    assert(s[h as int] == ' ');
    crate::chars::lemma_run_of(s, '#', h as int);
    assert(header_level(s) == h);
    assert(s[0] == '#');
    assert(leading_ws(s) == 0);
    assert(s.skip(0) =~= s);
    assert(digit_run(s) == 0);
    assert(run_of(s, '`') == 0);
    assert(run_of(s, ' ') == 0);
    assert(s.skip(h + 1 as int) =~= c);
}

/// Outside code fences, `"> " + c` is a quote whose content is `c`; the
/// first quote of a text records its indentation (zero here), and the open
/// lists stay as they are.
pub proof fn lemma_quote_line(r: RunView, c: Seq<char>, options: Options)
    requires
        !r.state.between_fences,
    ensures
        ({
            let line = seq!['>', ' '] + c;
            let (next, out) = spec_step(r, line, options);
            &&& out == Some(styled_line(CompositeStyle::Quote, c, r.carried).0)
            &&& next.state.list_stack == r.state.list_stack
            &&& next.state.quote_stack == if r.state.quote_stack.len() == 0 {
                seq![0u32]
            } else {
                r.state.quote_stack
            }
        }),
{
    let line = seq!['>', ' '] + c;
    assert(line[0] == '>' && line[1] == ' ');
    assert(leading_ws(line) == 0);
    assert(line.skip(0) =~= line);
    assert(digit_run(line) == 0);
    assert(run_of(line, '`') == 0);
    assert(run_of(line, ' ') == 0);
    assert(spec_is_quote(line));
    assert(spec_find_list_marker(line) is None);
    assert(line.skip(2) =~= c);
    assert(visual_column(line) == 0);
    assert(!is_blank(line)) by {
        assert(!is_white_space(line[0]));
    }
    assert(Seq::<u32>::empty().push(0u32) =~= seq![0u32]);
}

} // verus!
