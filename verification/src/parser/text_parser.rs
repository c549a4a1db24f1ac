use vstd::prelude::*;

use crate::chars::{
    byte_len, chars_of, count_digits, count_leading_ws, digit_run, is_blank, is_blank_str,
    is_bullet, leading_ws, lemma_leading_ws_facts, lemma_utf8_len_split,
    lemma_visual_column_nonneg, lines_chars, spec_lines, split_lines, trim_start, utf8_len,
    visual_column,
};
use crate::clean::{self, spec_clean_lines};
use crate::parser::line_parser::{spec_as_code, spec_parse_line, LineParser};
use crate::parser::options::Options;
use crate::text::{lines_view, CompositeStyle, Line, LineView, Spans, Text};

verus! {

/// The lines the parse of `md` reads.
pub open spec fn input_lines(md: Seq<char>, options: Options) -> Seq<Seq<char>> {
    if options.clean_indentations {
        spec_clean_lines(md)
    } else {
        spec_lines(md)
    }
}

/// The lines of the text parsed from `md`.
pub open spec fn spec_parse(md: Seq<char>, options: Options) -> Seq<LineView> {
    spec_run(initial_run(), input_lines(md, options), options).1
}

/// The inputs whose parse computes without overflow: no line is indented
/// past `u32::MAX` columns, and no list nests past depth 255.
pub open spec fn parse_fits(md: Seq<char>, options: Options) -> bool {
    run_fits(initial_run(), input_lines(md, options), options)
}

/// Parse a markdown string into a text
pub fn parse(md: &str, options: Options) -> (text: Text<'_>)
    requires
        parse_fits(md@, options),
    ensures
        text@ == spec_parse(md@, options),
{
    if options.clean_indentations {
        parse_lines(clean::lines(md), options)
    } else {
        parse_lines(split_lines(md), options)
    }
}

/// State for tracking container blocks during parsing
/// This enables CommonMark-compliant indentation handling
#[derive(Debug)]
pub struct ParseState {
    /// Stack of active list contexts (the innermost last)
    pub list_stack: Vec<ListContext>,
    /// Stack of active blockquote contexts
    pub quote_stack: Vec<u32>,
    /// Are we currently in a code fence?
    pub between_fences: bool,
}

/// What a parse state holds.
pub struct ParseStateView {
    pub list_stack: Seq<ListContext>,
    pub quote_stack: Seq<u32>,
    pub between_fences: bool,
}

impl View for ParseState {
    type V = ParseStateView;

    open spec fn view(&self) -> ParseStateView {
        ParseStateView {
            list_stack: self.list_stack@,
            quote_stack: self.quote_stack@,
            between_fences: self.between_fences,
        }
    }
}

/// The state of a parse between two lines: the containers, and the inline
/// styles carried into the next line.
pub struct RunView {
    pub state: ParseStateView,
    pub carried: Spans,
}

/// The state a parse starts in.
pub open spec fn initial_run() -> RunView {
    RunView {
        state: ParseStateView {
            list_stack: Seq::empty(),
            quote_stack: Seq::empty(),
            between_fences: false,
        },
        carried: Spans::none(),
    }
}

/// The innermost open list of `stack`, if any.
pub open spec fn top_list(stack: Seq<ListContext>) -> Option<ListContext> {
    if stack.len() == 0 {
        None
    } else {
        Some(stack.last())
    }
}

/// The context a reference points to.
pub open spec fn context_value(c: Option<&ListContext>) -> Option<ListContext> {
    match c {
        Some(ctx) => Some(*ctx),
        None => None,
    }
}

/// The first open list, from the outermost on, whose content column
/// `marker_column` reaches.
pub open spec fn spec_find_list_parent(stack: Seq<ListContext>, marker_column: u32) -> Option<
    ListContext,
>
    decreases stack.len(),
{
    if stack.len() == 0 {
        None
    } else if marker_column >= stack[0].marker_column + stack[0].marker_width {
        Some(stack[0])
    } else {
        spec_find_list_parent(stack.drop_first(), marker_column)
    }
}

/// The inputs on which `find_list_parent` computes without overflow.
pub open spec fn list_parent_fits(stack: Seq<ListContext>, marker_column: u32) -> bool
    decreases stack.len(),
{
    if stack.len() == 0 {
        true
    } else {
        &&& stack[0].marker_column + stack[0].marker_width <= u32::MAX
        &&& if marker_column >= stack[0].marker_column + stack[0].marker_width {
            stack[0].depth < 255
        } else {
            list_parent_fits(stack.drop_first(), marker_column)
        }
    }
}

/// The depth of a list item whose marker stands at `column`, given the open
/// lists: searching from the innermost list out, the item nests one level
/// under the first list whose content column it reaches, or joins the first
/// list whose marker stands at the same column; it is at depth 0 when there
/// is no such list.
pub open spec fn spec_nesting_depth(stack: Seq<ListContext>, column: u32) -> int
    decreases stack.len(),
{
    if stack.len() == 0 {
        0
    } else if column >= stack.last().marker_column + stack.last().marker_width {
        stack.last().depth + 1
    } else if column == stack.last().marker_column {
        stack.last().depth as int
    } else {
        spec_nesting_depth(stack.drop_last(), column)
    }
}

/// The inputs on which the nesting depth is computed without overflow.
pub open spec fn nesting_fits(stack: Seq<ListContext>, column: u32) -> bool
    decreases stack.len(),
{
    if stack.len() == 0 {
        true
    } else {
        &&& stack.last().marker_column + stack.last().marker_width <= u32::MAX
        &&& if column >= stack.last().marker_column + stack.last().marker_width {
            stack.last().depth < 255
        } else if column == stack.last().marker_column {
            true
        } else {
            nesting_fits(stack.drop_last(), column)
        }
    }
}

/// `stack` without its lists deeper than `depth`.
pub open spec fn pop_deeper(stack: Seq<ListContext>, depth: u8) -> Seq<ListContext>
    decreases stack.len(),
{
    if stack.len() > 0 && stack.last().depth > depth {
        pop_deeper(stack.drop_last(), depth)
    } else {
        stack
    }
}

/// The open lists after a list item of depth `depth` whose marker is `info`:
/// deeper lists are closed; the list at that depth goes on, or a new one is
/// opened.
pub open spec fn spec_enter_item(stack: Seq<ListContext>, info: ListMarkerInfo, depth: u8) -> Seq<
    ListContext,
> {
    let s = pop_deeper(stack, depth);
    if s.len() > 0 && s.last().depth == depth {
        s.update(s.len() - 1, ListContext { can_continue: true, ..s.last() })
    } else {
        s.push(
            ListContext {
                marker_column: info.column,
                marker_width: info.width,
                depth,
                is_ordered: info.is_ordered,
                can_continue: true,
            },
        )
    }
}

/// `stack` with every list marked as not continuing.
pub open spec fn close_lists(stack: Seq<ListContext>) -> Seq<ListContext> {
    stack.map_values(|l: ListContext| ListContext { can_continue: false, ..l })
}

/// The styles carried to the next line: those left open at the end of the
/// line, as far as the options let them go on.
pub open spec fn carried_spans(g: Spans, options: Options) -> Spans {
    Spans {
        code: options.continue_inline_code && g.code,
        italic: options.continue_italic && g.italic,
        bold: options.continue_bold && g.bold,
        strikeout: options.continue_strikeout && g.strikeout,
    }
}

/// The list depth computed for `line` in the state `st`.
pub open spec fn line_depth(st: ParseStateView, line: Seq<char>) -> int {
    match spec_find_list_marker(line) {
        Some(info) => spec_nesting_depth(st.list_stack, info.column),
        None => 0,
    }
}

/// The parsed line and the styles carried to the next line, before the
/// containers are updated.
pub open spec fn parse_in_state(r: RunView, line: Seq<char>, options: Options) -> (LineView, Spans) {
    if r.state.between_fences {
        (spec_as_code(line), Spans::none())
    } else {
        let (l, g) = spec_parse_line(
            line,
            r.carried,
            spec_find_list_marker(line),
            spec_is_quote(line),
            line_depth(r.state, line) as u8,
        );
        (l, carried_spans(g, options))
    }
}

/// One line of the parse: the next state, and the line that goes into the
/// text, if any (code fences go in only when the options keep them).
pub open spec fn spec_step(r: RunView, line: Seq<char>, options: Options) -> (RunView, Option<
    LineView,
>) {
    let (parsed, carried) = parse_in_state(r, line, options);
    let st = r.state;
    match parsed {
        LineView::CodeFence(_) => (
            RunView {
                state: ParseStateView {
                    list_stack: Seq::empty(),
                    quote_stack: st.quote_stack,
                    between_fences: !st.between_fences,
                },
                carried,
            },
            if options.keep_code_fences {
                Some(parsed)
            } else {
                None
            },
        ),
        LineView::Normal(c) => {
            let state = match c.style {
                CompositeStyle::Quote => ParseStateView {
                    quote_stack: if st.quote_stack.len() == 0 {
                        st.quote_stack.push(visual_column(line) as u32)
                    } else {
                        st.quote_stack
                    },
                    ..st
                },
                CompositeStyle::ListItem(depth) => ParseStateView {
                    list_stack: match spec_find_list_marker(line) {
                        Some(info) => spec_enter_item(st.list_stack, info, depth),
                        None => st.list_stack,
                    },
                    ..st
                },
                _ => ParseStateView {
                    list_stack: if is_blank(line) {
                        close_lists(st.list_stack)
                    } else {
                        st.list_stack
                    },
                    ..st
                },
            };
            (RunView { state, carried }, Some(parsed))
        },
        _ => (RunView { state: st, carried }, Some(parsed)),
    }
}

/// The inputs on which one line of the parse computes without overflow.
pub open spec fn step_fits(st: ParseStateView, line: Seq<char>) -> bool {
    &&& list_marker_fits(line)
    &&& spec_find_list_marker(line) matches Some(info) ==> nesting_fits(st.list_stack, info.column)
}

/// The parse of `lines` from the state `r`: the state at the end, and the
/// lines of the text.
pub open spec fn spec_run(r: RunView, lines: Seq<Seq<char>>, options: Options) -> (RunView, Seq<
    LineView,
>)
    decreases lines.len(),
{
    if lines.len() == 0 {
        (r, Seq::empty())
    } else {
        let (r1, out) = spec_step(r, lines[0], options);
        let (r2, rest) = spec_run(r1, lines.drop_first(), options);
        (
            r2,
            match out {
                Some(l) => seq![l] + rest,
                None => rest,
            },
        )
    }
}

/// The inputs on which the parse of `lines` from `r` computes without
/// overflow.
pub open spec fn run_fits(r: RunView, lines: Seq<Seq<char>>, options: Options) -> bool
    decreases lines.len(),
{
    lines.len() == 0 || (step_fits(r.state, lines[0]) && run_fits(
        spec_step(r, lines[0], options).0,
        lines.drop_first(),
        options,
    ))
}

/// The view of an optional line.
pub open spec fn opt_line_view<'s>(l: Option<Line<'s>>) -> Option<LineView> {
    match l {
        Some(line) => Some(line@),
        None => None,
    }
}

impl ParseState {
    /// The state before the first line: no open container, outside fences.
    pub fn new() -> (s: ParseState)
        ensures
            s@ == initial_run().state,
    {
        ParseState { list_stack: Vec::new(), quote_stack: Vec::new(), between_fences: false }
    }

    /// Get the current list context if any
    pub fn current_list(&self) -> (r: Option<&ListContext>)
        ensures
            context_value(r) == top_list(self.list_stack@),
    {
        let n = self.list_stack.len();
        if n == 0 {
            None
        } else {
            Some(&self.list_stack[n - 1])
        }
    }

    /// Get the current quote level
    pub fn current_quote_level(&self) -> (r: u32)
        ensures
            r == self.quote_stack@.len() as u32,
    {
        self.quote_stack.len() as u32
    }

    /// Calculate the required indentation for a list item to be nested
    /// under the current list
    pub fn required_nesting_indent(&self) -> (r: u32)
        requires
            self.list_stack@.len() > 0 ==> self.list_stack@.last().marker_column
                + self.list_stack@.last().marker_width <= u32::MAX,
        ensures
            r == match top_list(self.list_stack@) {
                Some(list) => list.marker_column + list.marker_width,
                None => 0,
            },
    {
        if let Some(list) = self.current_list() {
            list.marker_column + list.marker_width
        } else {
            0
        }
    }

    /// Find the appropriate parent list for a new list item at given column
    /// Returns the depth and whether it should be nested
    pub fn find_list_parent(&self, marker_column: u32, _marker_width: u32) -> (r: (u8, bool))
        requires
            list_parent_fits(self.list_stack@, marker_column),
        ensures
            r == match spec_find_list_parent(self.list_stack@, marker_column) {
                Some(list) => ((list.depth + 1) as u8, true),
                None => (0u8, false),
            },
    {
        let ghost stack = self.list_stack@;
        let mut i: usize = 0;
        proof {
            assert(stack.skip(0) =~= stack);
        }
        // Check if this can be nested under any existing list
        while i < self.list_stack.len()
            invariant
                i <= stack.len(),
                stack == self.list_stack@,
                spec_find_list_parent(stack, marker_column) == spec_find_list_parent(
                    stack.skip(i as int),
                    marker_column,
                ),
                list_parent_fits(stack.skip(i as int), marker_column),
            decreases stack.len() - i,
        {
            let list = &self.list_stack[i];
            proof {
                assert(stack.skip(i as int)[0] == stack[i as int]);
                assert(stack.skip(i as int).drop_first() =~= stack.skip(i + 1));
            }
            let required = list.marker_column + list.marker_width;
            if marker_column >= required {
                // Can be nested under this list
                return (list.depth + 1, true);
            }
            i = i + 1;
        }
        // Not nested under any existing list
        (0, false)
    }

    /// The depth of a list item whose marker stands at `column`.
    fn nesting_depth(&self, column: u32) -> (d: u8)
        requires
            nesting_fits(self.list_stack@, column),
        ensures
            d == spec_nesting_depth(self.list_stack@, column),
    {
        let ghost stack = self.list_stack@;
        let mut i: usize = self.list_stack.len();
        proof {
            assert(stack.take(i as int) =~= stack);
        }
        // Search through the stack to find the right parent
        while i > 0
            invariant
                i <= stack.len(),
                stack == self.list_stack@,
                spec_nesting_depth(stack, column) == spec_nesting_depth(
                    stack.take(i as int),
                    column,
                ),
                nesting_fits(stack.take(i as int), column),
            decreases i,
        {
            let list_ctx = &self.list_stack[i - 1];
            proof {
                assert(stack.take(i as int).last() == stack[i - 1]);
                assert(stack.take(i as int).drop_last() =~= stack.take(i - 1));
            }
            // Check if this marker is nested under this list
            if column >= list_ctx.marker_column + list_ctx.marker_width {
                // Nested under this list
                return list_ctx.depth + 1;
            } else if column == list_ctx.marker_column {
                // Same column, same list
                return list_ctx.depth;
            }
            // Continue searching up the stack
            i = i - 1;
        }
        // No parent found, top-level
        0
    }

    /// Opens, goes on with or closes lists for a list item of depth `depth`
    /// whose marker is `info`.
    fn enter_item(&mut self, info: &ListMarkerInfo, depth: u8)
        ensures
            final(self)@ == (ParseStateView {
                list_stack: spec_enter_item(old(self).list_stack@, *info, depth),
                ..old(self)@
            }),
    {
        let ghost stack = old(self).list_stack@;
        // Pop contexts that are deeper than the current depth
        while self.list_stack.len() > 0 && self.list_stack[self.list_stack.len() - 1].depth
            > depth
            invariant
                pop_deeper(stack, depth) == pop_deeper(self.list_stack@, depth),
                self.quote_stack@ == old(self).quote_stack@,
                self.between_fences == old(self).between_fences,
            decreases self.list_stack.len(),
        {
            self.list_stack.pop();
        }
        let n = self.list_stack.len();
        if n > 0 && self.list_stack[n - 1].depth == depth {
            // Same depth, reuse the same list context
            // Just update can_continue
            let mut top_list = self.list_stack[n - 1];
            top_list.can_continue = true;
            self.list_stack.set(n - 1, top_list);
        } else {
            // New depth, push new context
            self.list_stack.push(
                ListContext {
                    marker_column: info.column,
                    marker_width: info.width,
                    depth,
                    is_ordered: info.is_ordered,
                    can_continue: true,
                },
            );
        }
    }

    /// Marks every open list as not continuing.
    fn close_lists(&mut self)
        ensures
            final(self)@ == (ParseStateView {
                list_stack: close_lists(old(self).list_stack@),
                ..old(self)@
            }),
    {
        let mut i: usize = 0;
        while i < self.list_stack.len()
            invariant
                i <= self.list_stack@.len(),
                self.list_stack@.len() == old(self).list_stack@.len(),
                forall|j: int|
                    0 <= j < i ==> self.list_stack@[j] == close_lists(
                        old(self).list_stack@,
                    )[j],
                forall|j: int|
                    i <= j < self.list_stack@.len() ==> self.list_stack@[j] == old(
                        self,
                    ).list_stack@[j],
                self.quote_stack@ == old(self).quote_stack@,
                self.between_fences == old(self).between_fences,
            decreases self.list_stack@.len() - i,
        {
            let mut list = self.list_stack[i];
            list.can_continue = false;
            self.list_stack.set(i, list);
            i = i + 1;
        }
        assert(self.list_stack@ =~= close_lists(old(self).list_stack@));
    }

    /// Parses the next line of a text, given the styles carried from the
    /// line before: the line that goes into the text, if any, and the styles
    /// carried to the next line.
    pub fn parse_next_line<'s>(&mut self, carried: Spans, md_line: &'s str, options: Options) -> (r: (
        Option<Line<'s>>,
        Spans,
    ))
        requires
            step_fits(old(self)@, md_line@),
        ensures
            ({
                let (next, out) = spec_step(
                    RunView { state: old(self)@, carried },
                    md_line@,
                    options,
                );
                &&& final(self)@ == next.state
                &&& r.1 == next.carried
                &&& opt_line_view(r.0) == out
            }),
    {
        let mut line_parser = LineParser::from(md_line);
        // Check if line starts with quote marker
        let (is_quote, quote_indent) = count_leading_quotes(md_line);
        // Check if line starts with list marker and get its info
        let list_marker_info = find_list_marker(md_line);
        // Calculate depth for this list item based on parent context
        let calculated_depth = match &list_marker_info {
            Some(info) => self.nesting_depth(info.column),
            None => 0,
        };
        let (line, next_carried) = if self.between_fences {
            (line_parser.as_code(), Spans { code: false, italic: false, bold: false, strikeout: false })
        } else {
            line_parser.code = carried.code;
            line_parser.italic = carried.italic;
            line_parser.bold = carried.bold;
            line_parser.strikeout = carried.strikeout;
            // Parse the line with context
            let line = line_parser.parse_line_with_context(
                self.current_list(),
                self.current_quote_level(),
                list_marker_info.as_ref(),
                is_quote,
                calculated_depth,
            );
            let next = Spans {
                code: options.continue_inline_code && line_parser.code,
                italic: options.continue_italic && line_parser.italic,
                bold: options.continue_bold && line_parser.bold,
                strikeout: options.continue_strikeout && line_parser.strikeout,
            };
            (line, next)
        };
        // Update state based on the parsed line
        let style = match &line {
            Line::Normal(composite) => Some(composite.style),
            _ => None,
        };
        if let Line::CodeFence(_) = &line {
            self.between_fences = !self.between_fences;
            // Close any open lists when entering/leaving code fence
            self.list_stack.clear();
            if options.keep_code_fences {
                return (Some(line), next_carried);
            } else {
                return (None, next_carried);
            }
        }
        match style {
            Some(CompositeStyle::Quote) => {
                // Handle blockquotes
                if self.quote_stack.len() == 0 {
                    // Start new quote
                    self.quote_stack.push(quote_indent);
                }
            },
            Some(CompositeStyle::ListItem(depth)) => {
                // Handle list items
                if let Some(info) = &list_marker_info {
                    self.enter_item(info, depth);
                }
            },
            Some(_) => {
                // Blank line - mark lists as not continuing
                if is_blank_str(md_line) {
                    self.close_lists();
                }
            },
            None => {},
        }
        (Some(line), next_carried)
    }
}

/// Parse lines
pub(crate) fn parse_lines<'s>(md_lines: Vec<&'s str>, options: Options) -> (text: Text<'s>)
    requires
        run_fits(initial_run(), lines_chars(md_lines@), options),
    ensures
        text@ == spec_run(initial_run(), lines_chars(md_lines@), options).1,
{
    let ghost all = lines_chars(md_lines@);
    let mut lines: Vec<Line<'s>> = Vec::new();
    let mut state = ParseState::new();
    let mut carried = Spans { code: false, italic: false, bold: false, strikeout: false };
    let mut i: usize = 0;
    proof {
        assert(all.skip(0) =~= all);
        assert(lines_view(lines@) =~= Seq::<LineView>::empty());
    }
    while i < md_lines.len()
        invariant
            i <= md_lines@.len(),
            all == lines_chars(md_lines@),
            run_fits(RunView { state: state@, carried }, all.skip(i as int), options),
            spec_run(initial_run(), all, options).1 == lines_view(lines@) + spec_run(
                RunView { state: state@, carried },
                all.skip(i as int),
                options,
            ).1,
        decreases md_lines@.len() - i,
    {
        let md_line = md_lines[i];
        let ghost r = RunView { state: state@, carried };
        let ghost before = lines_view(lines@);
        proof {
            assert(all.skip(i as int)[0] == md_line@);
            assert(all.skip(i as int).drop_first() =~= all.skip(i + 1));
        }
        let (out, next) = state.parse_next_line(carried, md_line, options);
        carried = next;
        match out {
            Some(line) => {
                lines.push(line);
                proof {
                    assert(lines_view(lines@) =~= before.push(line@));
                    assert(before.push(line@) + spec_run(
                        RunView { state: state@, carried },
                        all.skip(i + 1),
                        options,
                    ).1 =~= before + (seq![line@] + spec_run(
                        RunView { state: state@, carried },
                        all.skip(i + 1),
                        options,
                    ).1));
                }
            },
            None => {},
        }
        i = i + 1;
    }
    proof {
        assert(spec_run(RunView { state: state@, carried }, all.skip(i as int), options).1
            =~= Seq::<LineView>::empty());
        assert(lines_view(lines@) + Seq::<LineView>::empty() =~= lines_view(lines@));
    }
    Text { lines }
}

/// Context for an active list container
#[derive(Debug, Clone, Copy)]
pub struct ListContext {
    /// Column position (0-indexed) where the list marker starts
    pub marker_column: u32,
    /// Width of the list marker (e.g., 2 for "- ", 3 for "10. ")
    pub marker_width: u32,
    /// Current depth of this list
    pub depth: u8,
    /// Whether this is an ordered list
    pub is_ordered: bool,
    /// Can this list accept more items (not closed by blank line)
    pub can_continue: bool,
}

/// Information about a list marker found at the start of a line
#[derive(Debug, Clone, Copy)]
pub struct ListMarkerInfo {
    /// Column where the marker starts (0-indexed)
    pub column: u32,
    /// Byte offset where the marker starts (for proper string slicing)
    pub byte_offset: u32,
    /// Width of the marker including following space
    pub width: u32,
    /// Whether it's an ordered list marker
    pub is_ordered: bool,
    /// The depth this marker would create (based on CommonMark rules)
    pub depth: u8,
}

/// Whether the characters of `t` (a line without its leading whitespace)
/// open an ordered list item: digits, then `.` or `)`, then a space, a tab
/// or the end of the line.
pub open spec fn opens_ordered_item(t: Seq<char>) -> bool {
    let d = digit_run(t) as int;
    &&& d > 0
    &&& d < t.len()
    &&& (t[d] == '.' || t[d] == ')')
    &&& (d + 1 == t.len() || t[d + 1] == ' ' || t[d + 1] == '\t')
}

/// Whether the characters of `t` open a bullet list item: `-`, `*` or `+`,
/// then a space, a tab or the end of the line.
pub open spec fn opens_bullet_item(t: Seq<char>) -> bool {
    &&& t.len() > 0
    &&& is_bullet(t[0])
    &&& (t.len() == 1 || t[1] == ' ' || t[1] == '\t')
}

/// The list marker that starts `line`, if any.
pub open spec fn spec_find_list_marker(line: Seq<char>) -> Option<ListMarkerInfo> {
    let k = leading_ws(line) as int;
    let t = line.skip(k);
    let column = visual_column(line) as u32;
    let byte_offset = utf8_len(line.take(k)) as u32;
    if t.len() > 0 && is_bullet(t[0]) {
        if opens_bullet_item(t) {
            Some(ListMarkerInfo { column, byte_offset, width: 2, is_ordered: false, depth: 0 })
        } else {
            None
        }
    } else if opens_ordered_item(t) {
        Some(
            ListMarkerInfo {
                column,
                byte_offset,
                width: ((digit_run(t) as u32) + 2) as u32,
                is_ordered: true,
                depth: 0,
            },
        )
    } else {
        None
    }
}

/// The inputs on which `find_list_marker` computes without overflow.
pub open spec fn list_marker_fits(line: Seq<char>) -> bool {
    let t = line.skip(leading_ws(line) as int);
    &&& visual_column(line) <= u32::MAX
    &&& opens_ordered_item(t) ==> (digit_run(t) as u32) + 2 <= u32::MAX
}

/// Whether `line` is a quote line, as `count_leading_quotes` decides.
pub open spec fn spec_is_quote(line: Seq<char>) -> bool {
    let t = line.skip(leading_ws(line) as int);
    &&& t.len() > 0
    &&& t[0] == '>'
    &&& (t.len() == 1 || t[1] == ' ')
}

/// Find list marker at the start of a line
/// Returns None if no list marker found
pub fn find_list_marker(line: &str) -> (r: Option<ListMarkerInfo>)
    requires
        list_marker_fits(line@),
    ensures
        r == spec_find_list_marker(line@),
{
    // Calculate the visual column, treating tabs as 4 spaces
    let visual_column = calculate_visual_column(line);
    let chars = chars_of(line);
    let k = count_leading_ws(&chars);
    let trimmed = trim_start(line);
    proof {
        lemma_leading_ws_facts(line@);
        lemma_utf8_len_split(line@, k as int);
    }
    // Find the byte offset of the first non-whitespace character
    let byte_offset = byte_len(line) - byte_len(trimmed);
    let ghost t = line@.skip(k as int);
    if k < chars.len() && (chars[k] == '-' || chars[k] == '*' || chars[k] == '+') {
        assert(t[0] == chars@[k as int]);
        // Bullet list marker
        let marker_len: usize = 1;
        // Check if followed by space, tab, or end of line
        if k + 1 == chars.len() || chars[k + 1] == ' ' || chars[k + 1] == '\t' {
            assert(k + 1 < chars.len() ==> t[1] == chars@[k + 1]);
            Some(
                ListMarkerInfo {
                    column: visual_column,
                    byte_offset: byte_offset as u32,
                    width: marker_len as u32 + 1,  // marker + space
                    is_ordered: false,
                    depth: 0,  // Will be calculated based on context
                },
            )
        } else {
            assert(t[1] == chars@[k + 1]);
            None
        }
    } else if k < chars.len() && '0' <= chars[k] && chars[k] <= '9' {
        assert(t[0] == chars@[k as int]);
        // Starts with digit - could be ordered list
        let digits_end = count_digits(&chars, k);
        if k + digits_end < chars.len() {
            let next_char = chars[k + digits_end];
            assert(t[digits_end as int] == next_char);
            if next_char == '.' || next_char == ')' {
                let after = k + digits_end + 1;
                // Check if followed by space, tab, or end of line
                if after == chars.len() || chars[after] == ' ' || chars[after] == '\t' {
                    assert(after < chars.len() ==> t[digits_end + 1] == chars@[after as int]);
                    let marker_width = digits_end as u32 + 2;  // digits + marker + space
                    Some(
                        ListMarkerInfo {
                            column: visual_column,
                            byte_offset: byte_offset as u32,
                            width: marker_width,
                            is_ordered: true,
                            depth: 0,
                        },
                    )
                } else {
                    assert(t[digits_end + 1] == chars@[after as int]);
                    None
                }
            } else {
                None
            }
        } else {
            None
        }
    } else {
        proof {
            if k < chars.len() {
                assert(t[0] == chars@[k as int]);
            }
            if t.len() > 0 {
                assert(digit_run(t) == 0);
            }
        }
        None
    }
}

/// Calculate the visual column position of the first non-whitespace character
/// Tabs are treated as 4 spaces each
pub fn calculate_visual_column(line: &str) -> (column: u32)
    requires
        visual_column(line@) <= u32::MAX,
    ensures
        column == visual_column(line@),
{
    let chars = chars_of(line);
    let ghost s = line@;
    let mut column = 0u32;
    let mut i: usize = 0;
    proof {
        assert(s.skip(0) =~= s);
    }
    while i < chars.len() && (chars[i] == ' ' || chars[i] == '\t')
        invariant
            i <= chars.len(),
            chars@ == s,
            visual_column(s) <= u32::MAX,
            visual_column(s) == column + visual_column(s.skip(i as int)),
        decreases chars.len() - i,
    {
        let c = chars[i];
        proof {
            assert(s.skip(i as int)[0] == c);
            assert(s.skip(i as int).drop_first() =~= s.skip(i + 1));
            lemma_visual_column_nonneg(s.skip(i + 1));
        }
        if c == ' ' {
            column += 1;
        } else {
            column += 4;
        }
        i = i + 1;
    }
    proof {
        if i < chars.len() {
            assert(s.skip(i as int)[0] == chars@[i as int]);
        }
    }
    column
}

/// Count leading quote markers and return (is_quote, total_indent)
pub fn count_leading_quotes(line: &str) -> (r: (bool, u32))
    requires
        visual_column(line@) <= u32::MAX,
    ensures
        r == (spec_is_quote(line@), visual_column(line@) as u32),
{
    let chars = chars_of(line);
    let k = count_leading_ws(&chars);
    let ghost t = line@.skip(k as int);
    proof {
        lemma_leading_ws_facts(line@);
    }
    if k < chars.len() && chars[k] == '>' {
        assert(t[0] == chars@[k as int]);
        // Check if followed by space or end of line
        if k + 1 == chars.len() || chars[k + 1] == ' ' {
            assert(k + 1 < chars.len() ==> t[1] == chars@[k + 1]);
            (true, calculate_visual_column(line))
        } else {
            assert(t[1] == chars@[k + 1]);
            (false, calculate_visual_column(line))
        }
    } else {
        assert(k < chars.len() ==> t[0] == chars@[k as int]);
        (false, calculate_visual_column(line))
    }
}

} // verus!
