use minimad::clean;
use minimad::text::Spans;
use minimad::{
    calculate_visual_column, count_leading_quotes, find_list_marker, parse_text, CompositeStyle,
    Compound, Line, LineParser, ListContext, ListMarkerInfo, Options, ParseState, Text,
};

fn styled(src: &str, bold: bool, italic: bool, code: bool, strikeout: bool) -> Compound<'_> {
    Compound { src, bold, italic, code, strikeout }
}

fn no_spans() -> Spans {
    Spans { code: false, italic: false, bold: false, strikeout: false }
}

fn style_of(line: &Line) -> Option<CompositeStyle> {
    match line {
        Line::Normal(c) => Some(c.style),
        _ => None,
    }
}

#[test]
fn visual_column_counts_spaces_and_tabs() {
    assert_eq!(calculate_visual_column(""), 0);
    assert_eq!(calculate_visual_column("   "), 3);
    assert_eq!(calculate_visual_column("\t  x"), 6);
    assert_eq!(calculate_visual_column("\t\tx"), 8);
    assert_eq!(calculate_visual_column("x  "), 0);
    // a no-break space stops the count
    assert_eq!(calculate_visual_column(" \u{a0} x"), 1);
}

#[test]
fn list_marker_bullets() {
    let info = find_list_marker("  - item").unwrap();
    assert_eq!(info.column, 2);
    assert_eq!(info.byte_offset, 2);
    assert_eq!(info.width, 2);
    assert!(!info.is_ordered);
    assert_eq!(info.depth, 0);
    let info = find_list_marker("*\tx").unwrap();
    assert_eq!(info.width, 2);
    let info = find_list_marker("+").unwrap();
    assert_eq!(info.column, 0);
    assert_eq!(info.width, 2);
    assert!(find_list_marker("-x").is_none());
    assert!(find_list_marker("---").is_none());
    assert!(find_list_marker("text").is_none());
    assert!(find_list_marker("").is_none());
}

#[test]
fn list_marker_ordered() {
    let info = find_list_marker("10. ten").unwrap();
    assert_eq!(info.width, 4);
    assert!(info.is_ordered);
    let info = find_list_marker("\t3) three").unwrap();
    assert_eq!(info.column, 4);
    assert_eq!(info.byte_offset, 1);
    assert_eq!(info.width, 3);
    let info = find_list_marker("1.").unwrap();
    assert_eq!(info.width, 3);
    assert!(find_list_marker("3.x").is_none());
    assert!(find_list_marker("3").is_none());
    assert!(find_list_marker("3: x").is_none());
    assert!(find_list_marker("a. x").is_none());
}

#[test]
fn list_marker_after_unicode_whitespace() {
    // an ideographic space is trimmed but is no column; it takes three bytes
    let info = find_list_marker("\u{3000}* x").unwrap();
    assert_eq!(info.column, 0);
    assert_eq!(info.byte_offset, 3);
    assert_eq!(info.width, 2);
}

#[test]
fn quotes() {
    assert_eq!(count_leading_quotes("> q"), (true, 0));
    assert_eq!(count_leading_quotes("  >"), (true, 2));
    assert_eq!(count_leading_quotes(">q"), (false, 0));
    assert_eq!(count_leading_quotes("\t> x"), (true, 4));
    assert_eq!(count_leading_quotes("  text"), (false, 2));
}

fn two_lists() -> ParseState {
    ParseState {
        list_stack: vec![
            ListContext {
                marker_column: 0,
                marker_width: 2,
                depth: 0,
                is_ordered: false,
                can_continue: true,
            },
            ListContext {
                marker_column: 2,
                marker_width: 3,
                depth: 1,
                is_ordered: true,
                can_continue: true,
            },
        ],
        quote_stack: vec![],
        between_fences: false,
    }
}

#[test]
fn parse_state_queries() {
    let state = ParseState::new();
    assert!(state.current_list().is_none());
    assert_eq!(state.current_quote_level(), 0);
    assert_eq!(state.required_nesting_indent(), 0);
    assert_eq!(state.find_list_parent(4, 2), (0, false));
    let state = two_lists();
    assert_eq!(state.current_list().unwrap().marker_column, 2);
    assert_eq!(state.required_nesting_indent(), 5);
    // searched from the outermost list on
    assert_eq!(state.find_list_parent(3, 2), (1, true));
    assert_eq!(state.find_list_parent(1, 2), (0, false));
}

#[test]
fn list_levels_follow_nesting() {
    let text = parse_text("- a\n\t- b\n\t\t- c\n- d", Options::default());
    let styles: Vec<_> = text.lines.iter().map(style_of).collect();
    assert_eq!(
        styles,
        vec![
            Some(CompositeStyle::ListItem(0)),
            Some(CompositeStyle::ListItem(1)),
            Some(CompositeStyle::ListItem(2)),
            Some(CompositeStyle::ListItem(0)),
        ]
    );
}

#[test]
fn list_item_never_skips_a_level() {
    let text = parse_text("- a\n\t\t\t- b", Options::default());
    assert_eq!(style_of(&text.lines[1]), Some(CompositeStyle::ListItem(1)));
}

#[test]
fn list_item_leaves_its_levels_open() {
    let options = Options::default();
    let mut state = ParseState::new();
    let (_, carried) = state.parse_next_line(no_spans(), "- a", options);
    let (_, carried) = state.parse_next_line(carried, "\t- b", options);
    let (_, carried) = state.parse_next_line(carried, "\t\t- c", options);
    assert_eq!(state.list_stack.len(), 3);
    for (i, list) in state.list_stack.iter().enumerate() {
        assert_eq!(list.depth as usize, i);
    }
    let (_, _) = state.parse_next_line(carried, "\t- d", options);
    assert_eq!(state.list_stack.len(), 2);
    assert_eq!(state.list_stack[1].depth, 1);
    assert!(state.list_stack[1].can_continue);
}

#[test]
fn blank_line_stops_lists_continuing() {
    let options = Options::default();
    let mut state = ParseState::new();
    let (_, carried) = state.parse_next_line(no_spans(), "- a", options);
    let (_, carried) = state.parse_next_line(carried, "  - b", options);
    let (out, _) = state.parse_next_line(carried, "   ", options);
    assert!(out.is_some());
    assert_eq!(state.list_stack.len(), 2);
    assert!(state.list_stack.iter().all(|l| !l.can_continue));
    let (_, _) = state.parse_next_line(no_spans(), "- c", options);
    assert_eq!(state.list_stack.len(), 1);
    assert!(state.list_stack[0].can_continue);
}

#[test]
fn quote_opens_one_quote() {
    let options = Options::default();
    let mut state = ParseState::new();
    let (out, carried) = state.parse_next_line(no_spans(), "  > quoted", options);
    let (_, _) = state.parse_next_line(carried, "> again", options);
    assert_eq!(state.quote_stack, vec![2]);
    match out.unwrap() {
        Line::Normal(c) => {
            assert_eq!(c.style, CompositeStyle::Quote);
            assert_eq!(c.compounds, vec![Compound::raw_str("quoted")]);
        }
        other => panic!("not a quote: {:?}", other),
    }
}

#[test]
fn code_fences_are_dropped_by_default() {
    let md = "- a\n```rust\n* b\n```\nc";
    let text = parse_text(md, Options::default());
    assert_eq!(
        text,
        Text {
            lines: vec![
                Line::from("- a"),
                Line::new_code(Compound::raw_str("* b")),
                Line::new_paragraph(vec![Compound::raw_str("c")]),
            ]
        }
    );
    let kept = parse_text(md, Options::default().keep_code_fences(true));
    assert_eq!(kept.lines.len(), 5);
    match &kept.lines[1] {
        Line::CodeFence(c) => assert_eq!(c.compounds, vec![Compound::raw_str("rust")]),
        other => panic!("not a fence: {:?}", other),
    }
}

#[test]
fn fence_closes_open_lists() {
    let options = Options::default();
    let mut state = ParseState::new();
    let (_, carried) = state.parse_next_line(no_spans(), "- a", options);
    let (out, _) = state.parse_next_line(carried, "```", options);
    assert!(out.is_none());
    assert!(state.between_fences);
    assert!(state.list_stack.is_empty());
}

#[test]
fn single_line_text_is_the_line_alone() {
    for line in ["* x", "# title", "plain", "> q", "    code", "---", "3) three"] {
        let text = parse_text(line, Options::default());
        assert_eq!(text, Text { lines: vec![Line::from(line)] });
    }
}

#[test]
fn one_text_line_per_input_line_when_fences_kept() {
    let md = "a\n```\nb\n\n```\n- c\n";
    let text = parse_text(md, Options::default().keep_code_fences(true));
    assert_eq!(text.lines.len(), 6);
    let text = parse_text(md, Options::default());
    assert_eq!(text.lines.len(), 4);
}

#[test]
fn spans_go_on_only_when_asked() {
    let md = "*a\nb* c";
    let text = parse_text(md, Options::default());
    assert_eq!(
        text.lines[1],
        Line::new_paragraph(vec![styled("b", false, false, false, false), styled(" c", false, true, false, false)])
    );
    let text = parse_text(md, Options::default().continue_italic(true));
    assert_eq!(
        text.lines[1],
        Line::new_paragraph(vec![styled("b", false, true, false, false), styled(" c", false, false, false, false)])
    );
}

#[test]
fn continue_spans_sets_all_four() {
    let options = Options::default().continue_spans(true);
    assert!(options.continue_inline_code);
    assert!(options.continue_italic);
    assert!(options.continue_bold);
    assert!(options.continue_strikeout);
    assert!(!options.keep_code_fences);
    let text = parse_text("**a\nb**", options);
    assert_eq!(text.lines[1], Line::new_paragraph(vec![styled("b", true, false, false, false)]));
}

#[test]
fn inline_styles() {
    let line = Line::from("a **b** *c* ~~d~~ `e*f`");
    assert_eq!(
        line,
        Line::new_paragraph(vec![
            styled("a ", false, false, false, false),
            styled("b", true, false, false, false),
            styled(" ", false, false, false, false),
            styled("c", false, true, false, false),
            styled(" ", false, false, false, false),
            styled("d", false, false, false, true),
            styled(" ", false, false, false, false),
            styled("e*f", false, false, true, false),
        ])
    );
}

#[test]
fn plain_text_is_one_compound() {
    assert_eq!(
        Line::from("hello, world."),
        Line::new_paragraph(vec![Compound::raw_str("hello, world.")])
    );
    assert_eq!(Line::from(""), Line::new_paragraph(vec![]));
}

#[test]
fn line_kinds() {
    match Line::from("## Title") {
        Line::Normal(c) => {
            assert_eq!(c.style, CompositeStyle::Header(2));
            assert_eq!(c.compounds, vec![Compound::raw_str("Title")]);
        }
        other => panic!("not a header: {:?}", other),
    }
    assert_eq!(style_of(&Line::from("####### x")), Some(CompositeStyle::Paragraph));
    assert_eq!(style_of(&Line::from("#x")), Some(CompositeStyle::Paragraph));
    assert_eq!(Line::from("---"), Line::HorizontalRule);
    assert_eq!(Line::from("-----"), Line::HorizontalRule);
    assert_eq!(style_of(&Line::from("--")), Some(CompositeStyle::Paragraph));
    assert_eq!(Line::from("    code"), Line::new_code(Compound::raw_str("code")));
    match Line::from("1. one") {
        Line::Normal(c) => {
            assert_eq!(c.style, CompositeStyle::ListItem(0));
            assert_eq!(c.compounds, vec![Compound::raw_str("one")]);
        }
        other => panic!("not a list item: {:?}", other),
    }
}

#[test]
fn line_endings() {
    let text = parse_text("a\r\nb\n", Options::default());
    assert_eq!(
        text,
        Text {
            lines: vec![
                Line::new_paragraph(vec![Compound::raw_str("a")]),
                Line::new_paragraph(vec![Compound::raw_str("b")]),
            ]
        }
    );
    let text = parse_text("a\rb", Options::default());
    assert_eq!(text.lines, vec![Line::new_paragraph(vec![Compound::raw_str("a\rb")])]);
    let text = parse_text("\n\n", Options::default());
    assert_eq!(text.lines, vec![Line::new_paragraph(vec![]), Line::new_paragraph(vec![])]);
    assert!(parse_text("", Options::default()).lines.is_empty());
}

#[test]
fn clean_lines_removes_common_indentation() {
    assert_eq!(clean::lines("\n  a\n    b\n  \n"), vec!["a", "  b"]);
    assert_eq!(clean::lines("\n  a\n\n  b\n"), vec!["a", "", "b"]);
    assert_eq!(clean::lines("\n  a\nb"), vec!["  a", "b"]);
    assert_eq!(clean::lines("\n  a"), vec!["  a"]);
    assert_eq!(clean::lines("\n"), Vec::<&str>::new());
    assert_eq!(clean::lines(""), Vec::<&str>::new());
}

#[test]
fn same_column_items_share_a_level() {
    let text = parse_text("- a\n   - b\n   - c\n 1. d", Options::default());
    let styles: Vec<_> = text.lines.iter().map(style_of).collect();
    assert_eq!(
        styles,
        vec![
            Some(CompositeStyle::ListItem(0)),
            Some(CompositeStyle::ListItem(1)),
            Some(CompositeStyle::ListItem(1)),
            Some(CompositeStyle::ListItem(0)),
        ]
    );
}

#[test]
fn line_parser_between_fences() {
    match LineParser::from("```").as_code() {
        Line::CodeFence(c) => assert_eq!(c.compounds, vec![Compound::raw_str("")]),
        other => panic!("not a fence: {:?}", other),
    }
    assert_eq!(
        LineParser::from("  *x* `y`").as_code(),
        Line::new_code(Compound::raw_str("  *x* `y`"))
    );
}

#[test]
fn line_parser_carries_styles() {
    let mut parser = LineParser::from("again` bla `open");
    parser.code = true;
    let line = parser.parse_line_with_context(None, 0, None, false, 0);
    assert_eq!(
        line,
        Line::new_paragraph(vec![
            styled("again", false, false, true, false),
            styled(" bla ", false, false, false, false),
            styled("open", false, false, true, false),
        ])
    );
    assert!(parser.code);
    // a marker wider than the line leaves an empty item
    let info = ListMarkerInfo { column: 0, byte_offset: 0, width: 9, is_ordered: true, depth: 0 };
    let mut parser = LineParser::from("1.");
    let line = parser.parse_line_with_context(None, 0, Some(&info), false, 3);
    match line {
        Line::Normal(c) => {
            assert_eq!(c.style, CompositeStyle::ListItem(3));
            assert!(c.compounds.is_empty());
        }
        other => panic!("not a list item: {:?}", other),
    }
}
