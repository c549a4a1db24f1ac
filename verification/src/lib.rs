//! A markdown parser: texts are parsed into lines of styled compounds, with
//! CommonMark-like nesting of list items.
use vstd::prelude::*;

pub mod chars;
pub mod clean;
pub mod parser;
pub mod text;

pub use parser::{
    calculate_visual_column, count_leading_quotes, find_list_marker, parse, parse_fits,
    spec_parse, LineParser, ListContext, ListMarkerInfo, Options, ParseState,
};
pub use text::{Composite, CompositeStyle, Compound, Line, Text};

verus! {

/// Parses the markdown text `md`.
pub fn parse_text(md: &str, options: Options) -> (text: Text<'_>)
    requires
        parse_fits(md@, options),
    ensures
        text@ == spec_parse(md@, options),
{
    parser::parse(md, options)
}

} // verus!
