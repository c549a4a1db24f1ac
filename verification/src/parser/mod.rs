pub mod line_parser;
pub mod options;
pub mod properties;
pub mod text_parser;

pub use line_parser::LineParser;
pub use options::{default_options, Options};
pub use text_parser::{
    calculate_visual_column, count_leading_quotes, find_list_marker, parse, parse_fits,
    spec_parse, ListContext, ListMarkerInfo, ParseState,
};
