use vstd::prelude::*;

verus! {

/// Options for the parsing of a markdown text.
#[derive(Debug, Clone, Copy, PartialEq, Eq)]
pub struct Options {
    /// Remove the common indentation of the lines, and a leading empty line
    /// and a trailing blank line.
    pub clean_indentations: bool,
    /// Let an inline code span left open at the end of a line go on in the
    /// next line.
    pub continue_inline_code: bool,
    /// Let an italic span go on in the next line.
    pub continue_italic: bool,
    /// Let a bold span go on in the next line.
    pub continue_bold: bool,
    /// Let a strikeout span go on in the next line.
    pub continue_strikeout: bool,
    /// Keep the code fence lines in the parsed text.
    pub keep_code_fences: bool,
}

/// The options where every flag is off.
pub open spec fn default_options() -> Options {
    Options {
        clean_indentations: false,
        continue_inline_code: false,
        continue_italic: false,
        continue_bold: false,
        continue_strikeout: false,
        keep_code_fences: false,
    }
}

impl Default for Options {
    fn default() -> (o: Options)
        ensures
            o == default_options(),
    {
        Options {
            clean_indentations: false,
            continue_inline_code: false,
            continue_italic: false,
            continue_bold: false,
            continue_strikeout: false,
            keep_code_fences: false,
        }
    }
}

impl Options {
    /// These options with `clean_indentations` set to `b`.
    pub fn clean_indentations(self, b: bool) -> (o: Options)
        ensures
            o == (Options { clean_indentations: b, ..self }),
    {
        Options { clean_indentations: b, ..self }
    }

    /// These options with `continue_inline_code` set to `b`.
    pub fn continue_inline_code(self, b: bool) -> (o: Options)
        ensures
            o == (Options { continue_inline_code: b, ..self }),
    {
        Options { continue_inline_code: b, ..self }
    }

    /// These options with `continue_italic` set to `b`.
    pub fn continue_italic(self, b: bool) -> (o: Options)
        ensures
            o == (Options { continue_italic: b, ..self }),
    {
        Options { continue_italic: b, ..self }
    }

    /// These options with `continue_bold` set to `b`.
    pub fn continue_bold(self, b: bool) -> (o: Options)
        ensures
            o == (Options { continue_bold: b, ..self }),
    {
        Options { continue_bold: b, ..self }
    }

    /// These options with `continue_strikeout` set to `b`.
    pub fn continue_strikeout(self, b: bool) -> (o: Options)
        ensures
            o == (Options { continue_strikeout: b, ..self }),
    {
        Options { continue_strikeout: b, ..self }
    }

    /// These options with all four span continuations set to `b`.
    pub fn continue_spans(self, b: bool) -> (o: Options)
        ensures
            o == (Options {
                continue_inline_code: b,
                continue_italic: b,
                continue_bold: b,
                continue_strikeout: b,
                ..self
            }),
    {
        Options {
            continue_inline_code: b,
            continue_italic: b,
            continue_bold: b,
            continue_strikeout: b,
            ..self
        }
    }

    /// These options with `keep_code_fences` set to `b`.
    pub fn keep_code_fences(self, b: bool) -> (o: Options)
        ensures
            o == (Options { keep_code_fences: b, ..self }),
    {
        Options { keep_code_fences: b, ..self }
    }
}

} // verus!
