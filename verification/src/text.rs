//! The parsed form of a markdown text: texts made of lines, lines made of
//! composites, composites made of compounds.
use vstd::prelude::*;

verus! {

/// A run of characters of a line sharing the same inline styles.
#[derive(Debug, Clone, Copy, PartialEq, Eq)]
pub struct Compound<'s> {
    pub src: &'s str,
    pub bold: bool,
    pub italic: bool,
    pub code: bool,
    pub strikeout: bool,
}

/// The kind of a composite (a line of normal content).
#[derive(Debug, Clone, Copy, PartialEq, Eq)]
pub enum CompositeStyle {
    Paragraph,
    Header(u8),
    ListItem(u8),
    Code,
    Quote,
}

/// A styled line content: its style and its compounds.
#[derive(Debug, PartialEq, Eq)]
pub struct Composite<'s> {
    pub style: CompositeStyle,
    pub compounds: Vec<Compound<'s>>,
}

/// A parsed line.
#[derive(Debug, PartialEq, Eq)]
pub enum Line<'s> {
    Normal(Composite<'s>),
    HorizontalRule,
    CodeFence(Composite<'s>),
}

/// A parsed markdown text.
#[derive(Debug, PartialEq, Eq)]
pub struct Text<'s> {
    pub lines: Vec<Line<'s>>,
}

/// The inline styles in force at a point of a line.
#[derive(Debug, Clone, Copy, PartialEq, Eq)]
pub struct Spans {
    pub code: bool,
    pub italic: bool,
    pub bold: bool,
    pub strikeout: bool,
}

/// What a compound holds: its characters and its styles.
pub struct CompoundView {
    pub text: Seq<char>,
    pub bold: bool,
    pub italic: bool,
    pub code: bool,
    pub strikeout: bool,
}

/// What a composite holds.
pub struct CompositeView {
    pub style: CompositeStyle,
    pub compounds: Seq<CompoundView>,
}

/// What a line holds.
pub enum LineView {
    Normal(CompositeView),
    HorizontalRule,
    CodeFence(CompositeView),
}

impl Spans {
    /// No inline style.
    pub open spec fn none() -> Spans {
        Spans { code: false, italic: false, bold: false, strikeout: false }
    }
}

/// The compound of the characters `text` under the styles `f`.
pub open spec fn styled(text: Seq<char>, f: Spans) -> CompoundView {
    CompoundView { text, bold: f.bold, italic: f.italic, code: f.code, strikeout: f.strikeout }
}

/// An unstyled compound.
pub open spec fn raw(text: Seq<char>) -> CompoundView {
    styled(text, Spans::none())
}

impl<'s> View for Compound<'s> {
    type V = CompoundView;

    open spec fn view(&self) -> CompoundView {
        CompoundView {
            text: self.src@,
            bold: self.bold,
            italic: self.italic,
            code: self.code,
            strikeout: self.strikeout,
        }
    }
}

/// The views of a sequence of compounds.
pub open spec fn compounds_view<'s>(cs: Seq<Compound<'s>>) -> Seq<CompoundView> {
    cs.map_values(|c: Compound<'s>| c@)
}

impl<'s> View for Composite<'s> {
    type V = CompositeView;

    open spec fn view(&self) -> CompositeView {
        CompositeView { style: self.style, compounds: compounds_view(self.compounds@) }
    }
}

impl<'s> View for Line<'s> {
    type V = LineView;

    open spec fn view(&self) -> LineView {
        match self {
            Line::Normal(c) => LineView::Normal(c@),
            Line::HorizontalRule => LineView::HorizontalRule,
            Line::CodeFence(c) => LineView::CodeFence(c@),
        }
    }
}

/// The views of a sequence of lines.
pub open spec fn lines_view<'s>(ls: Seq<Line<'s>>) -> Seq<LineView> {
    ls.map_values(|l: Line<'s>| l@)
}

impl<'s> View for Text<'s> {
    type V = Seq<LineView>;

    open spec fn view(&self) -> Seq<LineView> {
        lines_view(self.lines@)
    }
}

impl<'s> Compound<'s> {
    /// A compound of `src` with no style.
    pub fn raw_str(src: &'s str) -> (c: Compound<'s>)
        ensures
            c@ == raw(src@),
    {
        Compound { src, bold: false, italic: false, code: false, strikeout: false }
    }
}

impl<'s> Line<'s> {
    /// A paragraph made of `compounds`.
    pub fn new_paragraph(compounds: Vec<Compound<'s>>) -> (l: Line<'s>)
        ensures
            l@ == LineView::Normal(
                CompositeView {
                    style: CompositeStyle::Paragraph,
                    compounds: compounds_view(compounds@),
                },
            ),
    {
        Line::Normal(Composite { style: CompositeStyle::Paragraph, compounds })
    }

    /// A code line made of one compound.
    pub fn new_code(compound: Compound<'s>) -> (l: Line<'s>)
        ensures
            l@ == LineView::Normal(
                CompositeView { style: CompositeStyle::Code, compounds: seq![compound@] },
            ),
    {
        let mut compounds: Vec<Compound<'s>> = Vec::new();
        compounds.push(compound);
        proof {
            assert(compounds_view(compounds@) =~= seq![compound@]);
        }
        Line::Normal(Composite { style: CompositeStyle::Code, compounds })
    }
}

} // verus!
