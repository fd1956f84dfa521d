//! The word-processor document model the block renderer produces:
//! paragraphs made of styled runs, with paragraph-level spacing and
//! indentation attributes.

use vstd::prelude::*;

verus! {

/// Which configured font family a run is set in. `Unspecified` leaves the
/// choice to the consuming document (used by list markers).
#[derive(Clone, Copy, PartialEq, Eq, Debug)]
pub enum FontFamily {
    /// The default body family.
    Body,
    /// The monospace family.
    Mono,
    /// No family recorded on the run.
    Unspecified,
}

/// One run of a paragraph: a span of text under a single style, or an
/// explicit line break.
#[derive(Clone, PartialEq, Eq, Debug)]
pub enum Run {
    /// Styled text. A `size` of zero records that no size was set.
    Text { text: Vec<char>, bold: bool, italic: bool, font: FontFamily, size: usize },
    /// A line break within the paragraph.
    LineBreak,
}

/// The mathematical value of a run.
pub enum RunV {
    Text { text: Seq<char>, bold: bool, italic: bool, font: FontFamily, size: usize },
    LineBreak,
}

impl View for Run {
    type V = RunV;

    open spec fn view(&self) -> RunV {
        match self {
            Run::Text { text, bold, italic, font, size } => RunV::Text {
                text: text@,
                bold: *bold,
                italic: *italic,
                font: *font,
                size: *size,
            },
            Run::LineBreak => RunV::LineBreak,
        }
    }
}

impl DeepView for Run {
    type V = RunV;

    open spec fn deep_view(&self) -> RunV {
        self.view()
    }
}

/// Paragraph spacing in twips: space before and after the paragraph.
#[derive(Clone, Copy, PartialEq, Eq, Debug)]
pub struct Spacing {
    pub before: u32,
    pub after: u32,
}

/// Paragraph indentation in twips: a left indent and an optional hanging
/// indent for a list marker.
#[derive(Clone, Copy, PartialEq, Eq, Debug)]
pub struct Indent {
    pub left: i32,
    pub hanging: Option<i32>,
}

/// One paragraph of the word-processor model.
#[derive(Clone, PartialEq, Eq, Debug)]
pub struct Paragraph {
    pub runs: Vec<Run>,
    pub spacing: Option<Spacing>,
    pub indent: Option<Indent>,
}

/// The mathematical value of a paragraph.
pub struct ParagraphV {
    pub runs: Seq<RunV>,
    pub spacing: Option<Spacing>,
    pub indent: Option<Indent>,
}

impl View for Paragraph {
    type V = ParagraphV;

    open spec fn view(&self) -> ParagraphV {
        ParagraphV { runs: self.runs.deep_view(), spacing: self.spacing, indent: self.indent }
    }
}

impl DeepView for Paragraph {
    type V = ParagraphV;

    open spec fn deep_view(&self) -> ParagraphV {
        self.view()
    }
}

} // verus!
