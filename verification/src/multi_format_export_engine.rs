//! Format dispatch: the set of output formats, parsing a format name,
//! and one engine that routes a document to the exporter registered for
//! the requested format.

use vstd::prelude::*;

use crate::ast::Node;
use crate::docx::{spec_document, DocxExporter, DOCX_EXTENSION, DOCX_MIME};
use crate::error::MultiFormatExportError;
use crate::exporter::Exported;
use crate::html::{html_of, HtmlExporter, HTML_EXTENSION, HTML_MIME};
use crate::plain::{MarkdownExporter, MARKDOWN_EXTENSION, MARKDOWN_MIME};
use crate::runs::Paragraph;
use crate::typst::{spec_typst_source, PdfExporter, PDF_EXTENSION, PDF_MIME};
use vstd::utf8::encode_utf8;

verus! {

/// The output formats the engine knows.
#[derive(Debug, Clone, Copy, PartialEq, Eq, Hash, Structural)]
pub enum OutputFormat {
    Md,
    Html,
    Pdf,
    Docx,
}

/// A character with an upper-case ASCII letter folded to lower case.
pub open spec fn spec_lower_char(c: char) -> char {
    if c == 'A' {
        'a'
    } else if c == 'B' {
        'b'
    } else if c == 'C' {
        'c'
    } else if c == 'D' {
        'd'
    } else if c == 'E' {
        'e'
    } else if c == 'F' {
        'f'
    } else if c == 'G' {
        'g'
    } else if c == 'H' {
        'h'
    } else if c == 'I' {
        'i'
    } else if c == 'J' {
        'j'
    } else if c == 'K' {
        'k'
    } else if c == 'L' {
        'l'
    } else if c == 'M' {
        'm'
    } else if c == 'N' {
        'n'
    } else if c == 'O' {
        'o'
    } else if c == 'P' {
        'p'
    } else if c == 'Q' {
        'q'
    } else if c == 'R' {
        'r'
    } else if c == 'S' {
        's'
    } else if c == 'T' {
        't'
    } else if c == 'U' {
        'u'
    } else if c == 'V' {
        'v'
    } else if c == 'W' {
        'w'
    } else if c == 'X' {
        'x'
    } else if c == 'Y' {
        'y'
    } else if c == 'Z' {
        'z'
    } else {
        c
    }
}

/// A name with its ASCII letters folded to lower case.
pub open spec fn spec_lower(s: Seq<char>) -> Seq<char> {
    s.map_values(|c: char| spec_lower_char(c))
}

/// Which format a name denotes, compared case-insensitively over ASCII:
/// `md` and `markdown`, `html`, `pdf`, `docx`; anything else none.
pub open spec fn spec_parse_format(s: Seq<char>) -> Option<OutputFormat> {
    let t = spec_lower(s);
    if t == "md"@ || t == "markdown"@ {
        Some(OutputFormat::Md)
    } else if t == "html"@ {
        Some(OutputFormat::Html)
    } else if t == "pdf"@ {
        Some(OutputFormat::Pdf)
    } else if t == "docx"@ {
        Some(OutputFormat::Docx)
    } else {
        None
    }
}

/// The lower-case name of a format.
pub open spec fn spec_format_label(f: OutputFormat) -> Seq<char> {
    match f {
        OutputFormat::Md => "md"@,
        OutputFormat::Html => "html"@,
        OutputFormat::Pdf => "pdf"@,
        OutputFormat::Docx => "docx"@,
    }
}

/// One character folded to lower case.
fn lower_char(c: char) -> (r: char)
    ensures
        r == spec_lower_char(c),
{
    if c == 'A' {
        'a'
    } else if c == 'B' {
        'b'
    } else if c == 'C' {
        'c'
    } else if c == 'D' {
        'd'
    } else if c == 'E' {
        'e'
    } else if c == 'F' {
        'f'
    } else if c == 'G' {
        'g'
    } else if c == 'H' {
        'h'
    } else if c == 'I' {
        'i'
    } else if c == 'J' {
        'j'
    } else if c == 'K' {
        'k'
    } else if c == 'L' {
        'l'
    } else if c == 'M' {
        'm'
    } else if c == 'N' {
        'n'
    } else if c == 'O' {
        'o'
    } else if c == 'P' {
        'p'
    } else if c == 'Q' {
        'q'
    } else if c == 'R' {
        'r'
    } else if c == 'S' {
        's'
    } else if c == 'T' {
        't'
    } else if c == 'U' {
        'u'
    } else if c == 'V' {
        'v'
    } else if c == 'W' {
        'w'
    } else if c == 'X' {
        'x'
    } else if c == 'Y' {
        'y'
    } else if c == 'Z' {
        'z'
    } else {
        c
    }
}

/// Whether the characters equal the literal's characters.
fn chars_eq_lit(v: &Vec<char>, lit: &str) -> (r: bool)
    ensures
        r == (v@ == lit@),
{
    let n = lit.unicode_len();
    if v.len() != n {
        proof {
            assert(v@ != lit@);
        }
        return false;
    }
    let mut i: usize = 0;
    while i < n
        invariant
            n == lit@.len(),
            v@.len() == n,
            0 <= i <= n,
            forall|j: int| 0 <= j < i ==> v@[j] == lit@[j],
        decreases n - i,
    {
        if v[i] != lit.get_char(i) {
            return false;
        }
        i = i + 1;
    }
    proof {
        assert(v@ =~= lit@);
    }
    true
}

impl OutputFormat {
    /// The format a name denotes, compared case-insensitively over its
    /// ASCII letters; an unknown name is rejected with a message naming
    /// it.
    pub fn from_str(s: &str) -> (r: Result<OutputFormat, String>)
        ensures
            r matches Ok(f) ==> spec_parse_format(s@) == Some(f),
            r matches Err(e) ==> spec_parse_format(s@) is None && e@ == "Invalid output format: "@
                + s@,
    {
        let chars = crate::textutil::chars_of(s);
        let n = chars.len();
        let mut low: Vec<char> = Vec::new();
        let mut i: usize = 0;
        while i < n
            invariant
                n == chars@.len(),
                chars@ == s@,
                0 <= i <= n,
                low@.len() == i,
                forall|j: int| 0 <= j < i ==> low@[j] == spec_lower_char(s@[j]),
            decreases n - i,
        {
            low.push(lower_char(chars[i]));
            i = i + 1;
        }
        proof {
            assert(low@ =~= spec_lower(s@));
        }
        if chars_eq_lit(&low, "md") || chars_eq_lit(&low, "markdown") {
            Ok(OutputFormat::Md)
        } else if chars_eq_lit(&low, "html") {
            Ok(OutputFormat::Html)
        } else if chars_eq_lit(&low, "pdf") {
            Ok(OutputFormat::Pdf)
        } else if chars_eq_lit(&low, "docx") {
            Ok(OutputFormat::Docx)
        } else {
            let mut msg = crate::textutil::chars_of("Invalid output format: ");
            crate::textutil::extend_chars(&mut msg, &chars);
            Err(crate::textutil::string_from_chars(&msg))
        }
    }

    /// The format's lower-case name.
    pub fn label(&self) -> (r: &'static str)
        ensures
            r@ == spec_format_label(*self),
    {
        match self {
            OutputFormat::Md => "md",
            OutputFormat::Html => "html",
            OutputFormat::Pdf => "pdf",
            OutputFormat::Docx => "docx",
        }
    }
}

/// One document to export: its raw Markdown source for the passthrough
/// formats, and its parsed tree for the structured ones.
pub struct Document {
    /// The Markdown source text.
    pub source: String,
    /// The source parsed into top-level blocks.
    pub blocks: Vec<Node>,
}

/// What one export call produces. The passthrough formats are complete
/// payloads; the structured formats hand the rendered intermediate to the
/// packaging or compilation collaborator, together with the payload's
/// media type and extension.
pub enum Prepared {
    /// A finished payload.
    Ready(Exported),
    /// A word-processor document model awaiting packaging.
    WordModel { paragraphs: Vec<Paragraph>, mime: &'static str, extension: &'static str },
    /// Typesetting source awaiting compilation.
    TypesetSource { source: String, mime: &'static str, extension: &'static str },
}

/// The export engine: the registered formats and one configured exporter
/// per structured target.
pub struct MultiFormatExportEngine {
    /// The formats with a registered exporter.
    pub formats: Vec<OutputFormat>,
    /// The word-processor exporter.
    pub docx: DocxExporter,
    /// The typesetting exporter.
    pub pdf: PdfExporter,
    /// The HTML exporter.
    pub html: HtmlExporter,
    /// The Markdown exporter.
    pub md: MarkdownExporter,
}

impl MultiFormatExportEngine {
    /// An engine with every format registered and the stock exporter
    /// configurations.
    pub fn new() -> (r: Self)
        ensures
            r.formats@ == seq![
                OutputFormat::Md,
                OutputFormat::Html,
                OutputFormat::Pdf,
                OutputFormat::Docx,
            ],
            r.docx.default_font_family@ == "Times New Roman"@,
            r.docx.mono_font_family@ == "Courier New"@,
            r.docx.default_font_size == 22,
            r.pdf.template@ == crate::typst::DEFAULT_TEMPLATE@,
            r.pdf.fonts@.len() == 0,
    {
        let formats = vec![OutputFormat::Md, OutputFormat::Html, OutputFormat::Pdf, OutputFormat::Docx];
        proof {
            assert(formats@ =~= seq![
                OutputFormat::Md,
                OutputFormat::Html,
                OutputFormat::Pdf,
                OutputFormat::Docx,
            ]);
        }
        MultiFormatExportEngine {
            formats,
            docx: DocxExporter::default(),
            pdf: PdfExporter::default(),
            html: HtmlExporter::new(),
            md: MarkdownExporter::new(),
        }
    }

    /// An engine with only the given formats registered; requesting any
    /// other format is then unsupported.
    pub fn with_formats(formats: Vec<OutputFormat>) -> (r: Self)
        ensures
            r.formats == formats,
            r.docx.default_font_family@ == "Times New Roman"@,
            r.docx.mono_font_family@ == "Courier New"@,
            r.docx.default_font_size == 22,
            r.pdf.template@ == crate::typst::DEFAULT_TEMPLATE@,
            r.pdf.fonts@.len() == 0,
    {
        MultiFormatExportEngine {
            formats,
            docx: DocxExporter::default(),
            pdf: PdfExporter::default(),
            html: HtmlExporter::new(),
            md: MarkdownExporter::new(),
        }
    }

    /// Every format the engine can serve.
    pub fn supported_formats(&self) -> (r: Vec<OutputFormat>)
        ensures
            r@ == seq![OutputFormat::Md, OutputFormat::Html, OutputFormat::Pdf, OutputFormat::Docx],
    {
        let r = vec![OutputFormat::Md, OutputFormat::Html, OutputFormat::Pdf, OutputFormat::Docx];
        proof {
            assert(r@ =~= seq![
                OutputFormat::Md,
                OutputFormat::Html,
                OutputFormat::Pdf,
                OutputFormat::Docx,
            ]);
        }
        r
    }

    /// Whether a format has a registered exporter.
    fn is_registered(&self, format: &OutputFormat) -> (r: bool)
        ensures
            r == self.formats@.contains(*format),
    {
        let n = self.formats.len();
        let mut i: usize = 0;
        while i < n
            invariant
                n == self.formats@.len(),
                0 <= i <= n,
                forall|j: int| 0 <= j < i ==> self.formats@[j] != *format,
            decreases n - i,
        {
            if self.formats[i] == *format {
                return true;
            }
            i = i + 1;
        }
        false
    }

    /// Converts a document to the requested format. A format without a
    /// registered exporter is the only error: the call returns the
    /// unsupported-format error naming it, and no output. Otherwise the
    /// passthrough formats yield their payload at once, and the
    /// structured formats yield the verified rendering for their
    /// collaborator.
    pub fn convert(&self, doc: &Document, format: &OutputFormat) -> (r: Result<
        Prepared,
        MultiFormatExportError,
    >)
        ensures
            (r is Err) <==> !self.formats@.contains(*format),
            r matches Err(e) ==> e == MultiFormatExportError::UnsupportedFormat(*format),
            r matches Ok(p) ==> match *format {
                OutputFormat::Md => p matches Prepared::Ready(e) && e.data@ == encode_utf8(
                    doc.source@,
                ) && e.mime@ == MARKDOWN_MIME@ && e.extension@ == MARKDOWN_EXTENSION@,
                OutputFormat::Html => p matches Prepared::Ready(e) && e.data@ == encode_utf8(
                    html_of(doc.source@),
                ) && e.mime@ == HTML_MIME@ && e.extension@ == HTML_EXTENSION@,
                OutputFormat::Docx => p matches Prepared::WordModel { paragraphs, mime, extension }
                    && paragraphs.deep_view() == spec_document(self.docx, doc.blocks@) && mime@
                    == DOCX_MIME@ && extension@ == DOCX_EXTENSION@,
                OutputFormat::Pdf => p matches Prepared::TypesetSource { source, mime, extension }
                    && source@ == spec_typst_source(self.pdf.template@, doc.blocks@) && mime@
                    == PDF_MIME@ && extension@ == PDF_EXTENSION@,
            },
    {
        if !self.is_registered(format) {
            return Err(MultiFormatExportError::UnsupportedFormat(*format));
        }
        match format {
            OutputFormat::Md => {
                match self.md.export(doc.source.as_str()) {
                    Ok(e) => Ok(Prepared::Ready(e)),
                    Err(e) => Err(e),
                }
            },
            OutputFormat::Html => {
                match self.html.export(doc.source.as_str()) {
                    Ok(e) => Ok(Prepared::Ready(e)),
                    Err(e) => Err(e),
                }
            },
            OutputFormat::Docx => {
                let paragraphs = self.docx.render_document(&doc.blocks);
                Ok(
                    Prepared::WordModel {
                        paragraphs,
                        mime: DOCX_MIME,
                        extension: DOCX_EXTENSION,
                    },
                )
            },
            OutputFormat::Pdf => {
                let source = self.pdf.typst_source(&doc.blocks);
                Ok(Prepared::TypesetSource { source, mime: PDF_MIME, extension: PDF_EXTENSION })
            },
        }
    }
}

} // verus!
