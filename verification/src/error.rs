//! The error type every export path reports through. Collaborator
//! failures arrive as their message text; an unsupported format carries
//! the format that was requested.

use vstd::prelude::*;

use crate::multi_format_export_engine::OutputFormat;

verus! {

/// Why an export call failed. Each call either fully succeeds or reports
/// exactly one of these.
#[derive(Debug, Clone, PartialEq, Eq)]
pub enum MultiFormatExportError {
    /// Registering a template with the templating collaborator failed.
    TemplateError(String),
    /// Rendering a template with the templating collaborator failed.
    RenderError(String),
    /// The parsing collaborator rejected the Markdown source.
    MarkdownError(String),
    /// The word-processor packaging collaborator failed.
    DocxError(String),
    /// The typesetting compilation collaborator failed.
    PdfError(String),
    /// The requested output format has no registered exporter.
    UnsupportedFormat(OutputFormat),
}

} // verus!
