//! The plain Markdown exporter: the source text passed through as bytes.

use vstd::prelude::*;

use crate::error::MultiFormatExportError;
use crate::exporter::Exported;
use vstd::utf8::encode_utf8;

verus! {

/// The media type of the Markdown payload.
pub const MARKDOWN_MIME: &'static str = "text/markdown";

/// The file extension of the Markdown payload.
pub const MARKDOWN_EXTENSION: &'static str = "md";

/// The Markdown exporter; it holds no configuration.
pub struct MarkdownExporter;

impl MarkdownExporter {
    /// A new Markdown exporter.
    pub fn new() -> Self {
        MarkdownExporter {  }
    }

    /// The source text unchanged, as a payload.
    pub fn export(&self, content: &str) -> (r: Result<Exported, MultiFormatExportError>)
        ensures
            r matches Ok(e) && e.data@ == encode_utf8(content@) && e.mime@ == MARKDOWN_MIME@
                && e.extension@ == MARKDOWN_EXTENSION@,
    {
        let data = vstd::string::StrSliceExecFns::as_bytes_vec(content);
        Ok(Exported { data, mime: MARKDOWN_MIME, extension: MARKDOWN_EXTENSION })
    }
}

} // verus!
