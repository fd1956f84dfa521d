//! The HTML exporter: a direct passthrough that compiles the Markdown
//! source to HTML through the outside parser.

use vstd::prelude::*;

use crate::error::MultiFormatExportError;
use crate::exporter::Exported;
use vstd::utf8::encode_utf8;

verus! {

/// The media type of the HTML payload.
pub const HTML_MIME: &'static str = "text/html";

/// The file extension of the HTML payload.
pub const HTML_EXTENSION: &'static str = "html";

/// What compiling a Markdown text to HTML yields; a function of the input
/// text alone.
pub uninterp spec fn html_of(s: Seq<char>) -> Seq<char>;

/// Relies on `markdown::to_html`: compiles CommonMark text to HTML. It
/// never fails or panics with default options, and its result depends on
/// the input text alone.
#[verifier::external_body]
fn to_html(content: &str) -> (r: String)
    ensures
        r@ == html_of(content@),
{
    markdown::to_html(content)
}

/// The HTML exporter; it holds no configuration.
pub struct HtmlExporter;

impl HtmlExporter {
    /// A new HTML exporter.
    pub fn new() -> Self {
        HtmlExporter {  }
    }

    /// The Markdown source compiled to HTML, as a payload.
    pub fn export(&self, content: &str) -> (r: Result<Exported, MultiFormatExportError>)
        ensures
            r matches Ok(e) && e.data@ == encode_utf8(html_of(content@)) && e.mime@ == HTML_MIME@
                && e.extension@ == HTML_EXTENSION@,
    {
        let html = to_html(content);
        let data = vstd::string::StrSliceExecFns::as_bytes_vec(html.as_str());
        Ok(Exported { data, mime: HTML_MIME, extension: HTML_EXTENSION })
    }
}

} // verus!
