use multi_format_export::ast::Node;
use multi_format_export::error::MultiFormatExportError;
use multi_format_export::html::HtmlExporter;
use multi_format_export::multi_format_export_engine::{
    Document, MultiFormatExportEngine, OutputFormat, Prepared,
};
use multi_format_export::plain::MarkdownExporter;

fn ch(s: &str) -> Vec<char> {
    s.chars().collect()
}

fn doc(source: &str, blocks: Vec<Node>) -> Document {
    Document { source: source.to_string(), blocks }
}

#[test]
fn unregistered_format_is_rejected_with_no_output() {
    let engine = MultiFormatExportEngine::with_formats(vec![OutputFormat::Md]);
    let d = doc("# Hi", vec![]);
    let r = engine.convert(&d, &OutputFormat::Pdf);
    match r {
        Err(MultiFormatExportError::UnsupportedFormat(f)) => assert_eq!(f, OutputFormat::Pdf),
        _ => panic!("expected the unsupported-format error and no output"),
    }
}

#[test]
fn registered_formats_all_succeed() {
    let engine = MultiFormatExportEngine::new();
    let d = doc("# Hi", vec![Node::Heading { depth: 1, children: vec![Node::Text { value: ch("Hi") }] }]);
    for f in engine.supported_formats() {
        assert!(engine.convert(&d, &f).is_ok());
    }
}

#[test]
fn markdown_conversion_passes_source_through() {
    let engine = MultiFormatExportEngine::new();
    let d = doc("# Hi *there*", vec![]);
    match engine.convert(&d, &OutputFormat::Md) {
        Ok(Prepared::Ready(e)) => {
            assert_eq!(e.data, b"# Hi *there*".to_vec());
            assert_eq!(e.mime, "text/markdown");
            assert_eq!(e.extension, "md");
        }
        _ => panic!("expected a finished markdown payload"),
    }
}

#[test]
fn html_conversion_compiles_markdown() {
    let engine = MultiFormatExportEngine::new();
    let d = doc("# Hi Mercury!", vec![]);
    match engine.convert(&d, &OutputFormat::Html) {
        Ok(Prepared::Ready(e)) => {
            let html = String::from_utf8(e.data).unwrap();
            assert_eq!(html, "<h1>Hi Mercury!</h1>");
            assert_eq!(e.mime, "text/html");
            assert_eq!(e.extension, "html");
        }
        _ => panic!("expected a finished html payload"),
    }
}

fn body_blocks() -> Vec<Node> {
    vec![Node::Paragraph { children: vec![Node::Text { value: ch("body") }] }]
}

#[test]
fn docx_conversion_yields_the_document_model() {
    let engine = MultiFormatExportEngine::new();
    let blocks = body_blocks();
    let d = doc("body", body_blocks());
    match engine.convert(&d, &OutputFormat::Docx) {
        Ok(Prepared::WordModel { paragraphs, mime, extension }) => {
            assert_eq!(paragraphs, engine.docx.render_document(&blocks));
            assert_eq!(
                mime,
                "application/vnd.openxmlformats-officedocument.wordprocessingml.document"
            );
            assert_eq!(extension, "docx");
        }
        _ => panic!("expected a word-processor model"),
    }
}

#[test]
fn pdf_conversion_yields_typesetting_source() {
    let engine = MultiFormatExportEngine::new();
    let blocks = body_blocks();
    let d = doc("body", body_blocks());
    match engine.convert(&d, &OutputFormat::Pdf) {
        Ok(Prepared::TypesetSource { source, mime, extension }) => {
            assert_eq!(source, engine.pdf.typst_source(&blocks));
            assert!(source.contains("body\n\n"));
            assert_eq!(mime, "application/pdf");
            assert_eq!(extension, "pdf");
        }
        _ => panic!("expected typesetting source"),
    }
}

#[test]
fn format_names_parse_case_insensitively() {
    assert_eq!(OutputFormat::from_str("md"), Ok(OutputFormat::Md));
    assert_eq!(OutputFormat::from_str("Markdown"), Ok(OutputFormat::Md));
    assert_eq!(OutputFormat::from_str("HTML"), Ok(OutputFormat::Html));
    assert_eq!(OutputFormat::from_str("pdf"), Ok(OutputFormat::Pdf));
    assert_eq!(OutputFormat::from_str("DocX"), Ok(OutputFormat::Docx));
}

#[test]
fn unknown_format_name_is_named_in_the_error() {
    match OutputFormat::from_str("bogus") {
        Err(e) => assert_eq!(e, "Invalid output format: bogus"),
        Ok(_) => panic!("expected a rejection"),
    }
}

#[test]
fn format_labels_are_lower_case_names() {
    assert_eq!(OutputFormat::Md.label(), "md");
    assert_eq!(OutputFormat::Html.label(), "html");
    assert_eq!(OutputFormat::Pdf.label(), "pdf");
    assert_eq!(OutputFormat::Docx.label(), "docx");
}

#[test]
fn supported_formats_lists_all_four() {
    let engine = MultiFormatExportEngine::new();
    assert_eq!(
        engine.supported_formats(),
        vec![OutputFormat::Md, OutputFormat::Html, OutputFormat::Pdf, OutputFormat::Docx]
    );
}

#[test]
fn exporters_export_directly() {
    let h = HtmlExporter::new().export("*x*").unwrap();
    assert_eq!(String::from_utf8(h.data).unwrap(), "<p><em>x</em></p>");
    let m = MarkdownExporter::new().export("*x*").unwrap();
    assert_eq!(m.data, b"*x*".to_vec());
}
