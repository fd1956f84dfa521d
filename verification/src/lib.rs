//! A verified transformer from a parsed Markdown document tree into two
//! structured output targets: a word-processor document model (paragraphs
//! of styled runs) and a typesetting source text for PDF compilation,
//! together with passthrough Markdown and HTML exporters and a format
//! dispatch engine.

pub mod ast;
pub mod docx;
pub mod error;
pub mod exporter;
pub mod html;
pub mod multi_format_export_engine;
pub mod plain;
pub mod runs;
pub mod scale;
pub mod textutil;
pub mod typst;
