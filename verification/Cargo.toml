[package]
name = "multi_format_export"
version = "0.1.0"
edition = "2021"
publish = false

[dependencies]
markdown = "=1.0.0"
bytes = "=1.12.1"
docx-rs = "=0.4.22"
handlebars = "=6.4.4"
serde = { version = "=1.0.229", features = ["derive"] }
thiserror = "=2.0.21"
typst-as-lib = "=0.16.0"
typst-assets = { version = "=0.15.1", features = ["fonts"] }
typst-pdf = "=0.15.1"
