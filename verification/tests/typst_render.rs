use multi_format_export::ast::Node;
use multi_format_export::typst::{PdfExporter, CONTENT_PLACEHOLDER, DEFAULT_TEMPLATE};

fn ch(s: &str) -> Vec<char> {
    s.chars().collect()
}

fn s_of(v: &Vec<char>) -> String {
    v.iter().collect()
}

fn text(s: &str) -> Node {
    Node::Text { value: ch(s) }
}

fn para(children: Vec<Node>) -> Node {
    Node::Paragraph { children }
}

fn count_fences(s: &str) -> usize {
    let b: Vec<char> = s.chars().collect();
    let mut n = 0;
    for i in 0..b.len() {
        if i + 3 <= b.len() && b[i] == '`' && b[i + 1] == '`' && b[i + 2] == '`' {
            n += 1;
        }
    }
    n
}

#[test]
fn reserved_characters_are_escaped_visibly() {
    let e = PdfExporter::new(None, Vec::new());
    let out = s_of(&e.escape_text(&ch("a{b}c[d]e#f")));
    assert_eq!(out, "a\\{b\\}c\\[d\\]e\\#f");
}

#[test]
fn unreserved_text_passes_through_escaping() {
    let e = PdfExporter::new(None, Vec::new());
    let out = s_of(&e.escape_text(&ch("plain text 123 *_`")));
    assert_eq!(out, "plain text 123 *_`");
}

#[test]
fn fence_delimiter_in_code_is_defused() {
    let e = PdfExporter::new(None, Vec::new());
    let out = s_of(&e.escape_code(&ch("a```b")));
    assert_eq!(out, "a``\u{200b}`b");
}

#[test]
fn long_backtick_runs_are_broken_into_pairs() {
    let e = PdfExporter::new(None, Vec::new());
    assert_eq!(s_of(&e.escape_code(&ch("````"))), "``\u{200b}``");
    assert_eq!(s_of(&e.escape_code(&ch("`````"))), "``\u{200b}``\u{200b}`");
    assert_eq!(s_of(&e.escape_code(&ch("``"))), "``");
}

#[test]
fn code_block_fence_closes_exactly_once() {
    let e = PdfExporter::new(None, Vec::new());
    let block = e.render_block(&Node::Code { lang: None, value: ch("x\n```\ny") });
    let out = s_of(&block);
    assert_eq!(out, "```\nx\n``\u{200b}`\ny\n```\n\n");
    assert_eq!(count_fences(&out), 2);
}

#[test]
fn quad_backtick_body_still_closes_fence_exactly_once() {
    let e = PdfExporter::new(None, Vec::new());
    let out = s_of(&e.render_block(&Node::Code { lang: None, value: ch("````") }));
    assert_eq!(out, "```\n``\u{200b}``\n```\n\n");
    assert_eq!(count_fences(&out), 2);
}

#[test]
fn backticks_are_removed_from_the_language_tag() {
    let e = PdfExporter::new(None, Vec::new());
    let out = s_of(&e.render_block(&Node::Code { lang: Some(ch("r`ust")), value: ch("x") }));
    assert_eq!(out, "```rust\nx\n```\n\n");
    assert_eq!(count_fences(&out), 2);
}

#[test]
fn code_block_keeps_language_tag() {
    let e = PdfExporter::new(None, Vec::new());
    let block = e.render_block(&Node::Code { lang: Some(ch("rust")), value: ch("fn main() {}") });
    assert_eq!(s_of(&block), "```rust\nfn main() {}\n```\n\n");
}

#[test]
fn heading_line_carries_depth_many_markers() {
    let e = PdfExporter::new(None, Vec::new());
    let block = e.render_block(&Node::Heading { depth: 3, children: vec![text("Hi")] });
    assert_eq!(s_of(&block), "\n=== Hi\n\n");
}

#[test]
fn blank_paragraph_emits_nothing() {
    let e = PdfExporter::new(None, Vec::new());
    let block = e.render_block(&para(vec![text("  \n ")]));
    assert_eq!(s_of(&block), "");
}

#[test]
fn unicode_blank_paragraph_emits_nothing() {
    let e = PdfExporter::new(None, Vec::new());
    let block = e.render_block(&para(vec![text("\u{a0}\u{2003}")]));
    assert_eq!(s_of(&block), "");
}

#[test]
fn emphasis_and_strong_wrap_in_delimiters() {
    let e = PdfExporter::new(None, Vec::new());
    let out = e.collect_inlines(&vec![
        Node::Strong { children: vec![text("b")] },
        Node::Emphasis { children: vec![text("i")] },
        Node::Break,
    ]);
    assert_eq!(s_of(&out), "*b*_i_ \\\n");
}

#[test]
fn nested_ordered_list_markers_and_indentation() {
    let e = PdfExporter::new(None, Vec::new());
    let inner = Node::List {
        ordered: true,
        start: Some(1),
        children: vec![Node::ListItem { children: vec![para(vec![text("B")])] }],
    };
    let outer = Node::List {
        ordered: true,
        start: Some(1),
        children: vec![
            Node::ListItem { children: vec![para(vec![text("A")]), inner] },
            Node::ListItem { children: vec![para(vec![text("C")])] },
        ],
    };
    let out = s_of(&e.render_list(&outer));
    assert_eq!(out, "1. A\n  1. B\n2. C\n\n");
}

#[test]
fn unordered_list_uses_dash_marker() {
    let e = PdfExporter::new(None, Vec::new());
    let list = Node::List {
        ordered: false,
        start: None,
        children: vec![Node::ListItem { children: vec![para(vec![text("x")])] }],
    };
    assert_eq!(s_of(&e.render_list(&list)), "- x\n\n");
}

#[test]
fn inject_content_replaces_only_first_placeholder() {
    let e = PdfExporter::new(None, Vec::new());
    let out = e.inject_content(&ch("A {{content}} B {{content}}"), &ch("X"));
    assert_eq!(s_of(&out), "A X B {{content}}");
}

#[test]
fn inject_content_without_placeholder_is_identity() {
    let e = PdfExporter::new(None, Vec::new());
    let out = e.inject_content(&ch("no slot here"), &ch("X"));
    assert_eq!(s_of(&out), "no slot here");
}

#[test]
fn typst_source_substitutes_into_default_template() {
    let e = PdfExporter::new(None, Vec::new());
    let blocks = vec![Node::Heading { depth: 1, children: vec![text("T")] }];
    let src = e.typst_source(&blocks);
    let expected = DEFAULT_TEMPLATE.replace(CONTENT_PLACEHOLDER, "\n= T\n\n");
    assert_eq!(src, expected);
}

#[test]
fn custom_template_is_kept() {
    let e = PdfExporter::new(Some("X {{content}} Y"), Vec::new());
    let blocks = vec![para(vec![text("p")])];
    assert_eq!(e.typst_source(&blocks), "X p\n\n Y");
}

#[test]
fn escaped_document_text_reaches_the_source() {
    let e = PdfExporter::new(Some("{{content}}"), Vec::new());
    let blocks = vec![para(vec![text("use #let { }")])];
    let src = e.typst_source(&blocks);
    assert_eq!(src, "use \\#let \\{ \\}\n\n");
}

#[test]
fn stray_inline_becomes_paragraph() {
    let e = PdfExporter::new(None, Vec::new());
    let block = e.render_block(&Node::InlineCode { value: ch("x") });
    assert_eq!(s_of(&block), "`x`\n\n");
}

#[test]
fn unknown_block_kind_emits_nothing() {
    let e = PdfExporter::new(None, Vec::new());
    let block = e.render_block(&Node::Other { children: vec![text("gone")] });
    assert_eq!(s_of(&block), "");
}

#[test]
fn whole_document_renders_blocks_in_order() {
    let e = PdfExporter::new(Some("{{content}}"), Vec::new());
    let blocks = vec![
        Node::Heading { depth: 2, children: vec![text("Title")] },
        para(vec![text("Body "), Node::Strong { children: vec![text("bold")] }]),
        Node::List {
            ordered: false,
            start: None,
            children: vec![Node::ListItem { children: vec![para(vec![text("item")])] }],
        },
        Node::Code { lang: Some(ch("sh")), value: ch("ls") },
    ];
    let src = e.typst_source(&blocks);
    assert_eq!(src, "\n== Title\n\nBody *bold*\n\n- item\n\n```sh\nls\n```\n\n");
}

#[test]
fn unknown_inline_kind_flattens_to_children() {
    let e = PdfExporter::new(None, Vec::new());
    let out = e.collect_inlines(&vec![Node::Other { children: vec![text("kept")] }]);
    assert_eq!(s_of(&out), "kept");
}
