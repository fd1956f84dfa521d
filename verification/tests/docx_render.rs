use multi_format_export::ast::Node;
use multi_format_export::docx::DocxExporter;
use multi_format_export::runs::{FontFamily, Run};

fn ch(s: &str) -> Vec<char> {
    s.chars().collect()
}

fn text(s: &str) -> Node {
    Node::Text { value: ch(s) }
}

fn strong(children: Vec<Node>) -> Node {
    Node::Strong { children }
}

fn para(children: Vec<Node>) -> Node {
    Node::Paragraph { children }
}

fn run_text(r: &Run) -> String {
    match r {
        Run::Text { text, .. } => text.iter().collect(),
        Run::LineBreak => String::new(),
    }
}

#[test]
fn heading_text_is_not_forced_bold() {
    let e = DocxExporter::new("T", "C", 22);
    let paras = e.render_document(&vec![Node::Heading { depth: 2, children: vec![text("plain")] }]);
    match &paras[0].runs[0] {
        Run::Text { bold, italic, size, .. } => {
            assert!(!*bold && !*italic);
            assert_eq!(*size, 32);
        }
        _ => panic!("expected a text run"),
    }
}

#[test]
fn heading_keeps_source_marked_styles() {
    let e = DocxExporter::new("T", "C", 22);
    let paras = e.render_document(&vec![Node::Heading {
        depth: 2,
        children: vec![strong(vec![text("marked")])],
    }]);
    match &paras[0].runs[0] {
        Run::Text { bold, .. } => assert!(*bold),
        _ => panic!("expected a text run"),
    }
}

#[test]
fn heading_sizes_at_default_body() {
    let e = DocxExporter::new("Times New Roman", "Courier New", 22);
    assert_eq!(e.heading_font_size(1), 35);
    assert_eq!(e.heading_font_size(2), 32);
    assert_eq!(e.heading_font_size(3), 29);
    assert_eq!(e.heading_font_size(4), 25);
    assert_eq!(e.heading_font_size(5), 23);
    assert_eq!(e.heading_font_size(6), 22);
}

#[test]
fn heading_sizes_monotone_and_body_at_six() {
    for body in [2usize, 11, 22, 24, 44, 96, 400] {
        let e = DocxExporter::new("A", "B", body);
        for d in 1usize..=6 {
            assert!(e.heading_font_size(d) >= e.heading_font_size(d + 1));
        }
        assert_eq!(e.heading_font_size(6), body);
    }
}

#[test]
fn heading_size_clamped_at_floor() {
    let e = DocxExporter::new("A", "B", 0);
    assert_eq!(e.heading_font_size(1), 2);
}

#[test]
fn heading_size_clamped_at_ceiling() {
    let e = DocxExporter::new("A", "B", 400);
    assert_eq!(e.heading_font_size(1), 400);
    assert_eq!(e.heading_font_size(6), 400);
}

#[test]
fn heading_spacing_at_reference_body() {
    let e = DocxExporter::new("A", "B", 22);
    assert_eq!(e.heading_spacing(1), (360, 180));
    assert_eq!(e.heading_spacing(2), (320, 160));
    assert_eq!(e.heading_spacing(3), (300, 140));
    assert_eq!(e.heading_spacing(4), (240, 120));
    assert_eq!(e.heading_spacing(9), (240, 120));
}

#[test]
fn spacing_doubles_with_body_and_keeps_floor() {
    let single = DocxExporter::new("A", "B", 22);
    let double = DocxExporter::new("A", "B", 44);
    for d in 1usize..=6 {
        let (b1, a1) = single.heading_spacing(d);
        let (b2, a2) = double.heading_spacing(d);
        assert!(b2 >= b1 && a2 >= a1);
        assert_eq!((b2, a2), (2 * b1, 2 * a1));
    }
    let tiny = DocxExporter::new("A", "B", 2);
    assert_eq!(tiny.heading_spacing(1), (33, 20));
    assert_eq!(tiny.body_paragraph_spacing(), (0, 20));
}

#[test]
fn body_spacing_before_is_zero() {
    let e = DocxExporter::new("A", "B", 22);
    assert_eq!(e.body_paragraph_spacing(), (0, 160));
}

#[test]
fn sole_strong_paragraph_promoted_without_body() {
    let e = DocxExporter::new("T", "C", 22);
    let node = para(vec![strong(vec![text("Title")])]);
    let paras = e.render_block_node(&node, 0);
    assert_eq!(paras.len(), 1);
    let p = &paras[0];
    let sp = p.spacing.unwrap();
    assert_eq!((sp.before, sp.after), (320, 160));
    assert_eq!(p.runs.len(), 1);
    match &p.runs[0] {
        Run::Text { text, bold, size, font, .. } => {
            assert_eq!(text.iter().collect::<String>(), "Title");
            assert!(*bold);
            assert_eq!(*size, 32);
            assert_eq!(*font, FontFamily::Body);
        }
        _ => panic!("expected a text run"),
    }
}

#[test]
fn strong_with_remainder_text_produces_one_body_paragraph() {
    let e = DocxExporter::new("T", "C", 22);
    let node = para(vec![strong(vec![text("Head")]), text("\n\nrest text")]);
    let paras = e.render_block_node(&node, 0);
    assert_eq!(paras.len(), 2);
    assert_eq!(run_text(&paras[1].runs[0]), "rest text");
    let sp = paras[1].spacing.unwrap();
    assert_eq!((sp.before, sp.after), (0, 160));
}

#[test]
fn strong_with_blank_remainder_produces_no_body_paragraph() {
    let e = DocxExporter::new("T", "C", 22);
    let node = para(vec![strong(vec![text("Head")]), text("\n\n")]);
    let paras = e.render_block_node(&node, 0);
    assert_eq!(paras.len(), 1);
}

#[test]
fn two_child_paragraph_without_leading_break_is_not_promoted() {
    let e = DocxExporter::new("T", "C", 22);
    let node = para(vec![strong(vec![text("Head")]), text(" tail")]);
    assert!(!e.is_strong_line_heading(&node));
    let paras = e.render_block_node(&node, 0);
    assert_eq!(paras.len(), 1);
    assert!(paras[0].spacing.is_some());
}

#[test]
fn nested_ordered_lists_restart_counter_and_indent_deeper() {
    let e = DocxExporter::new("T", "C", 22);
    let inner = Node::List {
        ordered: true,
        start: Some(1),
        children: vec![Node::ListItem { children: vec![para(vec![text("B")])] }],
    };
    let outer = Node::List {
        ordered: true,
        start: Some(1),
        children: vec![
            Node::ListItem { children: vec![para(vec![text("A")]), inner] },
            Node::ListItem { children: vec![para(vec![text("C")])] },
        ],
    };
    let paras = e.render_list(&outer, 0);
    assert_eq!(paras.len(), 3);
    assert_eq!(run_text(&paras[0].runs[0]), "1. ");
    assert_eq!(run_text(&paras[1].runs[0]), "1. ");
    assert_eq!(run_text(&paras[2].runs[0]), "2. ");
    let outer_indent = paras[0].indent.unwrap();
    let inner_indent = paras[1].indent.unwrap();
    assert_eq!(outer_indent.left, 720);
    assert_eq!(inner_indent.left, 1080);
    assert!(inner_indent.left > outer_indent.left);
    assert_eq!(outer_indent.hanging, Some(360));
}

#[test]
fn ordered_list_counter_follows_configured_start() {
    let e = DocxExporter::new("T", "C", 22);
    let list = Node::List {
        ordered: true,
        start: Some(9),
        children: vec![
            Node::ListItem { children: vec![para(vec![text("x")])] },
            Node::ListItem { children: vec![para(vec![text("y")])] },
        ],
    };
    let paras = e.render_list(&list, 0);
    assert_eq!(run_text(&paras[0].runs[0]), "9. ");
    assert_eq!(run_text(&paras[1].runs[0]), "10. ");
}

#[test]
fn unordered_list_uses_bullet_marker() {
    let e = DocxExporter::new("T", "C", 22);
    let list = Node::List {
        ordered: false,
        start: None,
        children: vec![Node::ListItem { children: vec![para(vec![text("x")])] }],
    };
    let paras = e.render_list(&list, 0);
    assert_eq!(run_text(&paras[0].runs[0]), "\u{2022} ");
    match &paras[0].runs[0] {
        Run::Text { bold, font, size, .. } => {
            assert!(*bold);
            assert_eq!(*font, FontFamily::Unspecified);
            assert_eq!(*size, 0);
        }
        _ => panic!("expected marker run"),
    }
}

#[test]
fn later_item_paragraphs_share_the_indent_without_marker() {
    let e = DocxExporter::new("T", "C", 22);
    let list = Node::List {
        ordered: true,
        start: Some(1),
        children: vec![Node::ListItem {
            children: vec![para(vec![text("first")]), para(vec![text("second")])],
        }],
    };
    let paras = e.render_list(&list, 0);
    assert_eq!(paras.len(), 2);
    assert_eq!(run_text(&paras[1].runs[0]), "second");
    let follow = paras[1].indent.unwrap();
    assert_eq!(follow.left, paras[0].indent.unwrap().left);
    assert_eq!(follow.left, 720);
    assert_eq!(follow.hanging, None);
}

#[test]
fn code_block_lines_become_monospace_runs_with_breaks_between() {
    let e = DocxExporter::new("T", "C", 22);
    let p = e.render_code_block(&ch("let a = 1;\nlet b = 2;"));
    assert_eq!(p.runs.len(), 3);
    match &p.runs[0] {
        Run::Text { text, font, size, bold, .. } => {
            assert_eq!(text.iter().collect::<String>(), "let a = 1;");
            assert_eq!(*font, FontFamily::Mono);
            assert_eq!(*size, 22);
            assert!(!*bold);
        }
        _ => panic!("expected code run"),
    }
    assert_eq!(p.runs[1], Run::LineBreak);
    assert_eq!(run_text(&p.runs[2]), "let b = 2;");
    assert_eq!(p.indent.unwrap().left, 0);
}

#[test]
fn empty_code_block_has_no_runs() {
    let e = DocxExporter::new("T", "C", 22);
    let p = e.render_code_block(&ch(""));
    assert_eq!(p.runs.len(), 0);
}

#[test]
fn text_splits_on_line_breaks_without_trailing_break() {
    let e = DocxExporter::new("T", "C", 22);
    let paras = e.render_block_node(&para(vec![text("one\ntwo")]), 0);
    let runs = &paras[0].runs;
    assert_eq!(runs.len(), 3);
    assert_eq!(run_text(&runs[0]), "one");
    assert_eq!(runs[1], Run::LineBreak);
    assert_eq!(run_text(&runs[2]), "two");
}

#[test]
fn forced_styles_are_monotone_down_the_tree() {
    let e = DocxExporter::new("T", "C", 22);
    let node = para(vec![strong(vec![Node::Emphasis { children: vec![text("x")] }, text("y")])]);
    let paras = e.render_block_node(&node, 0);
    // Promoted to a heading: the strong child's runs stay bold; the nested
    // emphasis adds italics without clearing bold.
    match &paras[0].runs[0] {
        Run::Text { bold, italic, .. } => {
            assert!(*bold && *italic);
        }
        _ => panic!("expected styled run"),
    }
    match &paras[0].runs[1] {
        Run::Text { bold, italic, .. } => {
            assert!(*bold && !*italic);
        }
        _ => panic!("expected styled run"),
    }
}

#[test]
fn inline_code_run_is_monospace() {
    let e = DocxExporter::new("T", "C", 22);
    let paras = e.render_block_node(&para(vec![Node::InlineCode { value: ch("f(x)") }]), 0);
    match &paras[0].runs[0] {
        Run::Text { font, .. } => assert_eq!(*font, FontFamily::Mono),
        _ => panic!("expected inline code run"),
    }
}

#[test]
fn stray_inline_node_becomes_one_paragraph() {
    let e = DocxExporter::new("T", "C", 22);
    let paras = e.render_block_node(&text("loose"), 0);
    assert_eq!(paras.len(), 1);
    assert_eq!(run_text(&paras[0].runs[0]), "loose");
}

#[test]
fn unknown_block_kind_is_dropped() {
    let e = DocxExporter::new("T", "C", 22);
    let paras = e.render_block_node(&Node::Other { children: vec![text("gone")] }, 0);
    assert_eq!(paras.len(), 0);
}

#[test]
fn collect_plain_text_flattens_one_level() {
    let e = DocxExporter::new("T", "C", 22);
    let nodes = vec![text("a"), Node::Break, Node::InlineCode { value: ch("b") }, strong(vec![text("hidden")])];
    let out: String = e.collect_plain_text(&nodes).iter().collect();
    assert_eq!(out, "a\nb");
}

#[test]
fn render_document_concatenates_blocks() {
    let e = DocxExporter::new("T", "C", 22);
    let blocks = vec![
        Node::Heading { depth: 1, children: vec![text("H")] },
        para(vec![text("body")]),
    ];
    let paras = e.render_document(&blocks);
    assert_eq!(paras.len(), 2);
    assert_eq!(run_text(&paras[0].runs[0]), "H");
    assert_eq!(run_text(&paras[1].runs[0]), "body");
}

#[test]
fn add_text_run_skips_empty_text() {
    let e = DocxExporter::new("T", "C", 22);
    let blocks = vec![para(vec![text("")])];
    let paras = e.render_document(&blocks);
    assert_eq!(paras[0].runs.len(), 0);
}

#[test]
fn list_indent_saturates_instead_of_overflowing() {
    assert_eq!(DocxExporter::list_left_indent(usize::MAX), i32::MAX);
    assert_eq!(DocxExporter::list_left_indent(2), 1440);
}
