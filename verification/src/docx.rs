//! The word-processor block and inline renderer.
//!
//! Walks the document tree and produces paragraphs of styled runs:
//! headings sized by depth, bold-led paragraphs promoted to synthetic
//! headings, lists indented by nesting depth with computed markers, and
//! code blocks set line by line in the monospace family.

use vstd::prelude::*;

use crate::ast::{lemma_node_size_pos, lemma_nodes_size_peel, node_size, nodes_size, Node};
use crate::runs::{FontFamily, Indent, Paragraph, ParagraphV, Run, RunV, Spacing};
use crate::scale::{spec_body_spacing, spec_depth_inc, spec_heading_font_size,
    spec_heading_spacing, spec_list_indent};
use crate::textutil::{spec_decimal, spec_lines, spec_split_char, spec_strip_leading};

verus! {

/// The media type of the packaged word-processor container.
pub const DOCX_MIME: &'static str =
    "application/vnd.openxmlformats-officedocument.wordprocessingml.document";

/// The file extension of the packaged word-processor container.
pub const DOCX_EXTENSION: &'static str = "docx";

/// The word-processor exporter: immutable configuration fixed at
/// construction.
pub struct DocxExporter {
    /// Family used for ordinary text.
    pub default_font_family: Vec<char>,
    /// Family used for code.
    pub mono_font_family: Vec<char>,
    /// Body font size in half-points.
    pub default_font_size: usize,
}

// ---------------------------------------------------------------------
// Specification: inline rendering
// ---------------------------------------------------------------------
/// One styled text run under the given style context.
pub open spec fn spec_style_run(
    cfg: DocxExporter,
    text: Seq<char>,
    bold: bool,
    italic: bool,
    mono: bool,
    base: usize,
) -> RunV {
    RunV::Text {
        text,
        bold,
        italic,
        font: if mono {
            FontFamily::Mono
        } else {
            FontFamily::Body
        },
        size: if base > 0 {
            base
        } else {
            cfg.default_font_size
        },
    }
}

/// A styled run, or nothing when the text is empty.
pub open spec fn spec_opt_run(
    cfg: DocxExporter,
    text: Seq<char>,
    bold: bool,
    italic: bool,
    mono: bool,
    base: usize,
) -> Seq<RunV> {
    if text.len() == 0 {
        seq![]
    } else {
        seq![spec_style_run(cfg, text, bold, italic, mono, base)]
    }
}

/// The runs of one text value split at line breaks: one run per non-empty
/// segment, a line-break run between successive segments and never after
/// the last.
pub open spec fn spec_segments_runs(
    cfg: DocxExporter,
    segs: Seq<Seq<char>>,
    bold: bool,
    italic: bool,
    mono: bool,
    base: usize,
) -> Seq<RunV>
    decreases segs.len(),
{
    if segs.len() == 0 {
        seq![]
    } else {
        let first = spec_opt_run(cfg, segs[0], bold, italic, mono, base);
        let brk: Seq<RunV> = if segs.len() > 1 {
            seq![RunV::LineBreak]
        } else {
            seq![]
        };
        first + brk + spec_segments_runs(
            cfg,
            segs.subrange(1, segs.len() as int),
            bold,
            italic,
            mono,
            base,
        )
    }
}

/// What one node contributes when flattened to plain text: text and
/// inline-code values and a line separator for a break; nothing else.
pub open spec fn spec_plain_piece(n: Node) -> Seq<char> {
    match n {
        Node::Text { value } => value@,
        Node::InlineCode { value } => value@,
        Node::Break => seq!['\n'],
        _ => seq![],
    }
}

/// A sequence of nodes flattened to plain text, without recursing below
/// the given nodes.
pub open spec fn spec_plain_text(nodes: Seq<Node>) -> Seq<char>
    decreases nodes.len(),
{
    if nodes.len() == 0 {
        seq![]
    } else {
        spec_plain_piece(nodes[0]) + spec_plain_text(nodes.subrange(1, nodes.len() as int))
    }
}

/// The runs one inline node produces under a style context. Forcing bold
/// or italic is monotone: a forced flag is passed on and never cleared.
pub open spec fn spec_inline_node(
    cfg: DocxExporter,
    node: Node,
    bold: bool,
    italic: bool,
    base: usize,
    mono: bool,
) -> Seq<RunV>
    decreases node_size(node), 0int,
{
    match node {
        Node::Text { value } => spec_segments_runs(
            cfg,
            spec_split_char(value@, '\n'),
            bold,
            italic,
            mono,
            base,
        ),
        Node::InlineCode { value } => spec_opt_run(cfg, value@, bold, italic, true, base),
        Node::Code { value, .. } => spec_opt_run(cfg, value@, bold, italic, true, base),
        Node::Emphasis { children } => spec_inline_nodes(cfg, children@, bold, true, base, mono),
        Node::Strong { children } => spec_inline_nodes(cfg, children@, true, italic, base, mono),
        Node::Break => seq![RunV::LineBreak],
        _ => spec_opt_run(cfg, spec_plain_text(seq![node]), bold, italic, mono, base),
    }
}

/// The runs a sequence of inline nodes produces, in order.
pub open spec fn spec_inline_nodes(
    cfg: DocxExporter,
    nodes: Seq<Node>,
    bold: bool,
    italic: bool,
    base: usize,
    mono: bool,
) -> Seq<RunV>
    decreases nodes_size(nodes), 1int,
    via spec_inline_nodes_dec
{
    if nodes.len() == 0 {
        seq![]
    } else {
        spec_inline_node(cfg, nodes[0], bold, italic, base, mono) + spec_inline_nodes(
            cfg,
            nodes.subrange(1, nodes.len() as int),
            bold,
            italic,
            base,
            mono,
        )
    }
}

#[via_fn]
proof fn spec_inline_nodes_dec(
    cfg: DocxExporter,
    nodes: Seq<Node>,
    bold: bool,
    italic: bool,
    base: usize,
    mono: bool,
) {
    if nodes.len() > 0 {
        lemma_node_size_pos(nodes[0]);
    }
}

// ---------------------------------------------------------------------
// Specification: block rendering
// ---------------------------------------------------------------------
/// The paragraph of a source heading: spacing and size from the depth,
/// inline children rendered at the heading size. Sizing alone conveys the
/// heading: no style is forced, so a run is bold or italic only where the
/// source marks it so.
pub open spec fn spec_heading_para(cfg: DocxExporter, depth: int, children: Seq<Node>) -> ParagraphV {
    let size = spec_heading_font_size(cfg.default_font_size as int, depth);
    let sp = spec_heading_spacing(cfg.default_font_size as int, depth);
    ParagraphV {
        runs: spec_inline_nodes(cfg, children, false, false, size as usize, false),
        spacing: Some(Spacing { before: sp.0 as u32, after: sp.1 as u32 }),
        indent: None,
    }
}

/// An ordinary body paragraph holding the given runs.
pub open spec fn spec_body_para(cfg: DocxExporter, runs: Seq<RunV>) -> ParagraphV {
    let sp = spec_body_spacing(cfg.default_font_size as int);
    ParagraphV {
        runs,
        spacing: Some(Spacing { before: sp.0 as u32, after: sp.1 as u32 }),
        indent: None,
    }
}

/// Whether a paragraph is promoted to a synthetic heading: its sole child
/// is a strong node, or a strong node followed by text that begins with a
/// line break.
pub open spec fn spec_is_strong_line_heading(node: Node) -> bool {
    match node {
        Node::Paragraph { children } => if children@.len() == 1 {
            children@[0] is Strong
        } else if children@.len() == 2 {
            children@[0] is Strong && match children@[1] {
                Node::Text { value } => value@.len() > 0 && value@[0] == '\n',
                _ => false,
            }
        } else {
            false
        },
        _ => false,
    }
}

/// The children of a paragraph node, or nothing for any other kind.
pub open spec fn spec_paragraph_children(node: Node) -> Seq<Node> {
    match node {
        Node::Paragraph { children } => children@,
        _ => seq![],
    }
}

/// The paragraphs a promoted paragraph splits into: a depth-2 heading
/// made from the strong child, followed by one body paragraph holding the
/// remaining text with its leading line breaks stripped, or by nothing
/// when that remainder is empty.
pub open spec fn spec_split_heading(cfg: DocxExporter, children: Seq<Node>) -> Seq<ParagraphV> {
    let heading = spec_heading_para(cfg, 2, seq![children[0]]);
    if children.len() == 1 {
        seq![heading]
    } else {
        match children[1] {
            Node::Text { value } => {
                let rest = spec_strip_leading(value@, '\n');
                if rest.len() == 0 {
                    seq![heading]
                } else {
                    seq![
                        heading,
                        spec_body_para(
                            cfg,
                            spec_segments_runs(
                                cfg,
                                spec_split_char(rest, '\n'),
                                false,
                                false,
                                false,
                                0,
                            ),
                        ),
                    ]
                }
            },
            _ => seq![heading],
        }
    }
}

/// The run of one code line: monospace, at the body size.
pub open spec fn spec_code_line_run(cfg: DocxExporter, line: Seq<char>) -> RunV {
    RunV::Text {
        text: line,
        bold: false,
        italic: false,
        font: FontFamily::Mono,
        size: cfg.default_font_size,
    }
}

/// The runs of a code block: one run per line, an explicit line break
/// between successive lines and never after the last.
pub open spec fn spec_code_runs(cfg: DocxExporter, lines: Seq<Seq<char>>) -> Seq<RunV>
    decreases lines.len(),
{
    if lines.len() == 0 {
        seq![]
    } else if lines.len() == 1 {
        seq![spec_code_line_run(cfg, lines[0])]
    } else {
        seq![spec_code_line_run(cfg, lines[0]), RunV::LineBreak] + spec_code_runs(
            cfg,
            lines.subrange(1, lines.len() as int),
        )
    }
}

/// The paragraph of a code block: body spacing, zero left indent, lines
/// as monospace runs.
pub open spec fn spec_code_para(cfg: DocxExporter, value: Seq<char>) -> ParagraphV {
    let sp = spec_body_spacing(cfg.default_font_size as int);
    ParagraphV {
        runs: spec_code_runs(cfg, spec_lines(value)),
        spacing: Some(Spacing { before: sp.0 as u32, after: sp.1 as u32 }),
        indent: Some(Indent { left: 0, hanging: None }),
    }
}

/// The marker text of a list item: the ordinal and a dot for ordered
/// lists, a bullet for unordered ones; a space follows either.
pub open spec fn spec_marker_text(ordered: bool, index: int) -> Seq<char> {
    if ordered {
        spec_decimal(index) + seq!['.', ' ']
    } else {
        seq!['\u{2022}', ' ']
    }
}

/// The paragraph of one paragraph-like child of a list item. The first
/// carries the marker as a bold run and a hanging indent; later ones get
/// the same left indent with no marker and no hanging indent.
pub open spec fn spec_item_para(
    cfg: DocxExporter,
    pchildren: Seq<Node>,
    first: bool,
    ordered: bool,
    index: int,
    depth: int,
) -> ParagraphV {
    let inline = spec_inline_nodes(cfg, pchildren, false, false, 0, false);
    if first {
        ParagraphV {
            runs: seq![
                RunV::Text {
                    text: spec_marker_text(ordered, index),
                    bold: true,
                    italic: false,
                    font: FontFamily::Unspecified,
                    size: 0,
                },
            ] + inline,
            spacing: None,
            indent: Some(
                Indent { left: spec_list_indent(depth) as i32, hanging: Some(360) },
            ),
        }
    } else {
        ParagraphV {
            runs: inline,
            spacing: None,
            indent: Some(Indent { left: spec_list_indent(depth) as i32, hanging: None }),
        }
    }
}

/// The paragraphs of the children of one list item: the first
/// paragraph-like child gets the marker, nested lists recurse one level
/// deeper, and any other child goes through the block dispatcher one
/// level deeper.
pub open spec fn spec_item_children(
    cfg: DocxExporter,
    children: Seq<Node>,
    first: bool,
    ordered: bool,
    index: int,
    depth: int,
) -> Seq<ParagraphV>
    decreases nodes_size(children), 4int,
    via spec_item_children_dec
{
    if children.len() == 0 {
        seq![]
    } else {
        let tail = children.subrange(1, children.len() as int);
        match children[0] {
            Node::Paragraph { children: pc } => seq![
                spec_item_para(cfg, pc@, first, ordered, index, depth),
            ] + spec_item_children(cfg, tail, false, ordered, index, depth),
            Node::List { .. } => spec_list(cfg, children[0], spec_depth_inc(depth))
                + spec_item_children(cfg, tail, first, ordered, index, depth),
            _ => spec_block(cfg, children[0], spec_depth_inc(depth)) + spec_item_children(
                cfg,
                tail,
                first,
                ordered,
                index,
                depth,
            ),
        }
    }
}

#[via_fn]
proof fn spec_item_children_dec(
    cfg: DocxExporter,
    children: Seq<Node>,
    first: bool,
    ordered: bool,
    index: int,
    depth: int,
) {
    if children.len() > 0 {
        lemma_node_size_pos(children[0]);
    }
}

/// The paragraphs of a list's items. The ordinal advances once per item
/// of an ordered list, regardless of the item's content; children that
/// are not list items are skipped.
pub open spec fn spec_list_items(
    cfg: DocxExporter,
    items: Seq<Node>,
    ordered: bool,
    index: int,
    depth: int,
) -> Seq<ParagraphV>
    decreases nodes_size(items), 1int,
    via spec_list_items_dec
{
    if items.len() == 0 {
        seq![]
    } else {
        let tail = items.subrange(1, items.len() as int);
        match items[0] {
            Node::ListItem { children } => spec_item_children(
                cfg,
                children@,
                true,
                ordered,
                index,
                depth,
            ) + spec_list_items(
                cfg,
                tail,
                ordered,
                if ordered {
                    index + 1
                } else {
                    index
                },
                depth,
            ),
            _ => spec_list_items(cfg, tail, ordered, index, depth),
        }
    }
}

#[via_fn]
proof fn spec_list_items_dec(
    cfg: DocxExporter,
    items: Seq<Node>,
    ordered: bool,
    index: int,
    depth: int,
) {
    if items.len() > 0 {
        lemma_node_size_pos(items[0]);
        match items[0] {
            Node::ListItem { children } => {
                assert(node_size(items[0]) == 1 + nodes_size(children@));
            },
            _ => {},
        }
    }
}

/// The paragraphs of a list node: its items starting at the configured
/// ordinal, or 1. Anything that is not a list produces nothing here.
pub open spec fn spec_list(cfg: DocxExporter, node: Node, depth: int) -> Seq<ParagraphV>
    decreases node_size(node), 2int,
{
    match node {
        Node::List { ordered, start, children } => {
            let begin = match start {
                Some(v) => v as int,
                None => 1,
            };
            spec_list_items(cfg, children@, ordered, begin, depth)
        },
        _ => seq![],
    }
}

/// The paragraphs one block node produces: paragraphs run through the
/// promotion heuristic, headings and code blocks become one paragraph
/// each, lists recurse, stray inline nodes are wrapped into one body
/// paragraph, and unknown kinds produce nothing.
pub open spec fn spec_block(cfg: DocxExporter, node: Node, depth: int) -> Seq<ParagraphV>
    decreases node_size(node), 3int,
{
    match node {
        Node::Paragraph { children } => if spec_is_strong_line_heading(node) {
            spec_split_heading(cfg, children@)
        } else {
            seq![spec_body_para(cfg, spec_inline_nodes(cfg, children@, false, false, 0, false))]
        },
        Node::Heading { depth: d, children } => seq![spec_heading_para(cfg, d as int, children@)],
        Node::Code { value, .. } => seq![spec_code_para(cfg, value@)],
        Node::List { .. } => spec_list(cfg, node, depth),
        Node::Text { .. } => seq![
            spec_body_para(cfg, spec_inline_node(cfg, node, false, false, 0, false)),
        ],
        Node::Strong { .. } => seq![
            spec_body_para(cfg, spec_inline_node(cfg, node, false, false, 0, false)),
        ],
        Node::Emphasis { .. } => seq![
            spec_body_para(cfg, spec_inline_node(cfg, node, false, false, 0, false)),
        ],
        Node::Break => seq![
            spec_body_para(cfg, spec_inline_node(cfg, node, false, false, 0, false)),
        ],
        Node::InlineCode { .. } => seq![
            spec_body_para(cfg, spec_inline_node(cfg, node, false, false, 0, false)),
        ],
        _ => seq![],
    }
}

/// The paragraphs of a whole document: its top-level blocks in order, at
/// nesting depth zero.
pub open spec fn spec_document(cfg: DocxExporter, blocks: Seq<Node>) -> Seq<ParagraphV>
    decreases blocks.len(),
{
    if blocks.len() == 0 {
        seq![]
    } else {
        spec_block(cfg, blocks[0], 0) + spec_document(cfg, blocks.subrange(1, blocks.len() as int))
    }
}

// ---------------------------------------------------------------------
// Executable renderer
// ---------------------------------------------------------------------
impl DocxExporter {
    /// A new exporter over the two font families and the body size in
    /// half-points.
    pub fn new(default_font_family: &str, mono_font_family: &str, default_font_size: usize) -> (r:
        Self)
        ensures
            r.default_font_family@ == default_font_family@,
            r.mono_font_family@ == mono_font_family@,
            r.default_font_size == default_font_size,
    {
        DocxExporter {
            default_font_family: crate::textutil::chars_of(default_font_family),
            mono_font_family: crate::textutil::chars_of(mono_font_family),
            default_font_size,
        }
    }

    /// Heading font size in half-points for the given depth.
    pub fn heading_font_size(&self, depth: usize) -> (r: usize)
        ensures
            r as int == spec_heading_font_size(self.default_font_size as int, depth as int),
    {
        let m: u128 = if depth == 1 {
            160
        } else if depth == 2 {
            145
        } else if depth == 3 {
            130
        } else if depth == 4 {
            115
        } else if depth == 5 {
            105
        } else {
            100
        };
        proof {
            vstd::arithmetic::mul::lemma_mul_inequality(
                m as int,
                160,
                self.default_font_size as int,
            );
            vstd::arithmetic::mul::lemma_mul_is_commutative(m as int, self.default_font_size as int);
        }
        let raw: u128 = (self.default_font_size as u128 * m + 50) / 100;
        let clamped: u128 = if raw < 2 {
            2
        } else if raw > 400 {
            400
        } else {
            raw
        };
        clamped as usize
    }

    /// Heading spacing (before, after) in twips for the given depth.
    pub fn heading_spacing(&self, depth: usize) -> (r: (u32, u32))
        ensures
            spec_heading_spacing(self.default_font_size as int, depth as int) == (
                r.0 as int,
                r.1 as int,
            ),
    {
        let (base_before, base_after): (u128, u128) = if depth == 1 {
            (360, 180)
        } else if depth == 2 {
            (320, 160)
        } else if depth == 3 {
            (300, 140)
        } else {
            (240, 120)
        };
        (self.scale_spacing(base_before), self.scale_spacing(base_after))
    }

    /// One spacing baseline rescaled to the configured body size.
    fn scale_spacing(&self, base: u128) -> (r: u32)
        requires
            base <= 360,
        ensures
            r as int == crate::scale::spec_scaled_spacing(base as int, self.default_font_size as int),
    {
        proof {
            vstd::arithmetic::mul::lemma_mul_inequality(
                base as int,
                360,
                self.default_font_size as int,
            );
            vstd::arithmetic::mul::lemma_mul_is_commutative(
                base as int,
                self.default_font_size as int,
            );
        }
        let rounded: u128 = (base * self.default_font_size as u128 + 11) / 22;
        let floored: u128 = if rounded < 20 {
            20
        } else {
            rounded
        };
        if floored > u32::MAX as u128 {
            u32::MAX
        } else {
            floored as u32
        }
    }

    /// Body paragraph spacing (before, after) in twips: zero before, a
    /// rescaled baseline after.
    pub fn body_paragraph_spacing(&self) -> (r: (u32, u32))
        ensures
            spec_body_spacing(self.default_font_size as int) == (r.0 as int, r.1 as int),
    {
        (0, self.scale_spacing(160))
    }

    /// Left indentation in twips of a list at the given nesting depth.
    pub fn list_left_indent(depth: usize) -> (r: i32)
        ensures
            r as int == spec_list_indent(depth as int),
    {
        proof {
            vstd::arithmetic::mul::lemma_mul_inequality(depth as int, usize::MAX as int, 360);
            vstd::arithmetic::mul::lemma_mul_is_commutative(depth as int, 360);
        }
        let raw: u128 = 720 + depth as u128 * 360;
        if raw > i32::MAX as u128 {
            i32::MAX
        } else {
            raw as i32
        }
    }

    /// An empty body paragraph carrying the body spacing.
    fn new_body_paragraph(&self) -> (r: Paragraph)
        ensures
            r@ == spec_body_para(*self, Seq::<RunV>::empty()),
    {
        let sp = self.body_paragraph_spacing();
        let r = Paragraph {
            runs: Vec::new(),
            spacing: Some(Spacing { before: sp.0, after: sp.1 }),
            indent: None,
        };
        proof {
            assert(r@.runs =~= Seq::<RunV>::empty());
        }
        r
    }

    /// Appends one styled run holding `text` to the paragraph, or nothing
    /// when `text` is empty.
    pub fn add_text_run(
        &self,
        paragraph: Paragraph,
        text: &Vec<char>,
        bold: bool,
        italic: bool,
        mono: bool,
        size: usize,
    ) -> (r: Paragraph)
        ensures
            r@.runs == paragraph@.runs + spec_opt_run(*self, text@, bold, italic, mono, size),
            r@.spacing == paragraph@.spacing,
            r@.indent == paragraph@.indent,
    {
        let mut p = paragraph;
        self.push_opt_run(&mut p.runs, text, bold, italic, mono, size);
        p
    }

    /// Pushes one styled run holding `text`, or nothing when `text` is
    /// empty.
    fn push_opt_run(
        &self,
        out: &mut Vec<Run>,
        text: &Vec<char>,
        bold: bool,
        italic: bool,
        mono: bool,
        size: usize,
    )
        ensures
            final(out).deep_view() == old(out).deep_view() + spec_opt_run(
                *self,
                text@,
                bold,
                italic,
                mono,
                size,
            ),
    {
        if text.len() == 0 {
            proof {
                assert(out.deep_view() =~= out.deep_view() + spec_opt_run(
                    *self,
                    text@,
                    bold,
                    italic,
                    mono,
                    size,
                ));
            }
            return ;
        }
        let font = if mono {
            FontFamily::Mono
        } else {
            FontFamily::Body
        };
        let effective = if size > 0 {
            size
        } else {
            self.default_font_size
        };
        out.push(Run::Text { text: text.clone(), bold, italic, font, size: effective });
        proof {
            assert(out.deep_view() =~= old(out).deep_view() + spec_opt_run(
                *self,
                text@,
                bold,
                italic,
                mono,
                size,
            ));
        }
    }

    /// Pushes the runs of the text segments from position `k` on: one run
    /// per non-empty segment, breaks between segments.
    fn segment_runs(
        &self,
        out: &mut Vec<Run>,
        segs: &Vec<Vec<char>>,
        k: usize,
        bold: bool,
        italic: bool,
        mono: bool,
        base: usize,
    )
        requires
            k <= segs@.len(),
        ensures
            final(out).deep_view() == old(out).deep_view() + spec_segments_runs(
                *self,
                segs.deep_view().subrange(k as int, segs.deep_view().len() as int),
                bold,
                italic,
                mono,
                base,
            ),
        decreases segs@.len() - k,
    {
        let ghost sv = segs.deep_view();
        let ghost suffix = sv.subrange(k as int, sv.len() as int);
        if k == segs.len() {
            proof {
                assert(out.deep_view() =~= out.deep_view() + spec_segments_runs(
                    *self,
                    suffix,
                    bold,
                    italic,
                    mono,
                    base,
                ));
            }
            return ;
        }
        proof {
            assert(sv[k as int] =~= segs@[k as int]@);
        }
        self.push_opt_run(out, &segs[k], bold, italic, mono, base);
        if k + 1 < segs.len() {
            let ghost mid = out.deep_view();
            out.push(Run::LineBreak);
            proof {
                assert(out.deep_view() =~= mid + seq![RunV::LineBreak]);
            }
        }
        self.segment_runs(out, segs, k + 1, bold, italic, mono, base);
        proof {
            assert(suffix[0] == sv[k as int]);
            assert(suffix.subrange(1, suffix.len() as int) =~= sv.subrange(
                k + 1,
                sv.len() as int,
            ));
            assert(out.deep_view() =~= old(out).deep_view() + spec_segments_runs(
                *self,
                suffix,
                bold,
                italic,
                mono,
                base,
            ));
        }
    }

    /// The plain text one node contributes when flattened.
    fn plain_piece(&self, node: &Node) -> (r: Vec<char>)
        ensures
            r@ == spec_plain_piece(*node),
    {
        match node {
            Node::Text { value } => value.clone(),
            Node::InlineCode { value } => value.clone(),
            Node::Break => {
                let v = vec!['\n'];
                proof {
                    assert(v@ =~= seq!['\n']);
                }
                v
            },
            _ => Vec::new(),
        }
    }

    /// Flattens a sequence of nodes to plain text without recursing below
    /// them: text and inline-code values, a line separator per break.
    pub fn collect_plain_text(&self, nodes: &Vec<Node>) -> (r: Vec<char>)
        ensures
            r@ == spec_plain_text(nodes@),
    {
        let r = self.plain_from(nodes, 0);
        proof {
            assert(nodes@.subrange(0, nodes@.len() as int) =~= nodes@);
        }
        r
    }

    /// Plain text of the nodes from position `i` on.
    fn plain_from(&self, nodes: &Vec<Node>, i: usize) -> (r: Vec<char>)
        requires
            i <= nodes@.len(),
        ensures
            r@ == spec_plain_text(nodes@.subrange(i as int, nodes@.len() as int)),
        decreases nodes@.len() - i,
    {
        let ghost suffix = nodes@.subrange(i as int, nodes@.len() as int);
        if i == nodes.len() {
            let r: Vec<char> = Vec::new();
            proof {
                assert(r@ =~= spec_plain_text(suffix));
            }
            return r;
        }
        let mut head = self.plain_piece(&nodes[i]);
        let mut tail = self.plain_from(nodes, i + 1);
        head.append(&mut tail);
        proof {
            assert(suffix[0] == nodes@[i as int]);
            assert(suffix.subrange(1, suffix.len() as int) =~= nodes@.subrange(
                i + 1,
                nodes@.len() as int,
            ));
            assert(head@ =~= spec_plain_text(suffix));
        }
        head
    }

    /// Pushes the runs one inline node produces under the style context.
    fn inline_node_runs(
        &self,
        out: &mut Vec<Run>,
        node: &Node,
        bold: bool,
        italic: bool,
        base: usize,
        mono: bool,
    )
        ensures
            final(out).deep_view() == old(out).deep_view() + spec_inline_node(
                *self,
                *node,
                bold,
                italic,
                base,
                mono,
            ),
        decreases node_size(*node), 0int,
    {
        match node {
            Node::Text { value } => {
                let segs = crate::textutil::split_char(value, '\n');
                proof {
                    assert(segs.deep_view().subrange(0, segs.deep_view().len() as int)
                        =~= segs.deep_view());
                }
                self.segment_runs(out, &segs, 0, bold, italic, mono, base);
            },
            Node::InlineCode { value } => {
                self.push_opt_run(out, value, bold, italic, true, base);
            },
            Node::Code { value, .. } => {
                self.push_opt_run(out, value, bold, italic, true, base);
            },
            Node::Emphasis { children } => {
                proof {
                    assert(nodes_size(children@.subrange(0, children@.len() as int)) == nodes_size(
                        children@,
                    )) by {
                        assert(children@.subrange(0, children@.len() as int) =~= children@);
                    }
                }
                self.inline_nodes_runs(out, children, 0, bold, true, base, mono);
                proof {
                    assert(children@.subrange(0, children@.len() as int) =~= children@);
                }
            },
            Node::Strong { children } => {
                proof {
                    assert(nodes_size(children@.subrange(0, children@.len() as int)) == nodes_size(
                        children@,
                    )) by {
                        assert(children@.subrange(0, children@.len() as int) =~= children@);
                    }
                }
                self.inline_nodes_runs(out, children, 0, true, italic, base, mono);
                proof {
                    assert(children@.subrange(0, children@.len() as int) =~= children@);
                }
            },
            Node::Break => {
                out.push(Run::LineBreak);
                proof {
                    assert(out.deep_view() =~= old(out).deep_view() + seq![RunV::LineBreak]);
                }
            },
            _ => {
                let txt = self.plain_piece(node);
                proof {
                    assert(spec_plain_text(seq![*node]) =~= spec_plain_piece(*node)
                        + spec_plain_text(Seq::<Node>::empty())) by {
                        assert(seq![*node].subrange(1, 1) =~= Seq::<Node>::empty());
                    }
                    assert(spec_plain_text(seq![*node]) =~= txt@);
                }
                self.push_opt_run(out, &txt, bold, italic, mono, base);
            },
        }
    }

    /// Pushes the runs of the inline nodes from position `i` on.
    fn inline_nodes_runs(
        &self,
        out: &mut Vec<Run>,
        nodes: &Vec<Node>,
        i: usize,
        bold: bool,
        italic: bool,
        base: usize,
        mono: bool,
    )
        requires
            i <= nodes@.len(),
        ensures
            final(out).deep_view() == old(out).deep_view() + spec_inline_nodes(
                *self,
                nodes@.subrange(i as int, nodes@.len() as int),
                bold,
                italic,
                base,
                mono,
            ),
        decreases nodes_size(nodes@.subrange(i as int, nodes@.len() as int)), 1int,
    {
        let ghost suffix = nodes@.subrange(i as int, nodes@.len() as int);
        if i == nodes.len() {
            proof {
                assert(out.deep_view() =~= out.deep_view() + spec_inline_nodes(
                    *self,
                    suffix,
                    bold,
                    italic,
                    base,
                    mono,
                ));
            }
            return ;
        }
        proof {
            lemma_nodes_size_peel(nodes@, i as int);
            lemma_node_size_pos(nodes@[i as int]);
        }
        self.inline_node_runs(out, &nodes[i], bold, italic, base, mono);
        self.inline_nodes_runs(out, nodes, i + 1, bold, italic, base, mono);
        proof {
            assert(suffix[0] == nodes@[i as int]);
            assert(suffix.subrange(1, suffix.len() as int) =~= nodes@.subrange(
                i + 1,
                nodes@.len() as int,
            ));
            assert(out.deep_view() =~= old(out).deep_view() + spec_inline_nodes(
                *self,
                suffix,
                bold,
                italic,
                base,
                mono,
            ));
        }
    }

    /// Appends the runs of the given inline nodes to a paragraph under
    /// the given style context; paragraph attributes are untouched.
    pub fn append_inline_children_with_base(
        &self,
        paragraph: Paragraph,
        nodes: &Vec<Node>,
        force_bold: bool,
        force_italic: bool,
        base_size: usize,
        mono: bool,
    ) -> (r: Paragraph)
        ensures
            r@.runs == paragraph@.runs + spec_inline_nodes(
                *self,
                nodes@,
                force_bold,
                force_italic,
                base_size,
                mono,
            ),
            r@.spacing == paragraph@.spacing,
            r@.indent == paragraph@.indent,
    {
        let mut p = paragraph;
        self.inline_nodes_runs(&mut p.runs, nodes, 0, force_bold, force_italic, base_size, mono);
        proof {
            assert(nodes@.subrange(0, nodes@.len() as int) =~= nodes@);
        }
        p
    }

    /// Whether a paragraph node is promoted to a synthetic heading.
    pub fn is_strong_line_heading(&self, node: &Node) -> (r: bool)
        ensures
            r == spec_is_strong_line_heading(*node),
    {
        match node {
            Node::Paragraph { children } => {
                if children.len() == 1 {
                    matches!(children[0], Node::Strong { .. })
                } else if children.len() == 2 {
                    if matches!(children[0], Node::Strong { .. }) {
                        match &children[1] {
                            Node::Text { value } => value.len() > 0 && value[0] == '\n',
                            _ => false,
                        }
                    } else {
                        false
                    }
                } else {
                    false
                }
            },
            _ => false,
        }
    }

    /// The paragraph of a source heading node.
    pub fn render_heading_node(&self, depth: u8, children: &Vec<Node>) -> (r: Paragraph)
        ensures
            r@ == spec_heading_para(*self, depth as int, children@),
    {
        let size = self.heading_font_size(depth as usize);
        let sp = self.heading_spacing(depth as usize);
        let p = Paragraph {
            runs: Vec::new(),
            spacing: Some(Spacing { before: sp.0, after: sp.1 }),
            indent: None,
        };
        let r = self.append_inline_children_with_base(p, children, false, false, size, false);
        proof {
            assert(r@.runs =~= spec_heading_para(*self, depth as int, children@).runs);
        }
        r
    }

    /// Splits a promoted paragraph into a depth-2 heading and, when
    /// non-blank text follows the line break, one body paragraph holding
    /// the stripped remainder. Paragraphs that are not promoted pass
    /// through unchanged as `None`.
    pub fn split_paragraph_heading(&self, node: &Node) -> (r: Option<(Paragraph, Option<Paragraph>)>)
        ensures
            (r is Some) == spec_is_strong_line_heading(*node),
            r matches Some(pair) ==> {
                let paras = spec_split_heading(*self, spec_paragraph_children(*node));
                &&& paras.len() == if pair.1 is Some {
                    2int
                } else {
                    1int
                }
                &&& pair.0@ == paras[0]
                &&& (pair.1 matches Some(b) ==> b@ == paras[1])
            },
    {
        if !self.is_strong_line_heading(node) {
            return None;
        }
        match node {
            Node::Paragraph { children } => {
                let size = self.heading_font_size(2);
                let sp = self.heading_spacing(2);
                let mut hp = Paragraph {
                    runs: Vec::new(),
                    spacing: Some(Spacing { before: sp.0, after: sp.1 }),
                    indent: None,
                };
                self.inline_node_runs(&mut hp.runs, &children[0], false, false, size, false);
                let ghost paras = spec_split_heading(*self, children@);
                proof {
                    let single = seq![children@[0]];
                    assert(single.subrange(1, 1).len() == 0);
                    assert(spec_inline_nodes(*self, single.subrange(1, 1), false, false, size, false)
                        =~= Seq::<RunV>::empty());
                    assert(single[0] == children@[0]);
                    assert(spec_inline_nodes(*self, single, false, false, size, false)
                        =~= spec_inline_node(*self, children@[0], false, false, size, false));
                    assert(hp@.runs =~= spec_heading_para(*self, 2, single).runs);
                }
                if children.len() == 1 {
                    return Some((hp, None));
                }
                match &children[1] {
                    Node::Text { value } => {
                        let rest = crate::textutil::strip_leading(value, '\n');
                        if rest.len() == 0 {
                            Some((hp, None))
                        } else {
                            let mut body = self.new_body_paragraph();
                            let segs = crate::textutil::split_char(&rest, '\n');
                            proof {
                                assert(segs.deep_view().subrange(
                                    0,
                                    segs.deep_view().len() as int,
                                ) =~= segs.deep_view());
                            }
                            self.segment_runs(&mut body.runs, &segs, 0, false, false, false, 0);
                            proof {
                                assert(body@.runs =~= paras[1].runs);
                            }
                            Some((hp, Some(body)))
                        }
                    },
                    _ => Some((hp, None)),
                }
            },
            _ => None,
        }
    }

    /// One ordinary paragraph from a paragraph node's children.
    pub fn render_paragraph(&self, children: &Vec<Node>) -> (r: Paragraph)
        ensures
            r@ == spec_body_para(
                *self,
                spec_inline_nodes(*self, children@, false, false, 0, false),
            ),
    {
        let p = self.new_body_paragraph();
        let r = self.append_inline_children_with_base(p, children, false, false, 0, false);
        proof {
            assert(r@.runs =~= spec_inline_nodes(*self, children@, false, false, 0, false));
        }
        r
    }

    /// The paragraph of a code block: the body split at line boundaries,
    /// one monospace run per line with explicit breaks between lines.
    pub fn render_code_block(&self, value: &Vec<char>) -> (r: Paragraph)
        ensures
            r@ == spec_code_para(*self, value@),
    {
        let sp = self.body_paragraph_spacing();
        let mut p = Paragraph {
            runs: Vec::new(),
            spacing: Some(Spacing { before: sp.0, after: sp.1 }),
            indent: Some(Indent { left: 0, hanging: None }),
        };
        let lines = crate::textutil::lines_of(value);
        self.code_runs(&mut p.runs, &lines, 0);
        proof {
            assert(lines.deep_view().subrange(0, lines.deep_view().len() as int) =~= lines.deep_view());
            assert(p@.runs =~= spec_code_runs(*self, spec_lines(value@)));
        }
        p
    }

    /// Pushes the code-line runs from line `k` on.
    fn code_runs(&self, out: &mut Vec<Run>, lines: &Vec<Vec<char>>, k: usize)
        requires
            k <= lines@.len(),
        ensures
            final(out).deep_view() == old(out).deep_view() + spec_code_runs(
                *self,
                lines.deep_view().subrange(k as int, lines.deep_view().len() as int),
            ),
        decreases lines@.len() - k,
    {
        let ghost lv = lines.deep_view();
        let ghost suffix = lv.subrange(k as int, lv.len() as int);
        if k == lines.len() {
            proof {
                assert(out.deep_view() =~= out.deep_view() + spec_code_runs(*self, suffix));
            }
            return ;
        }
        proof {
            assert(lv[k as int] =~= lines@[k as int]@);
        }
        let ghost mid0 = out.deep_view();
        out.push(
            Run::Text {
                text: lines[k].clone(),
                bold: false,
                italic: false,
                font: FontFamily::Mono,
                size: self.default_font_size,
            },
        );
        proof {
            assert(out.deep_view() =~= mid0 + seq![spec_code_line_run(*self, lv[k as int])]);
        }
        if k + 1 < lines.len() {
            let ghost mid = out.deep_view();
            out.push(Run::LineBreak);
            proof {
                assert(out.deep_view() =~= mid + seq![RunV::LineBreak]);
            }
        }
        self.code_runs(out, lines, k + 1);
        proof {
            assert(suffix[0] == lv[k as int]);
            assert(suffix.subrange(1, suffix.len() as int) =~= lv.subrange(k + 1, lv.len() as int));
            assert(out.deep_view() =~= old(out).deep_view() + spec_code_runs(*self, suffix));
        }
    }

    /// The paragraph of one paragraph-like child of a list item.
    fn item_paragraph(
        &self,
        pchildren: &Vec<Node>,
        first: bool,
        ordered: bool,
        index: u128,
        depth: usize,
    ) -> (r: Paragraph)
        ensures
            r@ == spec_item_para(*self, pchildren@, first, ordered, index as int, depth as int),
    {
        let mut runs: Vec<Run> = Vec::new();
        let indent: Indent;
        if first {
            let mut marker: Vec<char>;
            if ordered {
                marker = crate::textutil::decimal_chars(index);
                marker.push('.');
                marker.push(' ');
                proof {
                    assert(marker@ =~= spec_marker_text(ordered, index as int));
                }
            } else {
                marker = vec!['\u{2022}', ' '];
                proof {
                    assert(marker@ =~= spec_marker_text(ordered, index as int));
                }
            }
            runs.push(
                Run::Text {
                    text: marker,
                    bold: true,
                    italic: false,
                    font: FontFamily::Unspecified,
                    size: 0,
                },
            );
            indent = Indent { left: Self::list_left_indent(depth), hanging: Some(360) };
        } else {
            indent = Indent { left: Self::list_left_indent(depth), hanging: None };
        }
        let ghost markerruns = runs.deep_view();
        self.inline_nodes_runs(&mut runs, pchildren, 0, false, false, 0, false);
        proof {
            assert(pchildren@.subrange(0, pchildren@.len() as int) =~= pchildren@);
            let target = spec_item_para(
                *self,
                pchildren@,
                first,
                ordered,
                index as int,
                depth as int,
            );
            assert(runs.deep_view() =~= target.runs);
        }
        Paragraph { runs, spacing: None, indent: Some(indent) }
    }

    /// The paragraphs of one list item's children from position `j` on.
    fn item_children_paras(
        &self,
        children: &Vec<Node>,
        j: usize,
        first: bool,
        ordered: bool,
        index: u128,
        depth: usize,
    ) -> (r: Vec<Paragraph>)
        requires
            j <= children@.len(),
        ensures
            r.deep_view() == spec_item_children(
                *self,
                children@.subrange(j as int, children@.len() as int),
                first,
                ordered,
                index as int,
                depth as int,
            ),
        decreases nodes_size(children@.subrange(j as int, children@.len() as int)), 4int,
    {
        let ghost suffix = children@.subrange(j as int, children@.len() as int);
        if j == children.len() {
            let r: Vec<Paragraph> = Vec::new();
            proof {
                assert(r.deep_view() =~= spec_item_children(
                    *self,
                    suffix,
                    first,
                    ordered,
                    index as int,
                    depth as int,
                ));
            }
            return r;
        }
        proof {
            lemma_nodes_size_peel(children@, j as int);
            lemma_node_size_pos(children@[j as int]);
            assert(suffix[0] == children@[j as int]);
            assert(suffix.subrange(1, suffix.len() as int) =~= children@.subrange(
                j + 1,
                children@.len() as int,
            ));
        }
        let next_first: bool;
        let mut head: Vec<Paragraph>;
        match &children[j] {
            Node::Paragraph { children: pc } => {
                let para = self.item_paragraph(pc, first, ordered, index, depth);
                head = Vec::new();
                head.push(para);
                next_first = false;
            },
            Node::List { .. } => {
                head = self.render_list(&children[j], crate::scale::depth_inc(depth));
                next_first = first;
            },
            _ => {
                head = self.render_block_node(&children[j], crate::scale::depth_inc(depth));
                next_first = first;
            },
        }
        let ghost headv = head.deep_view();
        let mut tail = self.item_children_paras(children, j + 1, next_first, ordered, index, depth);
        let ghost tailv = tail.deep_view();
        head.append(&mut tail);
        proof {
            assert(head.deep_view() =~= headv + tailv);
            assert(head.deep_view() =~= spec_item_children(
                *self,
                suffix,
                first,
                ordered,
                index as int,
                depth as int,
            ));
        }
        head
    }

    /// The paragraphs of a list's items from position `i` on, the next
    /// ordinal being `index`.
    fn list_items_paras(
        &self,
        items: &Vec<Node>,
        i: usize,
        ordered: bool,
        index: u128,
        depth: usize,
    ) -> (r: Vec<Paragraph>)
        requires
            i <= items@.len(),
            index as int <= u32::MAX as int + i as int,
        ensures
            r.deep_view() == spec_list_items(
                *self,
                items@.subrange(i as int, items@.len() as int),
                ordered,
                index as int,
                depth as int,
            ),
        decreases nodes_size(items@.subrange(i as int, items@.len() as int)), 5int,
    {
        let ghost suffix = items@.subrange(i as int, items@.len() as int);
        if i == items.len() {
            let r: Vec<Paragraph> = Vec::new();
            proof {
                assert(r.deep_view() =~= spec_list_items(
                    *self,
                    suffix,
                    ordered,
                    index as int,
                    depth as int,
                ));
            }
            return r;
        }
        proof {
            lemma_nodes_size_peel(items@, i as int);
            lemma_node_size_pos(items@[i as int]);
            assert(suffix[0] == items@[i as int]);
            assert(suffix.subrange(1, suffix.len() as int) =~= items@.subrange(
                i + 1,
                items@.len() as int,
            ));
        }
        match &items[i] {
            Node::ListItem { children } => {
                proof {
                    assert(node_size(items@[i as int]) == 1 + nodes_size(children@));
                    assert(children@.subrange(0, children@.len() as int) =~= children@);
                }
                let mut head = self.item_children_paras(children, 0, true, ordered, index, depth);
                let ghost headv = head.deep_view();
                let next_index = if ordered {
                    index + 1
                } else {
                    index
                };
                let mut tail = self.list_items_paras(items, i + 1, ordered, next_index, depth);
                let ghost tailv = tail.deep_view();
                head.append(&mut tail);
                proof {
                    assert(head.deep_view() =~= headv + tailv);
                    assert(head.deep_view() =~= spec_list_items(
                        *self,
                        suffix,
                        ordered,
                        index as int,
                        depth as int,
                    ));
                }
                head
            },
            _ => {
                let r = self.list_items_paras(items, i + 1, ordered, index, depth);
                proof {
                    assert(r.deep_view() =~= spec_list_items(
                        *self,
                        suffix,
                        ordered,
                        index as int,
                        depth as int,
                    ));
                }
                r
            },
        }
    }

    /// The paragraphs of a list node at the given nesting depth: markers
    /// computed from the configured start ordinal, indentation from the
    /// depth.
    pub fn render_list(&self, node: &Node, depth: usize) -> (r: Vec<Paragraph>)
        ensures
            r.deep_view() == spec_list(*self, *node, depth as int),
        decreases node_size(*node), 2int,
    {
        match node {
            Node::List { ordered, start, children } => {
                let begin: u128 = match start {
                    Some(v) => *v as u128,
                    None => 1,
                };
                proof {
                    assert(node_size(*node) == 1 + nodes_size(children@));
                    assert(children@.subrange(0, children@.len() as int) =~= children@);
                }
                let r = self.list_items_paras(children, 0, *ordered, begin, depth);
                proof {
                    assert(r.deep_view() =~= spec_list(*self, *node, depth as int));
                }
                r
            },
            _ => Vec::new(),
        }
    }

    /// The paragraphs one block node produces at the given nesting depth.
    pub fn render_block_node(&self, node: &Node, depth: usize) -> (r: Vec<Paragraph>)
        ensures
            r.deep_view() == spec_block(*self, *node, depth as int),
        decreases node_size(*node), 3int,
    {
        let ghost target = spec_block(*self, *node, depth as int);
        match node {
            Node::Paragraph { children } => {
                match self.split_paragraph_heading(node) {
                    Some((h, rest)) => {
                        let mut v: Vec<Paragraph> = Vec::new();
                        v.push(h);
                        match rest {
                            Some(b) => {
                                v.push(b);
                            },
                            None => {},
                        }
                        proof {
                            assert(v.deep_view() =~= target);
                        }
                        v
                    },
                    None => {
                        let para = self.render_paragraph(children);
                        let mut v: Vec<Paragraph> = Vec::new();
                        v.push(para);
                        proof {
                            assert(v.deep_view() =~= target);
                        }
                        v
                    },
                }
            },
            Node::Heading { depth: d, children } => {
                let para = self.render_heading_node(*d, children);
                let mut v: Vec<Paragraph> = Vec::new();
                v.push(para);
                proof {
                    assert(v.deep_view() =~= target);
                }
                v
            },
            Node::Code { value, .. } => {
                let para = self.render_code_block(value);
                let mut v: Vec<Paragraph> = Vec::new();
                v.push(para);
                proof {
                    assert(v.deep_view() =~= target);
                }
                v
            },
            Node::List { .. } => self.render_list(node, depth),
            Node::Text { .. } | Node::Strong { .. } | Node::Emphasis { .. } | Node::Break
                | Node::InlineCode { .. } => {
                let mut para = self.new_body_paragraph();
                self.inline_node_runs(&mut para.runs, node, false, false, 0, false);
                let mut v: Vec<Paragraph> = Vec::new();
                v.push(para);
                proof {
                    assert(para@.runs =~= spec_inline_node(*self, *node, false, false, 0, false));
                    assert(v.deep_view() =~= target);
                }
                v
            },
            _ => {
                let v: Vec<Paragraph> = Vec::new();
                proof {
                    assert(v.deep_view() =~= target);
                }
                v
            },
        }
    }

    /// The whole document model: the paragraphs of the given top-level
    /// blocks in order.
    pub fn render_document(&self, blocks: &Vec<Node>) -> (r: Vec<Paragraph>)
        ensures
            r.deep_view() == spec_document(*self, blocks@),
    {
        let r = self.blocks_from(blocks, 0);
        proof {
            assert(blocks@.subrange(0, blocks@.len() as int) =~= blocks@);
        }
        r
    }

    /// The paragraphs of the blocks from position `i` on.
    fn blocks_from(&self, blocks: &Vec<Node>, i: usize) -> (r: Vec<Paragraph>)
        requires
            i <= blocks@.len(),
        ensures
            r.deep_view() == spec_document(
                *self,
                blocks@.subrange(i as int, blocks@.len() as int),
            ),
        decreases blocks@.len() - i,
    {
        let ghost suffix = blocks@.subrange(i as int, blocks@.len() as int);
        if i == blocks.len() {
            let r: Vec<Paragraph> = Vec::new();
            proof {
                assert(r.deep_view() =~= spec_document(*self, suffix));
            }
            return r;
        }
        let mut head = self.render_block_node(&blocks[i], 0);
        let ghost headv = head.deep_view();
        let mut tail = self.blocks_from(blocks, i + 1);
        let ghost tailv = tail.deep_view();
        head.append(&mut tail);
        proof {
            assert(suffix[0] == blocks@[i as int]);
            assert(suffix.subrange(1, suffix.len() as int) =~= blocks@.subrange(
                i + 1,
                blocks@.len() as int,
            ));
            assert(head.deep_view() =~= headv + tailv);
            assert(head.deep_view() =~= spec_document(*self, suffix));
        }
        head
    }
}

/// Whether a run keeps a forced bold flag: text runs must carry it; line
/// breaks carry no style.
pub open spec fn run_keeps_bold(r: RunV) -> bool {
    match r {
        RunV::Text { bold, .. } => bold,
        RunV::LineBreak => true,
    }
}

/// Whether a run keeps a forced italic flag.
pub open spec fn run_keeps_italic(r: RunV) -> bool {
    match r {
        RunV::Text { italic, .. } => italic,
        RunV::LineBreak => true,
    }
}

/// Style forcing is monotone: once bold or italic is forced on entry to
/// an inline subtree, every text run produced anywhere below it carries
/// that flag — no descendant can unset it.
pub proof fn lemma_forced_style_kept(
    cfg: DocxExporter,
    node: Node,
    bold: bool,
    italic: bool,
    base: usize,
    mono: bool,
)
    ensures
        forall|k: int|
            0 <= k < spec_inline_node(cfg, node, bold, italic, base, mono).len() ==> ((bold
                ==> run_keeps_bold(#[trigger] spec_inline_node(cfg, node, bold, italic, base, mono)[k]))
                && (italic ==> run_keeps_italic(
                spec_inline_node(cfg, node, bold, italic, base, mono)[k],
            ))),
    decreases node_size(node), 0int,
{
    let runs = spec_inline_node(cfg, node, bold, italic, base, mono);
    match node {
        Node::Text { value } => {
            lemma_forced_style_kept_segments(
                cfg,
                spec_split_char(value@, '\n'),
                bold,
                italic,
                mono,
                base,
            );
        },
        Node::Emphasis { children } => {
            lemma_forced_style_kept_nodes(cfg, children@, bold, true, base, mono);
        },
        Node::Strong { children } => {
            lemma_forced_style_kept_nodes(cfg, children@, true, italic, base, mono);
        },
        _ => {},
    }
    assert forall|k: int|
        0 <= k < runs.len() implies ((bold ==> run_keeps_bold(#[trigger] runs[k])) && (italic
        ==> run_keeps_italic(runs[k]))) by {
        match node {
            Node::Text { value } => {
                assert(runs[k] == spec_segments_runs(
                    cfg,
                    spec_split_char(value@, '\n'),
                    bold,
                    italic,
                    mono,
                    base,
                )[k]);
            },
            Node::Emphasis { children } => {
                assert(runs[k] == spec_inline_nodes(cfg, children@, bold, true, base, mono)[k]);
            },
            Node::Strong { children } => {
                assert(runs[k] == spec_inline_nodes(cfg, children@, true, italic, base, mono)[k]);
            },
            _ => {},
        }
    }
}

/// Style forcing is monotone across a sequence of inline nodes.
pub proof fn lemma_forced_style_kept_nodes(
    cfg: DocxExporter,
    nodes: Seq<Node>,
    bold: bool,
    italic: bool,
    base: usize,
    mono: bool,
)
    ensures
        forall|k: int|
            0 <= k < spec_inline_nodes(cfg, nodes, bold, italic, base, mono).len() ==> ((bold
                ==> run_keeps_bold(
                #[trigger] spec_inline_nodes(cfg, nodes, bold, italic, base, mono)[k],
            )) && (italic ==> run_keeps_italic(
                spec_inline_nodes(cfg, nodes, bold, italic, base, mono)[k],
            ))),
    decreases nodes_size(nodes), 1int,
{
    if nodes.len() > 0 {
        lemma_node_size_pos(nodes[0]);
        lemma_forced_style_kept(cfg, nodes[0], bold, italic, base, mono);
        lemma_forced_style_kept_nodes(
            cfg,
            nodes.subrange(1, nodes.len() as int),
            bold,
            italic,
            base,
            mono,
        );
        let head = spec_inline_node(cfg, nodes[0], bold, italic, base, mono);
        let tail = spec_inline_nodes(
            cfg,
            nodes.subrange(1, nodes.len() as int),
            bold,
            italic,
            base,
            mono,
        );
        assert forall|k: int|
            0 <= k < spec_inline_nodes(cfg, nodes, bold, italic, base, mono).len() implies ((bold
            ==> run_keeps_bold(
            #[trigger] spec_inline_nodes(cfg, nodes, bold, italic, base, mono)[k],
        )) && (italic ==> run_keeps_italic(
            spec_inline_nodes(cfg, nodes, bold, italic, base, mono)[k],
        ))) by {
            if k < head.len() {
                assert(spec_inline_nodes(cfg, nodes, bold, italic, base, mono)[k] == head[k]);
            } else {
                assert(spec_inline_nodes(cfg, nodes, bold, italic, base, mono)[k] == tail[k
                    - head.len()]);
            }
        }
    }
}

/// Style forcing is monotone across the runs of split text segments.
proof fn lemma_forced_style_kept_segments(
    cfg: DocxExporter,
    segs: Seq<Seq<char>>,
    bold: bool,
    italic: bool,
    mono: bool,
    base: usize,
)
    ensures
        forall|k: int|
            0 <= k < spec_segments_runs(cfg, segs, bold, italic, mono, base).len() ==> ((bold
                ==> run_keeps_bold(
                #[trigger] spec_segments_runs(cfg, segs, bold, italic, mono, base)[k],
            )) && (italic ==> run_keeps_italic(
                spec_segments_runs(cfg, segs, bold, italic, mono, base)[k],
            ))),
    decreases segs.len(),
{
    if segs.len() > 0 {
        lemma_forced_style_kept_segments(
            cfg,
            segs.subrange(1, segs.len() as int),
            bold,
            italic,
            mono,
            base,
        );
        let first = spec_opt_run(cfg, segs[0], bold, italic, mono, base);
        let brk: Seq<RunV> = if segs.len() > 1 {
            seq![RunV::LineBreak]
        } else {
            seq![]
        };
        let rest = spec_segments_runs(
            cfg,
            segs.subrange(1, segs.len() as int),
            bold,
            italic,
            mono,
            base,
        );
        assert forall|k: int|
            0 <= k < spec_segments_runs(cfg, segs, bold, italic, mono, base).len() implies ((bold
            ==> run_keeps_bold(
            #[trigger] spec_segments_runs(cfg, segs, bold, italic, mono, base)[k],
        )) && (italic ==> run_keeps_italic(
            spec_segments_runs(cfg, segs, bold, italic, mono, base)[k],
        ))) by {
            let all = spec_segments_runs(cfg, segs, bold, italic, mono, base);
            if k < first.len() {
                assert(all[k] == first[k]);
            } else if k < first.len() + brk.len() {
                assert(all[k] == RunV::LineBreak);
            } else {
                assert(all[k] == rest[k - first.len() - brk.len()]);
            }
        }
    }
}

/// The text a text node carries, or nothing for any other kind.
pub open spec fn spec_text_value(n: Node) -> Seq<char> {
    match n {
        Node::Text { value } => value@,
        _ => seq![],
    }
}

/// A paragraph whose sole child is a strong node is promoted to exactly
/// one depth-2 heading paragraph holding that child, with no trailing
/// body paragraph.
pub proof fn lemma_sole_strong_promoted(cfg: DocxExporter, node: Node, depth: int)
    requires
        node is Paragraph,
        spec_paragraph_children(node).len() == 1,
        spec_paragraph_children(node)[0] is Strong,
    ensures
        spec_block(cfg, node, depth) == seq![
            spec_heading_para(cfg, 2, seq![spec_paragraph_children(node)[0]]),
        ],
{
    let children = spec_paragraph_children(node);
    assert(spec_is_strong_line_heading(node));
    assert(spec_block(cfg, node, depth) =~= seq![spec_heading_para(cfg, 2, seq![children[0]])]);
}

/// A paragraph of a strong node followed by text that begins with a line
/// break is promoted to a depth-2 heading; the text, with its leading
/// line breaks stripped, follows as exactly one body paragraph when it is
/// non-empty, and as nothing when it is empty.
pub proof fn lemma_strong_text_promoted(cfg: DocxExporter, node: Node, depth: int)
    requires
        node is Paragraph,
        spec_paragraph_children(node).len() == 2,
        spec_paragraph_children(node)[0] is Strong,
        spec_paragraph_children(node)[1] is Text,
        spec_text_value(spec_paragraph_children(node)[1]).len() > 0,
        spec_text_value(spec_paragraph_children(node)[1])[0] == '\n',
    ensures
        ({
            let children = spec_paragraph_children(node);
            let rest = spec_strip_leading(spec_text_value(children[1]), '\n');
            let heading = spec_heading_para(cfg, 2, seq![children[0]]);
            &&& rest.len() == 0 ==> spec_block(cfg, node, depth) == seq![heading]
            &&& rest.len() > 0 ==> spec_block(cfg, node, depth) == seq![
                heading,
                spec_body_para(
                    cfg,
                    spec_segments_runs(cfg, spec_split_char(rest, '\n'), false, false, false, 0),
                ),
            ]
        }),
{
    let children = spec_paragraph_children(node);
    assert(spec_is_strong_line_heading(node));
    let rest = spec_strip_leading(spec_text_value(children[1]), '\n');
    let heading = spec_heading_para(cfg, 2, seq![children[0]]);
    if rest.len() == 0 {
        assert(spec_block(cfg, node, depth) =~= seq![heading]);
    } else {
        assert(spec_block(cfg, node, depth) =~= seq![
            heading,
            spec_body_para(
                cfg,
                spec_segments_runs(cfg, spec_split_char(rest, '\n'), false, false, false, 0),
            ),
        ]);
    }
}

/// How many of a list's children are list items.
pub open spec fn count_list_items(items: Seq<Node>) -> int
    decreases items.len(),
{
    if items.len() == 0 {
        0
    } else {
        (if items[0] is ListItem {
            1int
        } else {
            0int
        }) + count_list_items(items.subrange(1, items.len() as int))
    }
}

/// Where each ordered-list ordinal comes from: the items from position
/// `k` on are numbered from the start ordinal plus the number of list
/// items before `k`. The counter advances once per item, so nothing
/// inside an item — in particular a nested list — moves the outer
/// counter.
pub proof fn lemma_list_counter_split(
    cfg: DocxExporter,
    items: Seq<Node>,
    ordered: bool,
    index: int,
    depth: int,
    k: int,
)
    requires
        0 <= k <= items.len(),
    ensures
        spec_list_items(cfg, items, ordered, index, depth) == spec_list_items(
            cfg,
            items.subrange(0, k),
            ordered,
            index,
            depth,
        ) + spec_list_items(
            cfg,
            items.subrange(k, items.len() as int),
            ordered,
            index + if ordered {
                count_list_items(items.subrange(0, k))
            } else {
                0
            },
            depth,
        ),
    decreases k,
{
    if k == 0 {
        assert(items.subrange(0, 0).len() == 0);
        assert(spec_list_items(cfg, items.subrange(0, 0), ordered, index, depth) =~= Seq::<
            ParagraphV,
        >::empty());
        assert(count_list_items(items.subrange(0, 0)) == 0);
        assert(items.subrange(0, items.len() as int) =~= items);
        assert(spec_list_items(cfg, items, ordered, index, depth) =~= spec_list_items(
            cfg,
            items.subrange(0, 0),
            ordered,
            index,
            depth,
        ) + spec_list_items(cfg, items.subrange(0, items.len() as int), ordered, index, depth));
    } else {
        let tail = items.subrange(1, items.len() as int);
        let index1: int = match items[0] {
            Node::ListItem { .. } => if ordered {
                index + 1
            } else {
                index
            },
            _ => index,
        };
        lemma_list_counter_split(cfg, tail, ordered, index1, depth, k - 1);
        let front = items.subrange(0, k);
        assert(front[0] == items[0]);
        assert(front.subrange(1, front.len() as int) =~= tail.subrange(0, k - 1));
        assert(tail.subrange(k - 1, tail.len() as int) =~= items.subrange(k, items.len() as int));
        assert(count_list_items(front) == (if items[0] is ListItem {
            1int
        } else {
            0int
        }) + count_list_items(tail.subrange(0, k - 1)));
        match items[0] {
            Node::ListItem { children } => {
                let head = spec_item_children(cfg, children@, true, ordered, index, depth);
                assert(spec_list_items(cfg, items, ordered, index, depth) == head
                    + spec_list_items(cfg, tail, ordered, index1, depth));
                assert(spec_list_items(cfg, front, ordered, index, depth) == head
                    + spec_list_items(cfg, tail.subrange(0, k - 1), ordered, index1, depth));
                assert(index1 + (if ordered {
                    count_list_items(tail.subrange(0, k - 1))
                } else {
                    0int
                }) == index + (if ordered {
                    count_list_items(front)
                } else {
                    0int
                }));
                assert(spec_list_items(cfg, items, ordered, index, depth) =~= spec_list_items(
                    cfg,
                    front,
                    ordered,
                    index,
                    depth,
                ) + spec_list_items(
                    cfg,
                    items.subrange(k, items.len() as int),
                    ordered,
                    index + if ordered {
                        count_list_items(front)
                    } else {
                        0
                    },
                    depth,
                ));
            },
            _ => {
                assert(spec_list_items(cfg, items, ordered, index, depth) == spec_list_items(
                    cfg,
                    tail,
                    ordered,
                    index,
                    depth,
                ));
                assert(spec_list_items(cfg, front, ordered, index, depth) == spec_list_items(
                    cfg,
                    tail.subrange(0, k - 1),
                    ordered,
                    index,
                    depth,
                ));
                assert(spec_list_items(cfg, items, ordered, index, depth) =~= spec_list_items(
                    cfg,
                    front,
                    ordered,
                    index,
                    depth,
                ) + spec_list_items(
                    cfg,
                    items.subrange(k, items.len() as int),
                    ordered,
                    index + if ordered {
                        count_list_items(front)
                    } else {
                        0
                    },
                    depth,
                ));
            },
        }
    }
}

impl Default for DocxExporter {
    /// The stock configuration: Times New Roman, Courier New, 11pt body.
    fn default() -> (r: Self)
        ensures
            r.default_font_family@ == "Times New Roman"@,
            r.mono_font_family@ == "Courier New"@,
            r.default_font_size == 22,
    {
        DocxExporter::new("Times New Roman", "Courier New", 22)
    }
}

} // verus!
