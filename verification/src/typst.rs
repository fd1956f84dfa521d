//! The typesetting-source renderer.
//!
//! Walks the document tree and emits typesetting markup text: headings as
//! marker-prefixed lines, emphasis as delimiter pairs, reserved characters
//! escaped with a backslash, and code fences defused so a literal fence
//! delimiter inside a code body cannot close the fence early. The result
//! is substituted for the first placeholder occurrence in a template.

use vstd::prelude::*;

use crate::ast::{lemma_node_size_pos, lemma_nodes_size_peel, node_size, nodes_size, Node};
use crate::textutil::{lemma_remove_char_concat, lemma_remove_char_gone, spec_decimal, spec_lines,
    spec_remove_char, spec_replace_first, spec_trim};

verus! {

/// The media type of the compiled output.
pub const PDF_MIME: &'static str = "application/pdf";

/// The file extension of the compiled output.
pub const PDF_EXTENSION: &'static str = "pdf";

/// The stock template; the renderer's output replaces the placeholder.
pub const DEFAULT_TEMPLATE: &'static str = "\n#set page(paper: \"a4\")\n#set text(font: \"Liberation Serif\", 11pt)\n\n\n{{content}}\n";

/// The placeholder the rendered text is substituted for.
pub const CONTENT_PLACEHOLDER: &'static str = "{{content}}";

/// The typesetting exporter: a template holding one placeholder, and the
/// font data handed to the downstream compiler.
pub struct PdfExporter {
    /// Template text; its first placeholder occurrence receives the
    /// rendered document.
    pub template: Vec<char>,
    /// Font files handed on to the downstream compiler; an empty list
    /// leaves font provision to the caller.
    pub fonts: Vec<Vec<u8>>,
}

/// Whether the typesetting format reserves this character, so that it must
/// be escaped in literal text.
pub open spec fn is_reserved(c: char) -> bool {
    c == '{' || c == '}' || c == '[' || c == ']' || c == '#'
}

/// One character as it appears in escaped literal text.
pub open spec fn spec_escape_char(c: char) -> Seq<char> {
    if is_reserved(c) {
        seq!['\\', c]
    } else {
        seq![c]
    }
}

/// Literal text with every reserved character escaped by a leading
/// backslash.
pub open spec fn spec_escape_text(s: Seq<char>) -> Seq<char>
    decreases s.len(),
{
    if s.len() == 0 {
        seq![]
    } else {
        spec_escape_char(s[0]) + spec_escape_text(s.subrange(1, s.len() as int))
    }
}

/// Code text with every fence delimiter defused: wherever three backticks
/// stand in a row, a zero-width space is inserted after the second, and
/// the scan resumes at the third. A run of any length is thus broken into
/// pairs, so no three consecutive backticks survive and an enclosing
/// fence cannot close early.
pub open spec fn spec_defuse(s: Seq<char>) -> Seq<char>
    decreases s.len(),
{
    if s.len() >= 3 && s[0] == '`' && s[1] == '`' && s[2] == '`' {
        seq!['`', '`', '\u{200b}'] + spec_defuse(s.subrange(2, s.len() as int))
    } else if s.len() == 0 {
        seq![]
    } else {
        seq![s[0]] + spec_defuse(s.subrange(1, s.len() as int))
    }
}

/// The children a node carries, for flattening unknown inline kinds.
pub open spec fn spec_node_children(n: Node) -> Seq<Node> {
    match n {
        Node::Heading { children, .. } => children@,
        Node::Paragraph { children } => children@,
        Node::List { children, .. } => children@,
        Node::ListItem { children } => children@,
        Node::Strong { children } => children@,
        Node::Emphasis { children } => children@,
        Node::Other { children } => children@,
        _ => seq![],
    }
}

/// The markup one inline node emits: escaped text, backtick-wrapped
/// defused code, delimiter-wrapped emphasis, an explicit hard line break,
/// and for any other kind the markup of its children.
pub open spec fn spec_typst_inline(node: Node) -> Seq<char>
    decreases node_size(node), 0int,
{
    match node {
        Node::Text { value } => spec_escape_text(value@),
        Node::InlineCode { value } => seq!['`'] + spec_defuse(value@) + seq!['`'],
        Node::Code { value, .. } => seq!['`'] + spec_defuse(value@) + seq!['`'],
        Node::Strong { children } => seq!['*'] + spec_typst_inlines(children@) + seq!['*'],
        Node::Emphasis { children } => seq!['_'] + spec_typst_inlines(children@) + seq!['_'],
        Node::Break => seq![' ', '\\', '\n'],
        _ => spec_typst_inlines(spec_node_children(node)),
    }
}

/// The markup of a sequence of inline nodes, in order.
pub open spec fn spec_typst_inlines(nodes: Seq<Node>) -> Seq<char>
    decreases nodes_size(nodes), 1int,
    via spec_typst_inlines_dec
{
    if nodes.len() == 0 {
        seq![]
    } else {
        spec_typst_inline(nodes[0]) + spec_typst_inlines(nodes.subrange(1, nodes.len() as int))
    }
}

#[via_fn]
proof fn spec_typst_inlines_dec(nodes: Seq<Node>) {
    if nodes.len() > 0 {
        lemma_node_size_pos(nodes[0]);
        lemma_children_size(nodes[0]);
    }
}

/// A node's children weigh strictly less than the node.
pub proof fn lemma_children_size(n: Node)
    ensures
        nodes_size(spec_node_children(n)) < node_size(n),
{
}

/// A run of `n` copies of one character.
pub open spec fn spec_repeat_char(c: char, n: int) -> Seq<char>
    decreases n,
{
    if n <= 0 {
        seq![]
    } else {
        seq![c] + spec_repeat_char(c, n - 1)
    }
}

/// A blank line: what every emitted block ends with.
pub open spec fn spec_blank_line() -> Seq<char> {
    seq!['\n', '\n']
}

/// The markup one block node emits: a heading line with depth-many
/// markers, a paragraph unless blank after trimming, a fenced code block
/// with its defused body, a list, a stray inline node as a paragraph of
/// its own, and nothing for unknown kinds.
pub open spec fn spec_typst_block(node: Node) -> Seq<char>
    decreases node_size(node), 3int,
{
    match node {
        Node::Heading { depth, children } => seq!['\n'] + spec_repeat_char('=', depth as int)
            + seq![' '] + spec_typst_inlines(children@) + spec_blank_line(),
        Node::Paragraph { children } => {
            let txt = spec_typst_inlines(children@);
            if spec_trim(txt).len() == 0 {
                seq![]
            } else {
                txt + spec_blank_line()
            }
        },
        Node::Code { lang, value } => {
            // The tag may hold no backticks, or it could open a longer
            // fence; any it holds are removed.
            let tag = spec_remove_char(
                match lang {
                    Some(l) => l@,
                    None => seq![],
                },
                '`',
            );
            seq!['`', '`', '`'] + tag + seq!['\n'] + spec_defuse(value@) + seq!['\n', '`', '`', '`']
                + spec_blank_line()
        },
        Node::List { .. } => spec_typst_list(node),
        Node::Text { .. } => spec_typst_stray(node),
        Node::Strong { .. } => spec_typst_stray(node),
        Node::Emphasis { .. } => spec_typst_stray(node),
        Node::InlineCode { .. } => spec_typst_stray(node),
        Node::Break => spec_typst_stray(node),
        _ => seq![],
    }
}

/// A stray inline node at block level: its markup as one paragraph, or
/// nothing when the markup is empty.
pub open spec fn spec_typst_stray(node: Node) -> Seq<char>
    decreases node_size(node), 2int,
    via spec_typst_stray_dec
{
    let txt = spec_typst_inline(node);
    if txt.len() == 0 {
        seq![]
    } else {
        txt + spec_blank_line()
    }
}

#[via_fn]
proof fn spec_typst_stray_dec(node: Node) {
    lemma_node_size_pos(node);
}

/// The indented appended lines of a nested list: each non-blank line of
/// the nested markup on a line of its own, prefixed by two spaces.
pub open spec fn spec_indent_lines(lines: Seq<Seq<char>>) -> Seq<char>
    decreases lines.len(),
{
    if lines.len() == 0 {
        seq![]
    } else {
        let head: Seq<char> = if spec_trim(lines[0]).len() > 0 {
            seq!['\n', ' ', ' '] + lines[0]
        } else {
            seq![]
        };
        head + spec_indent_lines(lines.subrange(1, lines.len() as int))
    }
}

/// The text a list item accumulates from its children: paragraph markup,
/// nested lists indented line by line, anything else through the block
/// renderer.
pub open spec fn spec_typst_item_buf(children: Seq<Node>) -> Seq<char>
    decreases nodes_size(children), 4int,
    via spec_typst_item_buf_dec
{
    if children.len() == 0 {
        seq![]
    } else {
        let tail = children.subrange(1, children.len() as int);
        match children[0] {
            Node::Paragraph { children: pc } => spec_typst_inlines(pc@) + spec_typst_item_buf(tail),
            Node::List { .. } => spec_indent_lines(spec_lines(spec_typst_list(children[0])))
                + spec_typst_item_buf(tail),
            _ => spec_typst_block(children[0]) + spec_typst_item_buf(tail),
        }
    }
}

#[via_fn]
proof fn spec_typst_item_buf_dec(children: Seq<Node>) {
    if children.len() > 0 {
        lemma_node_size_pos(children[0]);
    }
}

/// One rendered list line per item: the marker, the item's trimmed text,
/// and a line feed. The ordinal advances once per item of an ordered list.
pub open spec fn spec_typst_list_items(items: Seq<Node>, ordered: bool, index: int) -> Seq<char>
    decreases nodes_size(items), 1int,
    via spec_typst_list_items_dec
{
    if items.len() == 0 {
        seq![]
    } else {
        let tail = items.subrange(1, items.len() as int);
        match items[0] {
            Node::ListItem { children } => {
                let marker: Seq<char> = if ordered {
                    spec_decimal(index) + seq!['.', ' ']
                } else {
                    seq!['-', ' ']
                };
                marker + spec_trim(spec_typst_item_buf(children@)) + seq!['\n']
                    + spec_typst_list_items(
                    tail,
                    ordered,
                    if ordered {
                        index + 1
                    } else {
                        index
                    },
                )
            },
            _ => spec_typst_list_items(tail, ordered, index),
        }
    }
}

#[via_fn]
proof fn spec_typst_list_items_dec(items: Seq<Node>, ordered: bool, index: int) {
    if items.len() > 0 {
        lemma_node_size_pos(items[0]);
        match items[0] {
            Node::ListItem { children } => {
                assert(node_size(items[0]) == 1 + nodes_size(children@));
            },
            _ => {},
        }
    }
}

/// The markup of a list node: one line per item starting at the
/// configured ordinal, and a closing blank line.
pub open spec fn spec_typst_list(node: Node) -> Seq<char>
    decreases node_size(node), 0int,
{
    match node {
        Node::List { ordered, start, children } => {
            let begin = match start {
                Some(v) => v as int,
                None => 1,
            };
            spec_typst_list_items(children@, ordered, begin) + seq!['\n']
        },
        _ => seq![],
    }
}

/// The markup of a whole document: its top-level blocks in order.
pub open spec fn spec_typst_doc(blocks: Seq<Node>) -> Seq<char>
    decreases blocks.len(),
{
    if blocks.len() == 0 {
        seq![]
    } else {
        spec_typst_block(blocks[0]) + spec_typst_doc(blocks.subrange(1, blocks.len() as int))
    }
}

/// The full source handed to the compiler: the template with its first
/// placeholder occurrence replaced by the document markup.
pub open spec fn spec_typst_source(template: Seq<char>, blocks: Seq<Node>) -> Seq<char> {
    spec_replace_first(template, CONTENT_PLACEHOLDER@, spec_typst_doc(blocks))
}

impl PdfExporter {
    /// A new exporter over an optional template (the stock one when
    /// absent) and the font data handed on to the compiler.
    pub fn new(template: Option<&str>, fonts: Vec<Vec<u8>>) -> (r: Self)
        ensures
            r.template@ == match template {
                Some(t) => t@,
                None => DEFAULT_TEMPLATE@,
            },
            r.fonts == fonts,
    {
        let tmpl = match template {
            Some(t) => crate::textutil::chars_of(t),
            None => crate::textutil::chars_of(DEFAULT_TEMPLATE),
        };
        PdfExporter { template: tmpl, fonts }
    }

    /// Escapes reserved characters in literal text with a leading
    /// backslash.
    pub fn escape_text(&self, s: &Vec<char>) -> (r: Vec<char>)
        ensures
            r@ == spec_escape_text(s@),
    {
        let n = s.len();
        let mut out: Vec<char> = Vec::new();
        let mut i: usize = 0;
        proof {
            assert(s@.subrange(0, n as int) =~= s@);
            assert(out@ + spec_escape_text(s@) =~= spec_escape_text(s@));
        }
        while i < n
            invariant
                n == s@.len(),
                0 <= i <= n,
                spec_escape_text(s@) == out@ + spec_escape_text(s@.subrange(i as int, n as int)),
            decreases n - i,
        {
            let ghost suffix = s@.subrange(i as int, n as int);
            proof {
                assert(suffix[0] == s@[i as int]);
                assert(suffix.subrange(1, suffix.len() as int) =~= s@.subrange(i + 1, n as int));
            }
            let c = s[i];
            if c == '{' || c == '}' || c == '[' || c == ']' || c == '#' {
                out.push('\\');
            }
            out.push(c);
            i = i + 1;
            proof {
                assert(spec_escape_text(s@) =~= out@ + spec_escape_text(
                    s@.subrange(i as int, n as int),
                ));
            }
        }
        proof {
            assert(s@.subrange(i as int, n as int).len() == 0);
            assert(spec_escape_text(s@) =~= out@);
        }
        out
    }

    /// Defuses fence delimiters in code text: a zero-width space is
    /// inserted after every second backtick of a longer run, so no three
    /// consecutive backticks survive and the fence cannot end early.
    pub fn escape_code(&self, s: &Vec<char>) -> (r: Vec<char>)
        ensures
            r@ == spec_defuse(s@),
    {
        let n = s.len();
        let mut out: Vec<char> = Vec::new();
        let mut i: usize = 0;
        proof {
            assert(s@.subrange(0, n as int) =~= s@);
            assert(out@ + spec_defuse(s@) =~= spec_defuse(s@));
        }
        while i < n
            invariant
                n == s@.len(),
                0 <= i <= n,
                spec_defuse(s@) == out@ + spec_defuse(s@.subrange(i as int, n as int)),
            decreases n - i,
        {
            let ghost suffix = s@.subrange(i as int, n as int);
            proof {
                assert(suffix[0] == s@[i as int]);
                if suffix.len() >= 2 {
                    assert(suffix[1] == s@[i + 1]);
                }
                if suffix.len() >= 3 {
                    assert(suffix[2] == s@[i + 2]);
                }
            }
            if n >= 3 && i < n - 2 && s[i] == '`' && s[i + 1] == '`' && s[i + 2] == '`' {
                proof {
                    assert(suffix.subrange(2, suffix.len() as int) =~= s@.subrange(
                        i + 2,
                        n as int,
                    ));
                }
                out.push('`');
                out.push('`');
                out.push('\u{200b}');
                i = i + 2;
                proof {
                    assert(spec_defuse(s@) =~= out@ + spec_defuse(
                        s@.subrange(i as int, n as int),
                    ));
                }
            } else {
                proof {
                    assert(suffix.subrange(1, suffix.len() as int) =~= s@.subrange(
                        i + 1,
                        n as int,
                    ));
                }
                out.push(s[i]);
                i = i + 1;
                proof {
                    assert(spec_defuse(s@) =~= out@ + spec_defuse(
                        s@.subrange(i as int, n as int),
                    ));
                }
            }
        }
        proof {
            assert(s@.subrange(i as int, n as int).len() == 0);
            assert(spec_defuse(s@) =~= out@);
        }
        out
    }

    /// Appends the markup of one inline node.
    fn inline_into(&self, out: &mut Vec<char>, node: &Node)
        ensures
            final(out)@ == old(out)@ + spec_typst_inline(*node),
        decreases node_size(*node), 0int,
    {
        match node {
            Node::Text { value } => {
                let e = self.escape_text(value);
                crate::textutil::extend_chars(out, &e);
            },
            Node::InlineCode { value } => {
                out.push('`');
                let e = self.escape_code(value);
                crate::textutil::extend_chars(out, &e);
                out.push('`');
                proof {
                    assert(out@ =~= old(out)@ + spec_typst_inline(*node));
                }
            },
            Node::Code { value, .. } => {
                out.push('`');
                let e = self.escape_code(value);
                crate::textutil::extend_chars(out, &e);
                out.push('`');
                proof {
                    assert(out@ =~= old(out)@ + spec_typst_inline(*node));
                }
            },
            Node::Strong { children } => {
                out.push('*');
                proof {
                    lemma_children_size(*node);
                    assert(children@.subrange(0, children@.len() as int) =~= children@);
                }
                self.inlines_into(out, children, 0);
                out.push('*');
                proof {
                    assert(out@ =~= old(out)@ + spec_typst_inline(*node));
                }
            },
            Node::Emphasis { children } => {
                out.push('_');
                proof {
                    lemma_children_size(*node);
                    assert(children@.subrange(0, children@.len() as int) =~= children@);
                }
                self.inlines_into(out, children, 0);
                out.push('_');
                proof {
                    assert(out@ =~= old(out)@ + spec_typst_inline(*node));
                }
            },
            Node::Break => {
                out.push(' ');
                out.push('\\');
                out.push('\n');
                proof {
                    assert(out@ =~= old(out)@ + spec_typst_inline(*node));
                }
            },
            Node::Heading { children, .. } => {
                proof {
                    lemma_children_size(*node);
                    assert(children@.subrange(0, children@.len() as int) =~= children@);
                }
                self.inlines_into(out, children, 0);
            },
            Node::Paragraph { children } => {
                proof {
                    lemma_children_size(*node);
                    assert(children@.subrange(0, children@.len() as int) =~= children@);
                }
                self.inlines_into(out, children, 0);
            },
            Node::List { children, .. } => {
                proof {
                    lemma_children_size(*node);
                    assert(children@.subrange(0, children@.len() as int) =~= children@);
                }
                self.inlines_into(out, children, 0);
            },
            Node::ListItem { children } => {
                proof {
                    lemma_children_size(*node);
                    assert(children@.subrange(0, children@.len() as int) =~= children@);
                }
                self.inlines_into(out, children, 0);
            },
            Node::Other { children } => {
                proof {
                    lemma_children_size(*node);
                    assert(children@.subrange(0, children@.len() as int) =~= children@);
                }
                self.inlines_into(out, children, 0);
            },
        }
    }

    /// Appends the markup of the inline nodes from position `i` on.
    fn inlines_into(&self, out: &mut Vec<char>, nodes: &Vec<Node>, i: usize)
        requires
            i <= nodes@.len(),
        ensures
            final(out)@ == old(out)@ + spec_typst_inlines(
                nodes@.subrange(i as int, nodes@.len() as int),
            ),
        decreases nodes_size(nodes@.subrange(i as int, nodes@.len() as int)), 1int,
    {
        let ghost suffix = nodes@.subrange(i as int, nodes@.len() as int);
        if i == nodes.len() {
            proof {
                assert(out@ =~= out@ + spec_typst_inlines(suffix));
            }
            return ;
        }
        proof {
            lemma_nodes_size_peel(nodes@, i as int);
            lemma_node_size_pos(nodes@[i as int]);
        }
        self.inline_into(out, &nodes[i]);
        self.inlines_into(out, nodes, i + 1);
        proof {
            assert(suffix[0] == nodes@[i as int]);
            assert(suffix.subrange(1, suffix.len() as int) =~= nodes@.subrange(
                i + 1,
                nodes@.len() as int,
            ));
            assert(out@ =~= old(out)@ + spec_typst_inlines(suffix));
        }
    }

    /// The markup of a sequence of inline nodes.
    pub fn collect_inlines(&self, nodes: &Vec<Node>) -> (r: Vec<char>)
        ensures
            r@ == spec_typst_inlines(nodes@),
    {
        let mut out: Vec<char> = Vec::new();
        self.inlines_into(&mut out, nodes, 0);
        proof {
            assert(nodes@.subrange(0, nodes@.len() as int) =~= nodes@);
            assert(out@ =~= spec_typst_inlines(nodes@));
        }
        out
    }

    /// The markup one block node emits.
    pub fn render_block(&self, node: &Node) -> (r: Vec<char>)
        ensures
            r@ == spec_typst_block(*node),
        decreases node_size(*node), 3int,
    {
        let ghost target = spec_typst_block(*node);
        match node {
            Node::Heading { depth, children } => {
                let mut out: Vec<char> = Vec::new();
                out.push('\n');
                let mut k: u8 = 0;
                proof {
                    assert(spec_repeat_char('=', 0).len() == 0);
                }
                while k < *depth
                    invariant
                        k <= *depth,
                        out@ == seq!['\n'] + spec_repeat_char('=', k as int),
                    decreases *depth - k,
                {
                    out.push('=');
                    k = k + 1;
                    proof {
                        lemma_repeat_snoc('=', k as int);
                        assert(out@ =~= seq!['\n'] + spec_repeat_char('=', k as int));
                    }
                }
                out.push(' ');
                self.inlines_into(&mut out, children, 0);
                out.push('\n');
                out.push('\n');
                proof {
                    assert(children@.subrange(0, children@.len() as int) =~= children@);
                    assert(out@ =~= target);
                }
                out
            },
            Node::Paragraph { children } => {
                let txt = self.collect_inlines(children);
                if crate::textutil::is_blank(&txt) {
                    let out: Vec<char> = Vec::new();
                    proof {
                        assert(out@ =~= target);
                    }
                    out
                } else {
                    let mut out = txt;
                    out.push('\n');
                    out.push('\n');
                    proof {
                        assert(out@ =~= target);
                    }
                    out
                }
            },
            Node::Code { lang, value } => {
                let mut out: Vec<char> = Vec::new();
                out.push('`');
                out.push('`');
                out.push('`');
                match lang {
                    Some(l) => {
                        let tag = crate::textutil::remove_char(l, '`');
                        crate::textutil::extend_chars(&mut out, &tag);
                    },
                    None => {},
                }
                out.push('\n');
                let e = self.escape_code(value);
                crate::textutil::extend_chars(&mut out, &e);
                out.push('\n');
                out.push('`');
                out.push('`');
                out.push('`');
                out.push('\n');
                out.push('\n');
                proof {
                    assert(out@ =~= target);
                }
                out
            },
            Node::List { .. } => self.render_list(node),
            Node::Text { .. } | Node::Strong { .. } | Node::Emphasis { .. }
                | Node::InlineCode { .. } | Node::Break => {
                let mut out: Vec<char> = Vec::new();
                self.inline_into(&mut out, node);
                if out.len() == 0 {
                    proof {
                        assert(out@ =~= target);
                    }
                    out
                } else {
                    out.push('\n');
                    out.push('\n');
                    proof {
                        assert(out@ =~= target);
                    }
                    out
                }
            },
            _ => {
                let out: Vec<char> = Vec::new();
                proof {
                    assert(out@ =~= target);
                }
                out
            },
        }
    }

    /// Appends the indented non-blank lines of nested-list markup from
    /// line `k` on.
    fn indent_lines_into(&self, out: &mut Vec<char>, lines: &Vec<Vec<char>>, k: usize)
        requires
            k <= lines@.len(),
        ensures
            final(out)@ == old(out)@ + spec_indent_lines(
                lines.deep_view().subrange(k as int, lines.deep_view().len() as int),
            ),
        decreases lines@.len() - k,
    {
        let ghost lv = lines.deep_view();
        let ghost suffix = lv.subrange(k as int, lv.len() as int);
        if k == lines.len() {
            proof {
                assert(out@ =~= out@ + spec_indent_lines(suffix));
            }
            return ;
        }
        proof {
            assert(lv[k as int] =~= lines@[k as int]@);
            assert(suffix[0] == lv[k as int]);
            assert(suffix.subrange(1, suffix.len() as int) =~= lv.subrange(k + 1, lv.len() as int));
        }
        if !crate::textutil::is_blank(&lines[k]) {
            out.push('\n');
            out.push(' ');
            out.push(' ');
            crate::textutil::extend_chars(out, &lines[k]);
        }
        self.indent_lines_into(out, lines, k + 1);
        proof {
            assert(out@ =~= old(out)@ + spec_indent_lines(suffix));
        }
    }

    /// Appends the accumulated text of one item's children from position
    /// `j` on.
    fn item_buf_into(&self, out: &mut Vec<char>, children: &Vec<Node>, j: usize)
        requires
            j <= children@.len(),
        ensures
            final(out)@ == old(out)@ + spec_typst_item_buf(
                children@.subrange(j as int, children@.len() as int),
            ),
        decreases nodes_size(children@.subrange(j as int, children@.len() as int)), 4int,
    {
        let ghost suffix = children@.subrange(j as int, children@.len() as int);
        if j == children.len() {
            proof {
                assert(out@ =~= out@ + spec_typst_item_buf(suffix));
            }
            return ;
        }
        proof {
            lemma_nodes_size_peel(children@, j as int);
            lemma_node_size_pos(children@[j as int]);
            assert(suffix[0] == children@[j as int]);
            assert(suffix.subrange(1, suffix.len() as int) =~= children@.subrange(
                j + 1,
                children@.len() as int,
            ));
        }
        match &children[j] {
            Node::Paragraph { children: pc } => {
                proof {
                    assert(pc@.subrange(0, pc@.len() as int) =~= pc@);
                }
                self.inlines_into(out, pc, 0);
            },
            Node::List { .. } => {
                let nested = self.render_list(&children[j]);
                let lines = crate::textutil::lines_of(&nested);
                proof {
                    assert(lines.deep_view().subrange(0, lines.deep_view().len() as int)
                        =~= lines.deep_view());
                }
                self.indent_lines_into(out, &lines, 0);
            },
            _ => {
                let b = self.render_block(&children[j]);
                crate::textutil::extend_chars(out, &b);
            },
        }
        self.item_buf_into(out, children, j + 1);
        proof {
            assert(out@ =~= old(out)@ + spec_typst_item_buf(suffix));
        }
    }

    /// Appends the rendered lines of the items from position `i` on.
    fn list_items_into(&self, out: &mut Vec<char>, items: &Vec<Node>, i: usize, ordered: bool, index: u128)
        requires
            i <= items@.len(),
            index as int <= u32::MAX as int + i as int,
        ensures
            final(out)@ == old(out)@ + spec_typst_list_items(
                items@.subrange(i as int, items@.len() as int),
                ordered,
                index as int,
            ),
        decreases nodes_size(items@.subrange(i as int, items@.len() as int)), 1int,
    {
        let ghost suffix = items@.subrange(i as int, items@.len() as int);
        if i == items.len() {
            proof {
                assert(out@ =~= out@ + spec_typst_list_items(suffix, ordered, index as int));
            }
            return ;
        }
        proof {
            lemma_nodes_size_peel(items@, i as int);
            lemma_node_size_pos(items@[i as int]);
            assert(suffix[0] == items@[i as int]);
            assert(suffix.subrange(1, suffix.len() as int) =~= items@.subrange(
                i + 1,
                items@.len() as int,
            ));
        }
        match &items[i] {
            Node::ListItem { children } => {
                proof {
                    assert(node_size(items@[i as int]) == 1 + nodes_size(children@));
                    assert(children@.subrange(0, children@.len() as int) =~= children@);
                }
                if ordered {
                    let digits = crate::textutil::decimal_chars(index);
                    crate::textutil::extend_chars(out, &digits);
                    out.push('.');
                    out.push(' ');
                } else {
                    out.push('-');
                    out.push(' ');
                }
                let mut buf: Vec<char> = Vec::new();
                self.item_buf_into(&mut buf, children, 0);
                let trimmed = crate::textutil::trim_chars(&buf);
                crate::textutil::extend_chars(out, &trimmed);
                out.push('\n');
                let next_index = if ordered {
                    index + 1
                } else {
                    index
                };
                self.list_items_into(out, items, i + 1, ordered, next_index);
                proof {
                    assert(out@ =~= old(out)@ + spec_typst_list_items(
                        suffix,
                        ordered,
                        index as int,
                    ));
                }
            },
            _ => {
                self.list_items_into(out, items, i + 1, ordered, index);
                proof {
                    assert(out@ =~= old(out)@ + spec_typst_list_items(
                        suffix,
                        ordered,
                        index as int,
                    ));
                }
            },
        }
    }

    /// The markup of a list node: one line per item and a closing blank
    /// line.
    pub fn render_list(&self, node: &Node) -> (r: Vec<char>)
        ensures
            r@ == spec_typst_list(*node),
        decreases node_size(*node), 0int,
    {
        match node {
            Node::List { ordered, start, children } => {
                let begin: u128 = match start {
                    Some(v) => *v as u128,
                    None => 1,
                };
                proof {
                    assert(node_size(*node) == 1 + nodes_size(children@));
                    assert(children@.subrange(0, children@.len() as int) =~= children@);
                }
                let mut out: Vec<char> = Vec::new();
                self.list_items_into(&mut out, children, 0, *ordered, begin);
                out.push('\n');
                proof {
                    assert(out@ =~= spec_typst_list(*node));
                }
                out
            },
            _ => Vec::new(),
        }
    }

    /// The markup of a whole document: its top-level blocks in order.
    pub fn md_to_typst(&self, blocks: &Vec<Node>) -> (r: Vec<char>)
        ensures
            r@ == spec_typst_doc(blocks@),
    {
        let mut out: Vec<char> = Vec::new();
        self.blocks_into(&mut out, blocks, 0);
        proof {
            assert(blocks@.subrange(0, blocks@.len() as int) =~= blocks@);
            assert(out@ =~= spec_typst_doc(blocks@));
        }
        out
    }

    /// Appends the markup of the blocks from position `i` on.
    fn blocks_into(&self, out: &mut Vec<char>, blocks: &Vec<Node>, i: usize)
        requires
            i <= blocks@.len(),
        ensures
            final(out)@ == old(out)@ + spec_typst_doc(
                blocks@.subrange(i as int, blocks@.len() as int),
            ),
        decreases blocks@.len() - i,
    {
        let ghost suffix = blocks@.subrange(i as int, blocks@.len() as int);
        if i == blocks.len() {
            proof {
                assert(out@ =~= out@ + spec_typst_doc(suffix));
            }
            return ;
        }
        let b = self.render_block(&blocks[i]);
        crate::textutil::extend_chars(out, &b);
        self.blocks_into(out, blocks, i + 1);
        proof {
            assert(suffix[0] == blocks@[i as int]);
            assert(suffix.subrange(1, suffix.len() as int) =~= blocks@.subrange(
                i + 1,
                blocks@.len() as int,
            ));
            assert(out@ =~= old(out)@ + spec_typst_doc(suffix));
        }
    }

    /// The template with its first placeholder occurrence replaced by
    /// `content`; a template without the placeholder passes through
    /// unchanged.
    pub fn inject_content(&self, template: &Vec<char>, content: &Vec<char>) -> (r: Vec<char>)
        ensures
            r@ == spec_replace_first(template@, CONTENT_PLACEHOLDER@, content@),
    {
        let pat = crate::textutil::chars_of(CONTENT_PLACEHOLDER);
        crate::textutil::replace_first(template, &pat, content)
    }

    /// The full typesetting source of a document: the rendered markup
    /// substituted into the exporter's template.
    pub fn typst_source(&self, blocks: &Vec<Node>) -> (r: String)
        ensures
            r@ == spec_typst_source(self.template@, blocks@),
    {
        let body = self.md_to_typst(blocks);
        let source = self.inject_content(&self.template, &body);
        crate::textutil::string_from_chars(&source)
    }
}

/// One more copy of a repeated character extends the run at its end.
proof fn lemma_repeat_snoc(c: char, n: int)
    requires
        n >= 1,
    ensures
        spec_repeat_char(c, n) =~= spec_repeat_char(c, n - 1) + seq![c],
    decreases n,
{
    if n > 1 {
        lemma_repeat_snoc(c, n - 1);
        assert(spec_repeat_char(c, n) =~= seq![c] + spec_repeat_char(c, n - 1));
    }
}

/// The inverse reading of escaped text: a backslash followed by a
/// reserved character reads as that character; anything else reads as
/// itself.
pub open spec fn spec_unescape(t: Seq<char>) -> Seq<char>
    decreases t.len(),
{
    if t.len() == 0 {
        seq![]
    } else if t.len() >= 2 && t[0] == '\\' && is_reserved(t[1]) {
        seq![t[1]] + spec_unescape(t.subrange(2, t.len() as int))
    } else {
        seq![t[0]] + spec_unescape(t.subrange(1, t.len() as int))
    }
}

/// Escaped text never begins with a reserved character.
proof fn lemma_escape_head_not_reserved(s: Seq<char>)
    requires
        s.len() > 0,
    ensures
        spec_escape_text(s).len() > 0,
        !is_reserved(spec_escape_text(s)[0]),
{
    let e = spec_escape_char(s[0]) + spec_escape_text(s.subrange(1, s.len() as int));
    assert(e[0] == spec_escape_char(s[0])[0]);
}

/// Escaping round-trip: reading escaped text back yields the original
/// text exactly, whatever it held.
pub proof fn lemma_escape_round_trip(s: Seq<char>)
    ensures
        spec_unescape(spec_escape_text(s)) == s,
    decreases s.len(),
{
    if s.len() == 0 {
        assert(spec_unescape(spec_escape_text(s)) =~= s);
    } else {
        let rest = s.subrange(1, s.len() as int);
        lemma_escape_round_trip(rest);
        let e = spec_escape_text(s);
        let er = spec_escape_text(rest);
        if is_reserved(s[0]) {
            assert(e == seq!['\\', s[0]] + er);
            assert(e[0] == '\\' && e[1] == s[0]);
            assert(e.subrange(2, e.len() as int) =~= er);
            assert(spec_unescape(e) =~= s);
        } else {
            assert(e == seq![s[0]] + er);
            assert(e[0] == s[0]);
            assert(e.subrange(1, e.len() as int) =~= er);
            if s[0] == '\\' && e.len() >= 2 {
                assert(e[1] == er[0]);
                lemma_escape_head_not_reserved(rest);
            }
            assert(spec_unescape(e) =~= s);
        }
    }
}

/// Every reserved character of the input survives visibly escaped: at
/// some position of the output a backslash stands directly before it.
pub proof fn lemma_reserved_visible(s: Seq<char>, i: int)
    requires
        0 <= i < s.len(),
        is_reserved(s[i]),
    ensures
        exists|j: int|
            #![trigger spec_escape_text(s)[j]]
            0 <= j && j + 1 < spec_escape_text(s).len() && spec_escape_text(s)[j] == '\\'
                && spec_escape_text(s)[j + 1] == s[i],
    decreases i,
{
    let e = spec_escape_text(s);
    let rest = s.subrange(1, s.len() as int);
    let er = spec_escape_text(rest);
    let head = spec_escape_char(s[0]);
    assert(e == head + er);
    if i == 0 {
        assert(e[0] == '\\' && e[1] == s[0]);
        assert(0 <= 0 && 0 + 1 < e.len() && e[0] == '\\' && e[1] == s[0]);
    } else {
        lemma_reserved_visible(rest, i - 1);
        let j0 = choose|j0: int|
            #![trigger er[j0]]
            0 <= j0 && j0 + 1 < er.len() && er[j0] == '\\' && er[j0 + 1] == rest[i - 1];
        let j = j0 + head.len();
        assert(e[j] == er[j0] && e[j + 1] == er[j0 + 1]);
        assert(0 <= j && j + 1 < e.len() && e[j] == '\\' && e[j + 1] == s[i]);
    }
}

/// Whether a fence delimiter (three backticks) stands at position `i`.
pub open spec fn fence_at(s: Seq<char>, i: int) -> bool {
    0 <= i && i + 3 <= s.len() && s[i] == '`' && s[i + 1] == '`' && s[i + 2] == '`'
}

/// Whether the text holds a fence delimiter anywhere.
pub open spec fn has_fence(s: Seq<char>) -> bool {
    exists|i: int| fence_at(s, i)
}

/// How many backticks the text begins with.
pub open spec fn lead_bt(s: Seq<char>) -> int
    decreases s.len(),
{
    if s.len() > 0 && s[0] == '`' {
        1 + lead_bt(s.subrange(1, s.len() as int))
    } else {
        0
    }
}

/// A count of leading backticks is never negative.
proof fn lemma_lead_bt_nonneg(s: Seq<char>)
    ensures
        lead_bt(s) >= 0,
    decreases s.len(),
{
    if s.len() > 0 && s[0] == '`' {
        lemma_lead_bt_nonneg(s.subrange(1, s.len() as int));
    }
}

/// Defusal removes every fence delimiter: whatever the code body held —
/// runs of backticks of any length included — the defused body holds no
/// three consecutive backticks, so the enclosing fence cannot close
/// before its own closing line.
pub proof fn lemma_defuse_no_fence(s: Seq<char>)
    ensures
        !has_fence(spec_defuse(s)),
        lead_bt(spec_defuse(s)) == if lead_bt(s) >= 2 {
            2int
        } else {
            lead_bt(s)
        },
    decreases s.len(),
{
    let d = spec_defuse(s);
    if s.len() >= 3 && s[0] == '`' && s[1] == '`' && s[2] == '`' {
        let rest = s.subrange(2, s.len() as int);
        let dr = spec_defuse(rest);
        lemma_defuse_no_fence(rest);
        assert(lead_bt(s) >= 2) by {
            let s1 = s.subrange(1, s.len() as int);
            assert(s1[0] == s[1]);
            lemma_lead_bt_nonneg(s1.subrange(1, s1.len() as int));
            assert(lead_bt(s1) == 1 + lead_bt(s1.subrange(1, s1.len() as int)));
            assert(lead_bt(s) == 1 + lead_bt(s1));
        }
        let head = seq!['`', '`', '\u{200b}'];
        assert(d == head + dr);
        assert forall|i: int| !#[trigger] fence_at(d, i) by {
            if fence_at(d, i) {
                if i == 0 {
                    assert(d[2] == '\u{200b}');
                } else if i == 1 {
                    assert(d[2] == '\u{200b}');
                } else if i == 2 {
                    assert(d[2] == '\u{200b}');
                } else {
                    assert(d[i] == dr[i - 3] && d[i + 1] == dr[i - 2] && d[i + 2] == dr[i - 1]);
                    assert(fence_at(dr, i - 3));
                }
            }
        }
        assert(d[0] == '`' && d[1] == '`' && d[2] == '\u{200b}');
        let d1 = d.subrange(1, d.len() as int);
        let d2 = d.subrange(2, d.len() as int);
        assert(d1[0] == '`');
        assert(d1.subrange(1, d1.len() as int) =~= d2);
        assert(d2[0] == '\u{200b}');
        assert(lead_bt(d2) == 0);
        assert(lead_bt(d1) == 1 + lead_bt(d2));
        assert(lead_bt(d) == 1 + lead_bt(d1));
    } else if s.len() == 0 {
        assert(!has_fence(d)) by {
            if has_fence(d) {
                let i = choose|i: int| fence_at(d, i);
            }
        }
    } else {
        let rest = s.subrange(1, s.len() as int);
        let dr = spec_defuse(rest);
        lemma_defuse_no_fence(rest);
        assert(d == seq![s[0]] + dr);
        assert(d[0] == s[0]);
        if s[0] != '`' {
            assert(lead_bt(s) == 0);
            assert forall|i: int| !#[trigger] fence_at(d, i) by {
                if fence_at(d, i) {
                    if i == 0 {
                    } else {
                        assert(d[i] == dr[i - 1] && d[i + 1] == dr[i] && d[i + 2] == dr[i + 1]);
                        assert(fence_at(dr, i - 1));
                    }
                }
            }
            assert(d.len() > 0 && d[0] != '`');
            assert(lead_bt(d) == 0);
        } else {
            // The head is a backtick but no fence starts here, so at most
            // two backticks lead the text.
            assert(lead_bt(s) == 1 + lead_bt(rest));
            if rest.len() > 0 && rest[0] == '`' {
                // Exactly two leading backticks: the third character is
                // not a backtick.
                assert(s[1] == '`');
                assert(s.len() >= 3 ==> s[2] != '`');
                assert(lead_bt(rest) == 1 + lead_bt(rest.subrange(1, rest.len() as int)));
                if s.len() >= 3 {
                    assert(rest.subrange(1, rest.len() as int)[0] == s[2]);
                    assert(lead_bt(rest.subrange(1, rest.len() as int)) == 0);
                } else {
                    assert(rest.subrange(1, rest.len() as int).len() == 0);
                    assert(lead_bt(rest.subrange(1, rest.len() as int)) == 0);
                }
                assert(lead_bt(rest) == 1);
                assert(lead_bt(dr) == 1);
                assert(dr[0] == '`');
                assert(dr.len() >= 2 ==> dr[1] != '`') by {
                    if dr.len() >= 2 && dr[1] == '`' {
                        let dr1 = dr.subrange(1, dr.len() as int);
                        assert(dr1[0] == dr[1]);
                        lemma_lead_bt_nonneg(dr1.subrange(1, dr1.len() as int));
                        assert(lead_bt(dr1) == 1 + lead_bt(dr1.subrange(1, dr1.len() as int)));
                        assert(lead_bt(dr) == 1 + lead_bt(dr1));
                    }
                }
                assert forall|i: int| !#[trigger] fence_at(d, i) by {
                    if fence_at(d, i) {
                        if i == 0 {
                            assert(d[2] == dr[1]);
                        } else {
                            assert(fence_at(dr, i - 1));
                        }
                    }
                }
                assert(d.subrange(1, d.len() as int) =~= dr);
                assert(lead_bt(d) == 1 + lead_bt(dr));
            } else {
                // Exactly one leading backtick.
                assert(lead_bt(rest) == 0);
                assert(lead_bt(dr) == 0);
                assert forall|i: int| !#[trigger] fence_at(d, i) by {
                    if fence_at(d, i) {
                        if i == 0 {
                            assert(d[1] == dr[0]);
                            assert(dr[0] != '`');
                        } else {
                            assert(fence_at(dr, i - 1));
                        }
                    }
                }
                assert(d.subrange(1, d.len() as int) =~= dr);
                assert(lead_bt(d) == 1 + lead_bt(dr));
            }
        }
    }
}

/// Defusal only inserts, never alters: on code text that holds no
/// zero-width space of its own, removing every zero-width space from the
/// defused text restores the original text exactly.
pub proof fn lemma_defuse_round_trip(s: Seq<char>)
    requires
        forall|k: int| 0 <= k < s.len() ==> s[k] != '\u{200b}',
    ensures
        spec_remove_char(spec_defuse(s), '\u{200b}') == s,
    decreases s.len(),
{
    let z = '\u{200b}';
    if s.len() >= 3 && s[0] == '`' && s[1] == '`' && s[2] == '`' {
        let rest = s.subrange(2, s.len() as int);
        assert(forall|k: int| 0 <= k < rest.len() ==> rest[k] != z);
        lemma_defuse_round_trip(rest);
        let head = seq!['`', '`', z];
        lemma_remove_char_concat(head, spec_defuse(rest), z);
        assert(spec_remove_char(head, z) =~= seq!['`', '`']) by {
            assert(head.subrange(1, 3) =~= seq!['`', z]);
            assert(seq!['`', z].subrange(1, 2) =~= seq![z]);
            assert(seq![z].subrange(1, 1) =~= Seq::<char>::empty());
            assert(spec_remove_char(Seq::<char>::empty(), z) =~= Seq::<char>::empty());
            assert(spec_remove_char(seq![z], z) =~= Seq::<char>::empty());
            assert(spec_remove_char(seq!['`', z], z) =~= seq!['`']);
        }
        assert(seq!['`', '`'] + rest =~= s);
    } else if s.len() == 0 {
        assert(spec_remove_char(spec_defuse(s), z) =~= s);
    } else {
        let rest = s.subrange(1, s.len() as int);
        assert(forall|k: int| 0 <= k < rest.len() ==> rest[k] != z);
        lemma_defuse_round_trip(rest);
        lemma_remove_char_concat(seq![s[0]], spec_defuse(rest), z);
        assert(s[0] != z);
        assert(seq![s[0]].subrange(1, 1) =~= Seq::<char>::empty());
        assert(spec_remove_char(Seq::<char>::empty(), z) =~= Seq::<char>::empty());
        assert(spec_remove_char(seq![s[0]], z) =~= seq![s[0]]);
        assert(seq![s[0]] + rest =~= s);
    }
}

/// The language tag a code node carries, or nothing.
pub open spec fn spec_code_lang(n: Node) -> Seq<char> {
    match n {
        Node::Code { lang: Some(l), .. } => l@,
        _ => seq![],
    }
}

/// The body a code node carries, or nothing.
pub open spec fn spec_code_value(n: Node) -> Seq<char> {
    match n {
        Node::Code { value, .. } => value@,
        _ => seq![],
    }
}

/// A rendered code block closes its fence exactly once, whatever its body
/// and language tag hold: the only fence delimiters in its markup are the
/// opening one and the closing one. A literal fence delimiter inside the
/// body therefore cannot end the block early.
pub proof fn lemma_code_fence_closes_once(node: Node)
    requires
        node is Code,
    ensures
        ({
            let out = spec_typst_block(node);
            let tag = spec_remove_char(spec_code_lang(node), '`');
            let body = spec_defuse(spec_code_value(node));
            forall|i: int|
                #[trigger] fence_at(out, i) <==> (i == 0 || i == 5 + tag.len() + body.len())
        }),
{
    let out = spec_typst_block(node);
    let tag = spec_remove_char(spec_code_lang(node), '`');
    let value = spec_code_value(node);
    let body = spec_defuse(value);
    lemma_defuse_no_fence(value);
    lemma_remove_char_gone(spec_code_lang(node), '`');
    assert(forall|k: int| 0 <= k < tag.len() ==> #[trigger] tag[k] != '`');
    let t = tag.len() as int;
    let d = body.len() as int;
    assert(out == seq!['`', '`', '`'] + tag + seq!['\n'] + body + seq!['\n', '`', '`', '`']
        + spec_blank_line());
    assert(out.len() == t + d + 10);
    assert(out[0] == '`' && out[1] == '`' && out[2] == '`');
    assert(forall|k: int| 0 <= k < t ==> out[3 + k] == tag[k]);
    assert(out[3 + t] == '\n');
    assert(forall|k: int| 0 <= k < d ==> out[4 + t + k] == body[k]);
    assert(out[4 + t + d] == '\n');
    assert(out[5 + t + d] == '`' && out[6 + t + d] == '`' && out[7 + t + d] == '`');
    assert(out[8 + t + d] == '\n' && out[9 + t + d] == '\n');
    assert(fence_at(out, 0));
    assert(fence_at(out, 5 + t + d));
    assert forall|i: int| #[trigger] fence_at(out, i) implies (i == 0 || i == 5 + t + d) by {
        if fence_at(out, i) && i != 0 && i != 5 + t + d {
            if i <= 3 + t {
                // A window that starts in the opening line but not at its
                // head covers a tag character or the line feed after it.
                if i + 2 <= 3 + t {
                    if out[i + 2] == '`' {
                        assert(3 <= i + 2 && i + 2 <= 3 + t);
                        if i + 2 < 3 + t {
                            assert(out[i + 2] == tag[i - 1]);
                        }
                    }
                    assert(false);
                } else if i + 1 <= 3 + t {
                    if out[i + 1] == '`' {
                        if 3 <= i + 1 && i + 1 < 3 + t {
                            assert(out[i + 1] == tag[i - 2]);
                        }
                    }
                    assert(false);
                } else {
                    if out[i] == '`' {
                        if 3 <= i && i < 3 + t {
                            assert(out[i] == tag[i - 3]);
                        }
                    }
                    assert(false);
                }
            } else if i + 3 <= 4 + t + d {
                // Entirely inside the defused body: the body holds no
                // fence.
                assert(out[i] == body[i - 4 - t]);
                assert(out[i + 1] == body[i - 3 - t]);
                assert(out[i + 2] == body[i - 2 - t]);
                assert(fence_at(body, i - 4 - t));
                assert(false);
            } else if i <= 4 + t + d {
                // A window that straddles the body's end covers the line
                // feed before the closing fence.
                assert(i <= 4 + t + d < i + 3);
                assert(out[4 + t + d] == '\n');
                assert(false);
            } else {
                // A window inside the closing line other than the fence
                // itself covers one of the final line feeds.
                assert(i >= 6 + t + d);
                assert(i + 3 <= t + d + 10);
                assert(i <= 8 + t + d < i + 3 || out[i] == '\n');
                assert(false);
            }
        }
    }
}

impl Default for PdfExporter {
    /// The stock configuration: the default template and no fonts of its
    /// own.
    fn default() -> (r: Self)
        ensures
            r.template@ == DEFAULT_TEMPLATE@,
            r.fonts@.len() == 0,
    {
        PdfExporter::new(None, Vec::new())
    }
}

} // verus!
