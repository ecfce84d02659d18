//! The block compiler: walks the parsed tree, accumulates inline content
//! into sealed markup labels, threads the list indent depth and the table
//! cursor through the recursion, and emits the document tree.
//!
//! Each compile function's contract relates its output exactly to a
//! recursive specification over the input nodes; only the contents of styled
//! code-block runs, which the highlighting engine decides, are left open (see
//! [`crate::highlight::code_block_ok`]).

use vstd::prelude::*;
use crate::ast::{Ast, ast_height_seq, children_of, contains_image_seq, lemma_child_height,
    lemma_no_image_member, tree_contains_image};
use crate::doc::{DocCell, DocNode, Document, HeadingSize, heading_sep, heading_size, size_name};
use crate::highlight::{Highlighter, code_block_ok, opt_view};
use crate::markup::{Label, TagKind, close_tag, escape_markup, escape_seq, open_tag};
use crate::{Diagnostic, ImageSetting, RenderConfig, RenderError};

verus! {

// ---------------------------------------------------------------------------
// The markup each inline node appends to its enclosing label
// ---------------------------------------------------------------------------
/// The opening of a heading label: `<span font_size="...">`.
pub open spec fn span_font_open(z: HeadingSize) -> Seq<char> {
    seq!['<', 's', 'p', 'a', 'n', ' ', 'f', 'o', 'n', 't', '_', 's', 'i', 'z', 'e', '=', '"']
        + size_name(z) + seq!['"', '>']
}

/// The closing `</span>` of a heading label.
pub open spec fn span_close_seq() -> Seq<char> {
    seq!['<', '/', 's', 'p', 'a', 'n', '>']
}

/// The markup of an inline code span: a fixed-width span around the escaped
/// code, set off by single spaces.
pub open spec fn inline_code_markup(v: Seq<char>) -> Seq<char> {
    seq![' ', '<', 's', 'p', 'a', 'n', '>', '<', 't', 't', '>'] + escape_seq(v) + seq!['<', '/',
        't', 't', '>', '<', '/', 's', 'p', 'a', 'n', '>', ' ']
}

/// The opening of a link: underline plus the anchor, with the URL escaped
/// so that a quote or ampersand in it cannot break the attribute.
pub open spec fn link_open(url: Seq<char>) -> Seq<char> {
    seq!['<', 'u', '>', '<', 'a', ' ', 'h', 'r', 'e', 'f', '=', '"'] + escape_seq(url) + seq!['"', '>']
}

/// The closing of a link.
pub open spec fn link_close() -> Seq<char> {
    seq!['<', '/', 'a', '>', '<', '/', 'u', '>']
}

/// The markup one node appends to the enclosing label: escaped text for a
/// text node, balanced tag pairs around the children of an inline span, a
/// newline for a hard break, and nothing for nodes that only emit blocks.
/// A paragraph met while a label is already active flattens into it.
pub open spec fn inline_markup(n: Ast) -> Seq<char>
    decreases n, 0int,
{
    match n {
        Ast::Text { value } => escape_seq(value@),
        Ast::Strong { children } => open_tag(TagKind::Bold) + inline_markup_seq(children@)
            + close_tag(TagKind::Bold),
        Ast::Emphasis { children } => open_tag(TagKind::Italic) + inline_markup_seq(children@)
            + close_tag(TagKind::Italic),
        Ast::Delete { children } => open_tag(TagKind::Strike) + inline_markup_seq(children@)
            + close_tag(TagKind::Strike),
        Ast::LineBreak => seq!['\n'],
        Ast::InlineCode { value } => inline_code_markup(value@),
        Ast::Paragraph { children } => inline_markup_seq(children@),
        Ast::Link { url, title, children } => link_open(url@) + (match title {
            Some(t) => escape_seq(t@),
            None => inline_markup_seq(children@),
        }) + link_close(),
        _ => Seq::empty(),
    }
}

/// The markup a sequence of siblings appends, in document order.
pub open spec fn inline_markup_seq(s: Seq<Ast>) -> Seq<char>
    decreases s, s.len() + 1,
{
    if s.len() == 0 {
        Seq::empty()
    } else {
        inline_markup(s[0]) + inline_markup_seq(s.subrange(1, s.len() as int))
    }
}

// ---------------------------------------------------------------------------
// List depth and indent
// ---------------------------------------------------------------------------
/// One more level of list nesting; the counter saturates at the machine
/// bound of the exec counter.
pub open spec fn bump_depth(d: int) -> int {
    if d < 65535 {
        d + 1
    } else {
        d
    }
}

/// The indent of a list item at nesting depth `d`: `(d - 1)` units of 15,
/// and none for an item outside any list.
pub open spec fn indent_of(d: int) -> int {
    if d <= 0 {
        0
    } else {
        (d - 1) * 15
    }
}

// ---------------------------------------------------------------------------
// The compile relations
// ---------------------------------------------------------------------------
/// Relates block-context input nodes to the blocks and diagnostics they
/// compile to, at list depth `depth`, under image mode `mode` and highlight
/// theme `theme`. There is no active label, so purely inline nodes compile
/// to nothing.
pub open spec fn blocks_rel(
    nodes: Seq<Ast>,
    out: Seq<DocNode>,
    ds: Seq<Diagnostic>,
    depth: int,
    mode: ImageSetting,
    theme: Seq<char>,
) -> bool
    decreases ast_height_seq(nodes), nodes.len() + 1,
    via blocks_rel_decreases
{
    if nodes.len() == 0 {
        out.len() == 0 && ds.len() == 0
    } else {
        let rest = nodes.subrange(1, nodes.len() as int);
        match nodes[0] {
            Ast::Heading { depth: d, children } => if 1 <= d <= 6 {
                &&& out.len() >= 1
                &&& out[0] matches DocNode::Heading { size, separator_height, markup, children: sub }
                    && size == heading_size(d as int) && separator_height == heading_sep(d as int)
                    && markup@ == span_font_open(heading_size(d as int)) + inline_markup_seq(
                    children@,
                ) + span_close_seq() && exists|j: int| #![trigger ds.take(j)]
                    0 <= j <= ds.len() && inline_rel(
                        children@,
                        sub@,
                        ds.take(j),
                        depth,
                        mode,
                        theme,
                    ) && blocks_rel(rest, out.skip(1), ds.skip(j), depth, mode, theme)
            } else {
                blocks_rel(rest, out, ds, depth, mode, theme)
            },
            Ast::Paragraph { children } => {
                &&& out.len() >= 1
                &&& out[0] matches DocNode::Paragraph { markup, children: sub } && markup@
                    == inline_markup_seq(children@) && exists|j: int| #![trigger ds.take(j)]
                    0 <= j <= ds.len() && inline_rel(
                        children@,
                        sub@,
                        ds.take(j),
                        depth,
                        mode,
                        theme,
                    ) && blocks_rel(rest, out.skip(1), ds.skip(j), depth, mode, theme)
            },
            Ast::BlockQuote { children } => {
                &&& out.len() >= 1
                &&& out[0] matches DocNode::BlockQuote { children: sub } && exists|j: int| #![trigger ds.take(j)]
                    0 <= j <= ds.len() && blocks_rel(
                        children@,
                        sub@,
                        ds.take(j),
                        depth,
                        mode,
                        theme,
                    ) && blocks_rel(rest, out.skip(1), ds.skip(j), depth, mode, theme)
            },
            Ast::List { children } => {
                &&& out.len() >= 1
                &&& out[0] matches DocNode::List { children: sub } && exists|j: int| #![trigger ds.take(j)]
                    0 <= j <= ds.len() && blocks_rel(
                        children@,
                        sub@,
                        ds.take(j),
                        bump_depth(depth),
                        mode,
                        theme,
                    ) && blocks_rel(rest, out.skip(1), ds.skip(j), depth, mode, theme)
            },
            Ast::ListItem { checked, children } => {
                &&& out.len() >= 1
                &&& out[0] matches DocNode::ListItem { indent, checked: c2, children: sub }
                    && indent == indent_of(depth) && c2 == checked && exists|j: int| #![trigger ds.take(j)]
                    0 <= j <= ds.len() && blocks_rel(
                        children@,
                        sub@,
                        ds.take(j),
                        depth,
                        mode,
                        theme,
                    ) && blocks_rel(rest, out.skip(1), ds.skip(j), depth, mode, theme)
            },
            Ast::Code { lang, value } => {
                &&& out.len() >= 1
                &&& exists|j: int| #![trigger ds.take(j)]
                    0 <= j <= ds.len() && code_block_ok(
                        opt_view(lang),
                        value@,
                        theme,
                        out[0],
                        ds.take(j),
                    ) && blocks_rel(rest, out.skip(1), ds.skip(j), depth, mode, theme)
            },
            Ast::Table { children } => {
                &&& out.len() >= 1
                &&& out[0] matches DocNode::Table { cells } && exists|j: int| #![trigger ds.take(j)]
                    0 <= j <= ds.len() && table_rel(
                        children@,
                        cells@,
                        ds.take(j),
                        0,
                        depth,
                        mode,
                        theme,
                    ) && blocks_rel(rest, out.skip(1), ds.skip(j), depth, mode, theme)
            },
            Ast::ThematicBreak => {
                &&& out.len() >= 1
                &&& out[0] is Separator
                &&& blocks_rel(rest, out.skip(1), ds, depth, mode, theme)
            },
            Ast::Image { url } => match mode {
                ImageSetting::Ignore => blocks_rel(rest, out, ds, depth, mode, theme),
                ImageSetting::FromPath => {
                    &&& out.len() >= 1
                    &&& out[0] matches DocNode::Image { url: u2 } && u2@ == url@
                    &&& blocks_rel(rest, out.skip(1), ds, depth, mode, theme)
                },
                ImageSetting::IncludeBytes => false,
            },
            _ => blocks_rel(rest, out, ds, depth, mode, theme),
        }
    }
}

/// Relates label-context input nodes to the blocks and diagnostics they
/// compile to. The markup appended to the active label is fixed separately
/// and exactly by [`inline_markup_seq`]; this relation covers the blocks
/// that block-level nodes met during inline traversal still emit.
pub open spec fn inline_rel(
    nodes: Seq<Ast>,
    out: Seq<DocNode>,
    ds: Seq<Diagnostic>,
    depth: int,
    mode: ImageSetting,
    theme: Seq<char>,
) -> bool
    decreases ast_height_seq(nodes), nodes.len() + 1,
    via inline_rel_decreases
{
    if nodes.len() == 0 {
        out.len() == 0 && ds.len() == 0
    } else {
        let rest = nodes.subrange(1, nodes.len() as int);
        match nodes[0] {
            Ast::Strong { children } => exists|j: int, k: int| #![trigger ds.take(j), out.take(k)]
                0 <= j <= ds.len() && 0 <= k <= out.len() && inline_rel(
                    children@,
                    out.take(k),
                    ds.take(j),
                    depth,
                    mode,
                    theme,
                ) && inline_rel(rest, out.skip(k), ds.skip(j), depth, mode, theme),
            Ast::Emphasis { children } => exists|j: int, k: int| #![trigger ds.take(j), out.take(k)]
                0 <= j <= ds.len() && 0 <= k <= out.len() && inline_rel(
                    children@,
                    out.take(k),
                    ds.take(j),
                    depth,
                    mode,
                    theme,
                ) && inline_rel(rest, out.skip(k), ds.skip(j), depth, mode, theme),
            Ast::Delete { children } => exists|j: int, k: int| #![trigger ds.take(j), out.take(k)]
                0 <= j <= ds.len() && 0 <= k <= out.len() && inline_rel(
                    children@,
                    out.take(k),
                    ds.take(j),
                    depth,
                    mode,
                    theme,
                ) && inline_rel(rest, out.skip(k), ds.skip(j), depth, mode, theme),
            Ast::Paragraph { children } => exists|j: int, k: int| #![trigger ds.take(j), out.take(k)]
                0 <= j <= ds.len() && 0 <= k <= out.len() && inline_rel(
                    children@,
                    out.take(k),
                    ds.take(j),
                    depth,
                    mode,
                    theme,
                ) && inline_rel(rest, out.skip(k), ds.skip(j), depth, mode, theme),
            Ast::Link { title, children, .. } => if title is Some {
                inline_rel(rest, out, ds, depth, mode, theme)
            } else {
                exists|j: int, k: int| #![trigger ds.take(j), out.take(k)]
                    0 <= j <= ds.len() && 0 <= k <= out.len() && inline_rel(
                        children@,
                        out.take(k),
                        ds.take(j),
                        depth,
                        mode,
                        theme,
                    ) && inline_rel(rest, out.skip(k), ds.skip(j), depth, mode, theme)
            },
            Ast::Heading { depth: d, children } => if 1 <= d <= 6 {
                &&& out.len() >= 1
                &&& out[0] matches DocNode::Heading { size, separator_height, markup, children: sub }
                    && size == heading_size(d as int) && separator_height == heading_sep(d as int)
                    && markup@ == span_font_open(heading_size(d as int)) + inline_markup_seq(
                    children@,
                ) + span_close_seq() && exists|j: int| #![trigger ds.take(j)]
                    0 <= j <= ds.len() && inline_rel(
                        children@,
                        sub@,
                        ds.take(j),
                        depth,
                        mode,
                        theme,
                    ) && inline_rel(rest, out.skip(1), ds.skip(j), depth, mode, theme)
            } else {
                inline_rel(rest, out, ds, depth, mode, theme)
            },
            Ast::BlockQuote { children } => {
                &&& out.len() >= 1
                &&& out[0] matches DocNode::BlockQuote { children: sub } && exists|j: int| #![trigger ds.take(j)]
                    0 <= j <= ds.len() && blocks_rel(
                        children@,
                        sub@,
                        ds.take(j),
                        depth,
                        mode,
                        theme,
                    ) && inline_rel(rest, out.skip(1), ds.skip(j), depth, mode, theme)
            },
            Ast::List { children } => {
                &&& out.len() >= 1
                &&& out[0] matches DocNode::List { children: sub } && exists|j: int| #![trigger ds.take(j)]
                    0 <= j <= ds.len() && blocks_rel(
                        children@,
                        sub@,
                        ds.take(j),
                        bump_depth(depth),
                        mode,
                        theme,
                    ) && inline_rel(rest, out.skip(1), ds.skip(j), depth, mode, theme)
            },
            Ast::ListItem { checked, children } => {
                &&& out.len() >= 1
                &&& out[0] matches DocNode::ListItem { indent, checked: c2, children: sub }
                    && indent == indent_of(depth) && c2 == checked && exists|j: int| #![trigger ds.take(j)]
                    0 <= j <= ds.len() && blocks_rel(
                        children@,
                        sub@,
                        ds.take(j),
                        depth,
                        mode,
                        theme,
                    ) && inline_rel(rest, out.skip(1), ds.skip(j), depth, mode, theme)
            },
            Ast::Code { lang, value } => {
                &&& out.len() >= 1
                &&& exists|j: int| #![trigger ds.take(j)]
                    0 <= j <= ds.len() && code_block_ok(
                        opt_view(lang),
                        value@,
                        theme,
                        out[0],
                        ds.take(j),
                    ) && inline_rel(rest, out.skip(1), ds.skip(j), depth, mode, theme)
            },
            Ast::Table { children } => {
                &&& out.len() >= 1
                &&& out[0] matches DocNode::Table { cells } && exists|j: int| #![trigger ds.take(j)]
                    0 <= j <= ds.len() && table_rel(
                        children@,
                        cells@,
                        ds.take(j),
                        0,
                        depth,
                        mode,
                        theme,
                    ) && inline_rel(rest, out.skip(1), ds.skip(j), depth, mode, theme)
            },
            Ast::ThematicBreak => {
                &&& out.len() >= 1
                &&& out[0] is Separator
                &&& inline_rel(rest, out.skip(1), ds, depth, mode, theme)
            },
            Ast::Image { url } => match mode {
                ImageSetting::Ignore => inline_rel(rest, out, ds, depth, mode, theme),
                ImageSetting::FromPath => {
                    &&& out.len() >= 1
                    &&& out[0] matches DocNode::Image { url: u2 } && u2@ == url@
                    &&& inline_rel(rest, out.skip(1), ds, depth, mode, theme)
                },
                ImageSetting::IncludeBytes => false,
            },
            _ => inline_rel(rest, out, ds, depth, mode, theme),
        }
    }
}

/// Relates a table's children to the cells of its grid. Each row resets the
/// column to 0 and takes the next row index; nodes that are not rows are not
/// part of the grid and are skipped.
pub open spec fn table_rel(
    nodes: Seq<Ast>,
    cells: Seq<DocCell>,
    ds: Seq<Diagnostic>,
    row: int,
    depth: int,
    mode: ImageSetting,
    theme: Seq<char>,
) -> bool
    decreases ast_height_seq(nodes), nodes.len() + 1,
    via table_rel_decreases
{
    if nodes.len() == 0 {
        cells.len() == 0 && ds.len() == 0
    } else {
        let rest = nodes.subrange(1, nodes.len() as int);
        match nodes[0] {
            Ast::TableRow { children } => exists|j: int, k: int| #![trigger ds.take(j), cells.take(k)]
                0 <= j <= ds.len() && 0 <= k <= cells.len() && row_rel(
                    children@,
                    cells.take(k),
                    ds.take(j),
                    row,
                    0,
                    depth,
                    mode,
                    theme,
                ) && table_rel(rest, cells.skip(k), ds.skip(j), row + 1, depth, mode, theme),
            _ => table_rel(rest, cells, ds, row, depth, mode, theme),
        }
    }
}

/// Relates a row's children to its cells. Each cell takes the next column
/// in this row, and its inline content is compiled into its own sealed
/// label; nodes that are not cells are skipped.
pub open spec fn row_rel(
    nodes: Seq<Ast>,
    cells: Seq<DocCell>,
    ds: Seq<Diagnostic>,
    row: int,
    col: int,
    depth: int,
    mode: ImageSetting,
    theme: Seq<char>,
) -> bool
    decreases ast_height_seq(nodes), nodes.len() + 1,
    via row_rel_decreases
{
    if nodes.len() == 0 {
        cells.len() == 0 && ds.len() == 0
    } else {
        let rest = nodes.subrange(1, nodes.len() as int);
        match nodes[0] {
            Ast::TableCell { children } => {
                &&& cells.len() >= 1
                &&& cells[0].row == row
                &&& cells[0].col == col
                &&& cells[0].markup@ == inline_markup_seq(children@)
                &&& exists|j: int| #![trigger ds.take(j)]
                    0 <= j <= ds.len() && inline_rel(
                        children@,
                        cells[0].children@,
                        ds.take(j),
                        depth,
                        mode,
                        theme,
                    ) && row_rel(rest, cells.skip(1), ds.skip(j), row, col + 1, depth, mode, theme)
            },
            _ => row_rel(rest, cells, ds, row, col, depth, mode, theme),
        }
    }
}

#[via_fn]
proof fn blocks_rel_decreases(
    nodes: Seq<Ast>,
    out: Seq<DocNode>,
    ds: Seq<Diagnostic>,
    depth: int,
    mode: ImageSetting,
    theme: Seq<char>,
) {
    if nodes.len() > 0 {
        lemma_child_height(nodes, 0);
        assert(ast_height_seq(nodes) >= ast_height_seq(nodes.subrange(1, nodes.len() as int)));
    }
}

#[via_fn]
proof fn inline_rel_decreases(
    nodes: Seq<Ast>,
    out: Seq<DocNode>,
    ds: Seq<Diagnostic>,
    depth: int,
    mode: ImageSetting,
    theme: Seq<char>,
) {
    if nodes.len() > 0 {
        lemma_child_height(nodes, 0);
        assert(ast_height_seq(nodes) >= ast_height_seq(nodes.subrange(1, nodes.len() as int)));
    }
}

#[via_fn]
proof fn table_rel_decreases(
    nodes: Seq<Ast>,
    cells: Seq<DocCell>,
    ds: Seq<Diagnostic>,
    row: int,
    depth: int,
    mode: ImageSetting,
    theme: Seq<char>,
) {
    if nodes.len() > 0 {
        lemma_child_height(nodes, 0);
        assert(ast_height_seq(nodes) >= ast_height_seq(nodes.subrange(1, nodes.len() as int)));
    }
}

#[via_fn]
proof fn row_rel_decreases(
    nodes: Seq<Ast>,
    cells: Seq<DocCell>,
    ds: Seq<Diagnostic>,
    row: int,
    col: int,
    depth: int,
    mode: ImageSetting,
    theme: Seq<char>,
) {
    if nodes.len() > 0 {
        lemma_child_height(nodes, 0);
        assert(ast_height_seq(nodes) >= ast_height_seq(nodes.subrange(1, nodes.len() as int)));
    }
}

// ---------------------------------------------------------------------------
// Exec helpers
// ---------------------------------------------------------------------------
/// The size class and separator thickness of a heading depth 1 to 6.
fn heading_attrs(d: u8) -> (r: (HeadingSize, u8))
    requires
        1 <= d <= 6,
    ensures
        r.0 == heading_size(d as int),
        r.1 == heading_sep(d as int),
{
    if d == 1 {
        (HeadingSize::XxLarge, 4)
    } else if d == 2 {
        (HeadingSize::XLarge, 3)
    } else if d == 3 {
        (HeadingSize::Large, 2)
    } else {
        (HeadingSize::Medium, 1)
    }
}

// ---------------------------------------------------------------------------
// The compiler
// ---------------------------------------------------------------------------
/// Compiles the nodes from index `i` on, with no active label, at list
/// depth `depth`.
#[verifier::rlimit(100)]
fn compile_blocks_from(
    nodes: &Vec<Ast>,
    i: usize,
    depth: u16,
    cfg: &RenderConfig,
    hl: &Highlighter,
) -> (r: (Vec<DocNode>, Vec<Diagnostic>))
    requires
        i <= nodes@.len(),
        cfg.image_settings is IncludeBytes ==> !contains_image_seq(nodes@.skip(i as int)),
    ensures
        blocks_rel(
            nodes@.skip(i as int),
            r.0@,
            r.1@,
            depth as int,
            cfg.image_settings,
            cfg.highlight_theme@,
        ),
    decreases ast_height_seq(nodes@.skip(i as int)), nodes@.len() - i + 1,
{
    let ghost cur = nodes@.skip(i as int);
    let ghost dd = depth as int;
    let ghost mode = cfg.image_settings;
    let ghost theme = cfg.highlight_theme@;
    if i == nodes.len() {
        let r = (Vec::<DocNode>::new(), Vec::<Diagnostic>::new());
        proof {
            assert(cur.len() == 0);
        }
        return r;
    }
    proof {
        assert(cur[0] == nodes@[i as int]);
        assert(cur.subrange(1, cur.len() as int) =~= nodes@.skip(i as int + 1));
        if cfg.image_settings is IncludeBytes {
            lemma_no_image_member(cur, 0);
        }
        lemma_child_height(cur, 0);
        assert(ast_height_seq(cur) >= ast_height_seq(cur.subrange(1, cur.len() as int)));
    }
    match &nodes[i] {
        Ast::Heading { depth: d, children } => {
            if *d >= 1 && *d <= 6 {
                let (size, sep) = heading_attrs(*d);
                let mut label = Label::new();
                label.append_str("<span font_size=\"");
                label.append_str(size.name());
                label.append_str("\">");
                proof {
                    assert(children_of(cur[0]) == children@);
                    assert(children@.skip(0) =~= children@);
                }
                let (sub_bs, mut ds) = compile_inline_from(children, 0, &mut label, depth, cfg, hl);
                label.append_str("</span>");
                label.seal();
                let ghost sub = sub_bs@;
                let ghost dsh = ds@;
                let markup = label.into_markup();
                proof {
                    reveal_strlit("<span font_size=\"");
                    reveal_strlit("\">");
                    reveal_strlit("</span>");
                    assert(markup@ =~= span_font_open(size) + inline_markup_seq(children@)
                        + span_close_seq());
                }
                let node = DocNode::Heading {
                    size,
                    separator_height: sep,
                    markup,
                    children: sub_bs,
                };
                let ghost gnode = node;
                let (mut tail_bs, mut tail_ds) = compile_blocks_from(nodes, i + 1, depth, cfg, hl);
                let ghost dst = tail_ds@;
                let ghost bst = tail_bs@;
                let mut out: Vec<DocNode> = Vec::new();
                out.push(node);
                out.append(&mut tail_bs);
                ds.append(&mut tail_ds);
                proof {
                    let jw = dsh.len() as int;
                    assert(out@[0] == gnode);
                    assert(out@.skip(1) =~= bst);
                    assert(ds@.take(jw) =~= dsh);
                    assert(ds@.skip(jw) =~= dst);
                    assert(inline_rel(children@, sub, ds@.take(jw), dd, mode, theme));
                    assert(blocks_rel(cur.subrange(1, cur.len() as int), out@.skip(1), ds@.skip(jw), dd, mode, theme));
                    assert(blocks_rel(cur, out@, ds@, dd, mode, theme));
                }
                (out, ds)
            } else {
                let r = compile_blocks_from(nodes, i + 1, depth, cfg, hl);
                proof {
                    assert(blocks_rel(cur, r.0@, r.1@, dd, mode, theme));
                }
                r
            }
        },
        Ast::Paragraph { children } => {
            let mut label = Label::new();
            proof {
                assert(children_of(cur[0]) == children@);
                assert(children@.skip(0) =~= children@);
            }
            let (sub_bs, mut ds) = compile_inline_from(children, 0, &mut label, depth, cfg, hl);
            label.seal();
            let ghost sub = sub_bs@;
            let ghost dsh = ds@;
            let markup = label.into_markup();
            let node = DocNode::Paragraph { markup, children: sub_bs };
            let ghost gnode = node;
            let (mut tail_bs, mut tail_ds) = compile_blocks_from(nodes, i + 1, depth, cfg, hl);
            let ghost dst = tail_ds@;
            let ghost bst = tail_bs@;
            let mut out: Vec<DocNode> = Vec::new();
            out.push(node);
            out.append(&mut tail_bs);
            ds.append(&mut tail_ds);
            proof {
                let jw = dsh.len() as int;
                assert(out@[0] == gnode);
                assert(out@.skip(1) =~= bst);
                assert(ds@.take(jw) =~= dsh);
                assert(ds@.skip(jw) =~= dst);
                assert(inline_rel(children@, sub, ds@.take(jw), dd, mode, theme));
                assert(blocks_rel(cur.subrange(1, cur.len() as int), out@.skip(1), ds@.skip(jw), dd, mode, theme));
                assert(blocks_rel(cur, out@, ds@, dd, mode, theme));
            }
            (out, ds)
        },
        Ast::BlockQuote { children } => {
            proof {
                assert(children_of(cur[0]) == children@);
                assert(children@.skip(0) =~= children@);
            }
            let (sub_bs, mut ds) = compile_blocks_from(children, 0, depth, cfg, hl);
            let ghost sub = sub_bs@;
            let ghost dsh = ds@;
            let node = DocNode::BlockQuote { children: sub_bs };
            let ghost gnode = node;
            let (mut tail_bs, mut tail_ds) = compile_blocks_from(nodes, i + 1, depth, cfg, hl);
            let ghost dst = tail_ds@;
            let ghost bst = tail_bs@;
            let mut out: Vec<DocNode> = Vec::new();
            out.push(node);
            out.append(&mut tail_bs);
            ds.append(&mut tail_ds);
            proof {
                let jw = dsh.len() as int;
                assert(out@[0] == gnode);
                assert(out@.skip(1) =~= bst);
                assert(ds@.take(jw) =~= dsh);
                assert(ds@.skip(jw) =~= dst);
                assert(blocks_rel(children@, sub, ds@.take(jw), dd, mode, theme));
                assert(blocks_rel(cur.subrange(1, cur.len() as int), out@.skip(1), ds@.skip(jw), dd, mode, theme));
                assert(blocks_rel(cur, out@, ds@, dd, mode, theme));
            }
            (out, ds)
        },
        Ast::List { children } => {
            let d2: u16 = if depth < 65535 {
                depth + 1
            } else {
                depth
            };
            proof {
                assert(children_of(cur[0]) == children@);
                assert(children@.skip(0) =~= children@);
                assert(d2 as int == bump_depth(dd));
            }
            let (sub_bs, mut ds) = compile_blocks_from(children, 0, d2, cfg, hl);
            let ghost sub = sub_bs@;
            let ghost dsh = ds@;
            let node = DocNode::List { children: sub_bs };
            let ghost gnode = node;
            let (mut tail_bs, mut tail_ds) = compile_blocks_from(nodes, i + 1, depth, cfg, hl);
            let ghost dst = tail_ds@;
            let ghost bst = tail_bs@;
            let mut out: Vec<DocNode> = Vec::new();
            out.push(node);
            out.append(&mut tail_bs);
            ds.append(&mut tail_ds);
            proof {
                let jw = dsh.len() as int;
                assert(out@[0] == gnode);
                assert(out@.skip(1) =~= bst);
                assert(ds@.take(jw) =~= dsh);
                assert(ds@.skip(jw) =~= dst);
                assert(blocks_rel(children@, sub, ds@.take(jw), bump_depth(dd), mode, theme));
                assert(blocks_rel(cur.subrange(1, cur.len() as int), out@.skip(1), ds@.skip(jw), dd, mode, theme));
                assert(blocks_rel(cur, out@, ds@, dd, mode, theme));
            }
            (out, ds)
        },
        Ast::ListItem { checked, children } => {
            let indent: usize = if depth == 0 {
                0
            } else {
                ((depth - 1) as usize) * 15
            };
            proof {
                assert(children_of(cur[0]) == children@);
                assert(children@.skip(0) =~= children@);
                assert(indent as int == indent_of(dd));
            }
            let (sub_bs, mut ds) = compile_blocks_from(children, 0, depth, cfg, hl);
            let ghost sub = sub_bs@;
            let ghost dsh = ds@;
            let node = DocNode::ListItem { indent, checked: *checked, children: sub_bs };
            let ghost gnode = node;
            let (mut tail_bs, mut tail_ds) = compile_blocks_from(nodes, i + 1, depth, cfg, hl);
            let ghost dst = tail_ds@;
            let ghost bst = tail_bs@;
            let mut out: Vec<DocNode> = Vec::new();
            out.push(node);
            out.append(&mut tail_bs);
            ds.append(&mut tail_ds);
            proof {
                let jw = dsh.len() as int;
                assert(out@[0] == gnode);
                assert(out@.skip(1) =~= bst);
                assert(ds@.take(jw) =~= dsh);
                assert(ds@.skip(jw) =~= dst);
                assert(blocks_rel(children@, sub, ds@.take(jw), dd, mode, theme));
                assert(blocks_rel(cur.subrange(1, cur.len() as int), out@.skip(1), ds@.skip(jw), dd, mode, theme));
                assert(blocks_rel(cur, out@, ds@, dd, mode, theme));
            }
            (out, ds)
        },
        Ast::Code { lang, value } => {
            let (node, mut ds) = hl.highlight_block(lang, value.as_str(), cfg.highlight_theme.as_str());
            let ghost gnode = node;
            let ghost dsh = ds@;
            let (mut tail_bs, mut tail_ds) = compile_blocks_from(nodes, i + 1, depth, cfg, hl);
            let ghost dst = tail_ds@;
            let ghost bst = tail_bs@;
            let mut out: Vec<DocNode> = Vec::new();
            out.push(node);
            out.append(&mut tail_bs);
            ds.append(&mut tail_ds);
            proof {
                let jw = dsh.len() as int;
                assert(out@[0] == gnode);
                assert(out@.skip(1) =~= bst);
                assert(ds@.take(jw) =~= dsh);
                assert(ds@.skip(jw) =~= dst);
                assert(code_block_ok(opt_view(*lang), value@, theme, out@[0], ds@.take(jw)));
                assert(blocks_rel(cur.subrange(1, cur.len() as int), out@.skip(1), ds@.skip(jw), dd, mode, theme));
                assert(blocks_rel(cur, out@, ds@, dd, mode, theme));
            }
            (out, ds)
        },
        Ast::Table { children } => {
            proof {
                assert(children_of(cur[0]) == children@);
                assert(children@.skip(0) =~= children@);
            }
            let (cells, mut ds) = compile_table_from(children, 0, 0, depth, cfg, hl);
            let ghost gcells = cells@;
            let ghost dsh = ds@;
            let node = DocNode::Table { cells };
            let ghost gnode = node;
            let (mut tail_bs, mut tail_ds) = compile_blocks_from(nodes, i + 1, depth, cfg, hl);
            let ghost dst = tail_ds@;
            let ghost bst = tail_bs@;
            let mut out: Vec<DocNode> = Vec::new();
            out.push(node);
            out.append(&mut tail_bs);
            ds.append(&mut tail_ds);
            proof {
                let jw = dsh.len() as int;
                assert(out@[0] == gnode);
                assert(out@.skip(1) =~= bst);
                assert(ds@.take(jw) =~= dsh);
                assert(ds@.skip(jw) =~= dst);
                assert(table_rel(children@, gcells, ds@.take(jw), 0, dd, mode, theme));
                assert(blocks_rel(cur.subrange(1, cur.len() as int), out@.skip(1), ds@.skip(jw), dd, mode, theme));
                assert(blocks_rel(cur, out@, ds@, dd, mode, theme));
            }
            (out, ds)
        },
        Ast::ThematicBreak => {
            let (mut tail_bs, tail_ds) = compile_blocks_from(nodes, i + 1, depth, cfg, hl);
            let ghost bst = tail_bs@;
            let mut out: Vec<DocNode> = Vec::new();
            out.push(DocNode::Separator);
            out.append(&mut tail_bs);
            proof {
                assert(out@.skip(1) =~= bst);
                assert(blocks_rel(cur.subrange(1, cur.len() as int), out@.skip(1), tail_ds@, dd, mode, theme));
                assert(blocks_rel(cur, out@, tail_ds@, dd, mode, theme));
            }
            (out, tail_ds)
        },
        Ast::Image { url } => {
            match cfg.image_settings {
                ImageSetting::Ignore => {
                    let r = compile_blocks_from(nodes, i + 1, depth, cfg, hl);
                    proof {
                        assert(blocks_rel(cur, r.0@, r.1@, dd, mode, theme));
                    }
                    r
                },
                ImageSetting::FromPath => {
                    let node = DocNode::Image { url: url.clone() };
                    let ghost gnode = node;
                    let (mut tail_bs, tail_ds) = compile_blocks_from(nodes, i + 1, depth, cfg, hl);
                    let ghost bst = tail_bs@;
                    let mut out: Vec<DocNode> = Vec::new();
                    out.push(node);
                    out.append(&mut tail_bs);
                    proof {
                        assert(out@[0] == gnode);
                        assert(out@.skip(1) =~= bst);
                        assert(blocks_rel(cur.subrange(1, cur.len() as int), out@.skip(1), tail_ds@, dd, mode, theme));
                        assert(blocks_rel(cur, out@, tail_ds@, dd, mode, theme));
                    }
                    (out, tail_ds)
                },
                ImageSetting::IncludeBytes => {
                    proof {
                        assert(contains_image_seq(cur));
                        assert(false);
                    }
                    vstd::pervasive::unreached()
                },
            }
        },
        _ => {
            let r = compile_blocks_from(nodes, i + 1, depth, cfg, hl);
            proof {
                assert(blocks_rel(cur, r.0@, r.1@, dd, mode, theme));
            }
            r
        },
    }
}


/// Compiles the nodes from index `i` on into the active `label`, appending
/// exactly their inline markup, and returns the blocks that block-level
/// nodes met during the traversal still emit.
#[verifier::rlimit(100)]
fn compile_inline_from(
    nodes: &Vec<Ast>,
    i: usize,
    label: &mut Label,
    depth: u16,
    cfg: &RenderConfig,
    hl: &Highlighter,
) -> (r: (Vec<DocNode>, Vec<Diagnostic>))
    requires
        i <= nodes@.len(),
        !old(label).is_sealed(),
        cfg.image_settings is IncludeBytes ==> !contains_image_seq(nodes@.skip(i as int)),
    ensures
        !final(label).is_sealed(),
        final(label).text() == old(label).text() + inline_markup_seq(nodes@.skip(i as int)),
        inline_rel(
            nodes@.skip(i as int),
            r.0@,
            r.1@,
            depth as int,
            cfg.image_settings,
            cfg.highlight_theme@,
        ),
    decreases ast_height_seq(nodes@.skip(i as int)), nodes@.len() - i + 1,
{
    let ghost cur = nodes@.skip(i as int);
    let ghost dd = depth as int;
    let ghost mode = cfg.image_settings;
    let ghost theme = cfg.highlight_theme@;
    let ghost t0 = label.text();
    if i == nodes.len() {
        let r = (Vec::<DocNode>::new(), Vec::<Diagnostic>::new());
        proof {
            assert(cur.len() == 0);
            assert(t0 + inline_markup_seq(cur) =~= t0);
        }
        return r;
    }
    proof {
        assert(cur[0] == nodes@[i as int]);
        assert(cur.subrange(1, cur.len() as int) =~= nodes@.skip(i as int + 1));
        if cfg.image_settings is IncludeBytes {
            lemma_no_image_member(cur, 0);
        }
        lemma_child_height(cur, 0);
        assert(ast_height_seq(cur) >= ast_height_seq(cur.subrange(1, cur.len() as int)));
        assert(inline_markup_seq(cur) == inline_markup(cur[0]) + inline_markup_seq(
            cur.subrange(1, cur.len() as int),
        ));
    }
    match &nodes[i] {
        Ast::Text { value } => {
            let escaped = escape_markup(value.as_str());
            label.append_str(escaped.as_str());
            proof {
                assert(label.text() =~= t0 + inline_markup(cur[0]));
            }
            let r = compile_inline_from(nodes, i + 1, label, depth, cfg, hl);
            proof {
                assert(label.text() =~= t0 + inline_markup_seq(cur));
                assert(inline_rel(cur, r.0@, r.1@, dd, mode, theme));
            }
            r
        },
        Ast::LineBreak => {
            proof {
                reveal_strlit("\n");
                assert("\n"@ =~= seq!['\n']);
            }
            label.append_str("\n");
            proof {
                assert(label.text() =~= t0 + inline_markup(cur[0]));
            }
            let r = compile_inline_from(nodes, i + 1, label, depth, cfg, hl);
            proof {
                assert(label.text() =~= t0 + inline_markup_seq(cur));
                assert(inline_rel(cur, r.0@, r.1@, dd, mode, theme));
            }
            r
        },
        Ast::InlineCode { value } => {
            proof {
                reveal_strlit(" <span><tt>");
                reveal_strlit("</tt></span> ");
            }
            label.append_str(" <span><tt>");
            let escaped = escape_markup(value.as_str());
            label.append_str(escaped.as_str());
            label.append_str("</tt></span> ");
            proof {
                assert(label.text() =~= t0 + inline_markup(cur[0]));
            }
            let r = compile_inline_from(nodes, i + 1, label, depth, cfg, hl);
            proof {
                assert(label.text() =~= t0 + inline_markup_seq(cur));
                assert(inline_rel(cur, r.0@, r.1@, dd, mode, theme));
            }
            r
        },
        Ast::Strong { children } => {
            proof {
                reveal_strlit("<b>");
                reveal_strlit("</b>");
                assert(children_of(cur[0]) == children@);
                assert(children@.skip(0) =~= children@);
            }
            label.append_str("<b>");
            let (mut out, mut ds) = compile_inline_from(children, 0, label, depth, cfg, hl);
            label.append_str("</b>");
            let ghost sub = out@;
            let ghost dsh = ds@;
            proof {
                assert(label.text() =~= t0 + inline_markup(cur[0]));
            }
            let (mut tail_bs, mut tail_ds) = compile_inline_from(nodes, i + 1, label, depth, cfg, hl);
            let ghost dst = tail_ds@;
            let ghost bst = tail_bs@;
            out.append(&mut tail_bs);
            ds.append(&mut tail_ds);
            proof {
                let jw = dsh.len() as int;
                let kw = sub.len() as int;
                assert(label.text() =~= t0 + inline_markup_seq(cur));
                assert(out@.take(kw) =~= sub);
                assert(out@.skip(kw) =~= bst);
                assert(ds@.take(jw) =~= dsh);
                assert(ds@.skip(jw) =~= dst);
                assert(inline_rel(children@, out@.take(kw), ds@.take(jw), dd, mode, theme));
                assert(inline_rel(cur.subrange(1, cur.len() as int), out@.skip(kw), ds@.skip(jw), dd, mode, theme));
                assert(inline_rel(cur, out@, ds@, dd, mode, theme));
            }
            (out, ds)
        },
        Ast::Emphasis { children } => {
            proof {
                reveal_strlit("<i>");
                reveal_strlit("</i>");
                assert(children_of(cur[0]) == children@);
                assert(children@.skip(0) =~= children@);
            }
            label.append_str("<i>");
            let (mut out, mut ds) = compile_inline_from(children, 0, label, depth, cfg, hl);
            label.append_str("</i>");
            let ghost sub = out@;
            let ghost dsh = ds@;
            proof {
                assert(label.text() =~= t0 + inline_markup(cur[0]));
            }
            let (mut tail_bs, mut tail_ds) = compile_inline_from(nodes, i + 1, label, depth, cfg, hl);
            let ghost dst = tail_ds@;
            let ghost bst = tail_bs@;
            out.append(&mut tail_bs);
            ds.append(&mut tail_ds);
            proof {
                let jw = dsh.len() as int;
                let kw = sub.len() as int;
                assert(label.text() =~= t0 + inline_markup_seq(cur));
                assert(out@.take(kw) =~= sub);
                assert(out@.skip(kw) =~= bst);
                assert(ds@.take(jw) =~= dsh);
                assert(ds@.skip(jw) =~= dst);
                assert(inline_rel(children@, out@.take(kw), ds@.take(jw), dd, mode, theme));
                assert(inline_rel(cur.subrange(1, cur.len() as int), out@.skip(kw), ds@.skip(jw), dd, mode, theme));
                assert(inline_rel(cur, out@, ds@, dd, mode, theme));
            }
            (out, ds)
        },
        Ast::Delete { children } => {
            proof {
                reveal_strlit("<s>");
                reveal_strlit("</s>");
                assert(children_of(cur[0]) == children@);
                assert(children@.skip(0) =~= children@);
            }
            label.append_str("<s>");
            let (mut out, mut ds) = compile_inline_from(children, 0, label, depth, cfg, hl);
            label.append_str("</s>");
            let ghost sub = out@;
            let ghost dsh = ds@;
            proof {
                assert(label.text() =~= t0 + inline_markup(cur[0]));
            }
            let (mut tail_bs, mut tail_ds) = compile_inline_from(nodes, i + 1, label, depth, cfg, hl);
            let ghost dst = tail_ds@;
            let ghost bst = tail_bs@;
            out.append(&mut tail_bs);
            ds.append(&mut tail_ds);
            proof {
                let jw = dsh.len() as int;
                let kw = sub.len() as int;
                assert(label.text() =~= t0 + inline_markup_seq(cur));
                assert(out@.take(kw) =~= sub);
                assert(out@.skip(kw) =~= bst);
                assert(ds@.take(jw) =~= dsh);
                assert(ds@.skip(jw) =~= dst);
                assert(inline_rel(children@, out@.take(kw), ds@.take(jw), dd, mode, theme));
                assert(inline_rel(cur.subrange(1, cur.len() as int), out@.skip(kw), ds@.skip(jw), dd, mode, theme));
                assert(inline_rel(cur, out@, ds@, dd, mode, theme));
            }
            (out, ds)
        },
        Ast::Paragraph { children } => {
            proof {
                assert(children_of(cur[0]) == children@);
                assert(children@.skip(0) =~= children@);
            }
            let (mut out, mut ds) = compile_inline_from(children, 0, label, depth, cfg, hl);
            let ghost sub = out@;
            let ghost dsh = ds@;
            proof {
                assert(label.text() =~= t0 + inline_markup(cur[0]));
            }
            let (mut tail_bs, mut tail_ds) = compile_inline_from(nodes, i + 1, label, depth, cfg, hl);
            let ghost dst = tail_ds@;
            let ghost bst = tail_bs@;
            out.append(&mut tail_bs);
            ds.append(&mut tail_ds);
            proof {
                let jw = dsh.len() as int;
                let kw = sub.len() as int;
                assert(label.text() =~= t0 + inline_markup_seq(cur));
                assert(out@.take(kw) =~= sub);
                assert(out@.skip(kw) =~= bst);
                assert(ds@.take(jw) =~= dsh);
                assert(ds@.skip(jw) =~= dst);
                assert(inline_rel(children@, out@.take(kw), ds@.take(jw), dd, mode, theme));
                assert(inline_rel(cur.subrange(1, cur.len() as int), out@.skip(kw), ds@.skip(jw), dd, mode, theme));
                assert(inline_rel(cur, out@, ds@, dd, mode, theme));
            }
            (out, ds)
        },
        Ast::Link { url, title, children } => {
            proof {
                reveal_strlit("<u><a href=\"");
                reveal_strlit("\">");
                reveal_strlit("</a></u>");
                assert(children_of(cur[0]) == children@);
                assert(children@.skip(0) =~= children@);
            }
            label.append_str("<u><a href=\"");
            let escaped_url = escape_markup(url.as_str());
            label.append_str(escaped_url.as_str());
            label.append_str("\">");
            match title {
                Some(t) => {
                    let escaped_title = escape_markup(t.as_str());
                    label.append_str(escaped_title.as_str());
                    label.append_str("</a></u>");
                    proof {
                        assert(label.text() =~= t0 + inline_markup(cur[0]));
                    }
                    let r = compile_inline_from(nodes, i + 1, label, depth, cfg, hl);
                    proof {
                        assert(label.text() =~= t0 + inline_markup_seq(cur));
                        assert(inline_rel(cur, r.0@, r.1@, dd, mode, theme));
                    }
                    r
                },
                None => {
                    let (mut out, mut ds) = compile_inline_from(children, 0, label, depth, cfg, hl);
                    label.append_str("</a></u>");
                    let ghost sub = out@;
                    let ghost dsh = ds@;
                    proof {
                        assert(label.text() =~= t0 + inline_markup(cur[0]));
                    }
                    let (mut tail_bs, mut tail_ds) = compile_inline_from(nodes, i + 1, label, depth, cfg, hl);
                    let ghost dst = tail_ds@;
                    let ghost bst = tail_bs@;
                    out.append(&mut tail_bs);
                    ds.append(&mut tail_ds);
                    proof {
                        let jw = dsh.len() as int;
                        let kw = sub.len() as int;
                        assert(label.text() =~= t0 + inline_markup_seq(cur));
                        assert(out@.take(kw) =~= sub);
                        assert(out@.skip(kw) =~= bst);
                        assert(ds@.take(jw) =~= dsh);
                        assert(ds@.skip(jw) =~= dst);
                        assert(inline_rel(children@, out@.take(kw), ds@.take(jw), dd, mode, theme));
                        assert(inline_rel(cur.subrange(1, cur.len() as int), out@.skip(kw), ds@.skip(jw), dd, mode, theme));
                        assert(inline_rel(cur, out@, ds@, dd, mode, theme));
                    }
                    (out, ds)
                },
            }
        },
        Ast::Heading { depth: d, children } => {
            if *d >= 1 && *d <= 6 {
                let (size, sep) = heading_attrs(*d);
                let mut hlabel = Label::new();
                hlabel.append_str("<span font_size=\"");
                hlabel.append_str(size.name());
                hlabel.append_str("\">");
                proof {
                    assert(children_of(cur[0]) == children@);
                    assert(children@.skip(0) =~= children@);
                }
                let (sub_bs, mut ds) = compile_inline_from(children, 0, &mut hlabel, depth, cfg, hl);
                hlabel.append_str("</span>");
                hlabel.seal();
                let ghost sub = sub_bs@;
                let ghost dsh = ds@;
                let markup = hlabel.into_markup();
                proof {
                    reveal_strlit("<span font_size=\"");
                    reveal_strlit("\">");
                    reveal_strlit("</span>");
                    assert(markup@ =~= span_font_open(size) + inline_markup_seq(children@)
                        + span_close_seq());
                }
                let node = DocNode::Heading {
                    size,
                    separator_height: sep,
                    markup,
                    children: sub_bs,
                };
                let ghost gnode = node;
                let (mut tail_bs, mut tail_ds) = compile_inline_from(nodes, i + 1, label, depth, cfg, hl);
                let ghost dst = tail_ds@;
                let ghost bst = tail_bs@;
                let mut out: Vec<DocNode> = Vec::new();
                out.push(node);
                out.append(&mut tail_bs);
                ds.append(&mut tail_ds);
                proof {
                    let jw = dsh.len() as int;
                    assert(label.text() =~= t0 + inline_markup_seq(cur));
                    assert(out@[0] == gnode);
                    assert(out@.skip(1) =~= bst);
                    assert(ds@.take(jw) =~= dsh);
                    assert(ds@.skip(jw) =~= dst);
                    assert(inline_rel(children@, sub, ds@.take(jw), dd, mode, theme));
                    assert(inline_rel(cur.subrange(1, cur.len() as int), out@.skip(1), ds@.skip(jw), dd, mode, theme));
                    assert(inline_rel(cur, out@, ds@, dd, mode, theme));
                }
                (out, ds)
            } else {
                let r = compile_inline_from(nodes, i + 1, label, depth, cfg, hl);
                proof {
                    assert(label.text() =~= t0 + inline_markup_seq(cur));
                    assert(inline_rel(cur, r.0@, r.1@, dd, mode, theme));
                }
                r
            }
        },
        Ast::BlockQuote { children } => {
            proof {
                assert(children_of(cur[0]) == children@);
                assert(children@.skip(0) =~= children@);
            }
            let (sub_bs, mut ds) = compile_blocks_from(children, 0, depth, cfg, hl);
            let ghost sub = sub_bs@;
            let ghost dsh = ds@;
            let node = DocNode::BlockQuote { children: sub_bs };
            let ghost gnode = node;
            let (mut tail_bs, mut tail_ds) = compile_inline_from(nodes, i + 1, label, depth, cfg, hl);
            let ghost dst = tail_ds@;
            let ghost bst = tail_bs@;
            let mut out: Vec<DocNode> = Vec::new();
            out.push(node);
            out.append(&mut tail_bs);
            ds.append(&mut tail_ds);
            proof {
                let jw = dsh.len() as int;
                assert(label.text() =~= t0 + inline_markup_seq(cur));
                assert(out@[0] == gnode);
                assert(out@.skip(1) =~= bst);
                assert(ds@.take(jw) =~= dsh);
                assert(ds@.skip(jw) =~= dst);
                assert(blocks_rel(children@, sub, ds@.take(jw), dd, mode, theme));
                assert(inline_rel(cur.subrange(1, cur.len() as int), out@.skip(1), ds@.skip(jw), dd, mode, theme));
                assert(inline_rel(cur, out@, ds@, dd, mode, theme));
            }
            (out, ds)
        },
        Ast::List { children } => {
            let d2: u16 = if depth < 65535 {
                depth + 1
            } else {
                depth
            };
            proof {
                assert(children_of(cur[0]) == children@);
                assert(children@.skip(0) =~= children@);
                assert(d2 as int == bump_depth(dd));
            }
            let (sub_bs, mut ds) = compile_blocks_from(children, 0, d2, cfg, hl);
            let ghost sub = sub_bs@;
            let ghost dsh = ds@;
            let node = DocNode::List { children: sub_bs };
            let ghost gnode = node;
            let (mut tail_bs, mut tail_ds) = compile_inline_from(nodes, i + 1, label, depth, cfg, hl);
            let ghost dst = tail_ds@;
            let ghost bst = tail_bs@;
            let mut out: Vec<DocNode> = Vec::new();
            out.push(node);
            out.append(&mut tail_bs);
            ds.append(&mut tail_ds);
            proof {
                let jw = dsh.len() as int;
                assert(label.text() =~= t0 + inline_markup_seq(cur));
                assert(out@[0] == gnode);
                assert(out@.skip(1) =~= bst);
                assert(ds@.take(jw) =~= dsh);
                assert(ds@.skip(jw) =~= dst);
                assert(blocks_rel(children@, sub, ds@.take(jw), bump_depth(dd), mode, theme));
                assert(inline_rel(cur.subrange(1, cur.len() as int), out@.skip(1), ds@.skip(jw), dd, mode, theme));
                assert(inline_rel(cur, out@, ds@, dd, mode, theme));
            }
            (out, ds)
        },
        Ast::ListItem { checked, children } => {
            let indent: usize = if depth == 0 {
                0
            } else {
                ((depth - 1) as usize) * 15
            };
            proof {
                assert(children_of(cur[0]) == children@);
                assert(children@.skip(0) =~= children@);
                assert(indent as int == indent_of(dd));
            }
            let (sub_bs, mut ds) = compile_blocks_from(children, 0, depth, cfg, hl);
            let ghost sub = sub_bs@;
            let ghost dsh = ds@;
            let node = DocNode::ListItem { indent, checked: *checked, children: sub_bs };
            let ghost gnode = node;
            let (mut tail_bs, mut tail_ds) = compile_inline_from(nodes, i + 1, label, depth, cfg, hl);
            let ghost dst = tail_ds@;
            let ghost bst = tail_bs@;
            let mut out: Vec<DocNode> = Vec::new();
            out.push(node);
            out.append(&mut tail_bs);
            ds.append(&mut tail_ds);
            proof {
                let jw = dsh.len() as int;
                assert(label.text() =~= t0 + inline_markup_seq(cur));
                assert(out@[0] == gnode);
                assert(out@.skip(1) =~= bst);
                assert(ds@.take(jw) =~= dsh);
                assert(ds@.skip(jw) =~= dst);
                assert(blocks_rel(children@, sub, ds@.take(jw), dd, mode, theme));
                assert(inline_rel(cur.subrange(1, cur.len() as int), out@.skip(1), ds@.skip(jw), dd, mode, theme));
                assert(inline_rel(cur, out@, ds@, dd, mode, theme));
            }
            (out, ds)
        },
        Ast::Code { lang, value } => {
            let (node, mut ds) = hl.highlight_block(lang, value.as_str(), cfg.highlight_theme.as_str());
            let ghost gnode = node;
            let ghost dsh = ds@;
            let (mut tail_bs, mut tail_ds) = compile_inline_from(nodes, i + 1, label, depth, cfg, hl);
            let ghost dst = tail_ds@;
            let ghost bst = tail_bs@;
            let mut out: Vec<DocNode> = Vec::new();
            out.push(node);
            out.append(&mut tail_bs);
            ds.append(&mut tail_ds);
            proof {
                let jw = dsh.len() as int;
                assert(label.text() =~= t0 + inline_markup_seq(cur));
                assert(out@[0] == gnode);
                assert(out@.skip(1) =~= bst);
                assert(ds@.take(jw) =~= dsh);
                assert(ds@.skip(jw) =~= dst);
                assert(code_block_ok(opt_view(*lang), value@, theme, out@[0], ds@.take(jw)));
                assert(inline_rel(cur.subrange(1, cur.len() as int), out@.skip(1), ds@.skip(jw), dd, mode, theme));
                assert(inline_rel(cur, out@, ds@, dd, mode, theme));
            }
            (out, ds)
        },
        Ast::Table { children } => {
            proof {
                assert(children_of(cur[0]) == children@);
                assert(children@.skip(0) =~= children@);
            }
            let (cells, mut ds) = compile_table_from(children, 0, 0, depth, cfg, hl);
            let ghost gcells = cells@;
            let ghost dsh = ds@;
            let node = DocNode::Table { cells };
            let ghost gnode = node;
            let (mut tail_bs, mut tail_ds) = compile_inline_from(nodes, i + 1, label, depth, cfg, hl);
            let ghost dst = tail_ds@;
            let ghost bst = tail_bs@;
            let mut out: Vec<DocNode> = Vec::new();
            out.push(node);
            out.append(&mut tail_bs);
            ds.append(&mut tail_ds);
            proof {
                let jw = dsh.len() as int;
                assert(label.text() =~= t0 + inline_markup_seq(cur));
                assert(out@[0] == gnode);
                assert(out@.skip(1) =~= bst);
                assert(ds@.take(jw) =~= dsh);
                assert(ds@.skip(jw) =~= dst);
                assert(table_rel(children@, gcells, ds@.take(jw), 0, dd, mode, theme));
                assert(inline_rel(cur.subrange(1, cur.len() as int), out@.skip(1), ds@.skip(jw), dd, mode, theme));
                assert(inline_rel(cur, out@, ds@, dd, mode, theme));
            }
            (out, ds)
        },
        Ast::ThematicBreak => {
            let (mut tail_bs, tail_ds) = compile_inline_from(nodes, i + 1, label, depth, cfg, hl);
            let ghost bst = tail_bs@;
            let mut out: Vec<DocNode> = Vec::new();
            out.push(DocNode::Separator);
            out.append(&mut tail_bs);
            proof {
                assert(label.text() =~= t0 + inline_markup_seq(cur));
                assert(out@.skip(1) =~= bst);
                assert(inline_rel(cur.subrange(1, cur.len() as int), out@.skip(1), tail_ds@, dd, mode, theme));
                assert(inline_rel(cur, out@, tail_ds@, dd, mode, theme));
            }
            (out, tail_ds)
        },
        Ast::Image { url } => {
            match cfg.image_settings {
                ImageSetting::Ignore => {
                    let r = compile_inline_from(nodes, i + 1, label, depth, cfg, hl);
                    proof {
                        assert(label.text() =~= t0 + inline_markup_seq(cur));
                        assert(inline_rel(cur, r.0@, r.1@, dd, mode, theme));
                    }
                    r
                },
                ImageSetting::FromPath => {
                    let node = DocNode::Image { url: url.clone() };
                    let ghost gnode = node;
                    let (mut tail_bs, tail_ds) = compile_inline_from(nodes, i + 1, label, depth, cfg, hl);
                    let ghost bst = tail_bs@;
                    let mut out: Vec<DocNode> = Vec::new();
                    out.push(node);
                    out.append(&mut tail_bs);
                    proof {
                        assert(label.text() =~= t0 + inline_markup_seq(cur));
                        assert(out@[0] == gnode);
                        assert(out@.skip(1) =~= bst);
                        assert(inline_rel(cur.subrange(1, cur.len() as int), out@.skip(1), tail_ds@, dd, mode, theme));
                        assert(inline_rel(cur, out@, tail_ds@, dd, mode, theme));
                    }
                    (out, tail_ds)
                },
                ImageSetting::IncludeBytes => {
                    proof {
                        assert(contains_image_seq(cur));
                        assert(false);
                    }
                    vstd::pervasive::unreached()
                },
            }
        },
        _ => {
            let r = compile_inline_from(nodes, i + 1, label, depth, cfg, hl);
            proof {
                assert(label.text() =~= t0 + inline_markup_seq(cur));
                assert(inline_rel(cur, r.0@, r.1@, dd, mode, theme));
            }
            r
        },
    }
}

/// Compiles a table's children from index `i` on; `row` is the number of
/// rows already seen, and the cursor is threaded so that each row takes the
/// next row index with its column reset to 0.
fn compile_table_from(
    nodes: &Vec<Ast>,
    i: usize,
    row: usize,
    depth: u16,
    cfg: &RenderConfig,
    hl: &Highlighter,
) -> (r: (Vec<DocCell>, Vec<Diagnostic>))
    requires
        i <= nodes@.len(),
        row <= i,
        cfg.image_settings is IncludeBytes ==> !contains_image_seq(nodes@.skip(i as int)),
    ensures
        table_rel(
            nodes@.skip(i as int),
            r.0@,
            r.1@,
            row as int,
            depth as int,
            cfg.image_settings,
            cfg.highlight_theme@,
        ),
    decreases ast_height_seq(nodes@.skip(i as int)), nodes@.len() - i + 1,
{
    let ghost cur = nodes@.skip(i as int);
    let ghost dd = depth as int;
    let ghost mode = cfg.image_settings;
    let ghost theme = cfg.highlight_theme@;
    if i == nodes.len() {
        let r = (Vec::<DocCell>::new(), Vec::<Diagnostic>::new());
        proof {
            assert(cur.len() == 0);
        }
        return r;
    }
    proof {
        assert(cur[0] == nodes@[i as int]);
        assert(cur.subrange(1, cur.len() as int) =~= nodes@.skip(i as int + 1));
        if cfg.image_settings is IncludeBytes {
            lemma_no_image_member(cur, 0);
        }
        lemma_child_height(cur, 0);
        assert(ast_height_seq(cur) >= ast_height_seq(cur.subrange(1, cur.len() as int)));
    }
    match &nodes[i] {
        Ast::TableRow { children } => {
            proof {
                assert(children_of(cur[0]) == children@);
                assert(children@.skip(0) =~= children@);
            }
            let (mut cells, mut ds) = compile_row_from(children, 0, row, 0, depth, cfg, hl);
            let ghost sub = cells@;
            let ghost dsh = ds@;
            let (mut tail_cells, mut tail_ds) = compile_table_from(nodes, i + 1, row + 1, depth, cfg, hl);
            let ghost cst = tail_cells@;
            let ghost dst = tail_ds@;
            cells.append(&mut tail_cells);
            ds.append(&mut tail_ds);
            proof {
                let jw = dsh.len() as int;
                let kw = sub.len() as int;
                assert(cells@.take(kw) =~= sub);
                assert(cells@.skip(kw) =~= cst);
                assert(ds@.take(jw) =~= dsh);
                assert(ds@.skip(jw) =~= dst);
                assert(row_rel(children@, cells@.take(kw), ds@.take(jw), row as int, 0, dd, mode, theme));
                assert(table_rel(cur.subrange(1, cur.len() as int), cells@.skip(kw), ds@.skip(jw), row as int + 1, dd, mode, theme));
                assert(table_rel(cur, cells@, ds@, row as int, dd, mode, theme));
            }
            (cells, ds)
        },
        _ => {
            let r = compile_table_from(nodes, i + 1, row, depth, cfg, hl);
            proof {
                assert(table_rel(cur, r.0@, r.1@, row as int, dd, mode, theme));
            }
            r
        },
    }
}

/// Compiles a row's children from index `i` on; each cell takes the next
/// column of this row and compiles its inline content into its own sealed
/// label.
fn compile_row_from(
    nodes: &Vec<Ast>,
    i: usize,
    row: usize,
    col: usize,
    depth: u16,
    cfg: &RenderConfig,
    hl: &Highlighter,
) -> (r: (Vec<DocCell>, Vec<Diagnostic>))
    requires
        i <= nodes@.len(),
        col <= i,
        cfg.image_settings is IncludeBytes ==> !contains_image_seq(nodes@.skip(i as int)),
    ensures
        row_rel(
            nodes@.skip(i as int),
            r.0@,
            r.1@,
            row as int,
            col as int,
            depth as int,
            cfg.image_settings,
            cfg.highlight_theme@,
        ),
    decreases ast_height_seq(nodes@.skip(i as int)), nodes@.len() - i + 1,
{
    let ghost cur = nodes@.skip(i as int);
    let ghost dd = depth as int;
    let ghost mode = cfg.image_settings;
    let ghost theme = cfg.highlight_theme@;
    if i == nodes.len() {
        let r = (Vec::<DocCell>::new(), Vec::<Diagnostic>::new());
        proof {
            assert(cur.len() == 0);
        }
        return r;
    }
    proof {
        assert(cur[0] == nodes@[i as int]);
        assert(cur.subrange(1, cur.len() as int) =~= nodes@.skip(i as int + 1));
        if cfg.image_settings is IncludeBytes {
            lemma_no_image_member(cur, 0);
        }
        lemma_child_height(cur, 0);
        assert(ast_height_seq(cur) >= ast_height_seq(cur.subrange(1, cur.len() as int)));
    }
    match &nodes[i] {
        Ast::TableCell { children } => {
            let mut label = Label::new();
            proof {
                assert(children_of(cur[0]) == children@);
                assert(children@.skip(0) =~= children@);
            }
            let (sub_bs, mut ds) = compile_inline_from(children, 0, &mut label, depth, cfg, hl);
            label.seal();
            let ghost sub = sub_bs@;
            let ghost dsh = ds@;
            let markup = label.into_markup();
            let cell = DocCell { row, col, markup, children: sub_bs };
            let ghost gcell = cell;
            let (mut tail_cells, mut tail_ds) = compile_row_from(nodes, i + 1, row, col + 1, depth, cfg, hl);
            let ghost dst = tail_ds@;
            let ghost cst = tail_cells@;
            let mut cells: Vec<DocCell> = Vec::new();
            cells.push(cell);
            cells.append(&mut tail_cells);
            ds.append(&mut tail_ds);
            proof {
                let jw = dsh.len() as int;
                assert(cells@[0] == gcell);
                assert(cells@.skip(1) =~= cst);
                assert(ds@.take(jw) =~= dsh);
                assert(ds@.skip(jw) =~= dst);
                assert(inline_rel(children@, sub, ds@.take(jw), dd, mode, theme));
                assert(row_rel(cur.subrange(1, cur.len() as int), cells@.skip(1), ds@.skip(jw), row as int, col as int + 1, dd, mode, theme));
                assert(row_rel(cur, cells@, ds@, row as int, col as int, dd, mode, theme));
            }
            (cells, ds)
        },
        _ => {
            let r = compile_row_from(nodes, i + 1, row, col, depth, cfg, hl);
            proof {
                assert(row_rel(cur, r.0@, r.1@, row as int, col as int, dd, mode, theme));
            }
            r
        },
    }
}

/// Compiles a parsed tree into a document plus its diagnostics.
///
/// The compilation fails if and only if the configuration asks for embedded
/// images (`ImageSetting::IncludeBytes`, which is not implemented) and the
/// tree holds an image; every other input compiles, with degraded blocks
/// recorded as diagnostics rather than errors.
pub fn compile_document(nodes: &Vec<Ast>, cfg: &RenderConfig, hl: &Highlighter) -> (r: Result<
    (Document, Vec<Diagnostic>),
    RenderError,
>)
    ensures
        r is Err <==> (cfg.image_settings is IncludeBytes && contains_image_seq(nodes@)),
        r matches Err(e) ==> e == RenderError::EmbedNotSupported,
        r matches Ok(p) ==> blocks_rel(
            nodes@,
            p.0.blocks@,
            p.1@,
            0,
            cfg.image_settings,
            cfg.highlight_theme@,
        ),
{
    let embed = match cfg.image_settings {
        ImageSetting::IncludeBytes => true,
        _ => false,
    };
    if embed && tree_contains_image(nodes) {
        Err(RenderError::EmbedNotSupported)
    } else {
        proof {
            assert(nodes@.skip(0) =~= nodes@);
        }
        let (blocks, ds) = compile_blocks_from(nodes, 0, 0, cfg, hl);
        Ok((Document { blocks }, ds))
    }
}


} // verus!
