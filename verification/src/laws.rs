//! Laws of the compiler, stated and proved over the same specifications its
//! contracts use: balanced inline tags, list indents, and table cursor
//! placement. (The escaping round trip is proved beside the escaper, in
//! [`crate::markup::lemma_escape_round_trip`].)

use vstd::prelude::*;
use crate::ast::Ast;
use crate::compile::{blocks_rel, inline_markup, inline_markup_seq, indent_of, row_rel, table_rel};
use crate::doc::{DocCell, DocNode};
use crate::markup::{TagKind, balanced_markup, close_tag, escape_seq, lemma_escape_no_angle,
    lemma_scan_concat, lemma_scan_text, open_tag, scan_tags};
use crate::{Diagnostic, ImageSetting};

verus! {

// ---------------------------------------------------------------------------
// Balanced inline tags
// ---------------------------------------------------------------------------
/// The inline fragment the balance law speaks of: text, hard breaks, and
/// arbitrarily nested bold, italic and strikethrough spans.
pub open spec fn simple_inline(n: Ast) -> bool
    decreases n, 0int,
{
    match n {
        Ast::Text { .. } => true,
        Ast::LineBreak => true,
        Ast::Strong { children } => simple_inline_seq(children@),
        Ast::Emphasis { children } => simple_inline_seq(children@),
        Ast::Delete { children } => simple_inline_seq(children@),
        _ => false,
    }
}

/// Whether all members of the sequence lie in the inline fragment.
pub open spec fn simple_inline_seq(s: Seq<Ast>) -> bool
    decreases s, s.len() + 1,
{
    if s.len() == 0 {
        true
    } else {
        simple_inline(s[0]) && simple_inline_seq(s.subrange(1, s.len() as int))
    }
}

/// Scanning an opening tag pushes its kind.
proof fn lemma_scan_open(t: TagKind, st: Seq<TagKind>)
    ensures
        scan_tags(open_tag(t), st) == Some(st.push(t)),
{
    assert(open_tag(t).skip(3) =~= Seq::<char>::empty());
    assert(scan_tags(open_tag(t).skip(3), st.push(t)) == Some(st.push(t)));
}

/// Scanning a closing tag that matches the innermost open span pops it.
proof fn lemma_scan_close(t: TagKind, st: Seq<TagKind>)
    requires
        st.len() > 0,
        st.last() == t,
    ensures
        scan_tags(close_tag(t), st) == Some(st.drop_last()),
{
    assert(close_tag(t)[1] == '/');
    assert(close_tag(t).skip(4) =~= Seq::<char>::empty());
    assert(scan_tags(close_tag(t).skip(4), st.drop_last()) == Some(st.drop_last()));
}

/// The markup of one node of the inline fragment is stack-neutral: a scan
/// from any stack succeeds and returns that same stack.
pub proof fn lemma_inline_markup_scan(n: Ast, st: Seq<TagKind>)
    requires
        simple_inline(n),
    ensures
        scan_tags(inline_markup(n), st) == Some(st),
    decreases n, 0int,
{
    match n {
        Ast::Text { value } => {
            lemma_escape_no_angle(value@);
            lemma_scan_text(escape_seq(value@), st);
        },
        Ast::LineBreak => {
            assert(forall|i: int|
                0 <= i < inline_markup(n).len() ==> inline_markup(n)[i] != '<');
            lemma_scan_text(inline_markup(n), st);
        },
        Ast::Strong { children } => {
            lemma_span_scan(TagKind::Bold, children@, st);
        },
        Ast::Emphasis { children } => {
            lemma_span_scan(TagKind::Italic, children@, st);
        },
        Ast::Delete { children } => {
            lemma_span_scan(TagKind::Strike, children@, st);
        },
        _ => {},
    }
}

/// A span's open tag, stack-neutral inner markup, and matching close tag
/// scan back to the starting stack.
proof fn lemma_span_scan(t: TagKind, children: Seq<Ast>, st: Seq<TagKind>)
    requires
        simple_inline_seq(children),
    ensures
        scan_tags(open_tag(t) + inline_markup_seq(children) + close_tag(t), st) == Some(st),
    decreases children, children.len() + 2,
{
    let inner = inline_markup_seq(children);
    let whole = open_tag(t) + inner + close_tag(t);
    lemma_scan_open(t, st);
    lemma_inline_markup_seq_scan(children, st.push(t));
    lemma_scan_concat(inner, close_tag(t), st.push(t), st.push(t));
    assert(st.push(t).last() == t);
    lemma_scan_close(t, st.push(t));
    assert(st.push(t).drop_last() =~= st);
    lemma_scan_concat(open_tag(t), inner + close_tag(t), st, st.push(t));
    assert(whole =~= open_tag(t) + (inner + close_tag(t)));
}

/// The markup of a sequence of inline-fragment nodes is stack-neutral.
pub proof fn lemma_inline_markup_seq_scan(s: Seq<Ast>, st: Seq<TagKind>)
    requires
        simple_inline_seq(s),
    ensures
        scan_tags(inline_markup_seq(s), st) == Some(st),
    decreases s, s.len() + 1,
{
    if s.len() == 0 {
    } else {
        let rest = s.subrange(1, s.len() as int);
        lemma_inline_markup_scan(s[0], st);
        lemma_inline_markup_seq_scan(rest, st);
        lemma_scan_concat(inline_markup(s[0]), inline_markup_seq(rest), st, st);
    }
}

/// Balanced nesting: for any sequence of bold, italic and strikethrough
/// spans over text, the markup the compiler accumulates into a label is
/// balanced — every opened tag is closed by a matching close tag, in order,
/// with no crossing.
pub proof fn lemma_inline_markup_balanced(s: Seq<Ast>)
    requires
        simple_inline_seq(s),
    ensures
        balanced_markup(inline_markup_seq(s)),
{
    lemma_inline_markup_seq_scan(s, Seq::empty());
}

/// The sealed markup of a paragraph block.
pub open spec fn paragraph_markup(b: DocNode) -> Seq<char> {
    match b {
        DocNode::Paragraph { markup, .. } => markup@,
        _ => Seq::empty(),
    }
}

/// Balanced nesting in a compiled document: a paragraph whose inline content
/// lies in the bold/italic/strikethrough fragment compiles to a block whose
/// sealed label is balanced markup.
pub proof fn lemma_paragraph_label_balanced(
    nodes: Seq<Ast>,
    out: Seq<DocNode>,
    ds: Seq<Diagnostic>,
    depth: int,
    mode: ImageSetting,
    theme: Seq<char>,
)
    requires
        blocks_rel(nodes, out, ds, depth, mode, theme),
        nodes.len() > 0,
        nodes[0] is Paragraph,
        simple_inline_seq(crate::ast::children_of(nodes[0])),
    ensures
        out.len() >= 1,
        out[0] is Paragraph,
        balanced_markup(paragraph_markup(out[0])),
{
    lemma_inline_markup_balanced(crate::ast::children_of(nodes[0]));
}

// ---------------------------------------------------------------------------
// List indents
// ---------------------------------------------------------------------------
/// The indent a list-item block carries.
pub open spec fn item_indent(b: DocNode) -> int {
    match b {
        DocNode::ListItem { indent, .. } => indent as int,
        _ => 0,
    }
}

/// List indent monotonicity: every list-item block emitted by a compilation
/// at list depth `depth` carries indent `(depth - 1) * 15` (0 outside any
/// list). A `List` node compiles its own items one level deeper, and the
/// relation ties every sibling after the list to the same unchanged `depth`,
/// so the indent returns to its pre-list value when the list closes.
pub proof fn lemma_list_indent(
    nodes: Seq<Ast>,
    out: Seq<DocNode>,
    ds: Seq<Diagnostic>,
    depth: int,
    mode: ImageSetting,
    theme: Seq<char>,
    k: int,
)
    requires
        blocks_rel(nodes, out, ds, depth, mode, theme),
        0 <= k < out.len(),
        out[k] is ListItem,
    ensures
        item_indent(out[k]) == indent_of(depth),
    decreases nodes.len(),
{
    let rest = nodes.subrange(1, nodes.len() as int);
    if nodes.len() == 0 {
    } else {
        match nodes[0] {
            Ast::Heading { depth: d, children } => {
                if 1 <= d <= 6 {
                    let j = choose|j: int| #![trigger ds.take(j)]
                        0 <= j <= ds.len() && blocks_rel(
                            rest,
                            out.skip(1),
                            ds.skip(j),
                            depth,
                            mode,
                            theme,
                        );
                    if k > 0 {
                        lemma_list_indent(rest, out.skip(1), ds.skip(j), depth, mode, theme, k - 1);
                    }
                } else {
                    lemma_list_indent(rest, out, ds, depth, mode, theme, k);
                }
            },
            Ast::Paragraph { children } => {
                let j = choose|j: int| #![trigger ds.take(j)]
                    0 <= j <= ds.len() && blocks_rel(rest, out.skip(1), ds.skip(j), depth, mode, theme);
                if k > 0 {
                    lemma_list_indent(rest, out.skip(1), ds.skip(j), depth, mode, theme, k - 1);
                }
            },
            Ast::BlockQuote { children } => {
                let j = choose|j: int| #![trigger ds.take(j)]
                    0 <= j <= ds.len() && blocks_rel(rest, out.skip(1), ds.skip(j), depth, mode, theme);
                if k > 0 {
                    lemma_list_indent(rest, out.skip(1), ds.skip(j), depth, mode, theme, k - 1);
                }
            },
            Ast::List { children } => {
                let j = choose|j: int| #![trigger ds.take(j)]
                    0 <= j <= ds.len() && blocks_rel(rest, out.skip(1), ds.skip(j), depth, mode, theme);
                if k > 0 {
                    lemma_list_indent(rest, out.skip(1), ds.skip(j), depth, mode, theme, k - 1);
                }
            },
            Ast::ListItem { checked, children } => {
                let j = choose|j: int| #![trigger ds.take(j)]
                    0 <= j <= ds.len() && blocks_rel(rest, out.skip(1), ds.skip(j), depth, mode, theme);
                if k > 0 {
                    lemma_list_indent(rest, out.skip(1), ds.skip(j), depth, mode, theme, k - 1);
                }
            },
            Ast::Code { lang, value } => {
                let j = choose|j: int| #![trigger ds.take(j)]
                    0 <= j <= ds.len() && blocks_rel(rest, out.skip(1), ds.skip(j), depth, mode, theme);
                if k > 0 {
                    lemma_list_indent(rest, out.skip(1), ds.skip(j), depth, mode, theme, k - 1);
                }
            },
            Ast::Table { children } => {
                let j = choose|j: int| #![trigger ds.take(j)]
                    0 <= j <= ds.len() && blocks_rel(rest, out.skip(1), ds.skip(j), depth, mode, theme);
                if k > 0 {
                    lemma_list_indent(rest, out.skip(1), ds.skip(j), depth, mode, theme, k - 1);
                }
            },
            Ast::ThematicBreak => {
                if k > 0 {
                    lemma_list_indent(rest, out.skip(1), ds, depth, mode, theme, k - 1);
                }
            },
            Ast::Image { url } => {
                match mode {
                    ImageSetting::Ignore => {
                        lemma_list_indent(rest, out, ds, depth, mode, theme, k);
                    },
                    ImageSetting::FromPath => {
                        if k > 0 {
                            lemma_list_indent(rest, out.skip(1), ds, depth, mode, theme, k - 1);
                        }
                    },
                    ImageSetting::IncludeBytes => {},
                }
            },
            _ => {
                lemma_list_indent(rest, out, ds, depth, mode, theme, k);
            },
        }
    }
}

// ---------------------------------------------------------------------------
// Table cursor placement
// ---------------------------------------------------------------------------
/// The cells a row relation emits sit in that row, in consecutive columns
/// starting at `col`: the m-th cell of the row is placed at column `col + m`.
pub proof fn lemma_row_cells(
    nodes: Seq<Ast>,
    cells: Seq<DocCell>,
    ds: Seq<Diagnostic>,
    row: int,
    col: int,
    depth: int,
    mode: ImageSetting,
    theme: Seq<char>,
)
    requires
        row_rel(nodes, cells, ds, row, col, depth, mode, theme),
    ensures
        forall|m: int|
            0 <= m < cells.len() ==> (#[trigger] cells[m]).row == row && cells[m].col == col + m,
    decreases nodes.len(),
{
    let rest = nodes.subrange(1, nodes.len() as int);
    if nodes.len() == 0 {
    } else {
        match nodes[0] {
            Ast::TableCell { children } => {
                let j = choose|j: int| #![trigger ds.take(j)]
                    0 <= j <= ds.len() && row_rel(
                        rest,
                        cells.skip(1),
                        ds.skip(j),
                        row,
                        col + 1,
                        depth,
                        mode,
                        theme,
                    );
                lemma_row_cells(rest, cells.skip(1), ds.skip(j), row, col + 1, depth, mode, theme);
                assert forall|m: int|
                    0 <= m < cells.len() implies (#[trigger] cells[m]).row == row && cells[m].col
                    == col + m by {
                    if m > 0 {
                        assert(cells.skip(1)[m - 1] == cells[m]);
                    }
                }
            },
            _ => {
                lemma_row_cells(rest, cells, ds, row, col, depth, mode, theme);
            },
        }
    }
}

/// The cells a table relation emits all sit at row `row` or below, and come
/// in strictly increasing row-major order: no two cells collide, and each
/// row's cells count its columns from 0.
pub proof fn lemma_table_cells(
    nodes: Seq<Ast>,
    cells: Seq<DocCell>,
    ds: Seq<Diagnostic>,
    row: int,
    depth: int,
    mode: ImageSetting,
    theme: Seq<char>,
)
    requires
        table_rel(nodes, cells, ds, row, depth, mode, theme),
    ensures
        forall|m: int| 0 <= m < cells.len() ==> (#[trigger] cells[m]).row >= row,
        forall|m: int, m2: int|
            0 <= m < m2 < cells.len() ==> ((#[trigger] cells[m]).row < (#[trigger] cells[m2]).row
                || (cells[m].row == cells[m2].row && cells[m].col < cells[m2].col)),
    decreases nodes.len(),
{
    let rest = nodes.subrange(1, nodes.len() as int);
    if nodes.len() == 0 {
    } else {
        match nodes[0] {
            Ast::TableRow { children } => {
                let (j, kk) = choose|j: int, kk: int| #![trigger ds.take(j), cells.take(kk)]
                    0 <= j <= ds.len() && 0 <= kk <= cells.len() && row_rel(
                        children@,
                        cells.take(kk),
                        ds.take(j),
                        row,
                        0,
                        depth,
                        mode,
                        theme,
                    ) && table_rel(rest, cells.skip(kk), ds.skip(j), row + 1, depth, mode, theme);
                lemma_row_cells(children@, cells.take(kk), ds.take(j), row, 0, depth, mode, theme);
                lemma_table_cells(rest, cells.skip(kk), ds.skip(j), row + 1, depth, mode, theme);
                assert forall|m: int| 0 <= m < cells.len() implies (#[trigger] cells[m]).row
                    >= row by {
                    if m < kk {
                        assert(cells.take(kk)[m] == cells[m]);
                    } else {
                        assert(cells.skip(kk)[m - kk] == cells[m]);
                    }
                }
                assert forall|m: int, m2: int|
                    0 <= m < m2 < cells.len() implies ((#[trigger] cells[m]).row < (
                #[trigger] cells[m2]).row || (cells[m].row == cells[m2].row && cells[m].col
                    < cells[m2].col)) by {
                    if m < kk {
                        assert(cells.take(kk)[m] == cells[m]);
                    } else {
                        assert(cells.skip(kk)[m - kk] == cells[m]);
                    }
                    if m2 < kk {
                        assert(cells.take(kk)[m2] == cells[m2]);
                    } else {
                        assert(cells.skip(kk)[m2 - kk] == cells[m2]);
                    }
                }
            },
            _ => {
                lemma_table_cells(rest, cells, ds, row, depth, mode, theme);
            },
        }
    }
}

/// Table cursor correctness: in a compiled table, no two cells are placed at
/// the same (row, column) position.
pub proof fn lemma_table_no_collision(
    nodes: Seq<Ast>,
    cells: Seq<DocCell>,
    ds: Seq<Diagnostic>,
    depth: int,
    mode: ImageSetting,
    theme: Seq<char>,
)
    requires
        table_rel(nodes, cells, ds, 0, depth, mode, theme),
    ensures
        forall|m: int, m2: int|
            0 <= m < m2 < cells.len() ==> !((#[trigger] cells[m]).row == (
            #[trigger] cells[m2]).row && cells[m].col == cells[m2].col),
{
    lemma_table_cells(nodes, cells, ds, 0, depth, mode, theme);
}

} // verus!
