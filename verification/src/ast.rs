//! The compiler's input: a parsed CommonMark syntax tree.
//!
//! The tree is this crate's own closed sum type. A caller parses CommonMark
//! text with a parser of its choice and maps each parsed node onto one of
//! these variants; parsed constructs the compiler deliberately does not
//! support (footnotes, math, raw markup, front matter and the like) are
//! mapped to [`Ast::Unsupported`], which compiles to nothing.

use vstd::prelude::*;

verus! {

broadcast use vstd::std_specs::vec::group_vec_axioms;

/// One node of the parsed CommonMark tree. The tree is finite and read-only
/// during compilation.
#[derive(Debug)]
pub enum Ast {
    /// A heading of the given depth (1 to 6 are rendered; others are skipped).
    Heading { depth: u8, children: Vec<Ast> },
    /// A paragraph of inline content.
    Paragraph { children: Vec<Ast> },
    /// A block quote of block content.
    BlockQuote { children: Vec<Ast> },
    /// Plain text.
    Text { value: String },
    /// Bold inline span.
    Strong { children: Vec<Ast> },
    /// Italic inline span.
    Emphasis { children: Vec<Ast> },
    /// Strikethrough inline span.
    Delete { children: Vec<Ast> },
    /// A hard line break.
    LineBreak,
    /// A list of list items.
    List { children: Vec<Ast> },
    /// One list item; `checked` is set for task-list items.
    ListItem { checked: Option<bool>, children: Vec<Ast> },
    /// An inline code span.
    InlineCode { value: String },
    /// A fenced code block with an optional language tag.
    Code { lang: Option<String>, value: String },
    /// A hyperlink; when `title` is set it is the visible text and the
    /// children are not rendered.
    Link { url: String, title: Option<String>, children: Vec<Ast> },
    /// An image addressed by a URL or path.
    Image { url: String },
    /// A table of rows.
    Table { children: Vec<Ast> },
    /// One table row of cells.
    TableRow { children: Vec<Ast> },
    /// One table cell of inline content.
    TableCell { children: Vec<Ast> },
    /// A horizontal rule.
    ThematicBreak,
    /// Any parsed construct the compiler deliberately does not support.
    Unsupported,
}

/// The children a node recurses into, or the empty sequence for leaves.
pub open spec fn children_of(n: Ast) -> Seq<Ast> {
    match n {
        Ast::Heading { children, .. } => children@,
        Ast::Paragraph { children } => children@,
        Ast::BlockQuote { children } => children@,
        Ast::Strong { children } => children@,
        Ast::Emphasis { children } => children@,
        Ast::Delete { children } => children@,
        Ast::List { children } => children@,
        Ast::ListItem { children, .. } => children@,
        Ast::Link { children, .. } => children@,
        Ast::Table { children } => children@,
        Ast::TableRow { children } => children@,
        Ast::TableCell { children } => children@,
        _ => Seq::empty(),
    }
}

/// The height of a node: one more than the height of its children.
/// Recursive calls of the compiler always descend into children, so this is
/// their termination measure.
pub open spec fn ast_height(n: Ast) -> nat
    decreases n, 0int,
{
    match n {
        Ast::Heading { children, .. } => 1 + ast_height_seq(children@),
        Ast::Paragraph { children } => 1 + ast_height_seq(children@),
        Ast::BlockQuote { children } => 1 + ast_height_seq(children@),
        Ast::Strong { children } => 1 + ast_height_seq(children@),
        Ast::Emphasis { children } => 1 + ast_height_seq(children@),
        Ast::Delete { children } => 1 + ast_height_seq(children@),
        Ast::List { children } => 1 + ast_height_seq(children@),
        Ast::ListItem { children, .. } => 1 + ast_height_seq(children@),
        Ast::Link { children, .. } => 1 + ast_height_seq(children@),
        Ast::Table { children } => 1 + ast_height_seq(children@),
        Ast::TableRow { children } => 1 + ast_height_seq(children@),
        Ast::TableCell { children } => 1 + ast_height_seq(children@),
        _ => 1,
    }
}

/// The height of a sequence of sibling nodes: the tallest node's height.
pub open spec fn ast_height_seq(s: Seq<Ast>) -> nat
    decreases s, s.len() + 1,
{
    if s.len() == 0 {
        0
    } else {
        let h0 = ast_height(s[0]);
        let hr = ast_height_seq(s.subrange(1, s.len() as int));
        if h0 > hr {
            h0
        } else {
            hr
        }
    }
}

/// The height of a node's children is below the height of any sequence the
/// node belongs to.
pub proof fn lemma_child_height(s: Seq<Ast>, i: int)
    requires
        0 <= i < s.len(),
    ensures
        ast_height(s[i]) <= ast_height_seq(s),
        ast_height_seq(children_of(s[i])) < ast_height_seq(s),
    decreases s.len(),
{
    if i == 0 {
    } else {
        lemma_child_height(s.subrange(1, s.len() as int), i - 1);
        assert(s.subrange(1, s.len() as int)[i - 1] == s[i]);
    }
}

/// Whether a node or any of its descendants is an image.
pub open spec fn contains_image(n: Ast) -> bool
    decreases n, 0int,
{
    match n {
        Ast::Image { .. } => true,
        Ast::Heading { children, .. } => contains_image_seq(children@),
        Ast::Paragraph { children } => contains_image_seq(children@),
        Ast::BlockQuote { children } => contains_image_seq(children@),
        Ast::Strong { children } => contains_image_seq(children@),
        Ast::Emphasis { children } => contains_image_seq(children@),
        Ast::Delete { children } => contains_image_seq(children@),
        Ast::List { children } => contains_image_seq(children@),
        Ast::ListItem { children, .. } => contains_image_seq(children@),
        Ast::Link { children, .. } => contains_image_seq(children@),
        Ast::Table { children } => contains_image_seq(children@),
        Ast::TableRow { children } => contains_image_seq(children@),
        Ast::TableCell { children } => contains_image_seq(children@),
        _ => false,
    }
}

/// Whether any node in the sequence holds an image.
pub open spec fn contains_image_seq(s: Seq<Ast>) -> bool
    decreases s, s.len() + 1,
{
    if s.len() == 0 {
        false
    } else {
        contains_image(s[0]) || contains_image_seq(s.subrange(1, s.len() as int))
    }
}

/// An image-free sequence has image-free members with image-free children.
pub proof fn lemma_no_image_member(s: Seq<Ast>, i: int)
    requires
        0 <= i < s.len(),
        !contains_image_seq(s),
    ensures
        !contains_image(s[i]),
        !contains_image_seq(children_of(s[i])),
    decreases s.len(),
{
    if i == 0 {
        if !(s[0] is Image) {
        }
    } else {
        lemma_no_image_member(s.subrange(1, s.len() as int), i - 1);
        assert(s.subrange(1, s.len() as int)[i - 1] == s[i]);
    }
}

/// Whether the tree under `nodes` holds an image, decided at run time; used
/// to reject a compilation that would need image embedding.
pub fn tree_contains_image(nodes: &Vec<Ast>) -> (r: bool)
    ensures
        r == contains_image_seq(nodes@),
    decreases ast_height_seq(nodes@), nodes@.len(),
{
    let ghost s = nodes@;
    let mut i: usize = 0;
    let mut found = false;
    while i < nodes.len()
        invariant
            0 <= i <= nodes.len(),
            s == nodes@,
            found == exists|j: int| 0 <= j < i && contains_image(s[j]),
        decreases nodes@.len() - i,
    {
        let hit = match &nodes[i] {
            Ast::Image { .. } => true,
            Ast::Heading { children, .. } => sub_contains_image(nodes, i, children),
            Ast::Paragraph { children } => sub_contains_image(nodes, i, children),
            Ast::BlockQuote { children } => sub_contains_image(nodes, i, children),
            Ast::Strong { children } => sub_contains_image(nodes, i, children),
            Ast::Emphasis { children } => sub_contains_image(nodes, i, children),
            Ast::Delete { children } => sub_contains_image(nodes, i, children),
            Ast::List { children } => sub_contains_image(nodes, i, children),
            Ast::ListItem { children, .. } => sub_contains_image(nodes, i, children),
            Ast::Link { children, .. } => sub_contains_image(nodes, i, children),
            Ast::Table { children } => sub_contains_image(nodes, i, children),
            Ast::TableRow { children } => sub_contains_image(nodes, i, children),
            Ast::TableCell { children } => sub_contains_image(nodes, i, children),
            _ => false,
        };
        proof {
            assert(hit == contains_image(s[i as int]));
        }
        found = found || hit;
        i = i + 1;
    }
    proof {
        lemma_contains_image_seq_index(s);
    }
    found
}

/// Helper for [`tree_contains_image`]: scans one node's children. Takes the
/// enclosing vector only to bound the recursion.
fn sub_contains_image(nodes: &Vec<Ast>, i: usize, children: &Vec<Ast>) -> (r: bool)
    requires
        i < nodes@.len(),
        children@ == children_of(nodes@[i as int]),
    ensures
        r == contains_image_seq(children@),
    decreases ast_height_seq(nodes@), 0nat,
{
    proof {
        lemma_child_height(nodes@, i as int);
    }
    tree_contains_image(children)
}

/// `contains_image_seq` agrees with an existential over members.
pub proof fn lemma_contains_image_seq_index(s: Seq<Ast>)
    ensures
        contains_image_seq(s) == exists|j: int| 0 <= j < s.len() && contains_image(s[j]),
    decreases s.len(),
{
    if s.len() > 0 {
        let t = s.subrange(1, s.len() as int);
        lemma_contains_image_seq_index(t);
        if contains_image_seq(s) {
            if contains_image(s[0]) {
            } else {
                let j = choose|j: int| 0 <= j < t.len() && contains_image(t[j]);
                assert(s[j + 1] == t[j]);
            }
        } else {
            assert forall|j: int| 0 <= j < s.len() implies !contains_image(s[j]) by {
                if j > 0 {
                    assert(t[j - 1] == s[j]);
                }
            }
        }
    }
}

} // verus!
