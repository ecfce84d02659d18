//! The compiler's output: a presentation-ready document tree, independent of
//! any particular UI toolkit. Each node owns its children exclusively.

use vstd::prelude::*;
use crate::style::StyleRun;

verus! {

/// The size class a heading's depth maps to.
#[derive(Debug, Clone, Copy, PartialEq, Eq, Structural)]
pub enum HeadingSize {
    XxLarge,
    XLarge,
    Large,
    Medium,
}

/// The markup name of a size class.
pub open spec fn size_name(z: HeadingSize) -> Seq<char> {
    match z {
        HeadingSize::XxLarge => "xx-large"@,
        HeadingSize::XLarge => "x-large"@,
        HeadingSize::Large => "large"@,
        HeadingSize::Medium => "medium"@,
    }
}

impl HeadingSize {
    /// The markup name of the size class, as used in a `font_size` attribute.
    pub fn name(&self) -> (s: &'static str)
        ensures
            s@ == size_name(*self),
    {
        match self {
            HeadingSize::XxLarge => "xx-large",
            HeadingSize::XLarge => "x-large",
            HeadingSize::Large => "large",
            HeadingSize::Medium => "medium",
        }
    }
}

/// The size class of a heading depth between 1 and 6.
pub open spec fn heading_size(d: int) -> HeadingSize {
    if d == 1 {
        HeadingSize::XxLarge
    } else if d == 2 {
        HeadingSize::XLarge
    } else if d == 3 {
        HeadingSize::Large
    } else {
        HeadingSize::Medium
    }
}

/// The separator thickness under a heading of depth 1 to 6.
pub open spec fn heading_sep(d: int) -> int {
    if d == 1 {
        4
    } else if d == 2 {
        3
    } else if d == 3 {
        2
    } else {
        1
    }
}

/// One table cell, placed at a grid position. `row` and `col` are 0-indexed.
#[derive(Debug)]
pub struct DocCell {
    pub row: usize,
    pub col: usize,
    /// The cell's sealed inline markup.
    pub markup: String,
    /// Block nodes produced while compiling the cell's content.
    pub children: Vec<DocNode>,
}

/// One node of the compiled document tree.
#[derive(Debug)]
pub enum DocNode {
    /// A heading: a sealed markup label over a separator of the given
    /// thickness.
    Heading {
        size: HeadingSize,
        separator_height: u8,
        markup: String,
        children: Vec<DocNode>,
    },
    /// A paragraph: a sealed markup label, plus any block nodes produced by
    /// nested block-level content.
    Paragraph { markup: String, children: Vec<DocNode> },
    /// A quoted group of blocks.
    BlockQuote { children: Vec<DocNode> },
    /// A list of items.
    List { children: Vec<DocNode> },
    /// One list item; `indent` is the pixel indent derived from the list
    /// nesting depth, and `checked` is set for task-list items.
    ListItem { indent: usize, checked: Option<bool>, children: Vec<DocNode> },
    /// A fenced code block. When `styled`, `markup` is the serialization of
    /// `runs`; otherwise `runs` is empty and `markup` is the raw code text.
    CodeBlock { styled: bool, runs: Vec<StyleRun>, markup: String },
    /// A table: a grid of cells addressed by (row, column).
    Table { cells: Vec<DocCell> },
    /// A horizontal separator.
    Separator,
    /// An image referenced by its path on disk.
    Image { url: String },
}

/// The compiled document: an ordered sequence of block nodes.
#[derive(Debug)]
pub struct Document {
    pub blocks: Vec<DocNode>,
}

} // verus!
