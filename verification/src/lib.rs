//! Compiles a parsed CommonMark syntax tree into a styled rendering document:
//! a tree of block nodes whose text carries Pango-style markup for bold,
//! italic, underline and colour, ready for any presentation layer.
//!
//! The input is this crate's own [`ast::Ast`] tree; a caller parses CommonMark
//! text with a parser of its choice and maps the result onto that tree. The
//! output is a [`doc::Document`] plus a list of non-fatal [`Diagnostic`]s.

use vstd::prelude::*;

pub mod ast;
pub mod compile;
pub mod doc;
pub mod highlight;
pub mod laws;
pub mod markup;
pub mod style;

verus! {

/// How image nodes are rendered.
#[derive(Clone, Copy, Debug, PartialEq, Eq, Structural)]
pub enum ImageSetting {
    /// Do not show images
    Ignore,
    /// Show images from their path on disk
    FromPath,
    /// Show images by embedding them at compilation time (not implemented)
    IncludeBytes,
}

/// Render configuration options, immutable for the duration of one compilation.
#[derive(Debug)]
pub struct RenderConfig {
    /// How image nodes are rendered.
    pub image_settings: ImageSetting,
    /// Name of the syntax-highlighting theme, resolved lazily per code block.
    pub highlight_theme: String,
}

impl Default for RenderConfig {
    /// The default configuration shows images from their path and highlights
    /// code with the "base16-mocha.dark" theme.
    fn default() -> (c: Self)
        ensures
            c.image_settings is FromPath,
            c.highlight_theme@ == default_theme_name(),
    {
        proof {
            reveal_strlit("base16-mocha.dark");
        }
        RenderConfig {
            image_settings: ImageSetting::FromPath,
            highlight_theme: default_theme_name_exec(),
        }
    }
}

/// The characters of the default highlight theme name.
pub closed spec fn default_theme_name() -> Seq<char> {
    "base16-mocha.dark"@
}

fn default_theme_name_exec() -> (s: String)
    ensures
        s@ == default_theme_name(),
{
    String::from_str("base16-mocha.dark")
}

/// A non-fatal record of a degraded rendering decision. Diagnostics never
/// abort a compilation; the document is still produced, merely unstyled
/// where the diagnostic applies.
#[derive(Debug)]
pub enum Diagnostic {
    /// A code block's language tag was absent (`None`) or did not resolve
    /// to a known grammar.
    UnknownLanguage(Option<String>),
    /// The configured highlight theme name did not resolve to a known theme.
    UnknownTheme(String),
}

/// The one fatal error of the compiler itself: embedding images at
/// compilation time is not implemented, and a compilation that would need it
/// fails loudly instead of silently dropping the image.
#[derive(Debug, Clone, Copy, PartialEq, Eq, Structural)]
pub enum RenderError {
    /// The configuration asks for embedded images and the tree holds an image.
    EmbedNotSupported,
}

impl RenderError {
    /// A human-readable description of the error.
    pub fn message(&self) -> String {
        String::from_str("embedding images at compilation time is not supported")
    }
}

} // verus!
