//! Checks the library's escaper against the reference implementation in the
//! `html2pango` crate.

use commonmark_pango::markup::escape_markup;

#[test]
fn escape_agrees_with_html2pango() {
    let samples = [
        "a<b&c>\"d",
        "no specials",
        "<<<>>>&&&",
        "he says: \"this & that\"",
        "this is a <tag>",
        "",
    ];
    for s in samples {
        assert_eq!(escape_markup(s), html2pango::html_escape(s));
    }
}
