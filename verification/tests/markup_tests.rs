use commonmark_pango::markup::{escape_markup, unescape_markup};
use commonmark_pango::style::{Rgb, StyleRun, serialize_runs};

#[test]
fn escape_special_characters() {
    assert_eq!(escape_markup("a<b&c>\"d"), "a&lt;b&amp;c&gt;&quot;d");
    assert_eq!(escape_markup(""), "");
    assert_eq!(escape_markup("plain text"), "plain text");
    assert_eq!(escape_markup("&&"), "&amp;&amp;");
}

#[test]
fn escape_round_trip() {
    let samples = [
        "a<b&c>\"d",
        "no specials",
        "<<<>>>&&&",
        "already &amp; escaped",
        "unicode \u{e9}\u{4e16} mix < & >",
        "",
    ];
    for s in samples {
        assert_eq!(unescape_markup(&escape_markup(s)), s);
    }
}

#[test]
fn unescape_folds_entities() {
    assert_eq!(unescape_markup("&lt;b&gt; &amp; &quot;q&quot;"), "<b> & \"q\"");
    assert_eq!(unescape_markup("&unknown;"), "&unknown;");
}

#[test]
fn serialize_plain_run() {
    let runs = vec![StyleRun {
        text: String::from("xy"),
        bold: false,
        italic: false,
        underline: false,
        foreground: None,
    }];
    assert_eq!(serialize_runs(&runs), "<tt>xy</tt>");
}

#[test]
fn serialize_styled_run_nesting_order() {
    let runs = vec![StyleRun {
        text: String::from("x"),
        bold: true,
        italic: true,
        underline: true,
        foreground: Some(Rgb { r: 0xff, g: 0x00, b: 0x0a }),
    }];
    assert_eq!(
        serialize_runs(&runs),
        "<span foreground=\"#ff000a\"><b><i><u><tt>x</tt></u></i></b></span>"
    );
}

#[test]
fn serialize_concatenates_runs_in_order() {
    let runs = vec![
        StyleRun {
            text: String::from("a"),
            bold: true,
            italic: false,
            underline: false,
            foreground: None,
        },
        StyleRun {
            text: String::from("b"),
            bold: false,
            italic: false,
            underline: false,
            foreground: None,
        },
    ];
    assert_eq!(serialize_runs(&runs), "<b><tt>a</tt></b><tt>b</tt>");
}
