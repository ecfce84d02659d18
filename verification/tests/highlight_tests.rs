use commonmark_pango::ast::Ast;
use commonmark_pango::compile::compile_document;
use commonmark_pango::doc::DocNode;
use commonmark_pango::highlight::{Highlighter, code_diagnostics, runs_of_ranges};
use commonmark_pango::markup::unescape_markup;
use commonmark_pango::style::Rgb;
use commonmark_pango::{Diagnostic, RenderConfig};

fn code(lang: Option<&str>, value: &str) -> Vec<Ast> {
    vec![Ast::Code { lang: lang.map(String::from), value: String::from(value) }]
}

#[test]
fn unknown_language_falls_back_to_plain_text() {
    let tree = code(Some("nosuchlanguagezz"), "let x = 1;\n");
    let hl = Highlighter::new();
    let (doc, diags) = compile_document(&tree, &RenderConfig::default(), &hl).unwrap();
    assert_eq!(diags.len(), 1);
    match &diags[0] {
        Diagnostic::UnknownLanguage(Some(l)) => assert_eq!(l, "nosuchlanguagezz"),
        other => panic!("expected an unknown-language diagnostic, got {:?}", other),
    }
    match &doc.blocks[0] {
        DocNode::CodeBlock { styled, runs, markup } => {
            assert!(!styled);
            assert_eq!(runs.len(), 0);
            assert_eq!(markup, "let x = 1;\n");
            assert!(!markup.is_empty());
        },
        other => panic!("expected a code block, got {:?}", other),
    }
}

#[test]
fn absent_language_is_reported_and_plain() {
    let tree = code(None, "plain code");
    let hl = Highlighter::new();
    let (doc, diags) = compile_document(&tree, &RenderConfig::default(), &hl).unwrap();
    assert_eq!(diags.len(), 1);
    assert!(matches!(&diags[0], Diagnostic::UnknownLanguage(None)));
    match &doc.blocks[0] {
        DocNode::CodeBlock { styled, markup, .. } => {
            assert!(!styled);
            assert_eq!(markup, "plain code");
        },
        other => panic!("expected a code block, got {:?}", other),
    }
}

#[test]
fn unknown_theme_falls_back_even_with_known_language() {
    let tree = code(Some("python"), "print(1)\n");
    let cfg = RenderConfig {
        image_settings: commonmark_pango::ImageSetting::FromPath,
        highlight_theme: String::from("no-such-theme"),
    };
    let hl = Highlighter::new();
    let (doc, diags) = compile_document(&tree, &cfg, &hl).unwrap();
    assert_eq!(diags.len(), 1);
    match &diags[0] {
        Diagnostic::UnknownTheme(t) => assert_eq!(t, "no-such-theme"),
        other => panic!("expected an unknown-theme diagnostic, got {:?}", other),
    }
    match &doc.blocks[0] {
        DocNode::CodeBlock { styled, runs, markup } => {
            assert!(!styled);
            assert_eq!(runs.len(), 0);
            assert_eq!(markup, "print(1)\n");
        },
        other => panic!("expected a code block, got {:?}", other),
    }
}

#[test]
fn unknown_language_and_theme_give_two_diagnostics_in_order() {
    let tree = code(Some("zzz"), "x");
    let cfg = RenderConfig {
        image_settings: commonmark_pango::ImageSetting::FromPath,
        highlight_theme: String::from("zzz-theme"),
    };
    let hl = Highlighter::new();
    let (_, diags) = compile_document(&tree, &cfg, &hl).unwrap();
    assert_eq!(diags.len(), 2);
    assert!(matches!(&diags[0], Diagnostic::UnknownLanguage(Some(_))));
    assert!(matches!(&diags[1], Diagnostic::UnknownTheme(_)));
}

#[test]
fn known_language_and_theme_give_styled_runs() {
    let source = "def f(x):\n    return x + 1\n";
    let tree = code(Some("python"), source);
    let hl = Highlighter::new();
    let (doc, diags) = compile_document(&tree, &RenderConfig::default(), &hl).unwrap();
    assert_eq!(diags.len(), 0);
    match &doc.blocks[0] {
        DocNode::CodeBlock { styled, runs, markup } => {
            assert!(*styled);
            assert!(!runs.is_empty());
            // Every run carries a colour, and the text survives the trip
            // through escaping and tokenizing.
            let mut joined = String::new();
            for run in runs {
                assert!(run.foreground.is_some());
                joined.push_str(&run.text);
            }
            assert_eq!(unescape_markup(&joined), source);
            // The block markup is exactly the serialization of the runs.
            assert_eq!(*markup, commonmark_pango::style::serialize_runs(runs));
        },
        other => panic!("expected a code block, got {:?}", other),
    }
}

#[test]
fn code_diagnostics_cases() {
    let lang = Some(String::from("rust"));
    let theme = "base16-mocha.dark";
    assert_eq!(code_diagnostics(&lang, true, theme, true).len(), 0);
    let d = code_diagnostics(&lang, false, theme, true);
    assert_eq!(d.len(), 1);
    assert!(matches!(&d[0], Diagnostic::UnknownLanguage(Some(_))));
    let d = code_diagnostics(&lang, true, theme, false);
    assert_eq!(d.len(), 1);
    assert!(matches!(&d[0], Diagnostic::UnknownTheme(_)));
    let d = code_diagnostics(&None, false, theme, false);
    assert_eq!(d.len(), 2);
    assert!(matches!(&d[0], Diagnostic::UnknownLanguage(None)));
    assert!(matches!(&d[1], Diagnostic::UnknownTheme(_)));
}

#[test]
fn runs_of_ranges_escapes_and_decodes() {
    let parts = vec![
        (0x12u8, 0x34u8, 0x56u8, 5u8, String::from("a<b")),
        (0xffu8, 0x00u8, 0x0au8, 2u8, String::from("&")),
        (0u8, 0u8, 0u8, 0u8, String::from("plain")),
    ];
    let runs = runs_of_ranges(&parts);
    assert_eq!(runs.len(), 3);
    assert_eq!(runs[0].text, "a&lt;b");
    assert!(runs[0].bold); // bit 1
    assert!(!runs[0].underline); // bit 2
    assert!(runs[0].italic); // bit 4
    assert_eq!(runs[0].foreground, Some(Rgb { r: 0x12, g: 0x34, b: 0x56 }));
    assert_eq!(runs[1].text, "&amp;");
    assert!(!runs[1].bold);
    assert!(runs[1].underline);
    assert!(!runs[1].italic);
    assert_eq!(runs[2].text, "plain");
    assert!(!runs[2].bold && !runs[2].underline && !runs[2].italic);
}
