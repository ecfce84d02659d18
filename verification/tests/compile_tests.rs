use commonmark_pango::ast::Ast;
use commonmark_pango::compile::compile_document;
use commonmark_pango::doc::{DocNode, HeadingSize};
use commonmark_pango::highlight::Highlighter;
use commonmark_pango::{ImageSetting, RenderConfig, RenderError};

fn text(s: &str) -> Ast {
    Ast::Text { value: String::from(s) }
}

// The parsed form of "# Title\n\nSome **bold** text."
#[test]
fn scenario_heading_and_bold_paragraph() {
    let tree = vec![
        Ast::Heading { depth: 1, children: vec![text("Title")] },
        Ast::Paragraph {
            children: vec![
                text("Some "),
                Ast::Strong { children: vec![text("bold")] },
                text(" text."),
            ],
        },
    ];
    let hl = Highlighter::new();
    let (doc, diags) = compile_document(&tree, &RenderConfig::default(), &hl).unwrap();
    assert_eq!(diags.len(), 0);
    assert_eq!(doc.blocks.len(), 2);
    match &doc.blocks[0] {
        DocNode::Heading { size, separator_height, markup, children } => {
            assert!(matches!(size, HeadingSize::XxLarge));
            assert_eq!(*separator_height, 4);
            assert_eq!(markup, "<span font_size=\"xx-large\">Title</span>");
            assert_eq!(children.len(), 0);
        },
        other => panic!("expected a heading, got {:?}", other),
    }
    match &doc.blocks[1] {
        DocNode::Paragraph { markup, children } => {
            assert_eq!(markup, "Some <b>bold</b> text.");
            assert_eq!(children.len(), 0);
        },
        other => panic!("expected a paragraph, got {:?}", other),
    }
}

// The parsed form of "- [x] done"
#[test]
fn scenario_checked_list_item() {
    let tree = vec![Ast::List {
        children: vec![Ast::ListItem {
            checked: Some(true),
            children: vec![Ast::Paragraph { children: vec![text("done")] }],
        }],
    }];
    let hl = Highlighter::new();
    let (doc, diags) = compile_document(&tree, &RenderConfig::default(), &hl).unwrap();
    assert_eq!(diags.len(), 0);
    assert_eq!(doc.blocks.len(), 1);
    match &doc.blocks[0] {
        DocNode::List { children } => {
            assert_eq!(children.len(), 1);
            match &children[0] {
                DocNode::ListItem { indent, checked, children } => {
                    assert_eq!(*indent, 0);
                    assert_eq!(*checked, Some(true));
                    match &children[0] {
                        DocNode::Paragraph { markup, .. } => assert_eq!(markup, "done"),
                        other => panic!("expected a paragraph, got {:?}", other),
                    }
                },
                other => panic!("expected a list item, got {:?}", other),
            }
        },
        other => panic!("expected a list, got {:?}", other),
    }
}

#[test]
fn nested_spans_markup_is_balanced() {
    let tree = vec![Ast::Paragraph {
        children: vec![Ast::Strong {
            children: vec![
                Ast::Emphasis { children: vec![text("x")] },
                Ast::Delete { children: vec![] },
            ],
        }],
    }];
    let hl = Highlighter::new();
    let (doc, _) = compile_document(&tree, &RenderConfig::default(), &hl).unwrap();
    match &doc.blocks[0] {
        DocNode::Paragraph { markup, .. } => {
            assert_eq!(markup, "<b><i>x</i><s></s></b>");
            assert_eq!(markup.matches("<b>").count(), markup.matches("</b>").count());
            assert_eq!(markup.matches("<i>").count(), markup.matches("</i>").count());
            assert_eq!(markup.matches("<s>").count(), markup.matches("</s>").count());
        },
        other => panic!("expected a paragraph, got {:?}", other),
    }
}

#[test]
fn nested_list_indents() {
    let inner_item = Ast::ListItem {
        checked: None,
        children: vec![Ast::Paragraph { children: vec![text("inner")] }],
    };
    let outer_item = Ast::ListItem {
        checked: None,
        children: vec![Ast::List { children: vec![inner_item] }],
    };
    let tree = vec![Ast::List { children: vec![outer_item] }];
    let hl = Highlighter::new();
    let (doc, _) = compile_document(&tree, &RenderConfig::default(), &hl).unwrap();
    match &doc.blocks[0] {
        DocNode::List { children } => match &children[0] {
            DocNode::ListItem { indent, children, .. } => {
                assert_eq!(*indent, 0);
                match &children[0] {
                    DocNode::List { children } => match &children[0] {
                        DocNode::ListItem { indent, .. } => assert_eq!(*indent, 15),
                        other => panic!("expected a list item, got {:?}", other),
                    },
                    other => panic!("expected a list, got {:?}", other),
                }
            },
            other => panic!("expected a list item, got {:?}", other),
        },
        other => panic!("expected a list, got {:?}", other),
    }
}

#[test]
fn table_cursor_positions() {
    let cell = |s: &str| Ast::TableCell { children: vec![text(s)] };
    let tree = vec![Ast::Table {
        children: vec![
            Ast::TableRow { children: vec![cell("a"), cell("b")] },
            Ast::TableRow { children: vec![cell("c"), cell("d")] },
        ],
    }];
    let hl = Highlighter::new();
    let (doc, _) = compile_document(&tree, &RenderConfig::default(), &hl).unwrap();
    match &doc.blocks[0] {
        DocNode::Table { cells } => {
            assert_eq!(cells.len(), 4);
            let expect = [(0, 0, "a"), (0, 1, "b"), (1, 0, "c"), (1, 1, "d")];
            for (cell, (r, c, m)) in cells.iter().zip(expect.iter()) {
                assert_eq!(cell.row, *r);
                assert_eq!(cell.col, *c);
                assert_eq!(cell.markup, *m);
            }
        },
        other => panic!("expected a table, got {:?}", other),
    }
}

#[test]
fn unsupported_nodes_and_deep_headings_are_skipped() {
    let tree = vec![
        Ast::Unsupported,
        Ast::Heading { depth: 7, children: vec![text("deep")] },
        Ast::ThematicBreak,
    ];
    let hl = Highlighter::new();
    let (doc, diags) = compile_document(&tree, &RenderConfig::default(), &hl).unwrap();
    assert_eq!(diags.len(), 0);
    assert_eq!(doc.blocks.len(), 1);
    assert!(matches!(doc.blocks[0], DocNode::Separator));
}

#[test]
fn link_title_wins_over_children() {
    let tree = vec![Ast::Paragraph {
        children: vec![Ast::Link {
            url: String::from("https://example.com"),
            title: Some(String::from("the title")),
            children: vec![text("ignored")],
        }],
    }];
    let hl = Highlighter::new();
    let (doc, _) = compile_document(&tree, &RenderConfig::default(), &hl).unwrap();
    match &doc.blocks[0] {
        DocNode::Paragraph { markup, .. } => {
            assert_eq!(markup, "<u><a href=\"https://example.com\">the title</a></u>");
        },
        other => panic!("expected a paragraph, got {:?}", other),
    }
}

#[test]
fn link_without_title_renders_children() {
    let tree = vec![Ast::Paragraph {
        children: vec![Ast::Link {
            url: String::from("u"),
            title: None,
            children: vec![text("visible")],
        }],
    }];
    let hl = Highlighter::new();
    let (doc, _) = compile_document(&tree, &RenderConfig::default(), &hl).unwrap();
    match &doc.blocks[0] {
        DocNode::Paragraph { markup, .. } => {
            assert_eq!(markup, "<u><a href=\"u\">visible</a></u>");
        },
        other => panic!("expected a paragraph, got {:?}", other),
    }
}

#[test]
fn link_title_and_url_are_escaped() {
    let tree = vec![Ast::Paragraph {
        children: vec![Ast::Link {
            url: String::from("https://example.com/?a=1&b=\"2\""),
            title: Some(String::from("tom & jerry <3")),
            children: vec![],
        }],
    }];
    let hl = Highlighter::new();
    let (doc, _) = compile_document(&tree, &RenderConfig::default(), &hl).unwrap();
    match &doc.blocks[0] {
        DocNode::Paragraph { markup, .. } => {
            assert_eq!(
                markup,
                "<u><a href=\"https://example.com/?a=1&amp;b=&quot;2&quot;\">tom &amp; jerry &lt;3</a></u>"
            );
        },
        other => panic!("expected a paragraph, got {:?}", other),
    }
}

#[test]
fn inline_code_and_break() {
    let tree = vec![Ast::Paragraph {
        children: vec![
            text("a"),
            Ast::LineBreak,
            Ast::InlineCode { value: String::from("x<y") },
        ],
    }];
    let hl = Highlighter::new();
    let (doc, _) = compile_document(&tree, &RenderConfig::default(), &hl).unwrap();
    match &doc.blocks[0] {
        DocNode::Paragraph { markup, .. } => {
            assert_eq!(markup, "a\n <span><tt>x&lt;y</tt></span> ");
        },
        other => panic!("expected a paragraph, got {:?}", other),
    }
}

#[test]
fn image_modes() {
    let tree = vec![Ast::Image { url: String::from("pic.png") }];
    let hl = Highlighter::new();

    let ignore = RenderConfig {
        image_settings: ImageSetting::Ignore,
        highlight_theme: String::from("base16-mocha.dark"),
    };
    let (doc, _) = compile_document(&tree, &ignore, &hl).unwrap();
    assert_eq!(doc.blocks.len(), 0);

    let from_path = RenderConfig {
        image_settings: ImageSetting::FromPath,
        highlight_theme: String::from("base16-mocha.dark"),
    };
    let (doc, _) = compile_document(&tree, &from_path, &hl).unwrap();
    match &doc.blocks[0] {
        DocNode::Image { url } => assert_eq!(url, "pic.png"),
        other => panic!("expected an image, got {:?}", other),
    }

    let embed = RenderConfig {
        image_settings: ImageSetting::IncludeBytes,
        highlight_theme: String::from("base16-mocha.dark"),
    };
    let err = compile_document(&tree, &embed, &hl).unwrap_err();
    assert_eq!(err, RenderError::EmbedNotSupported);

    // Without any image, the embed configuration still compiles.
    let plain = vec![Ast::Paragraph { children: vec![text("ok")] }];
    assert!(compile_document(&plain, &embed, &hl).is_ok());
}
