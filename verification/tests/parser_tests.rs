use knots::knots_objects::KnotsObject;
use knots::parser::parse;

fn root_contents(pr: knots::parser::ParseResult) -> Vec<KnotsObject> {
    match pr.root_object {
        KnotsObject::Root(r) => r.contents,
        _ => panic!("the parse result must be a root node"),
    }
}

#[test]
fn plain_sentence_is_one_paragraph() {
    let pr = parse("Hello world\n", "doc.knots").unwrap();
    let contents = root_contents(pr);
    assert_eq!(contents.len(), 1);
    match &contents[0] {
        KnotsObject::Paragraph(p) => {
            assert_eq!(p.contents.len(), 1);
            match &p.contents[0] {
                KnotsObject::BasicText(t) => assert_eq!(t.contents, "Hello world"),
                _ => panic!("expected plain text"),
            }
        },
        _ => panic!("expected a paragraph"),
    }
}

#[test]
fn currency_dollar_stays_plain_text() {
    let pr = parse("It costs 300$ here.", "doc.knots").unwrap();
    let contents = root_contents(pr);
    assert_eq!(contents.len(), 1);
    match &contents[0] {
        KnotsObject::Paragraph(p) => {
            assert_eq!(p.contents.len(), 1);
            match &p.contents[0] {
                KnotsObject::BasicText(t) => assert_eq!(t.contents, "It costs 300$ here."),
                _ => panic!("currency text must stay plain"),
            }
        },
        _ => panic!("expected a paragraph"),
    }
}

#[test]
fn dollar_pair_is_inline_maths() {
    let pr = parse("$x+y$", "doc.knots").unwrap();
    let contents = root_contents(pr);
    assert_eq!(contents.len(), 1);
    match &contents[0] {
        KnotsObject::Paragraph(p) => {
            assert_eq!(p.contents.len(), 1);
            match &p.contents[0] {
                KnotsObject::InlineMaths(m) => assert_eq!(m.contents, "x+y"),
                _ => panic!("expected inline maths"),
            }
        },
        _ => panic!("expected a paragraph"),
    }
}

#[test]
fn bold_and_italic_delimiters() {
    let pr = parse("**bold** and _lean_\n", "doc.knots").unwrap();
    let contents = root_contents(pr);
    match &contents[0] {
        KnotsObject::Paragraph(p) => {
            assert!(matches!(p.contents[0], KnotsObject::Bold(_)));
            assert!(matches!(p.contents[1], KnotsObject::BasicText(_)));
            assert!(matches!(p.contents[2], KnotsObject::Italic(_)));
        },
        _ => panic!("expected a paragraph"),
    }
}

#[test]
fn link_label_and_target() {
    let pr = parse("[home](https://example.org)\n", "doc.knots").unwrap();
    let contents = root_contents(pr);
    match &contents[0] {
        KnotsObject::Paragraph(p) => match &p.contents[0] {
            KnotsObject::Link(l) => {
                assert_eq!(l.name, "home");
                assert_eq!(l.link, "https://example.org");
            },
            _ => panic!("expected a link"),
        },
        _ => panic!("expected a paragraph"),
    }
}

#[test]
fn heading_levels_by_marker_length() {
    let pr = parse("# One\n## Two\n### Three\n", "doc.knots").unwrap();
    let contents = root_contents(pr);
    assert_eq!(contents.len(), 3);
    for (node, want) in contents.iter().zip([1u8, 2, 3]) {
        match node {
            KnotsObject::Title(t) => assert_eq!(t.level, want),
            _ => panic!("expected a heading"),
        }
    }
}

#[test]
fn heading_text_is_trimmed() {
    let pr = parse("#   Spaced out   \n", "doc.knots").unwrap();
    let contents = root_contents(pr);
    match &contents[0] {
        KnotsObject::Title(t) => assert_eq!(t.contents, "Spaced out"),
        _ => panic!("expected a heading"),
    }
}

#[test]
fn horizontal_rule_forms() {
    let pr = parse("---\n***-_-\n", "doc.knots").unwrap();
    let contents = root_contents(pr);
    assert_eq!(contents.len(), 2);
    assert!(matches!(contents[0], KnotsObject::HorizontalRule(_)));
    assert!(matches!(contents[1], KnotsObject::HorizontalRule(_)));
}

#[test]
fn nested_item_one_level_deeper_nests() {
    let pr = parse("- a\n    - b\n", "doc.knots").unwrap();
    let contents = root_contents(pr);
    assert_eq!(contents.len(), 1);
    match &contents[0] {
        KnotsObject::List(l) => {
            assert_eq!(l.contents.len(), 1);
            let item = &l.contents[0];
            assert_eq!(item.len(), 2);
            assert!(matches!(item[0], KnotsObject::Paragraph(_)));
            match &item[1] {
                KnotsObject::List(inner) => assert_eq!(inner.contents.len(), 1),
                _ => panic!("the deeper item must nest as a child list"),
            }
        },
        _ => panic!("expected a list"),
    }
}

#[test]
fn wrongly_indented_item_starts_a_new_block() {
    let pr = parse("- a\n  - c\n", "doc.knots").unwrap();
    let contents = root_contents(pr);
    assert_eq!(contents.len(), 2);
    match &contents[0] {
        KnotsObject::List(l) => assert_eq!(l.contents.len(), 1),
        _ => panic!("expected a list"),
    }
    assert!(matches!(contents[1], KnotsObject::List(_)));
}

#[test]
fn continuation_line_joins_the_item() {
    let pr = parse("- a\n    more\n", "doc.knots").unwrap();
    let contents = root_contents(pr);
    match &contents[0] {
        KnotsObject::List(l) => {
            assert_eq!(l.contents.len(), 1);
            assert_eq!(l.contents[0].len(), 2);
            assert!(matches!(l.contents[0][1], KnotsObject::Paragraph(_)));
        },
        _ => panic!("expected a list"),
    }
}

#[test]
fn table_rows_match_header() {
    let pr = parse("|a|b|\n|---|---|\n|1|2|\n|3|4|\n", "doc.knots").unwrap();
    let contents = root_contents(pr);
    assert_eq!(contents.len(), 1);
    match &contents[0] {
        KnotsObject::Table(t) => {
            assert_eq!(t.header.len(), 2);
            assert_eq!(t.rows.len(), 2);
            assert_eq!(t.rows[0].len(), 2);
            assert_eq!(t.rows[1].len(), 2);
        },
        _ => panic!("expected a table"),
    }
}

#[test]
fn table_with_mismatched_row_fails() {
    let r = parse("|a|b|\n|---|---|\n|1|\n", "doc.knots");
    assert!(r.is_err());
}

#[test]
fn unparsable_line_is_reported() {
    let r = parse("fine\n\n|||bad|\n", "doc.knots");
    match r {
        Err(line) => assert_eq!(line, "|||bad|"),
        Ok(_) => panic!("the residue must fail the parse"),
    }
}

#[test]
fn code_block_language_is_lowercased() {
    let pr = parse("```RUST\nlet x = 1;\n```\n", "doc.knots").unwrap();
    let contents = root_contents(pr);
    match &contents[0] {
        KnotsObject::CodeBlock(c) => {
            assert_eq!(c.lang.as_deref(), Some("rust"));
            assert_eq!(c.contents, "let x = 1;\n");
        },
        _ => panic!("expected a code block"),
    }
}

#[test]
fn code_block_without_language() {
    let pr = parse("```\nraw\n```\n", "doc.knots").unwrap();
    let contents = root_contents(pr);
    match &contents[0] {
        KnotsObject::CodeBlock(c) => assert!(c.lang.is_none()),
        _ => panic!("expected a code block"),
    }
}

#[test]
fn mermaid_keyword_selects_a_diagram() {
    let pr = parse("```mermaid\ngraph TD\n```\n", "doc.knots").unwrap();
    let contents = root_contents(pr);
    match &contents[0] {
        KnotsObject::Mermaid(m) => assert_eq!(m.contents, "graph TD\n"),
        _ => panic!("expected a diagram block"),
    }
}

#[test]
fn display_maths_block() {
    let pr = parse("$$x^2$$\n", "doc.knots").unwrap();
    let contents = root_contents(pr);
    match &contents[0] {
        KnotsObject::MathsBlock(m) => assert_eq!(m.contents, "x^2"),
        _ => panic!("expected display maths"),
    }
}

#[test]
fn callout_boxes_and_quote() {
    let pr = parse("?> info\n!> warn\nx> err\n> quote\n", "doc.knots").unwrap();
    let contents = root_contents(pr);
    assert_eq!(contents.len(), 4);
    assert!(matches!(contents[0], KnotsObject::InfoBox(_)));
    assert!(matches!(contents[1], KnotsObject::WarningBox(_)));
    assert!(matches!(contents[2], KnotsObject::ErrorBox(_)));
    assert!(matches!(contents[3], KnotsObject::BlockQuote(_)));
}

#[test]
fn image_block() {
    let pr = parse("![alt text](pic.png)\n", "doc.knots").unwrap();
    let contents = root_contents(pr);
    match &contents[0] {
        KnotsObject::Image(img) => {
            assert_eq!(img.alt, "alt text");
            assert_eq!(img.link, "pic.png");
        },
        _ => panic!("expected an image"),
    }
}

#[test]
fn inline_code_is_verbatim() {
    let pr = parse("`a *b* c`\n", "doc.knots").unwrap();
    let contents = root_contents(pr);
    match &contents[0] {
        KnotsObject::Paragraph(p) => match &p.contents[0] {
            KnotsObject::InlineCode(c) => assert_eq!(c.contents, "a *b* c"),
            _ => panic!("expected inline code"),
        },
        _ => panic!("expected a paragraph"),
    }
}

#[test]
fn metadata_keys_are_folded() {
    let pr = parse(
        "%title My Doc\n%author Ada\n%author Grace\n%license MIT\n%colour blue\nBody\n",
        "doc.knots",
    )
    .unwrap();
    assert_eq!(pr.document_title, "My Doc");
    assert_eq!(pr.document_authors, vec!["Ada".to_string(), "Grace".to_string()]);
    assert_eq!(pr.document_license.as_deref(), Some("MIT"));
    assert_eq!(pr.unknown_metadata, vec!["colour".to_string()]);
}

#[test]
fn missing_title_falls_back_to_the_file_name() {
    let pr = parse("Body\n", "notes.knots").unwrap();
    assert_eq!(pr.document_title, "notes.knots");
}

#[test]
fn last_title_and_license_win() {
    let pr = parse("%title A\n%title B\n%license X\n%license Y\nBody\n", "doc.knots").unwrap();
    assert_eq!(pr.document_title, "B");
    assert_eq!(pr.document_license.as_deref(), Some("Y"));
}

#[test]
fn empty_input_is_an_empty_document() {
    let pr = parse("", "empty.knots").unwrap();
    let contents = root_contents(pr);
    assert_eq!(contents.len(), 0);
}

#[test]
fn whitespace_only_input_is_an_empty_document() {
    let pr = parse("  \n\t\n", "empty.knots").unwrap();
    let contents = root_contents(pr);
    assert_eq!(contents.len(), 0);
}

#[test]
fn several_currency_marks_stay_one_text_run() {
    let pr = parse("5$ or 6$. Done", "doc.knots").unwrap();
    let contents = root_contents(pr);
    assert_eq!(contents.len(), 1);
    match &contents[0] {
        KnotsObject::Paragraph(p) => {
            assert_eq!(p.contents.len(), 1);
            match &p.contents[0] {
                KnotsObject::BasicText(t) => assert_eq!(t.contents, "5$ or 6$. Done"),
                _ => panic!("currency text must stay plain"),
            }
        },
        _ => panic!("expected a paragraph"),
    }
}
