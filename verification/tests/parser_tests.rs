use terminal_slide::markdown_events::MdEvent;
use terminal_slide::parser::{elements_from_events, parse_presentation, parse_slide, split_slides};
use terminal_slide::slide::{SlideElement, StyledSpan, TextStyle};

// --- split_slides tests ---

#[test]
fn test_split_slides() {
    let content = "# Slide 1\n\nContent\n\n---\n\n# Slide 2\n\nMore content\n\n---\n\n# Slide 3";
    let slides = split_slides(content);
    assert_eq!(slides.len(), 3);
    assert!(slides[0].contains("Slide 1"));
    assert!(slides[1].contains("Slide 2"));
    assert!(slides[2].contains("Slide 3"));
}

#[test]
fn test_split_slides_preserves_content() {
    let content = "# Title\n\nParagraph text\n\n---\n\n## Second\n\n- Item";
    let slides = split_slides(content);
    assert_eq!(slides.len(), 2);
    assert_eq!(slides[0], "# Title\n\nParagraph text");
    assert_eq!(slides[1], "## Second\n\n- Item");
}

#[test]
fn test_split_slides_ignores_separator_in_code_block() {
    let content = "# Slide 1\n\n```\n---\n```\n\n---\n\n# Slide 2";
    let slides = split_slides(content);
    assert_eq!(slides.len(), 2);
    assert!(slides[0].contains("Slide 1"));
    assert!(slides[0].contains("---")); // The --- inside code block is preserved
    assert!(slides[1].contains("Slide 2"));
}

#[test]
fn test_split_slides_ignores_separator_in_fenced_tilde_block() {
    let content = "# Slide 1\n\n~~~\n---\n~~~\n\n---\n\n# Slide 2";
    let slides = split_slides(content);
    assert_eq!(slides.len(), 2);
}

#[test]
fn test_multiple_consecutive_separators() {
    let content = "Slide 1\n\n---\n\n---\n\nSlide 3";
    let slides = split_slides(content);
    assert_eq!(slides.len(), 3);
    assert_eq!(slides[0], "Slide 1");
    assert!(slides[1].is_empty()); // Empty slide between separators
    assert_eq!(slides[2], "Slide 3");
}

// --- empty / single slide tests ---

#[test]
fn test_empty_file() {
    let slides = split_slides("");
    assert_eq!(slides.len(), 1);
    assert!(slides[0].is_empty());

    let presentation = parse_presentation("");
    assert_eq!(presentation.slide_count(), 1);
    assert!(presentation.get_slide(0).unwrap().is_empty());
}

#[test]
fn test_single_slide() {
    let content = "# Only Slide\n\nSome content here";
    let slides = split_slides(content);
    assert_eq!(slides.len(), 1);
    assert!(slides[0].contains("Only Slide"));

    let presentation = parse_presentation(content);
    assert_eq!(presentation.slide_count(), 1);
    assert_eq!(presentation.title, Some("Only Slide".to_string()));
}

#[test]
fn test_parse_empty_slide() {
    let slide = parse_slide("");
    assert!(slide.is_empty());
    assert!(slide.elements.is_empty());
}

// --- heading tests ---

#[test]
fn test_parse_headings() {
    let content = "# Heading 1\n\n## Heading 2\n\n### Heading 3\n\n#### Heading 4\n\n##### Heading 5\n\n###### Heading 6";
    let slide = parse_slide(content);

    let headings: Vec<_> = slide
        .elements
        .iter()
        .filter_map(|el| {
            if let SlideElement::Heading(level, text) = el {
                Some((*level, text.as_str()))
            } else {
                None
            }
        })
        .collect();

    assert_eq!(headings.len(), 6);
    assert_eq!(headings[0], (1, "Heading 1"));
    assert_eq!(headings[1], (2, "Heading 2"));
    assert_eq!(headings[2], (3, "Heading 3"));
    assert_eq!(headings[3], (4, "Heading 4"));
    assert_eq!(headings[4], (5, "Heading 5"));
    assert_eq!(headings[5], (6, "Heading 6"));
}

// --- code block tests ---

#[test]
fn test_parse_code_block() {
    let content = "```rust\nfn main() {\n    println!(\"hello\");\n}\n```";
    let slide = parse_slide(content);

    let code_blocks: Vec<_> = slide
        .elements
        .iter()
        .filter_map(|el| {
            if let SlideElement::CodeBlock(lang, code) = el {
                Some((lang.as_deref(), code.as_str()))
            } else {
                None
            }
        })
        .collect();

    assert_eq!(code_blocks.len(), 1);
    assert_eq!(code_blocks[0].0, Some("rust"));
    assert!(code_blocks[0].1.contains("fn main()"));
    assert!(code_blocks[0].1.contains("println!"));
}

#[test]
fn test_parse_code_block_without_language() {
    let content = "```\nsome code\n```";
    let slide = parse_slide(content);

    let code_block = slide
        .elements
        .iter()
        .find_map(|el| {
            if let SlideElement::CodeBlock(lang, code) = el {
                Some((lang.clone(), code.clone()))
            } else {
                None
            }
        })
        .expect("should have a code block");

    assert_eq!(code_block.0, None);
    assert_eq!(code_block.1, "some code");
}

// --- list tests ---

#[test]
fn test_parse_lists() {
    // Bullet list
    let bullet_content = "- Item 1\n- Item 2\n- Item 3";
    let slide = parse_slide(bullet_content);

    let bullet_lists: Vec<_> = slide
        .elements
        .iter()
        .filter_map(|el| {
            if let SlideElement::BulletList(items) = el {
                Some(items)
            } else {
                None
            }
        })
        .collect();

    assert_eq!(bullet_lists.len(), 1);
    assert_eq!(bullet_lists[0].len(), 3);
    assert_eq!(bullet_lists[0][0][0].text, "Item 1");
    assert_eq!(bullet_lists[0][1][0].text, "Item 2");
    assert_eq!(bullet_lists[0][2][0].text, "Item 3");

    // Numbered list
    let numbered_content = "1. First\n2. Second\n3. Third";
    let slide = parse_slide(numbered_content);

    let numbered_lists: Vec<_> = slide
        .elements
        .iter()
        .filter_map(|el| {
            if let SlideElement::NumberedList(items) = el {
                Some(items)
            } else {
                None
            }
        })
        .collect();

    assert_eq!(numbered_lists.len(), 1);
    assert_eq!(numbered_lists[0].len(), 3);
    assert_eq!(numbered_lists[0][0][0].text, "First");
    assert_eq!(numbered_lists[0][1][0].text, "Second");
    assert_eq!(numbered_lists[0][2][0].text, "Third");
}

// --- inline style tests ---

#[test]
fn test_parse_bold_and_italic() {
    let content = "**bold** and *italic* and ***both***";
    let slide = parse_slide(content);

    let paragraph = slide
        .elements
        .iter()
        .find_map(|el| {
            if let SlideElement::Paragraph(spans) = el {
                Some(spans)
            } else {
                None
            }
        })
        .expect("should have a paragraph");

    let has_bold = paragraph
        .iter()
        .any(|s| s.style == TextStyle::Bold && s.text == "bold");
    assert!(has_bold, "should contain bold text");

    let has_italic = paragraph
        .iter()
        .any(|s| s.style == TextStyle::Italic && s.text == "italic");
    assert!(has_italic, "should contain italic text");

    let has_bold_italic = paragraph
        .iter()
        .any(|s| s.style == TextStyle::BoldItalic && s.text == "both");
    assert!(has_bold_italic, "should contain bold-italic text");
}

#[test]
fn test_parse_inline_code() {
    let content = "Use `println!()` to print";
    let slide = parse_slide(content);

    let paragraph = slide
        .elements
        .iter()
        .find_map(|el| {
            if let SlideElement::Paragraph(spans) = el {
                Some(spans)
            } else {
                None
            }
        })
        .expect("should have a paragraph");

    let has_code = paragraph
        .iter()
        .any(|s| s.style == TextStyle::Code && s.text == "println!()");
    assert!(has_code, "should contain inline code");
}

// --- nested element tests ---

#[test]
fn test_nested_bold_in_list() {
    let content = "- Normal and **bold** item\n- Another item";
    let slide = parse_slide(content);

    let list = slide
        .elements
        .iter()
        .find_map(|el| {
            if let SlideElement::BulletList(items) = el {
                Some(items)
            } else {
                None
            }
        })
        .expect("should have a bullet list");

    assert_eq!(list.len(), 2);

    // First item should have both plain and bold spans
    let first_item = &list[0];
    let has_plain = first_item
        .iter()
        .any(|s| s.style == TextStyle::Plain && s.text.contains("Normal"));
    assert!(has_plain, "list item should contain plain text");

    let has_bold_in_item = first_item
        .iter()
        .any(|s| s.style == TextStyle::Bold && s.text == "bold");
    assert!(has_bold_in_item, "list item should contain bold span");
}

#[test]
fn test_code_inside_paragraph() {
    let content = "Run `cargo build` to compile the project";
    let slide = parse_slide(content);

    let paragraph = slide
        .elements
        .iter()
        .find_map(|el| {
            if let SlideElement::Paragraph(spans) = el {
                Some(spans)
            } else {
                None
            }
        })
        .expect("should have a paragraph");

    let styles: Vec<_> = paragraph.iter().map(|s| &s.style).collect();
    assert!(
        styles.contains(&&TextStyle::Plain),
        "should have plain text"
    );
    assert!(
        styles.contains(&&TextStyle::Code),
        "should have inline code"
    );
}

// --- horizontal rule tests ---

#[test]
fn test_parse_horizontal_rule() {
    // Use *** since --- is the slide separator
    let content = "Before\n\n***\n\nAfter";
    let slide = parse_slide(content);

    let has_rule = slide
        .elements
        .iter()
        .any(|el| matches!(el, SlideElement::HorizontalRule));
    assert!(has_rule, "should contain horizontal rule");
}

// --- presentation-level tests ---

#[test]
fn test_parse_presentation_extracts_title() {
    let content = "# My Talk\n\nIntroduction\n\n---\n\n## Details\n\nContent here";
    let presentation = parse_presentation(content);
    assert_eq!(presentation.slide_count(), 2);
    assert_eq!(presentation.title, Some("My Talk".to_string()));
}

#[test]
fn test_parse_presentation_no_title() {
    let content = "## Not H1\n\nContent\n\n---\n\nMore content";
    let presentation = parse_presentation(content);
    assert_eq!(presentation.slide_count(), 2);
    assert_eq!(presentation.title, None);
}

#[test]
fn test_parse_presentation_multiple_slides() {
    let content = "# Slide 1\n\n---\n\n# Slide 2\n\n---\n\n# Slide 3\n\n---\n\n# Slide 4";
    let presentation = parse_presentation(content);
    assert_eq!(presentation.slide_count(), 4);
    assert_eq!(presentation.title, Some("Slide 1".to_string()));

    for i in 0..4 {
        let slide = presentation.get_slide(i).unwrap();
        assert!(!slide.is_empty());
    }
}

// --- further cases ---

#[test]
fn split_keeps_lines_and_drops_carriage_returns() {
    let slides = split_slides("a\r\nb\r\n---\r\n  c  ");
    assert_eq!(slides, vec!["a\nb".to_string(), "c".to_string()]);
}

#[test]
fn split_with_indented_separator_and_trailing_separator() {
    let slides = split_slides("one\n   ---   \ntwo\n---");
    assert_eq!(slides, vec!["one".to_string(), "two".to_string(), String::new()]);
}

#[test]
fn split_unclosed_fence_swallows_separators() {
    let slides = split_slides("```\n---\ncode");
    assert_eq!(slides, vec!["```\n---\ncode".to_string()]);
}

#[test]
fn slides_are_trimmed() {
    for s in split_slides("\n\n  x  \n\n---\n\t y\t\n") {
        assert_eq!(s.trim(), s);
    }
}

#[test]
fn paragraph_spans_exactly() {
    let slide = parse_slide("Hello *there* `x`\nworld");
    assert_eq!(slide.elements.len(), 1);
    match &slide.elements[0] {
        SlideElement::Paragraph(spans) => {
            let got: Vec<(&str, TextStyle)> =
                spans.iter().map(|s| (s.text.as_str(), s.style)).collect();
            assert_eq!(
                got,
                vec![
                    ("Hello ", TextStyle::Plain),
                    ("there", TextStyle::Italic),
                    (" ", TextStyle::Plain),
                    ("x", TextStyle::Code),
                    (" ", TextStyle::Plain),
                    ("world", TextStyle::Plain),
                ]
            );
        }
        other => panic!("unexpected element {:?}", other),
    }
}

#[test]
fn hard_break_becomes_newline_span() {
    let slide = parse_slide("a  \nb");
    match &slide.elements[0] {
        SlideElement::Paragraph(spans) => {
            assert!(spans.iter().any(|s| s.text == "\n" && s.style == TextStyle::Plain));
        }
        other => panic!("unexpected element {:?}", other),
    }
}

#[test]
fn heading_with_code_and_soft_break() {
    let slide = parse_slide("# Use `cargo`");
    assert_eq!(
        slide.elements,
        vec![SlideElement::Heading(1, "Use cargo".to_string())]
    );
}

#[test]
fn code_block_trailing_whitespace_is_trimmed_and_indented_has_no_language() {
    let slide = parse_slide("    indented code   \n");
    assert_eq!(
        slide.elements,
        vec![SlideElement::CodeBlock(None, "indented code".to_string())]
    );
}

#[test]
fn list_item_paragraphs_are_joined_with_a_space() {
    let slide = parse_slide("- first\n\n  second\n- next");
    match &slide.elements[0] {
        SlideElement::BulletList(items) => {
            assert_eq!(items.len(), 2);
            let texts: Vec<&str> = items[0].iter().map(|s| s.text.as_str()).collect();
            assert_eq!(texts, vec!["first", " ", "second"]);
        }
        other => panic!("unexpected element {:?}", other),
    }
}

#[test]
fn raw_content_is_kept_and_blank_slides_are_empty() {
    let slide = parse_slide("Text here");
    assert_eq!(slide.raw_content, "Text here");
    let blank = parse_slide("  \n\t ");
    assert!(blank.is_empty());
    assert_eq!(blank.raw_content, "");
}

#[test]
fn title_only_from_first_slide_and_level_one() {
    let p = parse_presentation("## a\n\n# b\n\n---\n\n# c");
    assert_eq!(p.title, Some("b".to_string()));
    let p = parse_presentation("text\n\n---\n\n# later");
    assert_eq!(p.title, None);
}

#[test]
fn unsupported_markdown_is_skipped() {
    let slide = parse_slide("> quoted\n\n[link](http://x)");
    for el in &slide.elements {
        if let SlideElement::Heading(level, _) = el {
            assert!((1..=6).contains(level));
        }
    }
    assert!(slide
        .elements
        .iter()
        .all(|el| matches!(el, SlideElement::Paragraph(_))));
}

#[test]
fn elements_from_given_events() {
    let events = vec![
        MdEvent::StartHeading(2),
        MdEvent::Text("Hi ".to_string()),
        MdEvent::Code("x".to_string()),
        MdEvent::EndHeading,
        MdEvent::StartParagraph,
        MdEvent::Text("a".to_string()),
        MdEvent::StartStrong,
        MdEvent::StartEmphasis,
        MdEvent::Text("b".to_string()),
        MdEvent::EndEmphasis,
        MdEvent::EndStrong,
        MdEvent::SoftBreak,
        MdEvent::Code("c".to_string()),
        MdEvent::EndParagraph,
        MdEvent::StartCodeBlock(Some(String::new())),
        MdEvent::Text("let x = 1;\n\n".to_string()),
        MdEvent::EndCodeBlock,
        MdEvent::StartList(Some(3)),
        MdEvent::StartItem,
        MdEvent::Text("one".to_string()),
        MdEvent::EndItem,
        MdEvent::EndList,
        MdEvent::Other,
        MdEvent::Rule,
    ];
    let elements = elements_from_events(events);
    assert_eq!(
        elements,
        vec![
            SlideElement::Heading(2, "Hi x".to_string()),
            SlideElement::Paragraph(vec![
                StyledSpan::plain("a"),
                StyledSpan::bold_italic("b"),
                StyledSpan::plain(" "),
                StyledSpan::code("c"),
            ]),
            SlideElement::CodeBlock(None, "let x = 1;".to_string()),
            SlideElement::NumberedList(vec![vec![StyledSpan::plain("one")]]),
            SlideElement::HorizontalRule,
        ]
    );
}

#[test]
fn empty_paragraph_events_give_no_element() {
    let events = vec![MdEvent::StartParagraph, MdEvent::EndParagraph];
    assert!(elements_from_events(events).is_empty());
}

#[test]
fn usage_example_from_the_documentation() {
    let content = "# Title Slide\n\nWelcome to my talk\n\n---\n\n## Second Slide\n\n- Point 1\n- Point 2\n\n---\n\n## Code\n\n```rust\nfn main() {\n    println!(\"Hello!\");\n}\n```\n";
    let p = parse_presentation(content);
    assert_eq!(p.slide_count(), 3);
    assert_eq!(p.title.as_deref(), Some("Title Slide"));
    assert_eq!(
        p.slides[0].elements,
        vec![
            SlideElement::Heading(1, "Title Slide".to_string()),
            SlideElement::Paragraph(vec![StyledSpan::plain("Welcome to my talk")]),
        ]
    );
    assert_eq!(
        p.slides[1].elements,
        vec![
            SlideElement::Heading(2, "Second Slide".to_string()),
            SlideElement::BulletList(vec![
                vec![StyledSpan::plain("Point 1")],
                vec![StyledSpan::plain("Point 2")],
            ]),
        ]
    );
    assert_eq!(
        p.slides[2].elements,
        vec![
            SlideElement::Heading(2, "Code".to_string()),
            SlideElement::CodeBlock(
                Some("rust".to_string()),
                "fn main() {\n    println!(\"Hello!\");\n}".to_string()
            ),
        ]
    );
}

#[test]
fn slides_are_the_trimmed_text_between_separator_lines() {
    let content = "\n\n  a\n```\n---\n```\n---\n  b  \n\nc\n---";
    assert_eq!(split_slides(content), vec!["a\n```\n---\n```", "b  \n\nc", ""]);
}
