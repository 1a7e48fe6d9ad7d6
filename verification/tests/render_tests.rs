use terminal_slide::render::{
    centered_rows, code_block_lines, code_row_line, heading_style, layout_lines, ColoredText,
    RenderLine, SlideWidget, SpanLook, SyntaxHighlighter, Tint,
};
use terminal_slide::slide::{Slide, SlideElement, StyledSpan, TextStyle};

fn texts(line: &RenderLine) -> Vec<(String, SpanLook)> {
    line.spans.iter().map(|s| (s.text.clone(), s.look)).collect()
}

#[test]
fn heading_colours() {
    assert_eq!(heading_style(1), Tint::Cyan);
    assert_eq!(heading_style(2), Tint::Green);
    assert_eq!(heading_style(3), Tint::Yellow);
    assert_eq!(heading_style(4), Tint::Magenta);
    assert_eq!(heading_style(5), Tint::Blue);
    assert_eq!(heading_style(6), Tint::White);
    assert_eq!(heading_style(0), Tint::White);
}

#[test]
fn layout_of_text_elements() {
    let elements = vec![
        SlideElement::Heading(2, "Title".to_string()),
        SlideElement::Paragraph(vec![StyledSpan::plain("a "), StyledSpan::bold("b")]),
        SlideElement::BulletList(vec![vec![StyledSpan::plain("x")]]),
        SlideElement::NumberedList(vec![vec![StyledSpan::plain("y")], vec![StyledSpan::plain("z")]]),
        SlideElement::HorizontalRule,
    ];
    let hs = vec![Vec::new(); elements.len()];
    let lines = layout_lines(&elements, 80, &hs);
    let got: Vec<Vec<(String, SpanLook)>> = lines.iter().map(texts).collect();
    assert_eq!(
        got,
        vec![
            vec![("Title".to_string(), SpanLook::Heading(2))],
            vec![],
            vec![
                ("a ".to_string(), SpanLook::Text(TextStyle::Plain)),
                ("b".to_string(), SpanLook::Text(TextStyle::Bold)),
            ],
            vec![],
            vec![
                ("  \u{2022} ".to_string(), SpanLook::ListMarker),
                ("x".to_string(), SpanLook::Text(TextStyle::Plain)),
            ],
            vec![],
            vec![
                ("  1. ".to_string(), SpanLook::ListMarker),
                ("y".to_string(), SpanLook::Text(TextStyle::Plain)),
            ],
            vec![
                ("  2. ".to_string(), SpanLook::ListMarker),
                ("z".to_string(), SpanLook::Text(TextStyle::Plain)),
            ],
            vec![],
            vec![("\u{2500}".repeat(60), SpanLook::Rule)],
        ]
    );
}

#[test]
fn rule_is_at_most_the_width() {
    let elements = vec![SlideElement::HorizontalRule];
    let lines = layout_lines(&elements, 12, &vec![Vec::new()]);
    assert_eq!(texts(&lines[0]), vec![("\u{2500}".repeat(12), SpanLook::Rule)]);
    assert_eq!(lines.len(), 1);
}

#[test]
fn empty_slide_has_no_lines() {
    let lines = layout_lines(&Vec::new(), 40, &Vec::new());
    assert!(lines.is_empty());
}

#[test]
fn code_rows_are_padded_to_the_width() {
    let row = code_row_line("ab", &None, 10);
    assert_eq!(
        texts(&row),
        vec![
            ("  ".to_string(), SpanLook::CodePad),
            ("ab".to_string(), SpanLook::CodePlain),
            ("      ".to_string(), SpanLook::CodePad),
        ]
    );
    let pieces = vec![
        ColoredText { red: 1, green: 2, blue: 3, text: "let".to_string() },
        ColoredText { red: 4, green: 5, blue: 6, text: "\n".to_string() },
        ColoredText { red: 7, green: 8, blue: 9, text: " é\n".to_string() },
    ];
    let row = code_row_line("let é", &Some(pieces), 10);
    assert_eq!(
        texts(&row),
        vec![
            ("  ".to_string(), SpanLook::CodePad),
            ("let".to_string(), SpanLook::CodeToken(1, 2, 3)),
            (" é".to_string(), SpanLook::CodeToken(7, 8, 9)),
            // 2 + 3 + 3 bytes used of 10
            ("  ".to_string(), SpanLook::CodePad),
        ]
    );
    let row = code_row_line("a long line", &Some(Vec::new()), 4);
    assert_eq!(
        texts(&row),
        vec![
            ("  ".to_string(), SpanLook::CodePad),
            ("a long line".to_string(), SpanLook::CodePlain),
        ]
    );
}

#[test]
fn code_block_has_padding_label_and_rows() {
    let lines = code_block_lines(Some("rs"), "x\ny", 8, &vec![None, None]);
    let got: Vec<Vec<(String, SpanLook)>> = lines.iter().map(texts).collect();
    assert_eq!(got.len(), 5);
    assert_eq!(got[0], vec![("        ".to_string(), SpanLook::CodePad)]);
    assert_eq!(got[1], vec![("  rs    ".to_string(), SpanLook::CodeLabel)]);
    assert_eq!(got[2][1], ("x".to_string(), SpanLook::CodePlain));
    assert_eq!(got[3][1], ("y".to_string(), SpanLook::CodePlain));
    assert_eq!(got[4], vec![("        ".to_string(), SpanLook::CodePad)]);
}

#[test]
fn widget_highlights_code() {
    let highlighter = SyntaxHighlighter::new();
    let slide = Slide::new(
        "",
        vec![SlideElement::CodeBlock(Some("rust".to_string()), "fn main() {}".to_string())],
    );
    let widget = SlideWidget::new(&slide, &highlighter);
    let lines = widget.build_lines(30);
    // padding, label, one code line, padding
    assert_eq!(lines.len(), 4);
    let row = &lines[2];
    let joined: String = row.spans.iter().map(|s| s.text.as_str()).collect();
    assert_eq!(joined.len(), 30);
    assert!(joined.contains("fn"));
    assert!(row
        .spans
        .iter()
        .any(|s| matches!(s.look, SpanLook::CodeToken(..))));
}

#[test]
fn vertical_centering() {
    assert_eq!(centered_rows(4, 10), (3, 7));
    assert_eq!(centered_rows(12, 10), (0, 10));
    assert_eq!(centered_rows(10, 10), (0, 10));
}

#[test]
fn code_rows_fill_the_width_in_bytes() {
    let bytes = |l: &RenderLine| l.spans.iter().map(|s| s.text.len()).sum::<usize>();
    assert_eq!(bytes(&code_row_line("ab", &None, 10)), 10);
    assert_eq!(bytes(&code_row_line("é", &None, 7)), 7);
    let pieces = vec![ColoredText { red: 1, green: 2, blue: 3, text: "x = 1\n".to_string() }];
    assert_eq!(bytes(&code_row_line("x = 1", &Some(pieces), 12)), 12);
    assert_eq!(bytes(&code_row_line("longer than width", &None, 5)), 19);
}

fn line_text(line: &RenderLine) -> String {
    line.spans.iter().map(|s| s.text.as_str()).collect()
}

#[test]
fn code_rows_show_the_code_whatever_the_language() {
    let h = SyntaxHighlighter::new();
    let code = "fn main() {\n    let x = \"é\";\n}";
    for lang in [Some("rust"), Some("no-such-language"), None] {
        let hs = h.highlight_code(lang, code);
        assert_eq!(hs.len(), 3);
        for (k, piece) in hs.iter().enumerate() {
            if let Some(p) = piece {
                let joined: String = p.iter().map(|c| c.text.as_str()).collect();
                assert_eq!(joined, format!("{}\n", code.lines().nth(k).unwrap()));
            }
        }
        let width = 30;
        let out = code_block_lines(lang, code, width, &hs);
        let o = if lang.is_some() { 2 } else { 1 };
        assert_eq!(out.len(), 3 + o + 1);
        assert_eq!(line_text(&out[0]), " ".repeat(width));
        assert_eq!(line_text(&out[3 + o]), " ".repeat(width));
        if let Some(l) = lang {
            let label = format!("  {l}");
            assert_eq!(line_text(&out[1]), format!("{label}{}", " ".repeat(width.saturating_sub(label.len()))));
        }
        for (k, l) in code.lines().enumerate() {
            assert_eq!(
                line_text(&out[o + k]),
                format!("  {l}{}", " ".repeat(width.saturating_sub(l.len() + 2)))
            );
        }
    }
}

#[test]
fn unknown_language_is_highlighted_as_plain_text() {
    let h = SyntaxHighlighter::new();
    let plain = |hs: Vec<Option<Vec<ColoredText>>>| {
        hs.into_iter()
            .map(|o| o.map(|p| p.into_iter().map(|c| (c.red, c.green, c.blue, c.text)).collect::<Vec<_>>()))
            .collect::<Vec<_>>()
    };
    assert_eq!(
        plain(h.highlight_code(Some("no-such-language"), "a b")),
        plain(h.highlight_code(None, "a b"))
    );
}
