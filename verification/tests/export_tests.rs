use terminal_slide::cli::{ExportFormat, PresentationFormat};
use terminal_slide::export::{
    default_output_path, extract_between, html_page, md_to_html, output_candidate, plan_export,
    preprocess_md_for_pandoc, print_ready_html, temp_path, ExportError, ExportJob,
};

#[test]
fn test_default_output_path() {
    let input = "slides.md";
    assert_eq!(
        default_output_path(input, ExportFormat::Pdf, false),
        "slides.pdf"
    );
    assert_eq!(
        default_output_path(input, ExportFormat::Pptx, false),
        "slides.pptx"
    );

    let html_input = "presentation.html";
    assert_eq!(
        default_output_path(html_input, ExportFormat::Md, false),
        "presentation.md"
    );
}

#[test]
fn test_default_output_path_with_directory() {
    let input = "/path/to/slides.md";
    assert_eq!(
        default_output_path(input, ExportFormat::Pdf, false),
        "/path/to/slides.pdf"
    );
}

// --- further cases ---

#[test]
fn existing_output_gets_export_suffix() {
    assert_eq!(
        default_output_path("slides.md", ExportFormat::Pdf, true),
        "slides_export.pdf"
    );
    assert_eq!(
        default_output_path("/a/b/deck.html", ExportFormat::Pptx, true),
        "/a/b/deck_export.pptx"
    );
}

#[test]
fn output_that_would_be_the_input_gets_export_suffix() {
    assert_eq!(
        default_output_path("slides.md", ExportFormat::Md, false),
        "slides_export.md"
    );
    assert_eq!(
        default_output_path("a//slides.md", ExportFormat::Md, false),
        "a/slides_export.md"
    );
}

#[test]
fn output_candidate_keeps_the_directory() {
    assert_eq!(output_candidate("./deck.md", ExportFormat::Html), "./deck.html");
    assert_eq!(output_candidate("/deck.md", ExportFormat::Pdf), "/deck.pdf");
    assert_eq!(output_candidate("a/./deck.md", ExportFormat::Pdf), "a/deck.pdf");
}

#[test]
fn temp_path_sits_next_to_the_input() {
    assert_eq!(
        temp_path("/x/y/talk.md", ".pandoc-tmp.md"),
        "/x/y/talk.pandoc-tmp.md"
    );
    assert_eq!(temp_path("talk.html", ".print-tmp.html"), "talk.print-tmp.html");
}

#[test]
fn export_plans() {
    assert_eq!(
        plan_export(PresentationFormat::Markdown, ExportFormat::Md),
        Err(ExportError::AlreadyMarkdown)
    );
    assert_eq!(
        plan_export(PresentationFormat::Html, ExportFormat::Html),
        Err(ExportError::AlreadyHtml)
    );
    assert_eq!(
        plan_export(PresentationFormat::Markdown, ExportFormat::Pdf),
        Ok(ExportJob::MarkdownToPdf)
    );
    assert_eq!(
        plan_export(PresentationFormat::Markdown, ExportFormat::Pptx),
        Ok(ExportJob::MarkdownToPptx)
    );
    assert_eq!(
        plan_export(PresentationFormat::Markdown, ExportFormat::Html),
        Ok(ExportJob::MarkdownToHtml)
    );
    assert_eq!(
        plan_export(PresentationFormat::Html, ExportFormat::Pdf),
        Ok(ExportJob::HtmlToPdf)
    );
    assert_eq!(
        plan_export(PresentationFormat::Html, ExportFormat::Md),
        Ok(ExportJob::HtmlToMarkdown)
    );
    assert_eq!(
        plan_export(PresentationFormat::Html, ExportFormat::Pptx),
        Ok(ExportJob::HtmlToPptx)
    );
    assert_eq!(
        ExportError::AlreadyMarkdown.to_string(),
        "Input is already Markdown. No conversion needed."
    );
    assert_eq!(
        ExportError::AlreadyHtml.to_string(),
        "Input is already HTML. No conversion needed."
    );
}

#[test]
fn pandoc_input_has_title_and_spaced_separators() {
    let md = "# My Talk\nIntro\n---\nNext\n```\n---\n```";
    let out = preprocess_md_for_pandoc(md);
    assert_eq!(
        out,
        "---\ntitle: \"My Talk\"\n---\n\n# My Talk\nIntro\n\n---\n\nNext\n```\n---\n```\n"
    );
}

#[test]
fn pandoc_input_default_title() {
    let out = preprocess_md_for_pandoc("## Sub\n\n---\n\nx");
    assert_eq!(
        out,
        "---\ntitle: \"Presentation\"\n---\n\n## Sub\n\n---\n\n\nx\n"
    );
}

#[test]
fn pandoc_title_strips_repeated_markers() {
    let out = preprocess_md_for_pandoc("# # Deep  ");
    assert!(out.starts_with("---\ntitle: \"Deep\"\n---\n\n"));
}

#[test]
fn print_css_goes_before_head_end() {
    let out = print_ready_html("<html><head><title>t</title></head><body></body></html>");
    assert!(out.starts_with("<html><head><title>t</title><style>"));
    assert!(out.ends_with("</style></head><body></body></html>"));
    assert!(out.contains("page-break-after: always;"));

    let bare = print_ready_html("<p>x</p>");
    assert!(bare.starts_with("<style>"));
    assert!(bare.ends_with("</style><p>x</p>"));
}

#[test]
fn extract_between_markers() {
    assert_eq!(extract_between("a<b>c</b>d", "<b>", "</b>"), Some("c"));
    assert_eq!(extract_between("a<b>c", "<b>", "</b>"), None);
    assert_eq!(extract_between("abc", "<b>", "</b>"), None);
    assert_eq!(extract_between("</b><b>x</b>", "<b>", "</b>"), Some("x"));
    assert_eq!(extract_between("é<s>ü</s>", "<s>", "</s>"), Some("ü"));
}

#[test]
fn markdown_page_holds_each_slide() {
    let starter = "<style>\nbody{}\n</style>\n<!-- \u{2500}\u{2500} Keyboard Navigation \u{2500}\u{2500} -->\n<script>go()</script>";
    let html = md_to_html("# Title\n\nHello\n\n---\n\n\n---\n\nBye **now**", starter);
    assert!(html.starts_with("<!DOCTYPE html>\n<html lang=\"en\">"));
    assert!(html.contains("<title>Title</title>"));
    assert!(html.contains("<style>\n\nbody{}\n\n</style>"));
    assert!(html.contains("<script>\ngo()\n</script>"));
    assert!(html.contains("<div class=\"slide active\">\n<h1>Title</h1>\n<p>Hello</p>\n</div>\n"));
    assert!(html.contains("<div class=\"slide\">\n<p>Bye <strong>now</strong></p>\n</div>\n"));
    assert_eq!(html.matches("<div class=\"slide").count(), 2);
    assert!(html.ends_with("</script>\n</body>\n</html>"));
}

#[test]
fn markdown_page_without_template_parts() {
    let html = md_to_html("plain", "");
    assert!(html.contains("<title>Presentation</title>"));
    assert!(html.contains("<style>\n\n</style>"));
    assert!(html.contains("<div class=\"slide active\">\n<p>plain</p>\n</div>\n"));
}

#[test]
fn html_page_wraps_rendered_slides() {
    let slides = vec![
        Some("<h1>A</h1>\n".to_string()),
        None,
        Some("<p>b</p>\n".to_string()),
    ];
    let html = html_page("Deck", &slides, "<style>s{}</style><!-- \u{2500}\u{2500} Keyboard Navigation \u{2500}\u{2500} -->\n<script>js()</script>");
    assert_eq!(
        html,
        "<!DOCTYPE html>\n<html lang=\"en\">\n<head>\n<meta charset=\"utf-8\">\n<meta name=\"viewport\" content=\"width=device-width, initial-scale=1\">\n<title>Deck</title>\n<style>\ns{}\n</style>\n</head>\n<body>\n<div class=\"slide active\">\n<h1>A</h1>\n</div>\n<div class=\"slide\">\n<p>b</p>\n</div>\n\n<div class=\"progress\"></div>\n<script>\njs()\n</script>\n</body>\n</html>"
    );
}

#[test]
fn html_page_first_piece_blank_marks_no_slide_active() {
    let slides = vec![None, Some("<p>x</p>\n".to_string())];
    let html = html_page("T", &slides, "");
    assert!(html.contains("<div class=\"slide\">\n<p>x</p>\n</div>\n"));
    assert!(!html.contains("active"));
}
