use terminal_slide::cli::{detect_format, format_for_extension, FormatError, PresentationFormat};

#[test]
fn test_format_detection() {
    assert_eq!(
        detect_format("slides.md").unwrap(),
        PresentationFormat::Markdown
    );
    assert_eq!(
        detect_format("presentation.html").unwrap(),
        PresentationFormat::Html
    );
    assert_eq!(
        detect_format("slides.htm").unwrap(),
        PresentationFormat::Html
    );
}

#[test]
fn test_format_detection_case_insensitive() {
    assert_eq!(
        detect_format("slides.MD").unwrap(),
        PresentationFormat::Markdown
    );
    assert_eq!(
        detect_format("slides.HTML").unwrap(),
        PresentationFormat::Html
    );
    assert_eq!(
        detect_format("slides.Htm").unwrap(),
        PresentationFormat::Html
    );
}

#[test]
fn test_format_detection_with_path() {
    assert_eq!(
        detect_format("/path/to/slides.md").unwrap(),
        PresentationFormat::Markdown
    );
    assert_eq!(
        detect_format("./relative/path/slides.html").unwrap(),
        PresentationFormat::Html
    );
}

#[test]
fn test_invalid_extension() {
    let result = detect_format("presentation.pptx");
    assert!(result.is_err());
    let err = result.unwrap_err().to_string();
    assert!(err.contains("Unsupported file format: .pptx"));
    assert!(err.contains("Supported formats"));

    let result = detect_format("document.pdf");
    assert!(result.is_err());
    let err = result.unwrap_err().to_string();
    assert!(err.contains("Unsupported file format: .pdf"));

    let result = detect_format("image.png");
    assert!(result.is_err());

    let result = detect_format("slides.txt");
    assert!(result.is_err());
}

#[test]
fn test_no_extension() {
    let result = detect_format("README");
    assert!(result.is_err());
    let err = result.unwrap_err().to_string();
    assert!(err.contains("no extension"));
}

// --- further cases ---

#[test]
fn unsupported_extension_is_reported_lowercased() {
    assert_eq!(
        detect_format("talk.PPTX"),
        Err(FormatError::Unsupported("pptx".to_string()))
    );
    assert_eq!(
        detect_format("talk.PPTX").unwrap_err().to_string(),
        "Unsupported file format: .pptx\nSupported formats: .md, .html, .htm"
    );
}

#[test]
fn no_extension_message_is_exact() {
    assert_eq!(
        FormatError::NoExtension.to_string(),
        "File has no extension.\nSupported formats: .md, .html, .htm"
    );
}

#[test]
fn hidden_files_and_dots_have_no_extension() {
    assert_eq!(detect_format(".md"), Err(FormatError::NoExtension));
    assert_eq!(detect_format("dir/.."), Err(FormatError::NoExtension));
    assert_eq!(detect_format("/"), Err(FormatError::NoExtension));
    assert_eq!(detect_format(""), Err(FormatError::NoExtension));
}

#[test]
fn extension_comes_from_the_last_component() {
    assert_eq!(detect_format("a.md/"), Ok(PresentationFormat::Markdown));
    assert_eq!(detect_format("a.md/."), Ok(PresentationFormat::Markdown));
    assert_eq!(detect_format("notes.md.html"), Ok(PresentationFormat::Html));
    assert_eq!(
        detect_format("dir.md/notes"),
        Err(FormatError::NoExtension)
    );
    assert_eq!(
        detect_format("trailing."),
        Err(FormatError::Unsupported(String::new()))
    );
}

#[test]
fn unicode_extension_is_lowercased_by_unicode_rules() {
    assert_eq!(
        detect_format("slides.ÄB"),
        Err(FormatError::Unsupported("äb".to_string()))
    );
}

#[test]
fn format_for_lowercased_extensions() {
    assert_eq!(format_for_extension(Some("md")), Ok(PresentationFormat::Markdown));
    assert_eq!(format_for_extension(Some("htm")), Ok(PresentationFormat::Html));
    assert_eq!(format_for_extension(Some("html")), Ok(PresentationFormat::Html));
    assert_eq!(
        format_for_extension(Some("MD")),
        Err(FormatError::Unsupported("MD".to_string()))
    );
    assert_eq!(format_for_extension(None), Err(FormatError::NoExtension));
}
