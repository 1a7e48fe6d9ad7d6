//! Command-line options and the detection of the presentation format from the
//! file extension.

use vstd::prelude::*;
use vstd::string::StringExecFns;
use vstd::utf8::is_ascii_chars;
use crate::paths::{extension_of, path_extension};
use crate::text::string_from_chars;

verus! {

/// Export format for slide presentations.
#[derive(Debug, Clone, Copy, PartialEq, Eq, Structural)]
pub enum ExportFormat {
    Pdf,
    Pptx,
    Md,
    Html,
}

/// Terminal-based slide presentation tool supporting Markdown and HTML.
///
/// Renders .md files as interactive TUI presentations in the terminal.
/// Serves .html files via a local HTTP server and opens them in the browser.
#[derive(Debug, Clone)]
pub struct Cli {
    /// Path to the presentation file (.md, .html, or .htm)
    pub file: String,
    /// Port for the local HTTP server (used for HTML presentations)
    pub port: u16,
    /// Export to a file instead of presenting (pdf, pptx, md)
    pub export: Option<ExportFormat>,
    /// Output file path for export (defaults to input filename with new extension)
    pub output: Option<String>,
}

/// The port that the HTML server asks for when none is given.
pub const DEFAULT_PORT: u16 = 8234;

/// The detected presentation format based on file extension.
#[derive(Debug, Clone, Copy, PartialEq, Eq, Structural)]
pub enum PresentationFormat {
    Markdown,
    Html,
}

/// Why a file's format could not be detected.
#[derive(Debug, Clone, PartialEq, Eq)]
pub enum FormatError {
    /// The extension (lowercased) is not one of `md`, `html`, `htm`.
    Unsupported(String),
    /// The file name has no extension.
    NoExtension,
}

/// The lowercase form of `s`, as `str::to_lowercase` computes it (Unicode
/// lowercase mapping, with context-dependent rules such as the final sigma).
pub uninterp spec fn lowercase(s: Seq<char>) -> Seq<char>;

/// ASCII lowercasing of one character.
pub open spec fn ascii_lower(c: char) -> char {
    if 'A' <= c <= 'Z' {
        ((c as u32) + 32) as char
    } else {
        c
    }
}

/// ASCII lowercasing, character by character.
pub open spec fn ascii_lowercase(s: Seq<char>) -> Seq<char> {
    Seq::new(s.len(), |i: int| ascii_lower(s[i]))
}

/// `str::to_lowercase`. Its result is `lowercase(s)`; for ASCII text this is
/// plain ASCII lowercasing (ASCII letters have ASCII lowercase mappings).
#[verifier::external_body]
pub(crate) fn to_lowercase(s: &str) -> (r: String)
    ensures
        r@ == lowercase(s@),
        is_ascii_chars(s@) ==> r@ == ascii_lowercase(s@),
{
    s.to_lowercase()
}

/// The extension `md`.
pub open spec fn ext_md() -> Seq<char> {
    seq!['m', 'd']
}

/// The extension `html`.
pub open spec fn ext_html() -> Seq<char> {
    seq!['h', 't', 'm', 'l']
}

/// The extension `htm`.
pub open spec fn ext_htm() -> Seq<char> {
    seq!['h', 't', 'm']
}

/// What a format detection gives for an already lowercased extension.
pub enum DetectionView {
    Format(PresentationFormat),
    Unsupported(Seq<char>),
    NoExtension,
}

/// The format for an already lowercased extension (none when the file name has none).
pub open spec fn format_for(ext: Option<Seq<char>>) -> DetectionView {
    match ext {
        Some(e) => if e == ext_md() {
            DetectionView::Format(PresentationFormat::Markdown)
        } else if e == ext_html() || e == ext_htm() {
            DetectionView::Format(PresentationFormat::Html)
        } else {
            DetectionView::Unsupported(e)
        },
        None => DetectionView::NoExtension,
    }
}

/// The lowercased extension of the path, if it has one.
pub open spec fn lowered_extension(path: Seq<char>) -> Option<Seq<char>> {
    match path_extension(path) {
        Some(e) => Some(lowercase(e)),
        None => None,
    }
}

/// What `detect_format` gives for a path.
pub open spec fn detect_format_spec(path: Seq<char>) -> DetectionView {
    format_for(lowered_extension(path))
}

/// Extensions `md` give Markdown, `html` and `htm` give HTML, any other
/// extension is unsupported (and named in the error), and a file without one
/// has no extension.
pub proof fn law_format_for_extension(ext: Option<Seq<char>>)
    ensures
        format_for(ext) == DetectionView::Format(PresentationFormat::Markdown) <==> ext == Some(
            seq!['m', 'd'],
        ),
        format_for(ext) == DetectionView::Format(PresentationFormat::Html) <==> (ext == Some(
            seq!['h', 't', 'm', 'l'],
        ) || ext == Some(seq!['h', 't', 'm'])),
        format_for(ext) is NoExtension <==> ext is None,
        format_for(ext) matches DetectionView::Unsupported(e) ==> ext == Some(e),
{
}

/// What a detection result denotes.
pub open spec fn detection_view(r: Result<PresentationFormat, FormatError>) -> DetectionView {
    match r {
        Ok(f) => DetectionView::Format(f),
        Err(FormatError::Unsupported(e)) => DetectionView::Unsupported(e@),
        Err(FormatError::NoExtension) => DetectionView::NoExtension,
    }
}

fn str_equals(s: &str, t: &[char]) -> (b: bool)
    ensures
        b == (s@ == t@),
{
    let chars = crate::text::chars_of(s);
    crate::text::chars_equal(&chars, t)
}

/// The format for an already lowercased file extension (`None` when the file
/// name has none): `md` is Markdown, `html` and `htm` are HTML.
pub fn format_for_extension(ext: Option<&str>) -> (r: Result<PresentationFormat, FormatError>)
    ensures
        detection_view(r) == format_for(
            match ext {
                Some(e) => Some(e@),
                None => None,
            },
        ),
{
    let md = vec!['m', 'd'];
    let html = vec!['h', 't', 'm', 'l'];
    let htm = vec!['h', 't', 'm'];
    assert(md@ == ext_md());
    assert(html@ == ext_html());
    assert(htm@ == ext_htm());
    match ext {
        Some(e) => {
            if str_equals(e, &md) {
                Ok(PresentationFormat::Markdown)
            } else if str_equals(e, &html) || str_equals(e, &htm) {
                Ok(PresentationFormat::Html)
            } else {
                Err(FormatError::Unsupported(e.to_owned()))
            }
        },
        None => Err(FormatError::NoExtension),
    }
}

/// Detects the presentation format from the file extension.
///
/// Returns `Ok(PresentationFormat)` for supported extensions (.md, .html, .htm),
/// or an error for unsupported extensions.
pub fn detect_format(path: &str) -> (r: Result<PresentationFormat, FormatError>)
    ensures
        detection_view(r) == detect_format_spec(path@),
        path_extension(path@) matches Some(e) ==> (is_ascii_chars(e) ==> detection_view(r)
            == format_for(Some(ascii_lowercase(e)))),
{
    let chars = crate::text::chars_of(path);
    match extension_of(&chars) {
        Some(ext) => {
            assert(ext.deep_view() =~= ext@);
            let ext_str = string_from_chars(&ext);
            let lowered = to_lowercase(ext_str.as_str());
            format_for_extension(Some(lowered.as_str()))
        },
        None => format_for_extension(None),
    }
}

/// The message of an unsupported extension `ext`.
pub open spec fn unsupported_message(ext: Seq<char>) -> Seq<char> {
    "Unsupported file format: ."@ + ext + "\nSupported formats: .md, .html, .htm"@
}

/// The message of a file name without extension.
pub open spec fn no_extension_message() -> Seq<char> {
    "File has no extension.\nSupported formats: .md, .html, .htm"@
}

impl FormatError {
    /// The error message shown to the user.
    pub fn to_string(&self) -> (s: String)
        ensures
            s@ == match self {
                FormatError::Unsupported(ext) => unsupported_message(ext@),
                FormatError::NoExtension => no_extension_message(),
            },
    {
        match self {
            FormatError::Unsupported(ext) => {
                let mut s = String::from_str("Unsupported file format: .");
                s.append(ext.as_str());
                s.append("\nSupported formats: .md, .html, .htm");
                s
            },
            FormatError::NoExtension => String::from_str(
                "File has no extension.\nSupported formats: .md, .html, .htm",
            ),
        }
    }
}

} // verus!
