//! Exporting presentations: which conversion runs for which pair of formats,
//! where the output goes, and the text transformations that prepare the
//! input for the converters (pandoc input, print-ready HTML, and Markdown
//! rendered into a standalone HTML page).

use vstd::prelude::*;
use vstd::string::{StrSliceExecFns, StringExecFns};
use pulldown_cmark::{html::push_html, Options, Parser};
use crate::cli::{ExportFormat, PresentationFormat};
use crate::parser::{is_fence, separator};
use crate::paths::{
    dot, dot_dot, file_name_range, lemma_file_name_is_last_segment, lemma_last_index_of,
    lemma_pushed_name_is_last_segment, path_stem, replace_file_name, same_components, same_path,
    stem_of, trim_tail, with_file_name,
};
use crate::text::{
    chars_equal, chars_of, copy_range, ends_with_chars, extend_chars, has_prefix, has_suffix,
    lines, push_chars, split_lines, starts_with_chars, string_from_chars, trim, trim_bounds,
    trim_chars,
};

verus! {

// ---------------------------------------------------------------------------
// Which conversion to run
// ---------------------------------------------------------------------------

/// Why an export was refused.
#[derive(Debug, Clone, Copy, PartialEq, Eq, Structural)]
pub enum ExportError {
    /// Markdown input exported to Markdown.
    AlreadyMarkdown,
    /// HTML input exported to HTML.
    AlreadyHtml,
}

impl ExportError {
    /// The error message shown to the user.
    pub fn to_string(&self) -> (s: String)
        ensures
            s@ == match self {
                ExportError::AlreadyMarkdown => "Input is already Markdown. No conversion needed."@,
                ExportError::AlreadyHtml => "Input is already HTML. No conversion needed."@,
            },
    {
        match self {
            ExportError::AlreadyMarkdown => String::from_str(
                "Input is already Markdown. No conversion needed.",
            ),
            ExportError::AlreadyHtml => String::from_str("Input is already HTML. No conversion needed."),
        }
    }
}

/// The conversion that an export runs.
#[derive(Debug, Clone, Copy, PartialEq, Eq, Structural)]
pub enum ExportJob {
    /// Markdown to PDF with pandoc's beamer writer.
    MarkdownToPdf,
    /// Markdown to PowerPoint with pandoc.
    MarkdownToPptx,
    /// Markdown to a standalone HTML page built from the starter template.
    MarkdownToHtml,
    /// HTML to PDF by printing a print-ready copy in headless Chrome.
    HtmlToPdf,
    /// HTML to Markdown with pandoc.
    HtmlToMarkdown,
    /// HTML to Markdown and then to PowerPoint, both with pandoc.
    HtmlToPptx,
}

/// The conversion for an input format and an export format; exporting a
/// format to itself is refused.
pub open spec fn export_plan(input: PresentationFormat, export: ExportFormat) -> Result<ExportJob, ExportError> {
    match (input, export) {
        (PresentationFormat::Markdown, ExportFormat::Md) => Err(ExportError::AlreadyMarkdown),
        (PresentationFormat::Html, ExportFormat::Html) => Err(ExportError::AlreadyHtml),
        (PresentationFormat::Markdown, ExportFormat::Pdf) => Ok(ExportJob::MarkdownToPdf),
        (PresentationFormat::Markdown, ExportFormat::Pptx) => Ok(ExportJob::MarkdownToPptx),
        (PresentationFormat::Markdown, ExportFormat::Html) => Ok(ExportJob::MarkdownToHtml),
        (PresentationFormat::Html, ExportFormat::Pdf) => Ok(ExportJob::HtmlToPdf),
        (PresentationFormat::Html, ExportFormat::Md) => Ok(ExportJob::HtmlToMarkdown),
        (PresentationFormat::Html, ExportFormat::Pptx) => Ok(ExportJob::HtmlToPptx),
    }
}

/// The export format is the input's own format.
pub open spec fn is_same_format(input: PresentationFormat, export: ExportFormat) -> bool {
    ||| input == PresentationFormat::Markdown && export == ExportFormat::Md
    ||| input == PresentationFormat::Html && export == ExportFormat::Html
}

/// Chooses the conversion for an input format and an export format; exporting
/// a format to itself is refused.
pub fn plan_export(input: PresentationFormat, export: ExportFormat) -> (r: Result<ExportJob, ExportError>)
    ensures
        r == export_plan(input, export),
{
    match (input, export) {
        (PresentationFormat::Markdown, ExportFormat::Md) => Err(ExportError::AlreadyMarkdown),
        (PresentationFormat::Html, ExportFormat::Html) => Err(ExportError::AlreadyHtml),
        (PresentationFormat::Markdown, ExportFormat::Pdf) => Ok(ExportJob::MarkdownToPdf),
        (PresentationFormat::Markdown, ExportFormat::Pptx) => Ok(ExportJob::MarkdownToPptx),
        (PresentationFormat::Markdown, ExportFormat::Html) => Ok(ExportJob::MarkdownToHtml),
        (PresentationFormat::Html, ExportFormat::Pdf) => Ok(ExportJob::HtmlToPdf),
        (PresentationFormat::Html, ExportFormat::Md) => Ok(ExportJob::HtmlToMarkdown),
        (PresentationFormat::Html, ExportFormat::Pptx) => Ok(ExportJob::HtmlToPptx),
    }
}

/// An export is refused exactly when it asks for the input's own format; every
/// export to another format has a conversion.
pub proof fn law_export_refused_only_to_same_format(input: PresentationFormat, export: ExportFormat)
    ensures
        export_plan(input, export) is Err <==> is_same_format(input, export),
{
}

/// Every conversion reads the format it is planned for and writes the format
/// asked for: Markdown to PDF, PowerPoint or HTML, HTML to PDF, Markdown or
/// PowerPoint.
pub proof fn law_export_job_converts_between_the_formats(input: PresentationFormat, export: ExportFormat)
    ensures
        export_plan(input, export) matches Ok(job) ==> {
            &&& (job == ExportJob::MarkdownToPdf || job == ExportJob::MarkdownToPptx || job
                == ExportJob::MarkdownToHtml) == (input == PresentationFormat::Markdown)
            &&& (job == ExportJob::MarkdownToPdf || job == ExportJob::HtmlToPdf) == (export
                == ExportFormat::Pdf)
            &&& (job == ExportJob::MarkdownToPptx || job == ExportJob::HtmlToPptx) == (export
                == ExportFormat::Pptx)
            &&& (job == ExportJob::HtmlToMarkdown) == (export == ExportFormat::Md)
            &&& (job == ExportJob::MarkdownToHtml) == (export == ExportFormat::Html)
        },
        export_plan(input, export) == Err::<ExportJob, ExportError>(ExportError::AlreadyMarkdown) <==> (
        input == PresentationFormat::Markdown && export == ExportFormat::Md),
        export_plan(input, export) == Err::<ExportJob, ExportError>(ExportError::AlreadyHtml) <==> (input
            == PresentationFormat::Html && export == ExportFormat::Html),
{
}

// ---------------------------------------------------------------------------
// Where the output goes
// ---------------------------------------------------------------------------

/// The file extension for an export format.
pub open spec fn format_extension(format: ExportFormat) -> Seq<char> {
    match format {
        ExportFormat::Pdf => seq!['p', 'd', 'f'],
        ExportFormat::Pptx => seq!['p', 'p', 't', 'x'],
        ExportFormat::Md => seq!['m', 'd'],
        ExportFormat::Html => seq!['h', 't', 'm', 'l'],
    }
}

fn extension_chars(format: ExportFormat) -> (e: Vec<char>)
    ensures
        e@ == format_extension(format),
{
    let e = match format {
        ExportFormat::Pdf => vec!['p', 'd', 'f'],
        ExportFormat::Pptx => vec!['p', 'p', 't', 'x'],
        ExportFormat::Md => vec!['m', 'd'],
        ExportFormat::Html => vec!['h', 't', 'm', 'l'],
    };
    assert(e@ =~= format_extension(format));
    e
}

/// The stem of the input path, or nothing when it has no file name.
pub open spec fn stem_or_empty(input: Seq<char>) -> Seq<char> {
    match path_stem(input) {
        Some(s) => s,
        None => Seq::empty(),
    }
}

/// The natural output path: the input's stem with the format's extension,
/// next to the input.
pub open spec fn output_candidate_spec(input: Seq<char>, format: ExportFormat) -> Seq<char> {
    with_file_name(input, stem_or_empty(input) + seq!['.'] + format_extension(format))
}

/// The output path used when the natural one is taken: `<stem>_export.<ext>`.
pub open spec fn output_fallback_spec(input: Seq<char>, format: ExportFormat) -> Seq<char> {
    with_file_name(
        input,
        stem_or_empty(input) + seq!['_', 'e', 'x', 'p', 'o', 'r', 't', '.'] + format_extension(
            format,
        ),
    )
}

/// The default output path: the natural one, unless it is the input itself or
/// an existing file, in which case the `_export` variant.
pub open spec fn default_output_spec(
    input: Seq<char>,
    format: ExportFormat,
    candidate_exists: bool,
) -> Seq<char> {
    let candidate = output_candidate_spec(input, format);
    if same_components(candidate, input) || candidate_exists {
        output_fallback_spec(input, format)
    } else {
        candidate
    }
}

/// The default output path never names the input file itself: where the
/// natural path would, the `_export` variant is taken, and that one never does.
pub proof fn law_default_output_is_not_the_input(
    input: Seq<char>,
    format: ExportFormat,
    candidate_exists: bool,
)
    ensures
        !same_components(default_output_spec(input, format, candidate_exists), input),
{
    let candidate = output_candidate_spec(input, format);
    if same_components(candidate, input) || candidate_exists {
        let stem = stem_or_empty(input);
        let suffix = seq!['_', 'e', 'x', 'p', 'o', 'r', 't', '.'] + format_extension(format);
        let name = stem + suffix;
        let base = match file_name_range(input) {
            Some((s, _)) => trim_tail(input.subrange(0, s)),
            None => input,
        };
        let out = output_fallback_spec(input, format);
        assert(out == crate::paths::push_component(base, name));
        lemma_file_name_is_last_segment(input, input.len() as int);
        assert(forall|k: int| 0 <= k < suffix.len() ==> suffix[k] != '/');
        match file_name_range(input) {
            Some((s, t)) => {
                let fname = input.subrange(s, t);
                let d = crate::paths::last_index_of(fname, '.', fname.len() as int);
                lemma_last_index_of(fname, '.', fname.len() as int);
                assert(forall|k: int| 0 <= k < stem.len() ==> stem[k] == fname[k]);
                assert(forall|k: int| 0 <= k < name.len() ==> name[k] != '/') by {
                    assert(forall|k: int| 0 <= k < stem.len() ==> name[k] == stem[k]);
                    assert(forall|k: int| stem.len() <= k < name.len() ==> name[k] == suffix[k - stem.len()]);
                }
                assert(name.len() > 1);
                assert(name != dot());
                lemma_pushed_name_is_last_segment(base, name);
                if d > 0 {
                    assert(name[d] == '_');
                    assert(fname[d] == '.');
                }
                assert(name != fname);
            },
            None => {
                assert(stem =~= Seq::<char>::empty());
                assert(name =~= suffix);
                assert(name.len() > 2);
                assert(name != dot());
                assert(name != dot_dot());
                lemma_pushed_name_is_last_segment(base, name);
            },
        }
    }
}

fn stem_chars(input: &[char]) -> (s: Vec<char>)
    ensures
        s@ == stem_or_empty(input@),
{
    match stem_of(input) {
        Some(s) => {
            assert(s.deep_view() =~= s@);
            s
        },
        None => Vec::new(),
    }
}

/// The natural output path for exporting `input` to `format`.
pub fn output_candidate(input: &str, format: ExportFormat) -> (p: String)
    ensures
        p@ == output_candidate_spec(input@, format),
{
    let chars = chars_of(input);
    let mut name = stem_chars(&chars);
    name.push('.');
    extend_chars(&mut name, &extension_chars(format));
    string_from_chars(&replace_file_name(&chars, &name))
}

/// The output path for exporting `input` to `format` when the natural one is taken.
pub fn output_fallback(input: &str, format: ExportFormat) -> (p: String)
    ensures
        p@ == output_fallback_spec(input@, format),
{
    let chars = chars_of(input);
    let mut name = stem_chars(&chars);
    let suffix = vec!['_', 'e', 'x', 'p', 'o', 'r', 't', '.'];
    extend_chars(&mut name, &suffix);
    extend_chars(&mut name, &extension_chars(format));
    assert(name@ =~= stem_or_empty(input@) + seq!['_', 'e', 'x', 'p', 'o', 'r', 't', '.']
        + format_extension(format));
    string_from_chars(&replace_file_name(&chars, &name))
}

/// The default output path for exporting `input` to `format`, given whether a
/// file already exists at the natural output path: that path, unless it is the
/// input itself or already exists, in which case `<stem>_export.<ext>`.
pub fn default_output_path(input: &str, format: ExportFormat, candidate_exists: bool) -> (p: String)
    ensures
        p@ == default_output_spec(input@, format, candidate_exists),
        !same_components(p@, input@),
{
    proof {
        law_default_output_is_not_the_input(input@, format, candidate_exists);
    }
    let candidate = output_candidate(input, format);
    let same = same_path(&chars_of(candidate.as_str()), &chars_of(input));
    if same || candidate_exists {
        output_fallback(input, format)
    } else {
        candidate
    }
}

/// A scratch file next to the input: the input's stem followed by `suffix`.
pub open spec fn temp_path_spec(input: Seq<char>, suffix: Seq<char>) -> Seq<char> {
    with_file_name(input, stem_or_empty(input) + suffix)
}

/// A scratch file next to the input: the input's stem followed by `suffix`.
pub fn temp_path(input: &str, suffix: &str) -> (p: String)
    ensures
        p@ == temp_path_spec(input@, suffix@),
{
    let chars = chars_of(input);
    let mut name = stem_chars(&chars);
    extend_chars(&mut name, &chars_of(suffix));
    string_from_chars(&replace_file_name(&chars, &name))
}

// ---------------------------------------------------------------------------
// Substring search
// ---------------------------------------------------------------------------

/// `pat` occurs in `s` at index `k`.
pub open spec fn occurs_at(s: Seq<char>, pat: Seq<char>, k: int) -> bool {
    0 <= k && k + pat.len() <= s.len() && s.subrange(k, k + pat.len()) == pat
}

/// The first index `k >= i` at which `pat` occurs in `s` (`str::find`).
pub open spec fn find_from(s: Seq<char>, pat: Seq<char>, i: int) -> Option<int>
    decreases s.len() + 1 - i,
{
    if i < 0 || i + pat.len() > s.len() {
        None
    } else if occurs_at(s, pat, i) {
        Some(i)
    } else {
        find_from(s, pat, i + 1)
    }
}

/// The first index at or after `from` at which `pat` occurs in `s`.
pub fn find_chars(s: &[char], pat: &[char], from: usize) -> (r: Option<usize>)
    requires
        from <= s@.len(),
    ensures
        r matches Some(k) ==> find_from(s@, pat@, from as int) == Some(k as int) && from <= k
            && k + pat@.len() <= s@.len(),
        r is None ==> find_from(s@, pat@, from as int) is None,
{
    let mut k = from;
    while k <= s.len() && pat.len() <= s.len() - k
        invariant
            from <= k,
            find_from(s@, pat@, from as int) == find_from(s@, pat@, k as int),
        decreases s.len() + 1 - k,
    {
        let window = copy_range(s, k, k + pat.len());
        if chars_equal(&window, pat) {
            return Some(k);
        }
        if pat.len() == 0 {
            assert(window@ =~= pat@);
        }
        k = k + 1;
    }
    None
}

/// The text between the first `start` and the next `end` after it.
pub open spec fn between_spec(source: Seq<char>, start: Seq<char>, end: Seq<char>) -> Option<Seq<char>> {
    match find_from(source, start, 0) {
        Some(a) => {
            let sp = a + start.len();
            match find_from(source.subrange(sp, source.len() as int), end, 0) {
                Some(b) => Some(source.subrange(sp, sp + b)),
                None => None,
            }
        },
        None => None,
    }
}

proof fn lemma_find_from_shift(s: Seq<char>, pat: Seq<char>, sp: int, i: int)
    requires
        0 <= sp <= s.len(),
        0 <= i,
    ensures
        find_from(s.subrange(sp, s.len() as int), pat, i) == (match find_from(s, pat, sp + i) {
            Some(k) => Some(k - sp),
            None => None,
        }),
    decreases s.len() + 1 - (sp + i),
{
    let t = s.subrange(sp, s.len() as int);
    if i + pat.len() <= t.len() {
        assert(t.subrange(i, i + pat.len()) =~= s.subrange(sp + i, sp + i + pat.len()));
        if !occurs_at(t, pat, i) {
            lemma_find_from_shift(s, pat, sp, i + 1);
        }
    }
}

/// `find_from` finds the first occurrence of the pattern at or after `i`
/// (`str::find`), and none when there is none.
pub proof fn law_find_is_first_occurrence(s: Seq<char>, pat: Seq<char>, i: int)
    requires
        0 <= i,
    ensures
        find_from(s, pat, i) matches Some(k) ==> {
            &&& i <= k
            &&& occurs_at(s, pat, k)
            &&& forall|j: int| i <= j < k ==> !#[trigger] occurs_at(s, pat, j)
        },
        find_from(s, pat, i) is None ==> forall|j: int| i <= j ==> !#[trigger] occurs_at(s, pat, j),
    decreases s.len() + 1 - i,
{
    if i + pat.len() > s.len() {
    } else if !occurs_at(s, pat, i) {
        law_find_is_first_occurrence(s, pat, i + 1);
        assert forall|j: int| i <= j && (find_from(s, pat, i) is None || j < find_from(s, pat, i)->0) implies !#[trigger] occurs_at(s, pat, j) by {
            if j > i {
            }
        }
    }
}

/// The text between two markers: right after the first occurrence of `start`
/// up to the first occurrence of `end` after it; none when either is missing.
pub proof fn law_between_markers(source: Seq<char>, start: Seq<char>, end: Seq<char>)
    ensures
        between_spec(source, start, end) matches Some(x) ==> exists|a: int|
            {
                &&& #[trigger] occurs_at(source, start, a)
                &&& forall|j: int| 0 <= j < a ==> !#[trigger] occurs_at(source, start, j)
                &&& a + start.len() + x.len() <= source.len()
                &&& x == source.subrange(a + start.len(), a + start.len() + x.len())
                &&& occurs_at(source, end, a + start.len() + x.len())
                &&& forall|j: int|
                    a + start.len() <= j < a + start.len() + x.len() ==> !#[trigger] occurs_at(
                        source,
                        end,
                        j,
                    )
            },
        (forall|a: int| 0 <= a ==> !#[trigger] occurs_at(source, start, a)) ==> between_spec(
            source,
            start,
            end,
        ) is None,
{
    law_find_is_first_occurrence(source, start, 0);
    if let Some(a) = find_from(source, start, 0) {
        let sp = a + start.len();
        let rest = source.subrange(sp, source.len() as int);
        law_find_is_first_occurrence(rest, end, 0);
        if let Some(b) = find_from(rest, end, 0) {
            let x = source.subrange(sp, sp + b);
            assert(x.len() == b);
            assert(rest.subrange(b, b + end.len()) =~= source.subrange(sp + b, sp + b + end.len()));
            assert forall|j: int| sp <= j < sp + b implies !#[trigger] occurs_at(source, end, j) by {
                assert(!occurs_at(rest, end, j - sp));
                if j + end.len() <= source.len() {
                    assert(rest.subrange(j - sp, j - sp + end.len()) =~= source.subrange(j, j + end.len()));
                }
            }
            assert(occurs_at(source, start, a));
        }
    }
}

/// Extracts text between two markers (exclusive of markers).
pub fn extract_between<'a>(source: &'a str, start: &str, end: &str) -> (r: Option<&'a str>)
    ensures
        r matches Some(t) ==> between_spec(source@, start@, end@) == Some(t@),
        r is None ==> between_spec(source@, start@, end@) is None,
{
    let s = chars_of(source);
    let st = chars_of(start);
    let en = chars_of(end);
    let a = match find_chars(&s, &st, 0) {
        Some(a) => a,
        None => {
            return None;
        },
    };
    assert(a + st@.len() <= s@.len());
    assert(s@.len() == s.len() && st@.len() == st.len());
    let sp = a + st.len();
    proof {
        lemma_find_from_shift(s@, en@, sp as int, 0);
    }
    let b = match find_chars(&s, &en, sp) {
        Some(b) => b,
        None => {
            return None;
        },
    };
    Some(source.substring_char(sp, b))
}

// ---------------------------------------------------------------------------
// Title of a Markdown document
// ---------------------------------------------------------------------------

/// The marker `# ` of a level-1 heading line.
pub open spec fn h1_marker() -> Seq<char> {
    seq!['#', ' ']
}

/// The first line that starts with `# `.
pub open spec fn first_h1_line(ls: Seq<Seq<char>>) -> Option<Seq<char>>
    decreases ls.len(),
{
    if ls.len() == 0 {
        None
    } else if has_prefix(ls[0], h1_marker()) {
        Some(ls[0])
    } else {
        first_h1_line(ls.drop_first())
    }
}

/// `s` without its leading `# ` markers (`trim_start_matches("# ")`).
pub open spec fn strip_h1_markers(s: Seq<char>) -> Seq<char>
    decreases s.len(),
{
    if s.len() >= 2 && has_prefix(s, h1_marker()) {
        strip_h1_markers(s.subrange(2, s.len() as int))
    } else {
        s
    }
}

/// The title of a Markdown document for export: the first `# ` line without
/// its markers and surrounding whitespace, or `Presentation`.
pub open spec fn document_title(content: Seq<char>) -> Seq<char> {
    match first_h1_line(lines(content)) {
        Some(l) => trim(strip_h1_markers(l)),
        None => "Presentation"@,
    }
}

proof fn lemma_first_h1_line(ls: Seq<Seq<char>>)
    ensures
        forall|k: int|
            0 <= k < ls.len() && has_prefix(ls[k], h1_marker()) && (forall|j: int|
                0 <= j < k ==> !has_prefix(#[trigger] ls[j], h1_marker())) ==> first_h1_line(ls)
                == Some(#[trigger] ls[k]),
        (forall|k: int| 0 <= k < ls.len() ==> !has_prefix(#[trigger] ls[k], h1_marker()))
            ==> first_h1_line(ls) is None,
    decreases ls.len(),
{
    if ls.len() > 0 {
        let rest = ls.drop_first();
        lemma_first_h1_line(rest);
        assert forall|k: int|
            0 <= k < ls.len() && has_prefix(ls[k], h1_marker()) && (forall|j: int|
                0 <= j < k ==> !has_prefix(#[trigger] ls[j], h1_marker())) implies first_h1_line(ls)
                == Some(#[trigger] ls[k]) by {
            if k > 0 {
                assert(!has_prefix(ls[0], h1_marker()));
                assert(rest[k - 1] == ls[k]);
                assert forall|j: int| 0 <= j < k - 1 implies !has_prefix(#[trigger] rest[j], h1_marker()) by {
                    assert(rest[j] == ls[j + 1]);
                }
            }
        }
        if forall|k: int| 0 <= k < ls.len() ==> !has_prefix(#[trigger] ls[k], h1_marker()) {
            assert(!has_prefix(ls[0], h1_marker()));
            assert forall|k: int| 0 <= k < rest.len() implies !has_prefix(#[trigger] rest[k], h1_marker()) by {
                assert(rest[k] == ls[k + 1]);
            }
        }
    }
}

/// The title of a document comes from its first line that starts with `# `:
/// that line without its markers and surrounding whitespace; a document with
/// no such line is titled `Presentation`.
pub proof fn law_title_from_first_h1_line(content: Seq<char>)
    ensures
        forall|k: int|
            0 <= k < lines(content).len() && has_prefix(lines(content)[k], h1_marker()) && (forall|j: int|
                0 <= j < k ==> !has_prefix(#[trigger] lines(content)[j], h1_marker()))
                ==> document_title(content) == trim(strip_h1_markers(#[trigger] lines(content)[k])),
        (forall|k: int| 0 <= k < lines(content).len() ==> !has_prefix(#[trigger] lines(content)[k], h1_marker()))
            ==> document_title(content) == "Presentation"@,
{
    lemma_first_h1_line(lines(content));
}

/// The title of a Markdown document for export.
pub fn markdown_title(ls: &Vec<Vec<char>>) -> (t: Vec<char>)
    ensures
        t@ == match first_h1_line(ls.deep_view()) {
            Some(l) => trim(strip_h1_markers(l)),
            None => "Presentation"@,
        },
{
    let marker = vec!['#', ' '];
    assert(marker@ == h1_marker());
    let ghost all = ls.deep_view();
    let mut i: usize = 0;
    assert(all.skip(0) =~= all);
    while i < ls.len()
        invariant
            i <= ls@.len(),
            all == ls.deep_view(),
            marker@ == h1_marker(),
            first_h1_line(all) == first_h1_line(all.skip(i as int)),
        decreases ls.len() - i,
    {
        assert(all.skip(i as int)[0] == ls@[i as int]@) by {
            assert(ls@[i as int].deep_view() =~= ls@[i as int]@);
        }
        if starts_with_chars(&ls[i], &marker) {
            let line = &ls[i];
            let mut a: usize = 0;
            assert(line@.subrange(0, line@.len() as int) =~= line@);
            while line.len() - a >= 2 && line[a] == '#' && line[a + 1] == ' '
                invariant
                    a <= line@.len(),
                    strip_h1_markers(line@) == strip_h1_markers(line@.subrange(a as int, line@.len() as int)),
                decreases line.len() - a,
            {
                let ghost rest = line@.subrange(a as int, line@.len() as int);
                assert(rest.subrange(0, 2) =~= h1_marker());
                assert(rest.subrange(2, rest.len() as int) =~= line@.subrange(a + 2, line@.len() as int));
                a = a + 2;
            }
            proof {
                let rest = line@.subrange(a as int, line@.len() as int);
                if rest.len() >= 2 && has_prefix(rest, h1_marker()) {
                    assert(rest[0] == '#' && rest[1] == ' ');
                }
            }
            let (x, y) = trim_bounds(line, a, line.len());
            return copy_range(line, x, y);
        }
        assert(all.skip(i as int).drop_first() =~= all.skip(i + 1));
        i = i + 1;
    }
    chars_of("Presentation")
}

// ---------------------------------------------------------------------------
// Pandoc input
// ---------------------------------------------------------------------------

/// The YAML front matter that gives pandoc the title.
pub open spec fn front_matter(title: Seq<char>) -> Seq<char> {
    "---\n"@ + "title: \""@ + title + "\"\n"@ + "---\n\n"@
}

/// The pandoc input after some lines, and whether a fenced code block is open.
pub struct PandocState {
    pub out: Seq<char>,
    pub in_code: bool,
}

/// One line into the pandoc input: `---` separators outside code blocks get a
/// blank line before and after them; other lines are copied.
pub open spec fn pandoc_step(st: PandocState, line: Seq<char>) -> PandocState {
    let t = trim(line);
    let in_code = if is_fence(t) {
        !st.in_code
    } else {
        st.in_code
    };
    if !in_code && t == separator() {
        let out = if has_suffix(st.out, seq!['\n', '\n']) {
            st.out
        } else {
            st.out.push('\n')
        };
        PandocState { out: out + "---\n\n"@, in_code }
    } else {
        PandocState { out: st.out + line.push('\n'), in_code }
    }
}

/// The pandoc input after the lines `ls`, starting from `start`.
pub open spec fn pandoc_run(start: Seq<char>, ls: Seq<Seq<char>>) -> PandocState
    decreases ls.len(),
{
    if ls.len() == 0 {
        PandocState { out: start, in_code: false }
    } else {
        pandoc_step(pandoc_run(start, ls.drop_last()), ls.last())
    }
}

/// The Markdown document prepared for pandoc: front matter with the title,
/// then the document with its slide separators set apart by blank lines.
pub open spec fn pandoc_input_spec(content: Seq<char>) -> Seq<char> {
    pandoc_run(front_matter(document_title(content)), lines(content)).out
}

/// Lines, each followed by a line break, joined.
pub open spec fn with_breaks(ls: Seq<Seq<char>>) -> Seq<char>
    decreases ls.len(),
{
    if ls.len() == 0 {
        Seq::empty()
    } else {
        with_breaks(ls.drop_last()) + ls.last().push('\n')
    }
}

proof fn lemma_pandoc_run_prefix(start: Seq<char>, ls: Seq<Seq<char>>)
    ensures
        pandoc_run(start, ls).out.len() >= start.len(),
        pandoc_run(start, ls).out.subrange(0, start.len() as int) == start,
        (forall|k: int| 0 <= k < ls.len() ==> trim(#[trigger] ls[k]) != separator())
            ==> pandoc_run(start, ls).out == start + with_breaks(ls),
    decreases ls.len(),
{
    if ls.len() > 0 {
        let init = ls.drop_last();
        lemma_pandoc_run_prefix(start, init);
        let prev = pandoc_run(start, init).out;
        let cur = pandoc_run(start, ls).out;
        assert(cur.subrange(0, prev.len() as int) == prev || cur.subrange(0, prev.len() as int + 1) == prev.push('\n'));
        assert(cur.len() >= prev.len());
        assert(cur.subrange(0, start.len() as int) =~= prev.subrange(0, start.len() as int));
        if forall|k: int| 0 <= k < ls.len() ==> trim(#[trigger] ls[k]) != separator() {
            assert(trim(ls[ls.len() - 1]) != separator());
            assert forall|k: int| 0 <= k < init.len() implies trim(#[trigger] init[k]) != separator() by {
                assert(init[k] == ls[k]);
            }
            assert(start + with_breaks(init) + ls.last().push('\n') =~= start + with_breaks(ls));
        }
    } else {
        assert(start.subrange(0, start.len() as int) =~= start);
        assert(start + with_breaks(ls) =~= start);
    }
}

/// The pandoc input opens with YAML front matter that carries the document's
/// title, and then copies the document; a document without `---` lines is
/// copied line by line, each line ending in a line break.
pub proof fn law_pandoc_input_front_matter(content: Seq<char>)
    ensures
        ({
            let head = "---\ntitle: \""@ + document_title(content) + "\"\n---\n\n"@;
            &&& pandoc_input_spec(content).len() >= head.len()
            &&& pandoc_input_spec(content).subrange(0, head.len() as int) == head
            &&& (forall|k: int| 0 <= k < lines(content).len() ==> trim(#[trigger] lines(content)[k]) != separator())
                ==> pandoc_input_spec(content) == head + with_breaks(lines(content))
        }),
{
    let head = "---\ntitle: \""@ + document_title(content) + "\"\n---\n\n"@;
    assert(front_matter(document_title(content)) =~= head) by {
        reveal_strlit("---\n");
        reveal_strlit("title: \"");
        reveal_strlit("\"\n");
        reveal_strlit("---\n\n");
        reveal_strlit("---\ntitle: \"");
        reveal_strlit("\"\n---\n\n");
    }
    lemma_pandoc_run_prefix(head, lines(content));
}

/// Prepares a Markdown document for pandoc: ensures `---` slide separators
/// have blank lines around them and adds a YAML header with the title.
pub fn preprocess_md_for_pandoc(content: &str) -> (out: String)
    ensures
        out@ == pandoc_input_spec(content@),
{
    let chars = chars_of(content);
    let ls = split_lines(&chars);
    let title = markdown_title(&ls);
    let mut output: Vec<char> = chars_of("---\n");
    extend_chars(&mut output, &chars_of("title: \""));
    extend_chars(&mut output, &title);
    extend_chars(&mut output, &chars_of("\"\n"));
    extend_chars(&mut output, &chars_of("---\n\n"));
    assert(output@ =~= front_matter(document_title(content@)));

    let backticks = vec!['`', '`', '`'];
    let tildes = vec!['~', '~', '~'];
    let dashes = vec!['-', '-', '-'];
    let blank_pair = vec!['\n', '\n'];
    let separator_block = chars_of("---\n\n");
    assert(backticks@ == seq!['`', '`', '`']);
    assert(tildes@ == seq!['~', '~', '~']);
    assert(dashes@ == separator());
    assert(blank_pair@ == seq!['\n', '\n']);
    let ghost start = output@;
    let mut in_code_block = false;
    let mut i: usize = 0;
    assert(ls.deep_view().take(0) =~= Seq::<Seq<char>>::empty());
    while i < ls.len()
        invariant
            i <= ls@.len(),
            ls.deep_view() == lines(content@),
            start == front_matter(document_title(content@)),
            backticks@ == seq!['`', '`', '`'],
            tildes@ == seq!['~', '~', '~'],
            dashes@ == separator(),
            blank_pair@ == seq!['\n', '\n'],
            separator_block@ == "---\n\n"@,
            pandoc_run(start, ls.deep_view().take(i as int)) == (PandocState {
                out: output@,
                in_code: in_code_block,
            }),
        decreases ls.len() - i,
    {
        let line = &ls[i];
        assert(ls.deep_view()[i as int] == line@) by {
            assert(line.deep_view() =~= line@);
        }
        assert(ls.deep_view().take(i + 1).drop_last() =~= ls.deep_view().take(i as int));
        let trimmed = trim_chars(line);
        if starts_with_chars(&trimmed, &backticks) || starts_with_chars(&trimmed, &tildes) {
            in_code_block = !in_code_block;
        }
        if !in_code_block && chars_equal(&trimmed, &dashes) {
            if !ends_with_chars(&output, &blank_pair) {
                output.push('\n');
            }
            extend_chars(&mut output, &separator_block);
        } else {
            let ghost before = output@;
            extend_chars(&mut output, line);
            output.push('\n');
            assert(output@ =~= before + line@.push('\n'));
        }
        i = i + 1;
    }
    assert(ls.deep_view().take(ls@.len() as int) =~= ls.deep_view());
    string_from_chars(&output)
}

// ---------------------------------------------------------------------------
// Print-ready HTML
// ---------------------------------------------------------------------------

/// The style sheet that shows every slide on a page of its own and hides the
/// navigation.
pub open spec fn print_css() -> Seq<char> {
    "<style>
/* Print overrides: show all slides, one per page */
.slide {
  display: flex !important;
  position: relative !important;
  page-break-after: always;
  break-after: page;
  height: 100vh;
  width: 100vw;
  overflow: hidden;
}
.slide:last-of-type { page-break-after: auto; }
/* Hide navigation UI */
.progress, .nav-hint, ._ts-toolbar, ._ts-jump, ._ts-gallery-overlay, ._ts-export-menu { display: none !important; }
/* Disable animations */
* { animation: none !important; transition: none !important; }
body { overflow: visible !important; }
@page { size: landscape; margin: 0; }
</style>"@
}

/// The HTML with the print style sheet inserted right before `</head>`, or in
/// front of everything when there is no `</head>`.
pub open spec fn print_ready_spec(html: Seq<char>) -> Seq<char> {
    match find_from(html, "</head>"@, 0) {
        Some(p) => html.subrange(0, p) + print_css() + html.subrange(p, html.len() as int),
        None => print_css() + html,
    }
}

/// A print-friendly version of an HTML presentation: CSS that makes all
/// The print-ready page is the page with the print style sheet inserted right
/// before its first `</head>`, or in front of it when it has none: taking the
/// style sheet out gives the page back.
pub proof fn law_print_css_before_head(html: Seq<char>)
    ensures
        forall|p: int|
            #[trigger] occurs_at(html, "</head>"@, p) && (forall|j: int|
                0 <= j < p ==> !#[trigger] occurs_at(html, "</head>"@, j)) ==> print_ready_spec(html)
                == html.subrange(0, p) + print_css() + html.subrange(p, html.len() as int),
        (forall|j: int| 0 <= j ==> !#[trigger] occurs_at(html, "</head>"@, j)) ==> print_ready_spec(html)
            == print_css() + html,
{
    law_find_is_first_occurrence(html, "</head>"@, 0);
    assert forall|p: int|
        #[trigger] occurs_at(html, "</head>"@, p) && (forall|j: int|
            0 <= j < p ==> !#[trigger] occurs_at(html, "</head>"@, j)) implies print_ready_spec(html)
            == html.subrange(0, p) + print_css() + html.subrange(p, html.len() as int) by {
        match find_from(html, "</head>"@, 0) {
            Some(k) => {
                if k < p {
                    assert(!occurs_at(html, "</head>"@, k));
                } else if k > p {
                    assert(!occurs_at(html, "</head>"@, p));
                }
            },
            None => {
                assert(!occurs_at(html, "</head>"@, p));
            },
        }
    }
}

/// slides visible with page breaks between them.
pub fn print_ready_html(html: &str) -> (out: String)
    ensures
        out@ == print_ready_spec(html@),
{
    let css = "<style>
/* Print overrides: show all slides, one per page */
.slide {
  display: flex !important;
  position: relative !important;
  page-break-after: always;
  break-after: page;
  height: 100vh;
  width: 100vw;
  overflow: hidden;
}
.slide:last-of-type { page-break-after: auto; }
/* Hide navigation UI */
.progress, .nav-hint, ._ts-toolbar, ._ts-jump, ._ts-gallery-overlay, ._ts-export-menu { display: none !important; }
/* Disable animations */
* { animation: none !important; transition: none !important; }
body { overflow: visible !important; }
@page { size: landscape; margin: 0; }
</style>";
    let chars = chars_of(html);
    let head_end = chars_of("</head>");
    match find_chars(&chars, &head_end, 0) {
        Some(pos) => {
            let mut out = string_from_chars(&copy_range(&chars, 0, pos));
            out.append(css);
            push_chars(&mut out, &copy_range(&chars, pos, chars.len()));
            out
        },
        None => {
            let mut out = String::from_str(css);
            out.append(html);
            out
        },
    }
}

// ---------------------------------------------------------------------------
// Markdown to a standalone HTML page
// ---------------------------------------------------------------------------

/// The HTML that pulldown-cmark renders for Markdown `md`, with the
/// strikethrough and table extensions switched on as given.
pub uninterp spec fn commonmark_html(md: Seq<char>, strikethrough: bool, tables: bool) -> Seq<char>;

/// `pulldown_cmark::html::push_html` over `Parser::new_ext(md, options)`
/// into an empty string, where the options enable strikethrough and tables
/// as the arguments say.
#[verifier::external_body]
fn render_markdown_html(md: &str, strikethrough: bool, tables: bool) -> (html: String)
    ensures
        html@ == commonmark_html(md@, strikethrough, tables),
{
    let mut options = Options::empty();
    options.set(Options::ENABLE_STRIKETHROUGH, strikethrough);
    options.set(Options::ENABLE_TABLES, tables);
    let mut html = String::new();
    push_html(&mut html, Parser::new_ext(md, options));
    html
}

/// The state of the raw slide splitter: finished slides, the current one,
/// and whether a fenced code block is open.
pub struct RawSplitState {
    pub slides: Seq<Seq<char>>,
    pub current: Seq<char>,
    pub in_code: bool,
}

/// One line through the raw splitter: like `split_slides`, but every line is
/// kept with its line break and nothing is trimmed.
pub open spec fn raw_split_step(st: RawSplitState, line: Seq<char>) -> RawSplitState {
    let t = trim(line);
    let in_code = if is_fence(t) {
        !st.in_code
    } else {
        st.in_code
    };
    if !in_code && t == separator() {
        RawSplitState { slides: st.slides.push(st.current), current: Seq::empty(), in_code }
    } else {
        RawSplitState { slides: st.slides, current: st.current + line.push('\n'), in_code }
    }
}

pub open spec fn raw_split_run(ls: Seq<Seq<char>>) -> RawSplitState
    decreases ls.len(),
{
    if ls.len() == 0 {
        RawSplitState { slides: Seq::empty(), current: Seq::empty(), in_code: false }
    } else {
        raw_split_step(raw_split_run(ls.drop_last()), ls.last())
    }
}

/// The untrimmed slide texts of a document, each line ending in a line break.
pub open spec fn raw_slides(content: Seq<char>) -> Seq<Seq<char>> {
    let st = raw_split_run(lines(content));
    st.slides.push(st.current)
}

/// The HTML of one slide of the page: a `div` of class `slide` (also `active`
/// for the first piece of the document) around the slide's rendered HTML.
pub open spec fn slide_div(index: int, body: Seq<char>) -> Seq<char> {
    "<div class=\"slide"@ + (if index == 0 {
        " active"@
    } else {
        Seq::empty()
    }) + "\">\n"@ + body + "</div>\n"@
}

/// The slide `div`s of the first `n` pieces of a document, given each
/// piece's rendered HTML (`None` for a blank piece, which is left out).
pub open spec fn slides_html_upto(slides: Seq<Option<Seq<char>>>, n: int) -> Seq<char>
    decreases n,
{
    if n <= 0 || n > slides.len() {
        Seq::empty()
    } else {
        match slides[n - 1] {
            Some(body) => slides_html_upto(slides, n - 1) + slide_div(n - 1, body),
            None => slides_html_upto(slides, n - 1),
        }
    }
}

/// The marker of the keyboard navigation script in the starter template.
pub open spec fn navigation_marker() -> Seq<char> {
    "<!-- \u{2500}\u{2500} Keyboard Navigation \u{2500}\u{2500} -->\n<script>"@
}

/// The standalone HTML page with the given title and rendered slides, with the
/// style sheet and navigation script taken from the starter template.
pub open spec fn page_spec(title: Seq<char>, slides: Seq<Option<Seq<char>>>, starter: Seq<char>) -> Seq<char> {
    let css = match between_spec(starter, "<style>"@, "</style>"@) {
        Some(t) => t,
        None => Seq::empty(),
    };
    let js = match between_spec(starter, navigation_marker(), "</script>"@) {
        Some(t) => t,
        None => Seq::empty(),
    };
    "<!DOCTYPE html>\n<html lang=\"en\">\n<head>\n<meta charset=\"utf-8\">\n<meta name=\"viewport\" content=\"width=device-width, initial-scale=1\">\n<title>"@
        + title + "</title>\n<style>\n"@ + css
        + "\n</style>\n</head>\n<body>\n"@ + slides_html_upto(slides, slides.len() as int)
        + "\n<div class=\"progress\"></div>\n<script>\n"@ + js
        + "\n</script>\n</body>\n</html>"@
}

/// The rendered HTML of each piece of a document: pulldown-cmark's HTML (with
/// strikethrough and tables) of the trimmed piece, none for a blank piece.
pub open spec fn rendered_slides(raw: Seq<Seq<char>>) -> Seq<Option<Seq<char>>> {
    Seq::new(
        raw.len(),
        |i: int|
            if trim(raw[i]).len() == 0 {
                None
            } else {
                Some(commonmark_html(trim(raw[i]), true, true))
            },
    )
}

/// Every non-blank piece of a document is rendered by pulldown-cmark from its
/// trimmed text with both the strikethrough and the table extension enabled;
/// blank pieces are left out.
pub proof fn law_slides_rendered_with_tables_and_strikethrough(content: Seq<char>)
    ensures
        rendered_slides(raw_slides(content)).len() == raw_slides(content).len(),
        forall|i: int|
            0 <= i < raw_slides(content).len() ==> #[trigger] rendered_slides(raw_slides(content))[i] == (
            if trim(raw_slides(content)[i]).len() == 0 {
                None
            } else {
                Some(commonmark_html(trim(raw_slides(content)[i]), true, true))
            }),
{
}

/// The standalone HTML page for a Markdown presentation.
pub open spec fn html_page_spec(content: Seq<char>, starter: Seq<char>) -> Seq<char> {
    page_spec(document_title(content), rendered_slides(raw_slides(content)), starter)
}

/// The untrimmed slide texts of a document.
fn split_raw_slides(ls: &Vec<Vec<char>>) -> (slides: Vec<Vec<char>>)
    ensures
        slides.deep_view() == ({
            let st = raw_split_run(ls.deep_view());
            st.slides.push(st.current)
        }),
{
    let backticks = vec!['`', '`', '`'];
    let tildes = vec!['~', '~', '~'];
    let dashes = vec!['-', '-', '-'];
    assert(backticks@ == seq!['`', '`', '`']);
    assert(tildes@ == seq!['~', '~', '~']);
    assert(dashes@ == separator());
    let mut slides: Vec<Vec<char>> = Vec::new();
    let mut current: Vec<char> = Vec::new();
    let mut in_code_block = false;
    let mut i: usize = 0;
    assert(ls.deep_view().take(0) =~= Seq::<Seq<char>>::empty());
    assert(slides.deep_view() =~= Seq::<Seq<char>>::empty());
    while i < ls.len()
        invariant
            i <= ls@.len(),
            backticks@ == seq!['`', '`', '`'],
            tildes@ == seq!['~', '~', '~'],
            dashes@ == separator(),
            raw_split_run(ls.deep_view().take(i as int)) == (RawSplitState {
                slides: slides.deep_view(),
                current: current@,
                in_code: in_code_block,
            }),
        decreases ls.len() - i,
    {
        let line = &ls[i];
        assert(ls.deep_view()[i as int] == line@) by {
            assert(line.deep_view() =~= line@);
        }
        assert(ls.deep_view().take(i + 1).drop_last() =~= ls.deep_view().take(i as int));
        let trimmed = trim_chars(line);
        if starts_with_chars(&trimmed, &backticks) || starts_with_chars(&trimmed, &tildes) {
            in_code_block = !in_code_block;
        }
        if !in_code_block && chars_equal(&trimmed, &dashes) {
            let mut taken: Vec<char> = Vec::new();
            std::mem::swap(&mut taken, &mut current);
            let ghost before = slides.deep_view();
            assert(taken.deep_view() =~= taken@);
            slides.push(taken);
            assert(slides.deep_view() =~= before.push(taken@));
            assert(current@ =~= Seq::<char>::empty());
        } else {
            let ghost before = current@;
            extend_chars(&mut current, line);
            current.push('\n');
            assert(current@ =~= before + line@.push('\n'));
        }
        i = i + 1;
    }
    assert(ls.deep_view().take(ls@.len() as int) =~= ls.deep_view());
    let ghost before = slides.deep_view();
    assert(current.deep_view() =~= current@);
    slides.push(current);
    assert(slides.deep_view() =~= before.push(current@));
    slides
}

/// Puts a standalone HTML page together: the title, one `div` per rendered
/// slide (the first piece of the document marked active; blank pieces,
/// `None`, left out), and the starter template's style sheet and navigation
/// script.
pub fn html_page(title: &str, slides: &Vec<Option<String>>, starter: &str) -> (html: String)
    ensures
        html@ == page_spec(title@, slides.deep_view(), starter@),
{
    let ghost sv = slides.deep_view();
    let mut slides_html = String::new();
    let mut i: usize = 0;
    while i < slides.len()
        invariant
            i <= slides@.len(),
            sv == slides.deep_view(),
            slides_html@ == slides_html_upto(sv, i as int),
        decreases slides.len() - i,
    {
        match &slides[i] {
            Some(body) => {
                assert(sv[i as int] == Some(body@));
                slides_html.append("<div class=\"slide");
                if i == 0 {
                    slides_html.append(" active");
                }
                slides_html.append("\">\n");
                slides_html.append(body.as_str());
                slides_html.append("</div>\n");
                assert(slides_html@ =~= slides_html_upto(sv, i + 1));
            },
            None => {
                assert(sv[i as int] is None);
            },
        }
        i = i + 1;
    }

    let css = match extract_between(starter, "<style>", "</style>") {
        Some(t) => t,
        None => "",
    };
    let js = match extract_between(
        starter,
        "<!-- \u{2500}\u{2500} Keyboard Navigation \u{2500}\u{2500} -->\n<script>",
        "</script>",
    ) {
        Some(t) => t,
        None => "",
    };
    proof {
        reveal_strlit("");
    }
    let mut html = String::from_str(
        "<!DOCTYPE html>\n<html lang=\"en\">\n<head>\n<meta charset=\"utf-8\">\n<meta name=\"viewport\" content=\"width=device-width, initial-scale=1\">\n<title>",
    );
    html.append(title);
    html.append("</title>\n<style>\n");
    html.append(css);
    html.append("\n</style>\n</head>\n<body>\n");
    html.append(slides_html.as_str());
    html.append("\n<div class=\"progress\"></div>\n<script>\n");
    html.append(js);
    html.append("\n</script>\n</body>\n</html>");
    assert(html@ =~= page_spec(title@, sv, starter@));
    html
}

/// Converts a Markdown presentation to a self-contained HTML page using the
/// starter template's style sheet and navigation script.
///
/// Splits on `---` separators (respecting code blocks), converts each slide's
/// Markdown to HTML via pulldown-cmark, and wraps it in the page.
pub fn md_to_html(content: &str, starter: &str) -> (html: String)
    ensures
        html@ == html_page_spec(content@, starter@),
{
    let chars = chars_of(content);
    let ls = split_lines(&chars);
    let raw = split_raw_slides(&ls);
    let title = string_from_chars(&markdown_title(&ls));
    let ghost rawv = raw.deep_view();
    let ghost want = rendered_slides(rawv);

    let mut slides: Vec<Option<String>> = Vec::new();
    let mut i: usize = 0;
    assert(slides.deep_view() =~= want.take(0));
    while i < raw.len()
        invariant
            i <= raw@.len(),
            rawv == raw.deep_view(),
            want == rendered_slides(rawv),
            slides.deep_view() == want.take(i as int),
        decreases raw.len() - i,
    {
        assert(rawv[i as int] == raw@[i as int]@) by {
            assert(raw@[i as int].deep_view() =~= raw@[i as int]@);
        }
        let trimmed = trim_chars(&raw[i]);
        let rendered = if trimmed.len() > 0 {
            let md = string_from_chars(&trimmed);
            Some(render_markdown_html(md.as_str(), true, true))
        } else {
            None
        };
        let ghost before = slides.deep_view();
        slides.push(rendered);
        assert(slides.deep_view() =~= before.push(want[i as int]));
        assert(want.take(i as int).push(want[i as int]) =~= want.take(i + 1));
        i = i + 1;
    }
    assert(want.take(raw@.len() as int) =~= want);
    html_page(title.as_str(), &slides, starter)
}

} // verus!
