//! Laying out a slide for the terminal: the lines, spans and looks that the
//! slide's elements become, with code blocks highlighted by syntect.

use vstd::prelude::*;
use vstd::string::StringExecFns;
use vstd::utf8::{encode_scalar, encode_utf8, is_ascii_chars};
use syntect::easy::HighlightLines;
use syntect::highlighting::ThemeSet;
use syntect::parsing::{SyntaxReference, SyntaxSet};
use crate::slide::{ElementView, Slide, SlideElement, SpanView, StyledSpan, TextStyle};
use crate::text::{chars_of, decimal, lines, push_char, push_chars, push_decimal, split_lines};

verus! {

#[verifier::external_type_specification]
#[verifier::external_body]
pub struct ExSyntaxSet(SyntaxSet);

#[verifier::external_type_specification]
#[verifier::external_body]
pub struct ExThemeSet(ThemeSet);

#[verifier::external_type_specification]
#[verifier::external_body]
pub struct ExSyntaxReference(SyntaxReference);

#[verifier::external_type_specification]
#[verifier::external_body]
pub struct ExHighlightLines<'a>(HighlightLines<'a>);

// ---------------------------------------------------------------------------
// Looks
// ---------------------------------------------------------------------------

/// The foreground colours of headings.
#[derive(Debug, Clone, Copy, PartialEq, Eq, Structural)]
pub enum Tint {
    Cyan,
    Green,
    Yellow,
    Magenta,
    Blue,
    White,
}

/// The colour of a heading of the given level: H1 brightest, H6 most subdued.
pub open spec fn heading_tint(level: u8) -> Tint {
    if level == 1 {
        Tint::Cyan
    } else if level == 2 {
        Tint::Green
    } else if level == 3 {
        Tint::Yellow
    } else if level == 4 {
        Tint::Magenta
    } else if level == 5 {
        Tint::Blue
    } else {
        Tint::White
    }
}

/// Returns the colour for a heading based on its level (1-6); headings are bold.
pub fn heading_style(level: u8) -> (t: Tint)
    ensures
        t == heading_tint(level),
{
    match level {
        1 => Tint::Cyan,
        2 => Tint::Green,
        3 => Tint::Yellow,
        4 => Tint::Magenta,
        5 => Tint::Blue,
        _ => Tint::White,
    }
}

/// How a span of a laid-out slide looks.
#[derive(Debug, Clone, Copy, PartialEq, Eq, Structural)]
pub enum SpanLook {
    /// Heading text of the given level: bold, in [`heading_tint`].
    Heading(u8),
    /// Body text in the given style.
    Text(TextStyle),
    /// A list marker (bullet or number), cyan.
    ListMarker,
    /// A horizontal rule, dark gray.
    Rule,
    /// Padding on the code block background.
    CodePad,
    /// A code block's language label: dark gray italic on the code background.
    CodeLabel,
    /// Code that could not be highlighted: white on the code background.
    CodePlain,
    /// Highlighted code in the given RGB colour on the code background.
    CodeToken(u8, u8, u8),
}

/// A span of a laid-out slide.
#[derive(Debug, Clone)]
pub struct RenderSpan {
    pub text: String,
    pub look: SpanLook,
}

/// A line of a laid-out slide.
#[derive(Debug, Clone)]
pub struct RenderLine {
    pub spans: Vec<RenderSpan>,
}

/// What a [`RenderSpan`] denotes.
pub struct RenderSpanView {
    pub text: Seq<char>,
    pub look: SpanLook,
}

impl DeepView for RenderSpan {
    type V = RenderSpanView;

    open spec fn deep_view(&self) -> RenderSpanView {
        RenderSpanView { text: self.text@, look: self.look }
    }
}

impl DeepView for RenderLine {
    type V = Seq<RenderSpanView>;

    open spec fn deep_view(&self) -> Seq<RenderSpanView> {
        self.spans.deep_view()
    }
}

/// A piece of a highlighted code line: its colour and its text.
#[derive(Debug, Clone)]
pub struct ColoredText {
    pub red: u8,
    pub green: u8,
    pub blue: u8,
    pub text: String,
}

/// What a [`ColoredText`] denotes.
pub struct ColoredTextView {
    pub red: u8,
    pub green: u8,
    pub blue: u8,
    pub text: Seq<char>,
}

impl DeepView for ColoredText {
    type V = ColoredTextView;

    open spec fn deep_view(&self) -> ColoredTextView {
        ColoredTextView { red: self.red, green: self.green, blue: self.blue, text: self.text@ }
    }
}

// ---------------------------------------------------------------------------
// Layout
// ---------------------------------------------------------------------------

pub open spec fn rspan(text: Seq<char>, look: SpanLook) -> RenderSpanView {
    RenderSpanView { text, look }
}

/// `n` spaces.
pub open spec fn spaces(n: nat) -> Seq<char> {
    Seq::new(n, |i: int| ' ')
}

/// A horizontal rule of `n` box-drawing characters.
pub open spec fn rule_chars(n: nat) -> Seq<char> {
    Seq::new(n, |i: int| '\u{2500}')
}

/// The length in bytes of the UTF-8 encoding of `s` (`str::len`).
pub open spec fn byte_len(s: Seq<char>) -> nat {
    encode_utf8(s).len()
}

/// `a - b`, or 0 when `b > a`.
pub open spec fn sat_sub(a: nat, b: nat) -> nat {
    if a > b {
        (a - b) as nat
    } else {
        0
    }
}

/// `s` without its trailing line breaks (`trim_end_matches('\n')`).
pub open spec fn strip_trailing_newlines(s: Seq<char>) -> Seq<char>
    decreases s.len(),
{
    if s.len() > 0 && s.last() == '\n' {
        strip_trailing_newlines(s.drop_last())
    } else {
        s
    }
}

/// The spans of highlighted pieces: each piece without its trailing line
/// breaks, empty pieces left out.
pub open spec fn token_spans(rs: Seq<ColoredTextView>) -> Seq<RenderSpanView>
    decreases rs.len(),
{
    if rs.len() == 0 {
        Seq::empty()
    } else {
        let t = strip_trailing_newlines(rs.last().text);
        let prev = token_spans(rs.drop_last());
        if t.len() == 0 {
            prev
        } else {
            prev.push(rspan(t, SpanLook::CodeToken(rs.last().red, rs.last().green, rs.last().blue)))
        }
    }
}

/// The byte length of the highlighted pieces, each without its trailing line breaks.
pub open spec fn token_bytes(rs: Seq<ColoredTextView>) -> nat
    decreases rs.len(),
{
    if rs.len() == 0 {
        0
    } else {
        token_bytes(rs.drop_last()) + byte_len(strip_trailing_newlines(rs.last().text))
    }
}

/// The bytes that a line of code takes before its padding: two of indent
/// and those of the highlighted pieces (or of the plain line).
pub open spec fn code_row_used(line: Seq<char>, ranges: Option<Seq<ColoredTextView>>) -> nat {
    let rs = match ranges {
        Some(r) => r,
        None => Seq::empty(),
    };
    if rs.len() == 0 {
        2 + byte_len(line)
    } else {
        2 + token_bytes(rs)
    }
}

/// One line of a code block: two spaces of indent, the highlighted pieces (or
/// the plain line when highlighting gave nothing), and padding up to `width`.
pub open spec fn code_row(line: Seq<char>, ranges: Option<Seq<ColoredTextView>>, width: nat) -> Seq<RenderSpanView> {
    let rs = match ranges {
        Some(r) => r,
        None => Seq::empty(),
    };
    let body = if rs.len() == 0 {
        seq![rspan(line, SpanLook::CodePlain)]
    } else {
        token_spans(rs)
    };
    let used = code_row_used(line, ranges);
    let row = seq![rspan(seq![' ', ' '], SpanLook::CodePad)] + body;
    if used < width {
        row.push(rspan(spaces((width - used) as nat), SpanLook::CodePad))
    } else {
        row
    }
}

/// The bytes of the texts of `spans`, together.
pub open spec fn spans_bytes(spans: Seq<RenderSpanView>) -> nat
    decreases spans.len(),
{
    if spans.len() == 0 {
        0
    } else {
        spans_bytes(spans.drop_last()) + byte_len(spans.last().text)
    }
}

proof fn lemma_spans_bytes_concat(a: Seq<RenderSpanView>, b: Seq<RenderSpanView>)
    ensures
        spans_bytes(a + b) == spans_bytes(a) + spans_bytes(b),
    decreases b.len(),
{
    if b.len() == 0 {
        assert(a + b =~= a);
    } else {
        lemma_spans_bytes_concat(a, b.drop_last());
        assert((a + b).drop_last() =~= a + b.drop_last());
        assert((a + b).last() == b.last());
    }
}

proof fn lemma_token_spans_bytes(rs: Seq<ColoredTextView>)
    ensures
        spans_bytes(token_spans(rs)) == token_bytes(rs),
    decreases rs.len(),
{
    if rs.len() > 0 {
        lemma_token_spans_bytes(rs.drop_last());
        let t = strip_trailing_newlines(rs.last().text);
        if t.len() == 0 {
            assert(encode_utf8(t) =~= Seq::<u8>::empty());
        } else {
            let prev = token_spans(rs.drop_last());
            let sp = rspan(t, SpanLook::CodeToken(rs.last().red, rs.last().green, rs.last().blue));
            assert(prev.push(sp).drop_last() =~= prev);
        }
    }
}

proof fn lemma_spaces_bytes(n: nat)
    ensures
        byte_len(spaces(n)) == n,
{
    assert(is_ascii_chars(spaces(n)));
    vstd::utf8::is_ascii_chars_encode_utf8(spaces(n));
}

/// The text of a line: its spans' texts, joined in order.
pub open spec fn line_text(spans: Seq<RenderSpanView>) -> Seq<char>
    decreases spans.len(),
{
    if spans.len() == 0 {
        Seq::empty()
    } else {
        line_text(spans.drop_last()) + spans.last().text
    }
}

/// The texts of highlighted pieces without their trailing line breaks, joined.
pub open spec fn stripped_text(rs: Seq<ColoredTextView>) -> Seq<char>
    decreases rs.len(),
{
    if rs.len() == 0 {
        Seq::empty()
    } else {
        stripped_text(rs.drop_last()) + strip_trailing_newlines(rs.last().text)
    }
}

/// `s` holds no line break.
pub open spec fn no_newline(s: Seq<char>) -> bool {
    forall|k: int| 0 <= k < s.len() ==> s[k] != '\n'
}

proof fn lemma_line_text_concat(a: Seq<RenderSpanView>, b: Seq<RenderSpanView>)
    ensures
        line_text(a + b) == line_text(a) + line_text(b),
    decreases b.len(),
{
    if b.len() == 0 {
        assert(a + b =~= a);
        assert(line_text(a) + Seq::<char>::empty() =~= line_text(a));
    } else {
        lemma_line_text_concat(a, b.drop_last());
        assert((a + b).drop_last() =~= a + b.drop_last());
        assert((a + b).last() == b.last());
        assert(line_text(a) + line_text(b.drop_last()) + b.last().text =~= line_text(a) + (line_text(
            b.drop_last(),
        ) + b.last().text));
    }
}

proof fn lemma_token_spans_text(rs: Seq<ColoredTextView>)
    ensures
        line_text(token_spans(rs)) == stripped_text(rs),
        token_bytes(rs) == byte_len(stripped_text(rs)),
    decreases rs.len(),
{
    if rs.len() == 0 {
        assert(encode_utf8(Seq::<char>::empty()) =~= Seq::<u8>::empty());
    } else {
        lemma_token_spans_text(rs.drop_last());
        let t = strip_trailing_newlines(rs.last().text);
        let prev = token_spans(rs.drop_last());
        lemma_encode_concat(stripped_text(rs.drop_last()), t);
        if t.len() == 0 {
            assert(stripped_text(rs.drop_last()) + t =~= stripped_text(rs.drop_last()));
        } else {
            let sp = rspan(t, SpanLook::CodeToken(rs.last().red, rs.last().green, rs.last().blue));
            assert(prev.push(sp).drop_last() =~= prev);
        }
    }
}

proof fn lemma_strip_no_newline(t: Seq<char>)
    requires
        no_newline(t),
    ensures
        strip_trailing_newlines(t) == t,
        strip_trailing_newlines(t.push('\n')) == t,
{
    assert(t.push('\n').drop_last() =~= t);
    if t.len() > 0 {
        assert(t.last() != '\n');
    }
}

/// Pieces that give back a line without line breaks, or that line and one
/// final line break, give back the line once their trailing breaks are cut.
proof fn lemma_stripped_pieces(rs: Seq<ColoredTextView>, w: Seq<char>)
    requires
        no_newline(w),
        pieces_text(rs) == w || pieces_text(rs) == w.push('\n'),
    ensures
        stripped_text(rs) == w,
    decreases rs.len(),
{
    if rs.len() == 0 {
        assert(w.push('\n').len() > 0);
    } else {
        let init = rs.drop_last();
        let t = rs.last().text;
        let p = pieces_text(init);
        assert(pieces_text(rs) == p + t);
        if pieces_text(rs) == w {
            assert(p =~= w.subrange(0, p.len() as int));
            assert(t =~= w.subrange(p.len() as int, w.len() as int));
            lemma_stripped_pieces(init, p);
            lemma_strip_no_newline(t);
            assert(p + t =~= w);
        } else if t.len() == 0 {
            assert(p + t =~= p);
            lemma_stripped_pieces(init, w);
            lemma_strip_no_newline(t);
            assert(w + t =~= w);
        } else {
            let wn = w.push('\n');
            assert(p + t == wn);
            assert(p.len() + t.len() == wn.len());
            assert forall|i: int| 0 <= i < p.len() implies p[i] == w[i] by {
                assert((p + t)[i] == p[i]);
                assert(wn[i] == w[i]);
            }
            assert(p =~= w.subrange(0, p.len() as int));
            let t0 = t.drop_last();
            assert((p + t)[wn.len() - 1] == t[t.len() - 1]);
            assert(t[t.len() - 1] == wn[wn.len() - 1]);
            assert forall|i: int| 0 <= i < t0.len() implies t0[i] == w[p.len() + i] by {
                assert((p + t)[p.len() + i] == t[i]);
                assert(wn[p.len() + i] == w[p.len() + i]);
            }
            assert(t0 =~= w.subrange(p.len() as int, w.len() as int));
            assert(t =~= t0.push('\n'));
            lemma_stripped_pieces(init, p);
            lemma_strip_no_newline(t0);
            assert(p + t0 =~= w);
        }
    }
}

/// A line of code shows two spaces, the line itself and padding up to the
/// width, whether it was highlighted (its pieces giving back the line and its
/// line break) or not.
pub proof fn law_code_row_text(line: Seq<char>, ranges: Option<Seq<ColoredTextView>>, width: nat)
    requires
        no_newline(line),
        ranges matches Some(p) ==> pieces_text(p) == line.push('\n'),
    ensures
        line_text(code_row(line, ranges, width)) == seq![' ', ' '] + line + spaces(
            sat_sub(width, 2 + byte_len(line)),
        ),
{
    let rs = match ranges {
        Some(r) => r,
        None => Seq::empty(),
    };
    let indent = seq![rspan(seq![' ', ' '], SpanLook::CodePad)];
    let body = if rs.len() == 0 {
        seq![rspan(line, SpanLook::CodePlain)]
    } else {
        token_spans(rs)
    };
    assert(line_text(Seq::<RenderSpanView>::empty()) == Seq::<char>::empty());
    assert(indent.drop_last() =~= Seq::<RenderSpanView>::empty());
    assert(line_text(indent) =~= seq![' ', ' ']);
    if rs.len() == 0 {
        assert(body.drop_last() =~= Seq::<RenderSpanView>::empty());
        assert(line_text(body) =~= line);
    } else {
        lemma_token_spans_text(rs);
        lemma_stripped_pieces(rs, line);
    }
    assert(code_row_used(line, ranges) == 2 + byte_len(line));
    lemma_line_text_concat(indent, body);
    let row = indent + body;
    let used = 2 + byte_len(line);
    if used < width {
        let pad = rspan(spaces((width - used) as nat), SpanLook::CodePad);
        assert(row.push(pad).drop_last() =~= row);
    } else {
        assert(spaces(0) =~= Seq::<char>::empty());
        assert(seq![' ', ' '] + line + spaces(0) =~= seq![' ', ' '] + line);
    }
}

/// The lines of a code block show a padding line, the language label padded to
/// the width if there is a language, each line of code as
/// [`law_code_row_text`] gives it, and a closing padding line.
pub proof fn law_code_block_text(
    lang: Option<Seq<char>>,
    code: Seq<char>,
    width: nat,
    highlights: Seq<Option<Seq<ColoredTextView>>>,
)
    requires
        highlights_cover(lines(code), highlights),
    ensures
        ({
            let out = code_block_lines_spec(lang, code, width, highlights);
            let o: int = if lang is Some { 2 } else { 1 };
            let n = lines(code).len() as int;
            &&& out.len() == n + o + 1
            &&& line_text(out[0]) == spaces(width)
            &&& line_text(out[n + o]) == spaces(width)
            &&& lang matches Some(l) ==> line_text(out[1]) == seq![' ', ' '] + l + spaces(
                sat_sub(width, byte_len(seq![' ', ' '] + l)),
            )
            &&& forall|k: int|
                0 <= k < n ==> line_text(#[trigger] out[o + k]) == seq![' ', ' '] + lines(code)[k]
                    + spaces(sat_sub(width, 2 + byte_len(lines(code)[k])))
        }),
{
    let out = code_block_lines_spec(lang, code, width, highlights);
    let o: int = if lang is Some { 2 } else { 1 };
    let n = lines(code).len() as int;
    assert forall|t: Seq<char>, look: SpanLook| #[trigger] line_text(seq![rspan(t, look)]) == t by {
        assert(seq![rspan(t, look)].drop_last() =~= Seq::<RenderSpanView>::empty());
        assert(line_text(Seq::<RenderSpanView>::empty()) == Seq::<char>::empty());
        assert(Seq::<char>::empty() + t =~= t);
    }
    crate::text::lemma_lines_have_no_newline(code, 0);
    assert forall|k: int| 0 <= k < n implies line_text(#[trigger] out[o + k]) == seq![' ', ' ']
        + lines(code)[k] + spaces(sat_sub(width, 2 + byte_len(lines(code)[k]))) by {
        assert(out[o + k] == code_row(lines(code)[k], highlights[k], width));
        assert(no_newline(lines(code)[k]));
        law_code_row_text(lines(code)[k], highlights[k], width);
    }
}

/// Every line of code fills the width (in bytes, as `str::len` counts them),
/// so that the code background runs evenly; a line longer than the width is
/// left as it is.
pub proof fn law_code_rows_fill_width(line: Seq<char>, ranges: Option<Seq<ColoredTextView>>, width: nat)
    ensures
        spans_bytes(code_row(line, ranges, width)) == (if code_row_used(line, ranges) < width {
            width
        } else {
            code_row_used(line, ranges)
        }),
{
    let rs = match ranges {
        Some(r) => r,
        None => Seq::empty(),
    };
    let indent = seq![rspan(seq![' ', ' '], SpanLook::CodePad)];
    let body = if rs.len() == 0 {
        seq![rspan(line, SpanLook::CodePlain)]
    } else {
        token_spans(rs)
    };
    let used = code_row_used(line, ranges);
    lemma_spaces_bytes(2);
    assert(seq![' ', ' '] =~= spaces(2));
    assert(indent.drop_last() =~= Seq::<RenderSpanView>::empty());
    assert(spans_bytes(Seq::<RenderSpanView>::empty()) == 0);
    assert(indent.last().text == spaces(2));
    assert(spans_bytes(indent) == 2);
    if rs.len() == 0 {
        assert(body.drop_last() =~= Seq::<RenderSpanView>::empty());
        assert(spans_bytes(body) == byte_len(line));
    } else {
        lemma_token_spans_bytes(rs);
    }
    lemma_spans_bytes_concat(indent, body);
    assert(spans_bytes(indent + body) == used);
    if used < width {
        let pad = rspan(spaces((width - used) as nat), SpanLook::CodePad);
        lemma_spaces_bytes((width - used) as nat);
        assert((indent + body).push(pad).drop_last() =~= indent + body);
    }
}

/// The lines of a code block: a padding line, the language label if any, one
/// line per line of code, and a closing padding line.
pub open spec fn code_block_lines_spec(
    lang: Option<Seq<char>>,
    code: Seq<char>,
    width: nat,
    highlights: Seq<Option<Seq<ColoredTextView>>>,
) -> Seq<Seq<RenderSpanView>> {
    let pad = seq![rspan(spaces(width), SpanLook::CodePad)];
    let label = match lang {
        Some(l) => {
            let text = seq![' ', ' '] + l;
            seq![seq![rspan(text + spaces(sat_sub(width, byte_len(text))), SpanLook::CodeLabel)]]
        },
        None => Seq::empty(),
    };
    let code_lines = lines(code);
    let rows = Seq::new(code_lines.len(), |j: int| code_row(code_lines[j], highlights[j], width));
    seq![pad] + label + rows + seq![pad]
}

/// The span of slide text.
pub open spec fn text_span(s: SpanView) -> RenderSpanView {
    rspan(s.text, SpanLook::Text(s.style))
}

/// The spans of slide text.
pub open spec fn text_spans(spans: Seq<SpanView>) -> Seq<RenderSpanView> {
    Seq::new(spans.len(), |i: int| text_span(spans[i]))
}

/// The bullet `  • `.
pub open spec fn bullet_marker() -> Seq<char> {
    seq![' ', ' ', '\u{2022}', ' ']
}

/// The number marker `  N. ` of the item at index `i`.
pub open spec fn number_marker(i: int) -> Seq<char> {
    seq![' ', ' '] + decimal((i + 1) as nat) + seq!['.', ' ']
}

/// The lines of one slide element, each element followed by a blank line.
pub open spec fn element_lines(
    e: ElementView,
    width: nat,
    highlights: Seq<Option<Seq<ColoredTextView>>>,
) -> Seq<Seq<RenderSpanView>> {
    let blank = Seq::<RenderSpanView>::empty();
    match e {
        ElementView::Heading(level, text) => seq![seq![rspan(text, SpanLook::Heading(level))], blank],
        ElementView::Paragraph(spans) => seq![text_spans(spans), blank],
        ElementView::CodeBlock(lang, code) => code_block_lines_spec(lang, code, width, highlights).push(blank),
        ElementView::BulletList(items) => Seq::new(
            items.len(),
            |i: int| seq![rspan(bullet_marker(), SpanLook::ListMarker)] + text_spans(items[i]),
        ).push(blank),
        ElementView::NumberedList(items) => Seq::new(
            items.len(),
            |i: int| seq![rspan(number_marker(i), SpanLook::ListMarker)] + text_spans(items[i]),
        ).push(blank),
        ElementView::HorizontalRule => seq![
            seq![rspan(rule_chars(if width < 60 { width } else { 60 }), SpanLook::Rule)],
            blank,
        ],
        ElementView::BlankLine => seq![blank],
    }
}

/// The texts of slide spans, joined in order.
pub open spec fn spans_text(spans: Seq<SpanView>) -> Seq<char>
    decreases spans.len(),
{
    if spans.len() == 0 {
        Seq::empty()
    } else {
        spans_text(spans.drop_last()) + spans.last().text
    }
}

proof fn lemma_text_spans_text(spans: Seq<SpanView>)
    ensures
        line_text(text_spans(spans)) == spans_text(spans),
    decreases spans.len(),
{
    if spans.len() > 0 {
        lemma_text_spans_text(spans.drop_last());
        assert(text_spans(spans).drop_last() =~= text_spans(spans.drop_last()));
    } else {
        assert(text_spans(spans) =~= Seq::<RenderSpanView>::empty());
    }
}

/// The line of a list item: its marker, then every span of the item in order,
/// each with its own style; its text is the marker and the item's text.
pub open spec fn is_item_line(line: Seq<RenderSpanView>, marker: Seq<char>, item: Seq<SpanView>) -> bool {
    &&& line.len() == 1 + item.len()
    &&& line[0] == rspan(marker, SpanLook::ListMarker)
    &&& forall|j: int|
        0 <= j < item.len() ==> #[trigger] line[1 + j] == rspan(item[j].text, SpanLook::Text(item[j].style))
    &&& line_text(line) == marker + spans_text(item)
}

/// A list is laid out as one line per item, each holding the item's marker
/// (a bullet, or the item's number counted from 1) and all of the item's
/// spans, followed by a blank line.
pub proof fn law_list_items_keep_all_their_spans(
    e: ElementView,
    width: nat,
    highlights: Seq<Option<Seq<ColoredTextView>>>,
)
    ensures
        e matches ElementView::BulletList(items) ==> {
            &&& element_lines(e, width, highlights).len() == items.len() + 1
            &&& element_lines(e, width, highlights)[items.len() as int].len() == 0
            &&& forall|i: int|
                0 <= i < items.len() ==> is_item_line(
                    #[trigger] element_lines(e, width, highlights)[i],
                    seq![' ', ' ', '\u{2022}', ' '],
                    items[i],
                )
        },
        e matches ElementView::NumberedList(items) ==> {
            &&& element_lines(e, width, highlights).len() == items.len() + 1
            &&& element_lines(e, width, highlights)[items.len() as int].len() == 0
            &&& forall|i: int|
                0 <= i < items.len() ==> is_item_line(
                    #[trigger] element_lines(e, width, highlights)[i],
                    seq![' ', ' '] + decimal((i + 1) as nat) + seq!['.', ' '],
                    items[i],
                )
        },
{
    let out = element_lines(e, width, highlights);
    match e {
        ElementView::BulletList(items) => {
            assert forall|i: int| 0 <= i < items.len() implies is_item_line(
                #[trigger] out[i],
                seq![' ', ' ', '\u{2022}', ' '],
                items[i],
            ) by {
                lemma_item_line(bullet_marker(), items[i]);
            }
        },
        ElementView::NumberedList(items) => {
            assert forall|i: int| 0 <= i < items.len() implies is_item_line(
                #[trigger] out[i],
                seq![' ', ' '] + decimal((i + 1) as nat) + seq!['.', ' '],
                items[i],
            ) by {
                lemma_item_line(number_marker(i), items[i]);
            }
        },
        _ => {},
    }
}

proof fn lemma_item_line(marker: Seq<char>, item: Seq<SpanView>)
    ensures
        is_item_line(seq![rspan(marker, SpanLook::ListMarker)] + text_spans(item), marker, item),
{
    let head = seq![rspan(marker, SpanLook::ListMarker)];
    let line = head + text_spans(item);
    assert forall|j: int| 0 <= j < item.len() implies #[trigger] line[1 + j] == rspan(
        item[j].text,
        SpanLook::Text(item[j].style),
    ) by {
        assert(line[1 + j] == text_spans(item)[j]);
    }
    lemma_line_text_concat(head, text_spans(item));
    lemma_text_spans_text(item);
    assert(head.drop_last() =~= Seq::<RenderSpanView>::empty());
    assert(line_text(Seq::<RenderSpanView>::empty()) == Seq::<char>::empty());
    assert(line_text(head) =~= marker);
}

/// A heading is one line of its text in the heading look of its level, a
/// paragraph one line of all its spans in their own styles, a rule one line of
/// `─` as wide as the slide but at most 60; each is followed by a blank line.
pub proof fn law_heading_paragraph_rule_lines(
    e: ElementView,
    width: nat,
    highlights: Seq<Option<Seq<ColoredTextView>>>,
)
    ensures
        e matches ElementView::Heading(level, text) ==> element_lines(e, width, highlights) == seq![
            seq![RenderSpanView { text, look: SpanLook::Heading(level) }],
            Seq::<RenderSpanView>::empty(),
        ],
        e matches ElementView::Paragraph(spans) ==> {
            let ls = element_lines(e, width, highlights);
            &&& ls.len() == 2
            &&& ls[1].len() == 0
            &&& ls[0].len() == spans.len()
            &&& forall|j: int|
                0 <= j < spans.len() ==> #[trigger] ls[0][j] == RenderSpanView {
                    text: spans[j].text,
                    look: SpanLook::Text(spans[j].style),
                }
            &&& line_text(ls[0]) == spans_text(spans)
        },
        e is HorizontalRule ==> {
            let ls = element_lines(e, width, highlights);
            &&& ls.len() == 2
            &&& ls[1].len() == 0
            &&& ls[0].len() == 1
            &&& ls[0][0].look == SpanLook::Rule
            &&& ls[0][0].text.len() == (if width < 60 { width } else { 60 })
            &&& forall|k: int| 0 <= k < ls[0][0].text.len() ==> #[trigger] ls[0][0].text[k] == '\u{2500}'
        },
{
    if let ElementView::Paragraph(spans) = e {
        lemma_text_spans_text(spans);
    }
}

/// The lines of the first `n` elements.
pub open spec fn elements_lines_upto(
    es: Seq<ElementView>,
    width: nat,
    hs: Seq<Seq<Option<Seq<ColoredTextView>>>>,
    n: int,
) -> Seq<Seq<RenderSpanView>>
    decreases n,
{
    if n <= 0 || n > es.len() {
        Seq::empty()
    } else {
        elements_lines_upto(es, width, hs, n - 1) + element_lines(es[n - 1], width, hs[n - 1])
    }
}

/// The lines of a slide: the lines of its elements, without the blank line
/// after the last one.
pub open spec fn layout_spec(
    es: Seq<ElementView>,
    width: nat,
    hs: Seq<Seq<Option<Seq<ColoredTextView>>>>,
) -> Seq<Seq<RenderSpanView>> {
    let all = elements_lines_upto(es, width, hs, es.len() as int);
    if all.len() > 0 && all.last().len() == 0 {
        all.drop_last()
    } else {
        all
    }
}

/// The highlights have one entry per element, and for a code block one per line of code.
pub open spec fn highlights_fit(
    es: Seq<ElementView>,
    hs: Seq<Seq<Option<Seq<ColoredTextView>>>>,
) -> bool {
    &&& hs.len() == es.len()
    &&& forall|i: int|
        0 <= i < es.len() ==> (#[trigger] es[i] matches ElementView::CodeBlock(_, code) ==> hs[i].len()
            == lines(code).len())
}

fn span_of_text(text: String, look: SpanLook) -> (s: RenderSpan)
    ensures
        s.deep_view() == rspan(text@, look),
{
    RenderSpan { text, look }
}

/// A string of `n` copies of `c`.
fn repeat_char(c: char, n: usize) -> (s: String)
    ensures
        s@ == Seq::new(n as nat, |i: int| c),
{
    let mut s = String::new();
    let mut i: usize = 0;
    while i < n
        invariant
            i <= n,
            s@ == Seq::new(i as nat, |k: int| c),
        decreases n - i,
    {
        push_char(&mut s, c);
        assert(s@ =~= Seq::new((i + 1) as nat, |k: int| c));
        i = i + 1;
    }
    s
}

/// `s` without its trailing line breaks.
fn strip_newlines(s: &str) -> (t: String)
    ensures
        t@ == strip_trailing_newlines(s@),
{
    let chars = chars_of(s);
    let mut e = chars.len();
    assert(chars@.subrange(0, chars@.len() as int) =~= chars@);
    while e > 0 && chars[e - 1] == '\n'
        invariant
            e <= chars@.len(),
            strip_trailing_newlines(s@) == strip_trailing_newlines(chars@.subrange(0, e as int)),
            chars@ == s@,
        decreases e,
    {
        assert(chars@.subrange(0, e as int).drop_last() =~= chars@.subrange(0, e - 1));
        e = e - 1;
    }
    crate::text::string_from_range(&chars, 0, e)
}


proof fn lemma_encode_concat(a: Seq<char>, b: Seq<char>)
    ensures
        encode_utf8(a + b) == encode_utf8(a) + encode_utf8(b),
    decreases a.len(),
{
    if a.len() == 0 {
        assert(a + b =~= b);
        assert(encode_utf8(a) =~= Seq::<u8>::empty());
        assert(encode_utf8(a) + encode_utf8(b) =~= encode_utf8(b));
    } else {
        lemma_encode_concat(a.drop_first(), b);
        assert((a + b).drop_first() =~= a.drop_first() + b);
        assert((a + b)[0] == a[0]);
        assert(encode_utf8(a + b) =~= encode_scalar(a[0] as u32) + encode_utf8(a.drop_first() + b));
    }
}

/// The number of bytes of the UTF-8 encoding of `c`.
fn utf8_width(c: char) -> (n: usize)
    ensures
        n == encode_scalar(c as u32).len(),
{
    broadcast use vstd::utf8::char_is_scalar;
    let v = c as u32;
    if v <= 0x7F {
        1
    } else if v <= 0x7FF {
        2
    } else if v <= 0xFFFF {
        3
    } else {
        4
    }
}

/// `remaining` minus the byte length of `s`, or 0 when that is larger.
fn saturating_sub_bytes(remaining: usize, s: &str) -> (r: usize)
    ensures
        r == sat_sub(remaining as nat, byte_len(s@)),
{
    let chars = chars_of(s);
    let mut r = remaining;
    let mut k: usize = 0;
    assert(chars@.take(0) =~= Seq::<char>::empty());
    assert(encode_utf8(Seq::<char>::empty()) =~= Seq::<u8>::empty());
    while k < chars.len()
        invariant
            k <= chars@.len(),
            chars@ == s@,
            r == sat_sub(remaining as nat, byte_len(chars@.take(k as int))),
        decreases chars.len() - k,
    {
        proof {
            let c = chars@[k as int];
            assert(chars@.take(k + 1) =~= chars@.take(k as int) + seq![c]);
            lemma_encode_concat(chars@.take(k as int), seq![c]);
            assert(seq![c].drop_first() =~= Seq::<char>::empty());
            assert(encode_utf8(seq![c]) =~= encode_scalar(c as u32) + encode_utf8(Seq::<char>::empty()));
        }
        r = r.saturating_sub(utf8_width(chars[k]));
        k = k + 1;
    }
    assert(chars@.take(chars@.len() as int) =~= chars@);
    r
}

/// Lays out one line of a code block from what highlighting gave for it.
pub fn code_row_line(line: &str, ranges: &Option<Vec<ColoredText>>, width: usize) -> (r: RenderLine)
    ensures
        r.deep_view() == code_row(line@, ranges.deep_view(), width as nat),
{
    let mut spans: Vec<RenderSpan> = Vec::new();
    let indent = repeat_char(' ', 2);
    assert(indent@ =~= seq![' ', ' ']);
    spans.push(span_of_text(indent, SpanLook::CodePad));
    assert(spans.deep_view() =~= seq![rspan(seq![' ', ' '], SpanLook::CodePad)]);
    let ghost rs: Seq<ColoredTextView> = match ranges.deep_view() {
        Some(r) => r,
        None => Seq::empty(),
    };
    let empty_ranges = match ranges {
        Some(r) => r.len() == 0,
        None => true,
    };
    let mut remaining: usize = width.saturating_sub(2);
    if empty_ranges {
        let ghost before = spans.deep_view();
        spans.push(span_of_text(line.to_owned(), SpanLook::CodePlain));
        assert(spans.deep_view() =~= before.push(rspan(line@, SpanLook::CodePlain)));
        remaining = saturating_sub_bytes(remaining, line);
        assert(remaining == sat_sub(width as nat, 2 + byte_len(line@)));
        assert(rs.len() == 0);
        assert(spans.deep_view() =~= seq![rspan(seq![' ', ' '], SpanLook::CodePad)] + seq![rspan(line@, SpanLook::CodePlain)]);
    } else {
        let r = match ranges {
            Some(r) => r,
            None => {
                return RenderLine { spans };
            },
        };
        let mut k: usize = 0;
        assert(rs.take(0) =~= Seq::<ColoredTextView>::empty());
        while k < r.len()
            invariant
                k <= r@.len(),
                rs == r.deep_view(),
                spans.deep_view() == seq![rspan(seq![' ', ' '], SpanLook::CodePad)] + token_spans(rs.take(k as int)),
                remaining == sat_sub(width as nat, 2 + token_bytes(rs.take(k as int))),
            decreases r.len() - k,
        {
            assert(rs.take(k + 1).drop_last() =~= rs.take(k as int));
            assert(rs.take(k + 1).last() == r@[k as int].deep_view());
            let piece = &r[k];
            let text = strip_newlines(piece.text.as_str());
            if !text.as_str().is_empty() {
                let ghost before = spans.deep_view();
                let look = SpanLook::CodeToken(piece.red, piece.green, piece.blue);
                remaining = saturating_sub_bytes(remaining, text.as_str());
                spans.push(span_of_text(text, look));
                assert(spans.deep_view() =~= before.push(rspan(strip_trailing_newlines(piece.text@), look)));
            } else {
                assert(text@ =~= Seq::<char>::empty());
                assert(byte_len(text@) == 0);
            }
            k = k + 1;
        }
        assert(rs.take(r@.len() as int) =~= rs);
        assert(rs.len() > 0);
    }
    let ghost used: nat = if rs.len() == 0 {
        2 + byte_len(line@)
    } else {
        2 + token_bytes(rs)
    };
    assert(remaining == sat_sub(width as nat, used));
    assert(spans.deep_view() == seq![rspan(seq![' ', ' '], SpanLook::CodePad)] + (if rs.len() == 0 {
        seq![rspan(line@, SpanLook::CodePlain)]
    } else {
        token_spans(rs)
    }));
    if remaining > 0 {
        let ghost before = spans.deep_view();
        let pad = repeat_char(' ', remaining);
        assert(pad@ =~= spaces(remaining as nat));
        spans.push(span_of_text(pad, SpanLook::CodePad));
        assert(spans.deep_view() =~= before.push(rspan(spaces(remaining as nat), SpanLook::CodePad)));
    }
    RenderLine { spans }
}

/// A span of slide text.
fn text_render_span(span: &StyledSpan) -> (r: RenderSpan)
    ensures
        r.deep_view() == text_span(span.deep_view()),
{
    RenderSpan { text: span.text.clone(), look: SpanLook::Text(span.style) }
}

/// The span of `first`, if any.
pub open spec fn leading_span(first: Option<RenderSpan>) -> Seq<RenderSpanView> {
    match first {
        Some(f) => seq![f.deep_view()],
        None => Seq::empty(),
    }
}

/// A line holding `first` followed by the spans of slide text.
fn line_with_text(first: Option<RenderSpan>, spans: &Vec<StyledSpan>) -> (r: RenderLine)
    ensures
        r.deep_view() == leading_span(first) + text_spans(spans.deep_view()),
{
    let mut out: Vec<RenderSpan> = Vec::new();
    let ghost head: Seq<RenderSpanView> = leading_span(first);
    match first {
        Some(f) => {
            out.push(f);
        },
        None => {},
    }
    assert(out.deep_view() =~= head);
    let mut i: usize = 0;
    while i < spans.len()
        invariant
            i <= spans@.len(),
            out.deep_view() == head + text_spans(spans.deep_view()).take(i as int),
        decreases spans.len() - i,
    {
        let ghost before = out.deep_view();
        out.push(text_render_span(&spans[i]));
        assert(out.deep_view() =~= before.push(text_span(spans@[i as int].deep_view())));
        assert(head + text_spans(spans.deep_view()).take(i + 1) =~= before.push(
            text_span(spans@[i as int].deep_view()),
        ));
        i = i + 1;
    }
    assert(text_spans(spans.deep_view()).take(spans@.len() as int) =~= text_spans(spans.deep_view()));
    RenderLine { spans: out }
}

/// A line holding one span.
fn single_span_line(text: String, look: SpanLook) -> (r: RenderLine)
    ensures
        r.deep_view() == seq![rspan(text@, look)],
{
    let mut spans: Vec<RenderSpan> = Vec::new();
    spans.push(RenderSpan { text, look });
    let r = RenderLine { spans };
    assert(r.deep_view() =~= seq![rspan(text@, look)]);
    r
}

/// The lines of a code block, from what highlighting gave for each line of code.
pub fn code_block_lines(
    lang: Option<&str>,
    code: &str,
    width: usize,
    highlights: &Vec<Option<Vec<ColoredText>>>,
) -> (r: Vec<RenderLine>)
    requires
        highlights@.len() == lines(code@).len(),
    ensures
        r.deep_view() == code_block_lines_spec(
            match lang {
                Some(l) => Some(l@),
                None => None,
            },
            code@,
            width as nat,
            highlights.deep_view(),
        ),
{
    let mut out: Vec<RenderLine> = Vec::new();
    let pad = repeat_char(' ', width);
    assert(pad@ =~= spaces(width as nat));
    let pad_line = single_span_line(pad.clone(), SpanLook::CodePad);
    out.push(pad_line);
    assert(out.deep_view() =~= seq![seq![rspan(spaces(width as nat), SpanLook::CodePad)]]);
    let ghost lang_view = match lang {
        Some(l) => Some(l@),
        None => None,
    };
    let ghost expected = code_block_lines_spec(lang_view, code@, width as nat, highlights.deep_view());
    let ghost pad_view = seq![rspan(spaces(width as nat), SpanLook::CodePad)];
    let ghost label_view: Seq<Seq<RenderSpanView>> = match lang_view {
        Some(l) => {
            let text = seq![' ', ' '] + l;
            seq![seq![rspan(text + spaces(sat_sub(width as nat, byte_len(text))), SpanLook::CodeLabel)]]
        },
        None => Seq::empty(),
    };
    match lang {
        Some(l) => {
            let mut label = repeat_char(' ', 2);
            label.append(l);
            assert(label@ =~= seq![' ', ' '] + l@);
            let fill = saturating_sub_bytes(width, label.as_str());
            let spaces_str = repeat_char(' ', fill);
            assert(spaces_str@ =~= spaces(fill as nat));
            label.append(spaces_str.as_str());
            assert(label@ == seq![' ', ' '] + l@ + spaces(sat_sub(width as nat, byte_len(seq![' ', ' '] + l@))));
            let ghost before = out.deep_view();
            out.push(single_span_line(label, SpanLook::CodeLabel));
            assert(out.deep_view() =~= before + label_view);
        },
        None => {},
    }
    assert(out.deep_view() =~= seq![pad_view] + label_view);
    let chars = chars_of(code);
    let code_lines = split_lines(&chars);
    let ghost rows = Seq::new(
        lines(code@).len(),
        |j: int| code_row(lines(code@)[j], highlights.deep_view()[j], width as nat),
    );
    let mut j: usize = 0;
    while j < code_lines.len()
        invariant
            j <= code_lines@.len(),
            code_lines.deep_view() == lines(code@),
            highlights@.len() == lines(code@).len(),
            rows == Seq::new(
                lines(code@).len(),
                |j: int| code_row(lines(code@)[j], highlights.deep_view()[j], width as nat),
            ),
            out.deep_view() == seq![pad_view] + label_view + rows.take(j as int),
        decreases code_lines.len() - j,
    {
        assert(code_lines.deep_view()[j as int] == code_lines@[j as int]@) by {
            assert(code_lines@[j as int].deep_view() =~= code_lines@[j as int]@);
        }
        let line = crate::text::string_from_chars(&code_lines[j]);
        let row = code_row_line(line.as_str(), &highlights[j], width);
        let ghost before = out.deep_view();
        out.push(row);
        assert(out.deep_view() =~= before.push(rows[j as int]));
        assert(rows.take(j + 1) =~= rows.take(j as int).push(rows[j as int]));
        assert(seq![pad_view] + label_view + rows.take(j + 1) =~= before.push(rows[j as int]));
        j = j + 1;
    }
    assert(rows.take(code_lines@.len() as int) =~= rows);
    let ghost before = out.deep_view();
    let end_line = single_span_line(pad, SpanLook::CodePad);
    out.push(end_line);
    assert(out.deep_view() =~= before.push(pad_view));
    assert(out.deep_view() =~= expected);
    out
}

/// The lines of one slide element.
fn element_render_lines(
    element: &SlideElement,
    width: usize,
    highlights: &Vec<Option<Vec<ColoredText>>>,
) -> (r: Vec<RenderLine>)
    requires
        element.deep_view() matches ElementView::CodeBlock(_, code) ==> highlights@.len() == lines(code).len(),
    ensures
        r.deep_view() == element_lines(element.deep_view(), width as nat, highlights.deep_view()),
{
    let blank = RenderLine { spans: Vec::new() };
    assert(blank.deep_view() =~= Seq::<RenderSpanView>::empty());
    let ghost expected = element_lines(element.deep_view(), width as nat, highlights.deep_view());
    let mut out: Vec<RenderLine> = Vec::new();
    match element {
        SlideElement::Heading(level, text) => {
            out.push(single_span_line(text.clone(), SpanLook::Heading(*level)));
            out.push(blank);
            assert(out.deep_view() =~= expected);
        },
        SlideElement::Paragraph(spans) => {
            let line = line_with_text(None, spans);
            assert(line.deep_view() =~= text_spans(spans.deep_view()));
            out.push(line);
            out.push(blank);
            assert(out.deep_view() =~= expected);
        },
        SlideElement::CodeBlock(lang, code) => {
            let lang_str: Option<&str> = match lang {
                Some(l) => Some(l.as_str()),
                None => None,
            };
            out = code_block_lines(lang_str, code.as_str(), width, highlights);
            let ghost before = out.deep_view();
            out.push(blank);
            assert(out.deep_view() =~= before.push(Seq::<RenderSpanView>::empty()));
            assert(out.deep_view() =~= expected);
        },
        SlideElement::BulletList(items) | SlideElement::NumberedList(items) => {
            let numbered = match element {
                SlideElement::NumberedList(_) => true,
                _ => false,
            };
            let ghost item_lines = Seq::new(
                items@.len(),
                |i: int| seq![rspan(if numbered { number_marker(i) } else { bullet_marker() }, SpanLook::ListMarker)]
                    + text_spans(items.deep_view()[i]),
            );
            let mut i: usize = 0;
            while i < items.len()
                invariant
                    i <= items@.len(),
                    out.deep_view() == item_lines.take(i as int),
                    item_lines == Seq::new(
                        items@.len(),
                        |i: int| seq![rspan(if numbered { number_marker(i) } else { bullet_marker() }, SpanLook::ListMarker)]
                            + text_spans(items.deep_view()[i]),
                    ),
                    i < usize::MAX || i == items@.len(),
                decreases items.len() - i,
            {
                let mut marker = String::new();
                if numbered {
                    push_char(&mut marker, ' ');
                    push_char(&mut marker, ' ');
                    push_decimal(&mut marker, i + 1);
                    push_char(&mut marker, '.');
                    push_char(&mut marker, ' ');
                    assert(marker@ =~= number_marker(i as int));
                } else {
                    push_char(&mut marker, ' ');
                    push_char(&mut marker, ' ');
                    push_char(&mut marker, '\u{2022}');
                    push_char(&mut marker, ' ');
                    assert(marker@ =~= bullet_marker());
                }
                let ghost marker_view = marker@;
                let first = RenderSpan { text: marker, look: SpanLook::ListMarker };
                let line = line_with_text(Some(first), &items[i]);
                let ghost before = out.deep_view();
                out.push(line);
                assert(items.deep_view()[i as int] == items@[i as int].deep_view());
                assert(line.deep_view() == seq![rspan(marker_view, SpanLook::ListMarker)] + text_spans(items.deep_view()[i as int]));
                assert(line.deep_view() == item_lines[i as int]);
                assert(item_lines.take(i + 1) =~= item_lines.take(i as int).push(item_lines[i as int]));
                assert(out.deep_view() =~= item_lines.take(i + 1));
                i = i + 1;
            }
            assert(item_lines.take(items@.len() as int) =~= item_lines);
            let ghost before = out.deep_view();
            out.push(blank);
            assert(out.deep_view() =~= before.push(Seq::<RenderSpanView>::empty()));
            assert(out.deep_view() =~= expected);
        },
        SlideElement::HorizontalRule => {
            let n = if width < 60 {
                width
            } else {
                60
            };
            let rule = repeat_char('\u{2500}', n);
            assert(rule@ =~= rule_chars(n as nat));
            out.push(single_span_line(rule, SpanLook::Rule));
            out.push(blank);
            assert(out.deep_view() =~= expected);
        },
        SlideElement::BlankLine => {
            out.push(blank);
            assert(out.deep_view() =~= expected);
        },
    }
    out
}

/// The lines of a slide's elements, with the blank line after the last one removed.
pub fn layout_lines(
    elements: &Vec<SlideElement>,
    width: usize,
    highlights: &Vec<Vec<Option<Vec<ColoredText>>>>,
) -> (r: Vec<RenderLine>)
    requires
        highlights_fit(elements.deep_view(), highlights.deep_view()),
    ensures
        r.deep_view() == layout_spec(elements.deep_view(), width as nat, highlights.deep_view()),
{
    let ghost es = elements.deep_view();
    let ghost hs = highlights.deep_view();
    let mut out: Vec<RenderLine> = Vec::new();
    let mut i: usize = 0;
    assert(out.deep_view() =~= elements_lines_upto(es, width as nat, hs, 0));
    while i < elements.len()
        invariant
            i <= elements@.len(),
            es == elements.deep_view(),
            hs == highlights.deep_view(),
            highlights_fit(es, hs),
            out.deep_view() == elements_lines_upto(es, width as nat, hs, i as int),
        decreases elements.len() - i,
    {
        assert(es[i as int] == elements@[i as int].deep_view());
        assert(hs[i as int] == highlights@[i as int].deep_view());
        let more = element_render_lines(&elements[i], width, &highlights[i]);
        let ghost before = out.deep_view();
        let mut k: usize = 0;
        let mut more = more;
        let ghost more_view = more.deep_view();
        let mut rest: Vec<RenderLine> = Vec::new();
        std::mem::swap(&mut rest, &mut more);
        let mut taken = rest;
        let ghost n = taken@.len();
        let mut moved: Vec<RenderLine> = Vec::new();
        while taken.len() > 0
            invariant
                taken.deep_view() + moved.deep_view() == more_view,
            decreases taken.len(),
        {
            let l = taken.pop().unwrap();
            let ghost mv = moved.deep_view();
            moved.insert(0, l);
            assert(moved.deep_view() =~= seq![l.deep_view()] + mv);
            assert(taken.deep_view() + moved.deep_view() =~= more_view);
        }
        assert(taken.deep_view() =~= Seq::<Seq<RenderSpanView>>::empty());
        assert(moved.deep_view() =~= more_view);
        out.append(&mut moved);
        assert(out.deep_view() =~= before + more_view);
        i = i + 1;
    }
    if out.len() > 0 && out[out.len() - 1].spans.len() == 0 {
        let ghost before = out.deep_view();
        out.pop();
        assert(out.deep_view() =~= before.drop_last());
    }
    out
}

// ---------------------------------------------------------------------------
// Syntax highlighting
// ---------------------------------------------------------------------------

/// Holds preloaded syntax highlighting assets for reuse across slides.
///
/// Creating the syntax and theme sets is expensive, so this struct should be
/// created once at startup and passed by reference to each `SlideWidget`.
/// It only ever holds syntect's default syntaxes and themes.
pub struct SyntaxHighlighter {
    syntax_set: SyntaxSet,
    theme_set: ThemeSet,
}

/// The names of the syntaxes that a syntax set holds.
pub uninterp spec fn syntax_names(set: SyntaxSet) -> Set<Seq<char>>;

/// The names of the themes that a theme set holds (the keys of its map).
pub uninterp spec fn theme_names(themes: ThemeSet) -> Set<Seq<char>>;

/// The set holds exactly syntect's bundled syntax definitions.
pub uninterp spec fn bundled_syntaxes(set: SyntaxSet) -> bool;

/// The set holds exactly syntect's bundled themes.
pub uninterp spec fn bundled_themes(themes: ThemeSet) -> bool;

/// The name of a syntax when it is one of syntect's bundled syntax
/// definitions; `None` says nothing of it.
pub uninterp spec fn bundled_name(syntax: SyntaxReference) -> Option<Seq<char>>;

/// The name of the syntax that `SyntaxSet::find_syntax_by_token` finds for a
/// language token in syntect's bundled syntax set, if any.
pub uninterp spec fn bundled_syntax_for(token: Seq<char>) -> Option<Seq<char>>;

/// What a highlighting state was made for: the bundled syntax it parses with,
/// when it is one (`HighlightLines::new` keeps it).
pub uninterp spec fn highlighting_syntax(state: HighlightLines) -> Option<Seq<char>>;

/// What a highlighting state was made for: the bundled theme it colours with,
/// when it is one.
pub uninterp spec fn highlighting_theme(state: HighlightLines) -> Option<Seq<char>>;

/// The lines that have been highlighted with a state, in order.
pub uninterp spec fn lines_fed(state: HighlightLines) -> Seq<Seq<char>>;

/// The pieces that `HighlightLines::highlight_line` gives for `line` with
/// syntect's bundled syntax and theme of the given names, after the lines
/// `before` (`None` when syntect reports an error).
pub uninterp spec fn bundled_highlight(
    syntax: Seq<char>,
    theme: Seq<char>,
    before: Seq<Seq<char>>,
    line: Seq<char>,
) -> Option<Seq<ColoredTextView>>;

/// The texts of highlighted pieces, joined in order.
pub open spec fn pieces_text(pieces: Seq<ColoredTextView>) -> Seq<char>
    decreases pieces.len(),
{
    if pieces.len() == 0 {
        Seq::empty()
    } else {
        pieces_text(pieces.drop_last()) + pieces.last().text
    }
}

/// The name of syntect's plain text syntax.
pub open spec fn plain_text_name() -> Seq<char> {
    "Plain Text"@
}

/// The theme code blocks are coloured with.
pub open spec fn code_theme() -> Seq<char> {
    "base16-ocean.dark"@
}

/// The names of the themes that `ThemeSet::load_defaults` holds, as its
/// documentation lists them.
pub open spec fn default_theme_names() -> Set<Seq<char>> {
    set![
        "base16-ocean.dark"@,
        "base16-eighties.dark"@,
        "base16-mocha.dark"@,
        "base16-ocean.light"@,
        "InspiredGitHub"@,
        "Solarized (dark)"@,
        "Solarized (light)"@,
    ]
}

/// `SyntaxSet::load_defaults_newlines`: syntect's bundled syntax definitions.
/// Among them is the plain text syntax, which syntect's documentation of
/// `find_syntax_plain_text` says every syntax set ought to have.
#[verifier::external_body]
fn load_default_syntaxes() -> (set: SyntaxSet)
    ensures
        bundled_syntaxes(set),
        syntax_names(set).contains(plain_text_name()),
{
    SyntaxSet::load_defaults_newlines()
}

/// `ThemeSet::load_defaults`: syntect's bundled themes, under the names that
/// its documentation lists.
#[verifier::external_body]
fn load_default_themes() -> (themes: ThemeSet)
    ensures
        bundled_themes(themes),
        theme_names(themes) == default_theme_names(),
{
    ThemeSet::load_defaults()
}

/// `SyntaxSet::find_syntax_by_token`: the syntax for a language token (a
/// file extension or a name), if the set has one. In the bundled set, that
/// is the bundled syntax `bundled_syntax_for(token)` names.
#[verifier::external_body]
fn find_syntax_by_token<'a>(set: &'a SyntaxSet, token: &str) -> (r: Option<&'a SyntaxReference>)
    ensures
        bundled_syntaxes(*set) ==> (r is None <==> bundled_syntax_for(token@) is None),
        bundled_syntaxes(*set) ==> (r matches Some(s) ==> bundled_name(*s) == bundled_syntax_for(token@)),
{
    set.find_syntax_by_token(token)
}

/// `SyntaxSet::find_syntax_plain_text`: the syntax named "Plain Text". It
/// panics on a set without one, so only sets that hold one are admitted.
#[verifier::external_body]
fn plain_text_syntax(set: &SyntaxSet) -> (r: &SyntaxReference)
    requires
        syntax_names(*set).contains(plain_text_name()),
    ensures
        bundled_syntaxes(*set) ==> bundled_name(*r) == Some(plain_text_name()),
{
    set.find_syntax_plain_text()
}

/// `HighlightLines::new` for `syntax` with the theme of that name, before any
/// line. Indexing the theme map panics on a missing name, so only names that
/// the set holds are admitted.
#[verifier::external_body]
fn start_highlighting<'a>(syntax: &SyntaxReference, themes: &'a ThemeSet, theme: &str) -> (state: HighlightLines<'a>)
    requires
        theme_names(*themes).contains(theme@),
    ensures
        lines_fed(state) == Seq::<Seq<char>>::empty(),
        highlighting_syntax(state) == bundled_name(*syntax),
        bundled_themes(*themes) ==> highlighting_theme(state) == Some(theme@),
{
    HighlightLines::new(syntax, &themes.themes[theme])
}

/// `HighlightLines::highlight_line`: the coloured pieces of the next line of
/// code (`None` when syntect reports an error), each as its foreground colour
/// and text. Its documentation says that the pieces' texts, joined in order,
/// give back the line. With the bundled syntaxes, syntax and theme, the
/// pieces are `bundled_highlight` of the lines highlighted before and this one.
#[verifier::external_body]
fn highlight_line(state: &mut HighlightLines<'_>, line: &str, set: &SyntaxSet) -> (r: Option<Vec<ColoredText>>)
    ensures
        lines_fed(*final(state)) == lines_fed(*old(state)).push(line@),
        highlighting_syntax(*final(state)) == highlighting_syntax(*old(state)),
        highlighting_theme(*final(state)) == highlighting_theme(*old(state)),
        r matches Some(pieces) ==> pieces_text(pieces.deep_view()) == line@,
        bundled_syntaxes(*set) ==> (highlighting_syntax(*old(state)) matches Some(sy) ==> (
        highlighting_theme(*old(state)) matches Some(th) ==> r.deep_view() == bundled_highlight(
            sy,
            th,
            lines_fed(*old(state)),
            line@,
        ))),
{
    let ranges = state.highlight_line(line, set).ok()?;
    Some(
        ranges.into_iter().map(|(style, text)| ColoredText {
            red: style.foreground.r,
            green: style.foreground.g,
            blue: style.foreground.b,
            text: text.to_string(),
        }).collect(),
    )
}

/// The syntax a code block is highlighted with: the bundled syntax for its
/// language, plain text when there is none or syntect does not know it.
pub open spec fn code_syntax(lang: Option<Seq<char>>) -> Seq<char> {
    match lang {
        Some(l) => match bundled_syntax_for(l) {
            Some(n) => n,
            None => plain_text_name(),
        },
        None => plain_text_name(),
    }
}

/// A code block in a language that syntect's bundled set knows is highlighted
/// with that language's syntax; only an unknown or absent language falls back
/// to the plain text syntax. Either way the code theme colours it.
pub proof fn law_code_highlighted_with_its_language(lang: Option<Seq<char>>, code: Seq<char>)
    ensures
        lang matches Some(l) ==> (bundled_syntax_for(l) matches Some(n) ==> code_highlights(lang, code)
            == block_highlights(n, "base16-ocean.dark"@, lines(code))),
        lang matches Some(l) ==> (bundled_syntax_for(l) is None ==> code_highlights(lang, code)
            == block_highlights("Plain Text"@, "base16-ocean.dark"@, lines(code))),
        lang is None ==> code_highlights(lang, code) == block_highlights(
            "Plain Text"@,
            "base16-ocean.dark"@,
            lines(code),
        ),
{
}

/// The lines as they are fed to the highlighter, each with its line break.
pub open spec fn fed(ls: Seq<Seq<char>>) -> Seq<Seq<char>> {
    Seq::new(ls.len(), |k: int| ls[k].push('\n'))
}

/// The highlights of the lines of a code block, highlighted in order with
/// the bundled syntax and theme of the given names.
pub open spec fn block_highlights(
    syntax: Seq<char>,
    theme: Seq<char>,
    ls: Seq<Seq<char>>,
) -> Seq<Option<Seq<ColoredTextView>>> {
    Seq::new(
        ls.len(),
        |j: int| bundled_highlight(syntax, theme, fed(ls.take(j)), ls[j].push('\n')),
    )
}

/// Each highlighted line's pieces give back the line and its line break.
pub open spec fn highlights_cover(
    ls: Seq<Seq<char>>,
    hs: Seq<Option<Seq<ColoredTextView>>>,
) -> bool {
    &&& hs.len() == ls.len()
    &&& forall|j: int|
        0 <= j < ls.len() ==> (#[trigger] hs[j] matches Some(p) ==> pieces_text(p) == ls[j].push('\n'))
}

/// The highlights of a code block of the given language: those of its lines
/// with its syntax and the code theme.
pub open spec fn code_highlights(lang: Option<Seq<char>>, code: Seq<char>) -> Seq<Option<Seq<ColoredTextView>>> {
    block_highlights(code_syntax(lang), code_theme(), lines(code))
}

impl SyntaxHighlighter {
    /// The highlighter holds a plain text syntax and exactly syntect's
    /// default themes.
    #[verifier::type_invariant]
    spec fn holds_defaults(self) -> bool {
        &&& bundled_syntaxes(self.syntax_set)
        &&& syntax_names(self.syntax_set).contains(plain_text_name())
        &&& bundled_themes(self.theme_set)
        &&& theme_names(self.theme_set) == default_theme_names()
    }

    /// The names of the syntaxes the highlighter knows.
    pub closed spec fn syntaxes(&self) -> Set<Seq<char>> {
        syntax_names(self.syntax_set)
    }

    /// The names of the themes the highlighter holds.
    pub closed spec fn themes(&self) -> Set<Seq<char>> {
        theme_names(self.theme_set)
    }

    /// The highlighter holds exactly syntect's bundled syntaxes and themes.
    pub closed spec fn is_bundled(&self) -> bool {
        bundled_syntaxes(self.syntax_set) && bundled_themes(self.theme_set)
    }

    /// Creates a new syntax highlighter with default syntax definitions and themes.
    pub fn new() -> (h: Self)
        ensures
            h.is_bundled(),
            h.syntaxes().contains(plain_text_name()),
            h.themes() == default_theme_names(),
    {
        SyntaxHighlighter { syntax_set: load_default_syntaxes(), theme_set: load_default_themes() }
    }

    /// Highlights the lines of a code block (in the language `lang`, plain
    /// text when syntect does not know it) with the `base16-ocean.dark` theme.
    pub fn highlight_code(&self, lang: Option<&str>, code: &str) -> (hs: Vec<Option<Vec<ColoredText>>>)
        ensures
            hs.deep_view() == code_highlights(
                match lang {
                    Some(l) => Some(l@),
                    None => None,
                },
                code@,
            ),
            highlights_cover(lines(code@), hs.deep_view()),
    {
        proof {
            use_type_invariant(self);
            reveal_strlit("base16-ocean.dark");
            reveal_strlit("Plain Text");
        }
        let ghost lang_view = match lang {
            Some(l) => Some(l@),
            None => None,
        };
        let ghost sy = code_syntax(lang_view);
        let syntax = match lang {
            Some(l) => match find_syntax_by_token(&self.syntax_set, l) {
                Some(s) => s,
                None => plain_text_syntax(&self.syntax_set),
            },
            None => plain_text_syntax(&self.syntax_set),
        };
        assert(bundled_name(*syntax) == Some(sy));
        assert(default_theme_names().contains("base16-ocean.dark"@));
        let mut state = start_highlighting(syntax, &self.theme_set, "base16-ocean.dark");
        let chars = chars_of(code);
        let code_lines = split_lines(&chars);
        let ghost ls = lines(code@);
        let ghost want = block_highlights(sy, code_theme(), ls);
        let mut hs: Vec<Option<Vec<ColoredText>>> = Vec::new();
        let mut j: usize = 0;
        assert(fed(ls.take(0)) =~= Seq::<Seq<char>>::empty());
        assert(hs.deep_view() =~= want.take(0));
        while j < code_lines.len()
            invariant
                j <= code_lines@.len(),
                code_lines.deep_view() == ls,
                ls == lines(code@),
                want == block_highlights(sy, code_theme(), ls),
                bundled_syntaxes(self.syntax_set),
                highlighting_syntax(state) == Some(sy),
                highlighting_theme(state) == Some(code_theme()),
                lines_fed(state) == fed(ls.take(j as int)),
                hs.deep_view() == want.take(j as int),
                forall|k: int|
                    0 <= k < j ==> (#[trigger] hs.deep_view()[k] matches Some(p) ==> pieces_text(p)
                        == ls[k].push('\n')),
            decreases code_lines.len() - j,
        {
            let mut line = crate::text::string_from_chars(&code_lines[j]);
            assert(line@ == ls[j as int]) by {
                assert(code_lines.deep_view()[j as int] == code_lines@[j as int]@);
            }
            push_char(&mut line, '\n');
            let h = highlight_line(&mut state, line.as_str(), &self.syntax_set);
            let ghost before = hs.deep_view();
            hs.push(h);
            assert(hs.deep_view() =~= before.push(h.deep_view()));
            assert(want.take(j as int).push(want[j as int]) =~= want.take(j + 1));
            assert(fed(ls.take(j as int)).push(ls[j as int].push('\n')) =~= fed(ls.take(j + 1)));
            j = j + 1;
        }
        assert(want.take(ls.len() as int) =~= want);
        hs
    }
}

impl Default for SyntaxHighlighter {
    /// The same as [`SyntaxHighlighter::new`].
    fn default() -> (h: Self)
        ensures
            h.is_bundled(),
            h.syntaxes().contains(plain_text_name()),
            h.themes() == default_theme_names(),
    {
        Self::new()
    }
}

/// A slide prepared for the terminal: the slide and the highlighter for its code.
pub struct SlideWidget<'a> {
    pub slide: &'a Slide,
    pub highlighter: &'a SyntaxHighlighter,
}

impl<'a> SlideWidget<'a> {
    /// Creates a new `SlideWidget` for the given slide.
    pub fn new(slide: &'a Slide, highlighter: &'a SyntaxHighlighter) -> (w: Self)
        ensures
            w.slide == slide,
            w.highlighter == highlighter,
    {
        SlideWidget { slide, highlighter }
    }

    /// Builds all content lines from the slide elements for the given width,
    /// with syntect's colours for the code blocks; every highlighted line of
    /// code gives back its text.
    pub fn build_lines(&self, width: usize) -> (r: Vec<RenderLine>)
        ensures
            r.deep_view() == layout_spec(
                self.slide.elements.deep_view(),
                width as nat,
                slide_highlights(self.slide.elements.deep_view()),
            ),
            highlights_fit(
                self.slide.elements.deep_view(),
                slide_highlights(self.slide.elements.deep_view()),
            ),
            slide_highlights_cover(
                self.slide.elements.deep_view(),
                slide_highlights(self.slide.elements.deep_view()),
            ),
    {
        let elements = &self.slide.elements;
        let ghost es = elements.deep_view();
        let ghost want = slide_highlights(es);
        let mut hs: Vec<Vec<Option<Vec<ColoredText>>>> = Vec::new();
        let mut i: usize = 0;
        assert(hs.deep_view() =~= want.take(0));
        while i < elements.len()
            invariant
                i <= elements@.len(),
                es == elements.deep_view(),
                want == slide_highlights(es),
                hs.deep_view() == want.take(i as int),
                forall|k: int|
                    0 <= k < i ==> (#[trigger] es[k] matches ElementView::CodeBlock(_, code)
                        ==> highlights_cover(lines(code), want[k])),
            decreases elements.len() - i,
        {
            assert(es[i as int] == elements@[i as int].deep_view());
            let h = match &elements[i] {
                SlideElement::CodeBlock(lang, code) => {
                    let lang_str: Option<&str> = match lang {
                        Some(l) => Some(l.as_str()),
                        None => None,
                    };
                    self.highlighter.highlight_code(lang_str, code.as_str())
                },
                _ => {
                    let v: Vec<Option<Vec<ColoredText>>> = Vec::new();
                    assert(v.deep_view() =~= Seq::<Option<Seq<ColoredTextView>>>::empty());
                    v
                },
            };
            let ghost before = hs.deep_view();
            hs.push(h);
            assert(hs.deep_view() =~= before.push(want[i as int]));
            assert(want.take(i as int).push(want[i as int]) =~= want.take(i + 1));
            i = i + 1;
        }
        assert(want.take(es.len() as int) =~= want);
        proof {
            assert forall|k: int| 0 <= k < es.len() implies (#[trigger] es[k] matches ElementView::CodeBlock(_, code)
                ==> want[k].len() == lines(code).len()) by {}
        }
        let lines_out = layout_lines(elements, width, &hs);
        lines_out
    }
}

/// The highlights of a slide's elements: for each code block those of its
/// lines, nothing for other elements.
pub open spec fn slide_highlights(es: Seq<ElementView>) -> Seq<Seq<Option<Seq<ColoredTextView>>>> {
    Seq::new(
        es.len(),
        |i: int|
            match es[i] {
                ElementView::CodeBlock(lang, code) => code_highlights(lang, code),
                _ => Seq::empty(),
            },
    )
}

/// Every code block's highlighted lines give back their text.
pub open spec fn slide_highlights_cover(
    es: Seq<ElementView>,
    hs: Seq<Seq<Option<Seq<ColoredTextView>>>>,
) -> bool {
    forall|i: int|
        0 <= i < es.len() ==> (#[trigger] es[i] matches ElementView::CodeBlock(_, code)
            ==> highlights_cover(lines(code), hs[i]))
}

/// The vertical placement of `content_lines` lines in `available` rows: the
/// offset from the top that centres them, and the rows left below it. The line
/// count is taken modulo 2^16, as a `u16`.
pub fn centered_rows(content_lines: usize, available: u16) -> (r: (u16, u16))
    ensures
        r.0 == (if (content_lines as u16) < available {
            (available - (content_lines as u16)) / 2
        } else {
            0
        }),
        r.1 == available - r.0,
{
    let content_height = content_lines as u16;
    let y_offset = if content_height < available {
        (available - content_height) / 2
    } else {
        0
    };
    (y_offset, available - y_offset)
}

} // verus!
