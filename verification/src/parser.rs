//! Markdown presentations: splitting a document into slides at `---` lines,
//! building each slide's elements from the markdown event stream, and putting
//! the presentation together.

use vstd::prelude::*;
use vstd::string::StringExecFns;
use crate::markdown_events::{
    heading_levels_valid, markdown_events, next_closing, next_leaf, next_opening, open_event_stream, peek_event_kind,
    pending_events, EventKind, MdEvent, MdEventView,
};
use crate::slide::{
    empty_slide, span_of, ElementView, Presentation, PresentationView, SlideElement, SlideView,
    Slide, SpanView, StyledSpan, TextStyle,
};
use crate::text::{
    chars_equal, chars_of, extend_chars, has_prefix, is_blank, is_trimmed, lemma_trim_end_shape,
    lemma_trim_is_trimmed,
    lines, push_char, split_lines, starts_with_chars, string_from_chars, trim, trim_bounds,
    trim_chars, trim_end, trim_end_chars,
};

verus! {

// ---------------------------------------------------------------------------
// Splitting a document into slides
// ---------------------------------------------------------------------------

/// A line that opens or closes a fenced code block (after trimming).
pub open spec fn is_fence(t: Seq<char>) -> bool {
    has_prefix(t, seq!['`', '`', '`']) || has_prefix(t, seq!['~', '~', '~'])
}

/// The slide separator `---`.
pub open spec fn separator() -> Seq<char> {
    seq!['-', '-', '-']
}

/// The state of the splitter after some lines: the finished slides, the lines
/// of the slide being collected, and whether a fenced code block is open.
pub struct SplitState {
    pub slides: Seq<Seq<char>>,
    pub current: Seq<char>,
    pub in_code: bool,
}

/// `line` added to the text collected so far, on a line of its own.
pub open spec fn append_line(current: Seq<char>, line: Seq<char>) -> Seq<char> {
    if current.len() == 0 {
        line
    } else {
        current.push('\n') + line
    }
}

/// One line through the splitter: fences toggle the code-block flag, and a
/// `---` line outside code blocks closes the current slide.
pub open spec fn split_step(st: SplitState, line: Seq<char>) -> SplitState {
    let t = trim(line);
    let in_code = if is_fence(t) {
        !st.in_code
    } else {
        st.in_code
    };
    if !in_code && t == separator() {
        SplitState { slides: st.slides.push(trim(st.current)), current: Seq::empty(), in_code }
    } else {
        SplitState { slides: st.slides, current: append_line(st.current, line), in_code }
    }
}

/// The splitter's state after `ls`.
pub open spec fn split_run(ls: Seq<Seq<char>>) -> SplitState
    decreases ls.len(),
{
    if ls.len() == 0 {
        SplitState { slides: Seq::empty(), current: Seq::empty(), in_code: false }
    } else {
        split_step(split_run(ls.drop_last()), ls.last())
    }
}

/// The slides of a markdown document: its lines cut at `---` lines outside
/// fenced code blocks, each slide trimmed.
pub open spec fn split_slides_spec(content: Seq<char>) -> Seq<Seq<char>> {
    let st = split_run(lines(content));
    st.slides.push(trim(st.current))
}

/// Splits markdown content into individual slide strings using `---` as separators.
///
/// The `---` separator must appear on its own line (after trimming whitespace).
/// Separators inside fenced code blocks are ignored.
pub fn split_slides(content: &str) -> (slides: Vec<String>)
    ensures
        slides.deep_view() == split_slides_spec(content@),
{
    let chars = chars_of(content);
    let ls = split_lines(&chars);
    let backticks = vec!['`', '`', '`'];
    let tildes = vec!['~', '~', '~'];
    let dashes = vec!['-', '-', '-'];
    assert(backticks@ == seq!['`', '`', '`']);
    assert(tildes@ == seq!['~', '~', '~']);
    assert(dashes@ == separator());

    let mut slides: Vec<String> = Vec::new();
    let mut current: Vec<char> = Vec::new();
    let mut in_code_block = false;
    let mut i: usize = 0;
    assert(slides.deep_view() =~= Seq::<Seq<char>>::empty());
    assert(current@ =~= Seq::<char>::empty());
    assert(ls.deep_view().take(0) =~= Seq::<Seq<char>>::empty());
    while i < ls.len()
        invariant
            i <= ls@.len(),
            ls.deep_view() == lines(content@),
            backticks@ == seq!['`', '`', '`'],
            tildes@ == seq!['~', '~', '~'],
            dashes@ == separator(),
            split_run(ls.deep_view().take(i as int)) == (SplitState {
                slides: slides.deep_view(),
                current: current@,
                in_code: in_code_block,
            }),
        decreases ls.len() - i,
    {
        let line = &ls[i];
        assert(ls.deep_view()[i as int] == line@);
        assert(ls.deep_view().take(i + 1).drop_last() =~= ls.deep_view().take(i as int));
        let trimmed = trim_chars(line);
        if starts_with_chars(&trimmed, &backticks) || starts_with_chars(&trimmed, &tildes) {
            in_code_block = !in_code_block;
        }
        if !in_code_block && chars_equal(&trimmed, &dashes) {
            let piece = trim_chars(&current);
            let ghost old_slides = slides.deep_view();
            slides.push(string_from_chars(&piece));
            assert(slides.deep_view() =~= old_slides.push(piece@));
            current = Vec::new();
            assert(current@ =~= Seq::<char>::empty());
        } else {
            let ghost old_current = current@;
            if current.len() > 0 {
                current.push('\n');
            }
            extend_chars(&mut current, line);
            assert(current@ =~= append_line(old_current, line@));
        }
        i = i + 1;
    }
    assert(ls.deep_view().take(ls@.len() as int) =~= ls.deep_view());
    let piece = trim_chars(&current);
    let ghost old_slides = slides.deep_view();
    slides.push(string_from_chars(&piece));
    assert(slides.deep_view() =~= old_slides.push(piece@));
    if slides.len() == 0 {
        slides.push(String::new());
    }
    slides
}

/// A markdown document always splits into at least one slide.
pub proof fn law_split_has_a_slide(content: Seq<char>)
    ensures
        split_slides_spec(content).len() >= 1,
{
}

proof fn lemma_split_run_trimmed(ls: Seq<Seq<char>>)
    ensures
        forall|k: int|
            0 <= k < split_run(ls).slides.len() ==> is_trimmed(#[trigger] split_run(ls).slides[k]),
    decreases ls.len(),
{
    if ls.len() > 0 {
        lemma_split_run_trimmed(ls.drop_last());
        lemma_trim_is_trimmed(split_run(ls.drop_last()).current);
    }
}

/// Every slide comes out without leading or trailing whitespace.
pub proof fn law_split_slides_are_trimmed(content: Seq<char>)
    ensures
        forall|k: int|
            0 <= k < split_slides_spec(content).len() ==> is_trimmed(
                #[trigger] split_slides_spec(content)[k],
            ),
{
    let st = split_run(lines(content));
    lemma_split_run_trimmed(lines(content));
    lemma_trim_is_trimmed(st.current);
    assert forall|k: int| 0 <= k < split_slides_spec(content).len() implies is_trimmed(
        #[trigger] split_slides_spec(content)[k],
    ) by {
        if k < st.slides.len() {
            assert(split_slides_spec(content)[k] == st.slides[k]);
        }
    }
}

proof fn lemma_split_run_no_separator(ls: Seq<Seq<char>>)
    requires
        forall|k: int| 0 <= k < ls.len() ==> trim(#[trigger] ls[k]) != separator(),
    ensures
        split_run(ls).slides.len() == 0,
    decreases ls.len(),
{
    if ls.len() > 0 {
        lemma_split_run_no_separator(ls.drop_last());
        assert(trim(ls[ls.len() - 1]) != separator());
    }
}

/// A document with no `---` line at all is a single slide.
pub proof fn law_no_separator_single_slide(content: Seq<char>)
    requires
        forall|k: int|
            0 <= k < lines(content).len() ==> trim(#[trigger] lines(content)[k]) != separator(),
    ensures
        split_slides_spec(content).len() == 1,
{
    lemma_split_run_no_separator(lines(content));
}

/// Lines joined as the splitter collects them (`append_line`, one after the other).
pub open spec fn join_lines(ls: Seq<Seq<char>>) -> Seq<char>
    decreases ls.len(),
{
    if ls.len() == 0 {
        Seq::empty()
    } else {
        append_line(join_lines(ls.drop_last()), ls.last())
    }
}

/// The number of fence lines among the first `n` lines.
pub open spec fn fence_count(ls: Seq<Seq<char>>, n: int) -> nat
    decreases n,
{
    if n <= 0 {
        0
    } else {
        fence_count(ls, n - 1) + if is_fence(trim(ls[n - 1])) {
            1nat
        } else {
            0nat
        }
    }
}

/// Line `k` is a `---` line outside fenced code blocks (an even number of
/// fence lines up to and including it).
pub open spec fn is_separator_line(ls: Seq<Seq<char>>, k: int) -> bool {
    trim(ls[k]) == separator() && fence_count(ls, k + 1) % 2 == 0
}

/// The indices of the separator lines among the first `n` lines, in order.
pub open spec fn separators_upto(ls: Seq<Seq<char>>, n: int) -> Seq<int>
    decreases n,
{
    if n <= 0 {
        Seq::empty()
    } else if is_separator_line(ls, n - 1) {
        separators_upto(ls, n - 1).push(n - 1)
    } else {
        separators_upto(ls, n - 1)
    }
}

/// Where piece `j` of the lines starts: after the separator before it.
pub open spec fn piece_start(seps: Seq<int>, j: int) -> int {
    if j == 0 {
        0
    } else {
        seps[j - 1] + 1
    }
}

/// Where piece `j` of `n` lines ends: at the separator after it, or at the end.
pub open spec fn piece_end(seps: Seq<int>, j: int, n: int) -> int {
    if j < seps.len() {
        seps[j]
    } else {
        n
    }
}

/// The slides of a list of lines: the lines between consecutive separator
/// lines (and before the first and after the last), joined and trimmed.
pub open spec fn slide_pieces(ls: Seq<Seq<char>>) -> Seq<Seq<char>> {
    let seps = separators_upto(ls, ls.len() as int);
    Seq::new(
        seps.len() + 1,
        |j: int|
            trim(join_lines(ls.subrange(piece_start(seps, j), piece_end(seps, j, ls.len() as int)))),
    )
}

#[verifier::spinoff_prover]
#[verifier::rlimit(80)]
proof fn lemma_split_run_prefix(ls: Seq<Seq<char>>, n: int)
    requires
        0 <= n <= ls.len(),
    ensures
        ({
            let st = split_run(ls.take(n));
            let seps = separators_upto(ls, n);
            &&& st.in_code == (fence_count(ls, n) % 2 == 1)
            &&& st.slides.len() == seps.len()
            &&& forall|j: int| 0 <= j < seps.len() ==> 0 <= piece_start(seps, j) <= #[trigger] seps[j] < n
            &&& forall|j: int|
                0 <= j < seps.len() ==> #[trigger] st.slides[j] == trim(
                    join_lines(ls.subrange(piece_start(seps, j), seps[j])),
                )
            &&& 0 <= piece_start(seps, seps.len() as int) <= n
            &&& st.current == join_lines(ls.subrange(piece_start(seps, seps.len() as int), n))
        }),
    decreases n,
{
    if n == 0 {
        assert(ls.take(0) =~= Seq::<Seq<char>>::empty());
        assert(ls.subrange(0, 0) =~= Seq::<Seq<char>>::empty());
    } else {
        lemma_split_run_prefix(ls, n - 1);
        let prev = split_run(ls.take(n - 1));
        let seps = separators_upto(ls, n - 1);
        let l = ls[n - 1];
        assert(ls.take(n).drop_last() =~= ls.take(n - 1));
        assert(ls.take(n).last() == l);
        let st = split_run(ls.take(n));
        assert(st == split_step(prev, l));
        let ps = piece_start(seps, seps.len() as int);
        if is_separator_line(ls, n - 1) {
            let seps2 = seps.push(n - 1);
            assert(separators_upto(ls, n) == seps2);
            assert(piece_start(seps2, seps.len() as int) == ps);
            assert forall|j: int| 0 <= j < seps2.len() implies 0 <= piece_start(seps2, j) <= #[trigger] seps2[j] < n by {
                if j < seps.len() {
                    assert(seps2[j] == seps[j]);
                    if j > 0 {
                        assert(seps2[j - 1] == seps[j - 1]);
                    }
                }
            }
            assert forall|j: int| 0 <= j < seps2.len() implies #[trigger] st.slides[j] == trim(
                join_lines(ls.subrange(piece_start(seps2, j), seps2[j])),
            ) by {
                if j < seps.len() {
                    assert(seps2[j] == seps[j]);
                    assert(piece_start(seps2, j) == piece_start(seps, j));
                    assert(st.slides[j] == prev.slides[j]);
                }
            }
            assert(ls.subrange(n, n) =~= Seq::<Seq<char>>::empty());
        } else {
            assert(separators_upto(ls, n) == seps);
            assert(ps <= n - 1);
            assert(ls.subrange(ps, n).drop_last() =~= ls.subrange(ps, n - 1));
            assert(ls.subrange(ps, n).last() == l);
        }
    }
}

/// Each slide is the text between two consecutive `---` lines outside fenced
/// code blocks (or before the first, or after the last), its lines joined and
/// the whole trimmed.
pub proof fn law_slides_are_pieces_between_separators(content: Seq<char>)
    ensures
        split_slides_spec(content) == slide_pieces(lines(content)),
{
    let ls = lines(content);
    let n = ls.len() as int;
    lemma_split_run_prefix(ls, n);
    assert(ls.take(n) =~= ls);
    let st = split_run(ls);
    let seps = separators_upto(ls, n);
    let a = split_slides_spec(content);
    let b = slide_pieces(ls);
    assert(a.len() == b.len());
    assert forall|j: int| 0 <= j < a.len() implies a[j] == b[j] by {
        if j < seps.len() {
            assert(a[j] == st.slides[j]);
        }
    }
    assert(a =~= b);
}

// ---------------------------------------------------------------------------
// Building one slide from its markdown events
// ---------------------------------------------------------------------------

/// The style of plain text under the current bold and italic flags.
pub open spec fn emphasis_style(is_bold: bool, is_italic: bool) -> TextStyle {
    if is_bold && is_italic {
        TextStyle::BoldItalic
    } else if is_bold {
        TextStyle::Bold
    } else if is_italic {
        TextStyle::Italic
    } else {
        TextStyle::Plain
    }
}

/// Creates a styled span based on the current bold/italic state.
pub fn make_span(text: String, is_bold: bool, is_italic: bool) -> (s: StyledSpan)
    ensures
        s.deep_view() == span_of(text@, emphasis_style(is_bold, is_italic)),
{
    match (is_bold, is_italic) {
        (true, true) => StyledSpan::bold_italic(text.as_str()),
        (true, false) => StyledSpan::bold(text.as_str()),
        (false, true) => StyledSpan::italic(text.as_str()),
        (false, false) => StyledSpan::plain(text.as_str()),
    }
}

/// The plain span holding the single character `c`.
fn plain_char_span(c: char) -> (s: StyledSpan)
    ensures
        s.deep_view() == plain_char(c),
{
    let mut text = String::new();
    push_char(&mut text, c);
    assert(text@ =~= seq![c]);
    StyledSpan { text, style: TextStyle::Plain }
}

/// The state of the slide builder between two events.
pub struct BuildState {
    pub elements: Seq<ElementView>,
    pub is_bold: bool,
    pub is_italic: bool,
    pub spans: Seq<SpanView>,
    pub in_heading: bool,
    pub heading_level: u8,
    pub heading_text: Seq<char>,
    pub in_code_block: bool,
    pub code_lang: Option<Seq<char>>,
    pub code_content: Seq<char>,
    pub list_ordered: bool,
    pub list_items: Seq<Seq<SpanView>>,
    pub in_list_item: bool,
}

/// The builder before the first event.
pub open spec fn initial_build_state() -> BuildState {
    BuildState {
        elements: Seq::empty(),
        is_bold: false,
        is_italic: false,
        spans: Seq::empty(),
        in_heading: false,
        heading_level: 1,
        heading_text: Seq::empty(),
        in_code_block: false,
        code_lang: None,
        code_content: Seq::empty(),
        list_ordered: false,
        list_items: Seq::empty(),
        in_list_item: false,
    }
}

/// The plain span holding one character.
pub open spec fn plain_char(c: char) -> SpanView {
    span_of(seq![c], TextStyle::Plain)
}

/// The language of a code block from its opening event: the info string of a
/// fenced block when it is not empty.
pub open spec fn code_language(info: Option<Seq<char>>) -> Option<Seq<char>> {
    match info {
        Some(l) => if l.len() == 0 {
            None
        } else {
            Some(l)
        },
        None => None,
    }
}

/// One event through the slide builder.
pub open spec fn build_step(st: BuildState, e: MdEventView) -> BuildState {
    match e {
        MdEventView::StartHeading(level) => BuildState {
            in_heading: true,
            heading_level: level,
            heading_text: Seq::empty(),
            ..st
        },
        MdEventView::EndHeading => BuildState {
            in_heading: false,
            elements: st.elements.push(ElementView::Heading(st.heading_level, st.heading_text)),
            heading_text: Seq::empty(),
            ..st
        },
        MdEventView::StartParagraph => if !st.in_list_item {
            BuildState { spans: Seq::empty(), ..st }
        } else if st.spans.len() > 0 {
            BuildState { spans: st.spans.push(plain_char(' ')), ..st }
        } else {
            st
        },
        MdEventView::EndParagraph => if !st.in_list_item && st.spans.len() > 0 {
            BuildState {
                elements: st.elements.push(ElementView::Paragraph(st.spans)),
                spans: Seq::empty(),
                ..st
            }
        } else {
            st
        },
        MdEventView::StartCodeBlock(info) => BuildState {
            in_code_block: true,
            code_lang: code_language(info),
            code_content: Seq::empty(),
            ..st
        },
        MdEventView::EndCodeBlock => BuildState {
            in_code_block: false,
            elements: st.elements.push(
                ElementView::CodeBlock(st.code_lang, trim_end(st.code_content)),
            ),
            code_lang: None,
            code_content: Seq::empty(),
            ..st
        },
        MdEventView::StartList(first) => BuildState {
            list_ordered: first is Some,
            list_items: Seq::empty(),
            ..st
        },
        MdEventView::EndList => BuildState {
            elements: st.elements.push(
                if st.list_ordered {
                    ElementView::NumberedList(st.list_items)
                } else {
                    ElementView::BulletList(st.list_items)
                },
            ),
            list_items: Seq::empty(),
            ..st
        },
        MdEventView::StartItem => BuildState { in_list_item: true, spans: Seq::empty(), ..st },
        MdEventView::EndItem => BuildState {
            in_list_item: false,
            list_items: st.list_items.push(st.spans),
            spans: Seq::empty(),
            ..st
        },
        MdEventView::StartStrong => BuildState { is_bold: true, ..st },
        MdEventView::EndStrong => BuildState { is_bold: false, ..st },
        MdEventView::StartEmphasis => BuildState { is_italic: true, ..st },
        MdEventView::EndEmphasis => BuildState { is_italic: false, ..st },
        MdEventView::Text(t) => if st.in_code_block {
            BuildState { code_content: st.code_content + t, ..st }
        } else if st.in_heading {
            BuildState { heading_text: st.heading_text + t, ..st }
        } else {
            BuildState {
                spans: st.spans.push(span_of(t, emphasis_style(st.is_bold, st.is_italic))),
                ..st
            }
        },
        MdEventView::Code(t) => if st.in_heading {
            BuildState { heading_text: st.heading_text + t, ..st }
        } else {
            BuildState { spans: st.spans.push(span_of(t, TextStyle::Code)), ..st }
        },
        MdEventView::SoftBreak => if st.in_heading {
            BuildState { heading_text: st.heading_text.push(' '), ..st }
        } else if !st.in_code_block {
            BuildState { spans: st.spans.push(plain_char(' ')), ..st }
        } else {
            st
        },
        MdEventView::HardBreak => if st.in_heading {
            BuildState { heading_text: st.heading_text.push(' '), ..st }
        } else if !st.in_code_block {
            BuildState { spans: st.spans.push(plain_char('\n')), ..st }
        } else {
            st
        },
        MdEventView::Rule => BuildState {
            elements: st.elements.push(ElementView::HorizontalRule),
            ..st
        },
        MdEventView::Other => st,
    }
}

/// The slide builder's state after `events`.
pub open spec fn build_run(events: Seq<MdEventView>) -> BuildState
    decreases events.len(),
{
    if events.len() == 0 {
        initial_build_state()
    } else {
        build_step(build_run(events.drop_last()), events.last())
    }
}

proof fn lemma_build_run_push(es: Seq<MdEventView>, e: MdEventView)
    ensures
        build_run(es.push(e)) == build_step(build_run(es), e),
{
    assert(es.push(e).drop_last() =~= es);
    assert(es.push(e).last() == e);
}

/// The end of a list item always leaves the builder outside any list item.
pub proof fn law_end_item_leaves_list_item(es: Seq<MdEventView>)
    ensures
        !build_run(es.push(MdEventView::EndItem)).in_list_item,
{
    lemma_build_run_push(es, MdEventView::EndItem);
}

/// A plain paragraph that follows a list at the top level of a slide becomes
/// a paragraph element of its own, right after the list: after the list's last
/// item ends and the list ends, the paragraph's text is a `Paragraph` of one
/// plain span.
pub proof fn law_paragraph_after_list(es: Seq<MdEventView>, t: Seq<char>)
    requires
        !build_run(es).in_heading,
        !build_run(es).in_code_block,
        !build_run(es).is_bold,
        !build_run(es).is_italic,
    ensures
        ({
            let before = build_run(es).elements;
            let after = build_run(
                es + seq![
                    MdEventView::EndItem,
                    MdEventView::EndList,
                    MdEventView::StartParagraph,
                    MdEventView::Text(t),
                    MdEventView::EndParagraph,
                ],
            ).elements;
            &&& after.len() == before.len() + 2
            &&& after.subrange(0, before.len() as int) == before
            &&& (after[before.len() as int] is BulletList || after[before.len() as int] is NumberedList)
            &&& after[before.len() as int + 1] == ElementView::Paragraph(seq![span_of(t, TextStyle::Plain)])
        }),
{
    let e1 = es.push(MdEventView::EndItem);
    let e2 = e1.push(MdEventView::EndList);
    let e3 = e2.push(MdEventView::StartParagraph);
    let e4 = e3.push(MdEventView::Text(t));
    let e5 = e4.push(MdEventView::EndParagraph);
    assert(e5 =~= es + seq![
        MdEventView::EndItem,
        MdEventView::EndList,
        MdEventView::StartParagraph,
        MdEventView::Text(t),
        MdEventView::EndParagraph,
    ]);
    lemma_build_run_push(es, MdEventView::EndItem);
    lemma_build_run_push(e1, MdEventView::EndList);
    lemma_build_run_push(e2, MdEventView::StartParagraph);
    lemma_build_run_push(e3, MdEventView::Text(t));
    lemma_build_run_push(e4, MdEventView::EndParagraph);
    let before = build_run(es).elements;
    let after = build_run(e5).elements;
    assert(build_run(e4).spans =~= seq![span_of(t, TextStyle::Plain)]);
    assert(after.subrange(0, before.len() as int) =~= before);
}

/// The builder after `es` and then the events of `tail`, one by one.
proof fn lemma_build_run_append(es: Seq<MdEventView>, tail: Seq<MdEventView>)
    ensures
        tail.len() > 0 ==> build_run(es + tail) == build_step(
            build_run(es + tail.drop_last()),
            tail.last(),
        ),
{
    if tail.len() > 0 {
        assert((es + tail).drop_last() =~= es + tail.drop_last());
        assert((es + tail).last() == tail.last());
    }
}

/// Text outside headings and code blocks becomes a span whose style follows
/// the open emphasis: bold alone gives `Bold`, italic alone `Italic`, both
/// `BoldItalic`, neither `Plain`; ending bold or italic leaves the other as
/// it was.
pub proof fn law_text_style_follows_emphasis(es: Seq<MdEventView>, t: Seq<char>)
    ensures
        ({
            let st = build_run(es);
            let after = build_run(es.push(MdEventView::Text(t)));
            !st.in_code_block && !st.in_heading ==> {
                &&& after.elements == st.elements
                &&& after.spans.len() == st.spans.len() + 1
                &&& after.spans.last().text == t
                &&& (st.is_bold && st.is_italic ==> after.spans.last().style == TextStyle::BoldItalic)
                &&& (st.is_bold && !st.is_italic ==> after.spans.last().style == TextStyle::Bold)
                &&& (!st.is_bold && st.is_italic ==> after.spans.last().style == TextStyle::Italic)
                &&& (!st.is_bold && !st.is_italic ==> after.spans.last().style == TextStyle::Plain)
            }
        }),
        build_run(es.push(MdEventView::StartStrong)).is_bold,
        build_run(es.push(MdEventView::StartEmphasis)).is_italic,
        !build_run(es.push(MdEventView::EndStrong)).is_bold,
        !build_run(es.push(MdEventView::EndEmphasis)).is_italic,
        build_run(es.push(MdEventView::EndStrong)).is_italic == build_run(es).is_italic,
        build_run(es.push(MdEventView::EndEmphasis)).is_bold == build_run(es).is_bold,
        build_run(es.push(MdEventView::Code(t))).in_heading == build_run(es).in_heading,
        !build_run(es).in_heading ==> build_run(es.push(MdEventView::Code(t))).spans == build_run(es).spans.push(
            span_of(t, TextStyle::Code),
        ),
{
    lemma_build_run_push(es, MdEventView::Text(t));
    lemma_build_run_push(es, MdEventView::StartStrong);
    lemma_build_run_push(es, MdEventView::StartEmphasis);
    lemma_build_run_push(es, MdEventView::EndStrong);
    lemma_build_run_push(es, MdEventView::EndEmphasis);
    lemma_build_run_push(es, MdEventView::Code(t));
}

/// The simple blocks of a slide, each from its complete events:
/// a heading of level `l` with text `t` becomes `Heading(l, t)`; a code block
/// with text `t` becomes a code block of `t` without trailing whitespace, whose
/// language is the fence's info string unless that is empty or absent; a rule
/// becomes `HorizontalRule`; a one-item list becomes a bullet list, or a
/// numbered one when it has a start number.
pub proof fn law_blocks_from_events(
    es: Seq<MdEventView>,
    level: u8,
    t: Seq<char>,
    info: Option<Seq<char>>,
    first: Option<u64>,
)
    ensures
        !build_run(es).in_code_block ==> build_run(
            es + seq![MdEventView::StartHeading(level), MdEventView::Text(t), MdEventView::EndHeading],
        ).elements == build_run(es).elements.push(ElementView::Heading(level, t)),
        build_run(
            es + seq![MdEventView::StartCodeBlock(info), MdEventView::Text(t), MdEventView::EndCodeBlock],
        ).elements == build_run(es).elements.push(
            ElementView::CodeBlock(
                match info {
                    Some(i) => if i.len() == 0 {
                        None
                    } else {
                        Some(i)
                    },
                    None => None,
                },
                trim_end(t),
            ),
        ),
        build_run(es.push(MdEventView::Rule)).elements == build_run(es).elements.push(
            ElementView::HorizontalRule,
        ),
        !build_run(es).in_code_block && !build_run(es).in_heading && !build_run(es).is_bold
            && !build_run(es).is_italic ==> build_run(
            es + seq![
                MdEventView::StartList(first),
                MdEventView::StartItem,
                MdEventView::Text(t),
                MdEventView::EndItem,
                MdEventView::EndList,
            ],
        ).elements == build_run(es).elements.push(
            if first is Some {
                ElementView::NumberedList(seq![seq![span_of(t, TextStyle::Plain)]])
            } else {
                ElementView::BulletList(seq![seq![span_of(t, TextStyle::Plain)]])
            },
        ),
{
    let h = seq![MdEventView::StartHeading(level), MdEventView::Text(t), MdEventView::EndHeading];
    lemma_build_run_append(es, h);
    lemma_build_run_append(es, h.drop_last());
    lemma_build_run_append(es, h.drop_last().drop_last());
    assert(h.drop_last().drop_last().drop_last() =~= Seq::<MdEventView>::empty());
    assert(es + Seq::<MdEventView>::empty() =~= es);
    if !build_run(es).in_code_block {
        assert(build_run(es + h.drop_last()).heading_text =~= t);
    }

    let c = seq![MdEventView::StartCodeBlock(info), MdEventView::Text(t), MdEventView::EndCodeBlock];
    lemma_build_run_append(es, c);
    lemma_build_run_append(es, c.drop_last());
    lemma_build_run_append(es, c.drop_last().drop_last());
    assert(c.drop_last().drop_last().drop_last() =~= Seq::<MdEventView>::empty());
    assert(build_run(es + c.drop_last()).code_content =~= t);

    lemma_build_run_push(es, MdEventView::Rule);

    let l = seq![
        MdEventView::StartList(first),
        MdEventView::StartItem,
        MdEventView::Text(t),
        MdEventView::EndItem,
        MdEventView::EndList,
    ];
    lemma_build_run_append(es, l);
    lemma_build_run_append(es, l.drop_last());
    lemma_build_run_append(es, l.drop_last().drop_last());
    lemma_build_run_append(es, l.drop_last().drop_last().drop_last());
    lemma_build_run_append(es, l.drop_last().drop_last().drop_last().drop_last());
    assert(l.drop_last().drop_last().drop_last().drop_last().drop_last() =~= Seq::<MdEventView>::empty());
    if !build_run(es).in_code_block && !build_run(es).in_heading && !build_run(es).is_bold
        && !build_run(es).is_italic {
        assert(build_run(es + l.drop_last().drop_last()).spans =~= seq![span_of(t, TextStyle::Plain)]);
        assert(build_run(es + l.drop_last()).list_items =~= seq![seq![span_of(t, TextStyle::Plain)]]);
    }
}

/// The slide for one slide's markdown: empty when the text is blank, and
/// otherwise the raw text with the elements built from its markdown events.
pub open spec fn parse_slide_spec(content: Seq<char>) -> SlideView {
    if is_blank(content) {
        empty_slide()
    } else {
        SlideView { raw: content, elements: build_run(markdown_events(content)).elements }
    }
}

/// The mutable state of the slide builder.
struct SlideBuilder {
    elements: Vec<SlideElement>,
    is_bold: bool,
    is_italic: bool,
    current_spans: Vec<StyledSpan>,
    in_heading: bool,
    heading_level: u8,
    heading_text: String,
    in_code_block: bool,
    code_block_lang: Option<String>,
    code_block_content: String,
    list_ordered: bool,
    list_items: Vec<Vec<StyledSpan>>,
    in_list_item: bool,
}

impl SlideBuilder {
    spec fn view(&self) -> BuildState {
        BuildState {
            elements: self.elements.deep_view(),
            is_bold: self.is_bold,
            is_italic: self.is_italic,
            spans: self.current_spans.deep_view(),
            in_heading: self.in_heading,
            heading_level: self.heading_level,
            heading_text: self.heading_text@,
            in_code_block: self.in_code_block,
            code_lang: self.code_block_lang.deep_view(),
            code_content: self.code_block_content@,
            list_ordered: self.list_ordered,
            list_items: self.list_items.deep_view(),
            in_list_item: self.in_list_item,
        }
    }

    fn new() -> (b: Self)
        ensures
            b.view() == initial_build_state(),
    {
        let b = SlideBuilder {
            elements: Vec::new(),
            is_bold: false,
            is_italic: false,
            current_spans: Vec::new(),
            in_heading: false,
            heading_level: 1,
            heading_text: String::new(),
            in_code_block: false,
            code_block_lang: None,
            code_block_content: String::new(),
            list_ordered: false,
            list_items: Vec::new(),
            in_list_item: false,
        };
        assert(b.view().elements =~= Seq::<ElementView>::empty());
        assert(b.view().spans =~= Seq::<SpanView>::empty());
        assert(b.view().list_items =~= Seq::<Seq<SpanView>>::empty());
        b
    }

    fn push_element(&mut self, el: SlideElement)
        ensures
            final(self).view() == (BuildState {
                elements: old(self).view().elements.push(el.deep_view()),
                ..old(self).view()
            }),
    {
        let ghost before = self.elements.deep_view();
        self.elements.push(el);
        assert(self.elements.deep_view() =~= before.push(el.deep_view()));
    }

    fn push_span(&mut self, span: StyledSpan)
        ensures
            final(self).view() == (BuildState {
                spans: old(self).view().spans.push(span.deep_view()),
                ..old(self).view()
            }),
    {
        let ghost before = self.current_spans.deep_view();
        self.current_spans.push(span);
        assert(self.current_spans.deep_view() =~= before.push(span.deep_view()));
    }

    fn take_spans(&mut self) -> (spans: Vec<StyledSpan>)
        ensures
            spans.deep_view() == old(self).view().spans,
            final(self).view() == (BuildState { spans: Seq::empty(), ..old(self).view() }),
    {
        let mut spans: Vec<StyledSpan> = Vec::new();
        std::mem::swap(&mut spans, &mut self.current_spans);
        assert(self.current_spans.deep_view() =~= Seq::<SpanView>::empty());
        spans
    }

    fn take_list_items(&mut self) -> (items: Vec<Vec<StyledSpan>>)
        ensures
            items.deep_view() == old(self).view().list_items,
            final(self).view() == (BuildState { list_items: Seq::empty(), ..old(self).view() }),
    {
        let mut items: Vec<Vec<StyledSpan>> = Vec::new();
        std::mem::swap(&mut items, &mut self.list_items);
        assert(self.list_items.deep_view() =~= Seq::<Seq<SpanView>>::empty());
        items
    }

    /// Applies one markdown event.
    #[verifier::spinoff_prover]
    #[verifier::rlimit(40)]
    fn apply(&mut self, event: MdEvent)
        ensures
            final(self).view() == build_step(old(self).view(), event.deep_view()),
    {
        match event {
            MdEvent::StartHeading(level) => {
                self.in_heading = true;
                self.heading_level = level;
                self.heading_text = String::new();
            },
            MdEvent::EndHeading => {
                self.in_heading = false;
                let mut text = String::new();
                std::mem::swap(&mut text, &mut self.heading_text);
                let level = self.heading_level;
                self.push_element(SlideElement::Heading(level, text));
            },
            MdEvent::StartParagraph => {
                if !self.in_list_item {
                    let _ = self.take_spans();
                } else if self.current_spans.len() > 0 {
                    // A space between multiple paragraphs within a list item.
                    self.push_span(plain_char_span(' '));
                }
            },
            MdEvent::EndParagraph => {
                if !self.in_list_item && self.current_spans.len() > 0 {
                    let spans = self.take_spans();
                    self.push_element(SlideElement::Paragraph(spans));
                }
            },
            MdEvent::StartCodeBlock(info) => {
                self.in_code_block = true;
                self.code_block_lang = match info {
                    Some(lang) => if lang.as_str().is_empty() {
                        None
                    } else {
                        Some(lang)
                    },
                    None => None,
                };
                self.code_block_content = String::new();
            },
            MdEvent::EndCodeBlock => {
                self.in_code_block = false;
                let mut lang: Option<String> = None;
                std::mem::swap(&mut lang, &mut self.code_block_lang);
                let chars = chars_of(self.code_block_content.as_str());
                let code = string_from_chars(&trim_end_chars(&chars));
                self.push_element(SlideElement::CodeBlock(lang, code));
                self.code_block_content = String::new();
            },
            MdEvent::StartList(first) => {
                self.list_ordered = first.is_some();
                let _ = self.take_list_items();
            },
            MdEvent::EndList => {
                let items = self.take_list_items();
                if self.list_ordered {
                    self.push_element(SlideElement::NumberedList(items));
                } else {
                    self.push_element(SlideElement::BulletList(items));
                }
            },
            MdEvent::StartItem => {
                self.in_list_item = true;
                let _ = self.take_spans();
            },
            MdEvent::EndItem => {
                self.in_list_item = false;
                let spans = self.take_spans();
                let ghost before = self.list_items.deep_view();
                let ghost item = spans.deep_view();
                self.list_items.push(spans);
                assert(self.list_items.deep_view() =~= before.push(item));
            },
            MdEvent::StartStrong => {
                self.is_bold = true;
            },
            MdEvent::EndStrong => {
                self.is_bold = false;
            },
            MdEvent::StartEmphasis => {
                self.is_italic = true;
            },
            MdEvent::EndEmphasis => {
                self.is_italic = false;
            },
            MdEvent::Text(text) => {
                if self.in_code_block {
                    self.code_block_content.append(text.as_str());
                } else if self.in_heading {
                    self.heading_text.append(text.as_str());
                } else {
                    let span = make_span(text, self.is_bold, self.is_italic);
                    self.push_span(span);
                }
            },
            MdEvent::Code(text) => {
                if self.in_heading {
                    self.heading_text.append(text.as_str());
                } else {
                    self.push_span(StyledSpan::code(text.as_str()));
                }
            },
            MdEvent::SoftBreak => {
                if self.in_heading {
                    push_char(&mut self.heading_text, ' ');
                } else if !self.in_code_block {
                    self.push_span(plain_char_span(' '));
                }
            },
            MdEvent::HardBreak => {
                if self.in_heading {
                    push_char(&mut self.heading_text, ' ');
                } else if !self.in_code_block {
                    self.push_span(plain_char_span('\n'));
                }
            },
            MdEvent::Rule => {
                self.push_element(SlideElement::HorizontalRule);
            },
            MdEvent::Other => {},
        }
    }
}

/// The markdown events of `content`, in order.
fn markdown_event_list(content: &str) -> (events: Vec<MdEvent>)
    ensures
        events.deep_view() == markdown_events(content@),
        heading_levels_valid(events.deep_view()),
{
    let mut stream = open_event_stream(content);
    let ghost all = pending_events(stream);
    let mut events: Vec<MdEvent> = Vec::new();
    assert(events.deep_view() =~= all.take(0));
    loop
        invariant
            all == markdown_events(content@),
            heading_levels_valid(all),
            events.deep_view().len() <= all.len(),
            pending_events(stream) == all.skip(events.deep_view().len() as int),
            events.deep_view() == all.take(events.deep_view().len() as int),
        ensures
            events.deep_view() == all,
        decreases all.len() - events.deep_view().len(),
    {
        let ghost n = events.deep_view().len() as int;
        let kind = peek_event_kind(&mut stream);
        let event = match kind {
            EventKind::Finished => {
                assert(all.take(n) =~= all);
                break;
            },
            EventKind::Opening => next_opening(&mut stream),
            EventKind::Closing => next_closing(&mut stream),
            EventKind::Leaf => next_leaf(&mut stream),
        };
        assert(event.deep_view() == all[n]);
        let ghost before = events.deep_view();
        events.push(event);
        assert(events.deep_view() =~= before.push(all[n]));
        assert(all.take(n).push(all[n]) =~= all.take(n + 1));
        assert(all.skip(n).drop_first() =~= all.skip(n + 1));
    }
    events
}

/// The slide elements built from a sequence of markdown events, one event at
/// a time: headings, paragraphs, code blocks, lists and rules, with the bold,
/// italic and code styles of the text inside them.
pub fn elements_from_events(events: Vec<MdEvent>) -> (elements: Vec<SlideElement>)
    ensures
        elements.deep_view() == build_run(events.deep_view()).elements,
        heading_levels_valid(events.deep_view()) ==> elements_well_formed(elements.deep_view()),
{
    let ghost all = events.deep_view();
    proof {
        if heading_levels_valid(all) {
            lemma_build_run_well_formed(all);
        }
    }
    // Events are taken from the back of a vector, so the vector is reversed first.
    let mut src = events;
    let mut rest: Vec<MdEvent> = Vec::new();
    assert(all.take(all.len() as int) =~= all);
    while src.len() > 0
        invariant
            rest.deep_view().len() + src.deep_view().len() == all.len(),
            src.deep_view() == all.take(src.deep_view().len() as int),
            forall|k: int| 0 <= k < rest.deep_view().len() ==> #[trigger] rest.deep_view()[k] == all[all.len() - 1 - k],
        decreases src.len(),
    {
        let ghost before_src = src.deep_view();
        let ghost before_rest = rest.deep_view();
        let event = src.pop().unwrap();
        assert(src.deep_view() =~= before_src.drop_last());
        assert(event.deep_view() == before_src[before_src.len() - 1]);
        assert(before_src.drop_last() =~= all.take(before_src.len() - 1));
        rest.push(event);
        assert(rest.deep_view() =~= before_rest.push(event.deep_view()));
    }
    let mut builder = SlideBuilder::new();
    assert(all.take(0) =~= Seq::<MdEventView>::empty());
    let ghost mut n: int = 0;
    while rest.len() > 0
        invariant
            0 <= n <= all.len(),
            rest.deep_view().len() == all.len() - n,
            forall|k: int| 0 <= k < rest.deep_view().len() ==> #[trigger] rest.deep_view()[k] == all[all.len() - 1 - k],
            builder.view() == build_run(all.take(n)),
        decreases rest.len(),
    {
        let ghost before = rest.deep_view();
        let event = rest.pop().unwrap();
        assert(rest.deep_view() =~= before.drop_last());
        assert(event.deep_view() == before[before.len() - 1]);
        assert(event.deep_view() == all[n]);
        assert(all.take(n + 1).drop_last() =~= all.take(n));
        builder.apply(event);
        proof {
            n = n + 1;
        }
    }
    assert(all.take(n) =~= all);
    builder.elements
}

/// The slide elements built from the whole markdown event stream of `content`.
pub fn build_elements(content: &str) -> (elements: Vec<SlideElement>)
    ensures
        elements.deep_view() == build_run(markdown_events(content@)).elements,
        elements_well_formed(elements.deep_view()),
{
    elements_from_events(markdown_event_list(content))
}

/// Parses a single slide's markdown content into a `Slide` with structured elements.
///
/// Converts pulldown-cmark events into `SlideElement` variants, handling nested
/// inline styles (bold, italic, code) within paragraphs and list items.
pub fn parse_slide(content: &str) -> (slide: Slide)
    ensures
        slide.deep_view() == parse_slide_spec(content@),
        elements_well_formed(slide.deep_view().elements),
{
    let chars = chars_of(content);
    let (a, b) = trim_bounds(&chars, 0, chars.len());
    assert(chars@.subrange(0, chars@.len() as int) =~= content@);
    if a == b {
        return Slide::empty();
    }
    let elements = build_elements(content);
    Slide { raw_content: content.to_owned(), elements }
}

/// Each element is as the slide model describes it: headings have a level
/// from 1 to 6, paragraphs hold at least one span, code blocks carry no
/// trailing whitespace and no empty language tag.
pub open spec fn element_well_formed(e: ElementView) -> bool {
    match e {
        ElementView::Heading(level, _) => 1 <= level <= 6,
        ElementView::Paragraph(spans) => spans.len() > 0,
        ElementView::CodeBlock(lang, code) => trim_end(code) == code && (lang matches Some(l)
            ==> l.len() > 0),
        _ => true,
    }
}

pub open spec fn elements_well_formed(es: Seq<ElementView>) -> bool {
    forall|i: int| 0 <= i < es.len() ==> element_well_formed(#[trigger] es[i])
}

/// What the builder keeps true between events.
pub open spec fn build_state_ok(st: BuildState) -> bool {
    &&& elements_well_formed(st.elements)
    &&& 1 <= st.heading_level <= 6
    &&& st.code_lang matches Some(l) ==> l.len() > 0
}

proof fn lemma_push_well_formed(es: Seq<ElementView>, e: ElementView)
    requires
        elements_well_formed(es),
        element_well_formed(e),
    ensures
        elements_well_formed(es.push(e)),
{
    assert forall|i: int| 0 <= i < es.push(e).len() implies element_well_formed(
        #[trigger] es.push(e)[i],
    ) by {
        if i < es.len() {
            assert(es.push(e)[i] == es[i]);
        }
    }
}

proof fn lemma_build_run_well_formed(events: Seq<MdEventView>)
    requires
        heading_levels_valid(events),
    ensures
        build_state_ok(build_run(events)),
    decreases events.len(),
{
    if events.len() > 0 {
        let prev = events.drop_last();
        assert(heading_levels_valid(prev)) by {
            assert forall|i: int| 0 <= i < prev.len() implies (#[trigger] prev[i] matches MdEventView::StartHeading(l) ==> 1 <= l <= 6) by {
                assert(prev[i] == events[i]);
            }
        }
        lemma_build_run_well_formed(prev);
        let st = build_run(prev);
        let e = events.last();
        assert(events[events.len() - 1] == e);
        match e {
            MdEventView::EndHeading => {
                lemma_push_well_formed(st.elements, ElementView::Heading(st.heading_level, st.heading_text));
            },
            MdEventView::EndParagraph => {
                if !st.in_list_item && st.spans.len() > 0 {
                    lemma_push_well_formed(st.elements, ElementView::Paragraph(st.spans));
                }
            },
            MdEventView::EndCodeBlock => {
                lemma_trim_end_shape(st.code_content);
                lemma_trim_end_shape(trim_end(st.code_content));
                assert(trim_end(trim_end(st.code_content)) == trim_end(st.code_content));
                lemma_push_well_formed(
                    st.elements,
                    ElementView::CodeBlock(st.code_lang, trim_end(st.code_content)),
                );
            },
            MdEventView::EndList => {
                if st.list_ordered {
                    lemma_push_well_formed(st.elements, ElementView::NumberedList(st.list_items));
                } else {
                    lemma_push_well_formed(st.elements, ElementView::BulletList(st.list_items));
                }
            },
            MdEventView::Rule => {
                lemma_push_well_formed(st.elements, ElementView::HorizontalRule);
            },
            _ => {},
        }
    }
}

// ---------------------------------------------------------------------------
// Whole presentations
// ---------------------------------------------------------------------------

/// The text of the first level-1 heading among `es`, if there is one.
pub open spec fn first_h1(es: Seq<ElementView>) -> Option<Seq<char>>
    decreases es.len(),
{
    if es.len() == 0 {
        None
    } else {
        match es[0] {
            ElementView::Heading(level, text) => if level == 1 {
                Some(text)
            } else {
                first_h1(es.drop_first())
            },
            _ => first_h1(es.drop_first()),
        }
    }
}

/// The presentation of a markdown document: one slide per piece that
/// `split_slides` cuts, titled by the first level-1 heading of the first slide.
pub open spec fn parse_presentation_spec(content: Seq<char>) -> PresentationView {
    let pieces = split_slides_spec(content);
    let slides = Seq::new(pieces.len(), |i: int| parse_slide_spec(pieces[i]));
    PresentationView {
        slides,
        title: if slides.len() > 0 {
            first_h1(slides[0].elements)
        } else {
            None
        },
    }
}

/// The text of the first level-1 heading among `elements`.
fn find_title(elements: &Vec<SlideElement>) -> (title: Option<String>)
    ensures
        title.deep_view() == first_h1(elements.deep_view()),
{
    let ghost es = elements.deep_view();
    let mut j: usize = 0;
    assert(es.skip(0) =~= es);
    while j < elements.len()
        invariant
            j <= elements@.len(),
            es == elements.deep_view(),
            first_h1(es) == first_h1(es.skip(j as int)),
        decreases elements.len() - j,
    {
        assert(es.skip(j as int)[0] == elements[j as int].deep_view());
        assert(es.skip(j as int).drop_first() =~= es.skip(j + 1));
        match &elements[j] {
            SlideElement::Heading(level, text) => {
                if *level == 1 {
                    return Some(text.clone());
                }
            },
            _ => {},
        }
        j = j + 1;
    }
    None
}

/// Parses a complete markdown presentation into a `Presentation`.
///
/// Splits the content by `---` separators, parses each section as a slide,
/// and extracts the title from the first H1 heading if present.
pub fn parse_presentation(content: &str) -> (p: Presentation)
    ensures
        p.deep_view() == parse_presentation_spec(content@),
        p.slides@.len() >= 1,
        forall|i: int|
            0 <= i < p.slides@.len() ==> elements_well_formed(
                #[trigger] p.slides@[i].deep_view().elements,
            ),
{
    let slide_contents = split_slides(content);
    let ghost pieces = slide_contents.deep_view();
    let mut slides: Vec<Slide> = Vec::new();
    let mut i: usize = 0;
    while i < slide_contents.len()
        invariant
            i <= slide_contents@.len(),
            pieces == slide_contents.deep_view(),
            slides@.len() == i,
            forall|k: int| 0 <= k < i ==> (#[trigger] slides@[k]).deep_view() == parse_slide_spec(pieces[k]),
            forall|k: int| 0 <= k < i ==> elements_well_formed(#[trigger] slides@[k].deep_view().elements),
        decreases slide_contents.len() - i,
    {
        assert(pieces[i as int] == slide_contents[i as int]@);
        let slide = parse_slide(slide_contents[i].as_str());
        slides.push(slide);
        i = i + 1;
    }
    // Ensure at least one slide.
    if slides.len() == 0 {
        slides.push(Slide::empty());
    }
    let title = find_title(&slides[0].elements);
    let p = Presentation::new(slides, title);
    assert(p.slides.deep_view() =~= parse_presentation_spec(content@).slides);
    p
}

/// A presentation always has at least one slide, one per piece of the split
/// document, and the slide text is the piece itself unless the piece is blank.
pub proof fn law_presentation_follows_split(content: Seq<char>)
    ensures
        parse_presentation_spec(content).slides.len() == split_slides_spec(content).len(),
        parse_presentation_spec(content).slides.len() >= 1,
        forall|i: int|
            0 <= i < split_slides_spec(content).len() ==> (#[trigger] parse_presentation_spec(
                content,
            ).slides[i]).raw == (if is_blank(split_slides_spec(content)[i]) {
                Seq::<char>::empty()
            } else {
                split_slides_spec(content)[i]
            }),
{
}

/// The title is the first level-1 heading of the first slide; headings of
/// other levels, and headings on later slides, never give the title.
pub proof fn law_title_from_first_slide(content: Seq<char>)
    ensures
        parse_presentation_spec(content).title == first_h1(
            parse_presentation_spec(content).slides[0].elements,
        ),
        parse_presentation_spec(content).title matches Some(t) ==> exists|i: int|
            0 <= i < parse_presentation_spec(content).slides[0].elements.len()
                && #[trigger] parse_presentation_spec(content).slides[0].elements[i]
                == ElementView::Heading(1, t),
{
    lemma_first_h1_is_h1(parse_presentation_spec(content).slides[0].elements);
}

proof fn lemma_first_h1_is_h1(es: Seq<ElementView>)
    ensures
        first_h1(es) matches Some(t) ==> exists|i: int|
            0 <= i < es.len() && #[trigger] es[i] == ElementView::Heading(1, t),
    decreases es.len(),
{
    if es.len() > 0 {
        lemma_first_h1_is_h1(es.drop_first());
        if let Some(t) = first_h1(es) {
            match es[0] {
                ElementView::Heading(level, text) => {
                    if level == 1 {
                        assert(es[0] == ElementView::Heading(1, t));
                    } else {
                        let i = choose|i: int| 0 <= i < es.drop_first().len() && #[trigger] es.drop_first()[i] == ElementView::Heading(1, t);
                        assert(es[i + 1] == ElementView::Heading(1, t));
                    }
                },
                _ => {
                    let i = choose|i: int| 0 <= i < es.drop_first().len() && #[trigger] es.drop_first()[i] == ElementView::Heading(1, t);
                    assert(es[i + 1] == ElementView::Heading(1, t));
                },
            }
        }
    }
}

} // verus!
