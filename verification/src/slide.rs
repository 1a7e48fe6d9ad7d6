//! The slide data model: styled spans, slide elements, slides and presentations,
//! each with a mathematical view over `Seq<char>`.

use vstd::prelude::*;

verus! {

/// Represents inline text styling for spans within slide elements.
#[derive(Debug, Clone, Copy, PartialEq, Eq, Structural)]
pub enum TextStyle {
    Plain,
    Bold,
    Italic,
    BoldItalic,
    Code,
}

/// A span of text with an associated style.
#[derive(Debug, Clone, PartialEq, Eq)]
pub struct StyledSpan {
    pub text: String,
    pub style: TextStyle,
}

/// What a [`StyledSpan`] denotes: its characters and its style.
pub struct SpanView {
    pub text: Seq<char>,
    pub style: TextStyle,
}

impl DeepView for StyledSpan {
    type V = SpanView;

    open spec fn deep_view(&self) -> SpanView {
        SpanView { text: self.text@, style: self.style }
    }
}

/// The span of `text` in `style`.
pub open spec fn span_of(text: Seq<char>, style: TextStyle) -> SpanView {
    SpanView { text, style }
}

impl StyledSpan {
    pub fn plain(text: &str) -> (s: Self)
        ensures
            s.deep_view() == span_of(text@, TextStyle::Plain),
    {
        StyledSpan { text: text.to_owned(), style: TextStyle::Plain }
    }

    pub fn bold(text: &str) -> (s: Self)
        ensures
            s.deep_view() == span_of(text@, TextStyle::Bold),
    {
        StyledSpan { text: text.to_owned(), style: TextStyle::Bold }
    }

    pub fn italic(text: &str) -> (s: Self)
        ensures
            s.deep_view() == span_of(text@, TextStyle::Italic),
    {
        StyledSpan { text: text.to_owned(), style: TextStyle::Italic }
    }

    pub fn bold_italic(text: &str) -> (s: Self)
        ensures
            s.deep_view() == span_of(text@, TextStyle::BoldItalic),
    {
        StyledSpan { text: text.to_owned(), style: TextStyle::BoldItalic }
    }

    pub fn code(text: &str) -> (s: Self)
        ensures
            s.deep_view() == span_of(text@, TextStyle::Code),
    {
        StyledSpan { text: text.to_owned(), style: TextStyle::Code }
    }
}

/// Elements that compose a single slide.
#[derive(Debug, Clone, PartialEq, Eq)]
pub enum SlideElement {
    /// A heading with a level (1-6) and text content.
    Heading(u8, String),
    /// A paragraph composed of styled text spans.
    Paragraph(Vec<StyledSpan>),
    /// A fenced code block with an optional language tag and the code content.
    CodeBlock(Option<String>, String),
    /// An unordered (bullet) list where each item is a list of styled spans.
    BulletList(Vec<Vec<StyledSpan>>),
    /// An ordered (numbered) list where each item is a list of styled spans.
    NumberedList(Vec<Vec<StyledSpan>>),
    /// A horizontal rule separator.
    HorizontalRule,
    /// A blank line for spacing.
    BlankLine,
}

/// What a [`SlideElement`] denotes.
pub enum ElementView {
    Heading(u8, Seq<char>),
    Paragraph(Seq<SpanView>),
    CodeBlock(Option<Seq<char>>, Seq<char>),
    BulletList(Seq<Seq<SpanView>>),
    NumberedList(Seq<Seq<SpanView>>),
    HorizontalRule,
    BlankLine,
}

impl DeepView for SlideElement {
    type V = ElementView;

    open spec fn deep_view(&self) -> ElementView {
        match self {
            SlideElement::Heading(level, text) => ElementView::Heading(*level, text@),
            SlideElement::Paragraph(spans) => ElementView::Paragraph(spans.deep_view()),
            SlideElement::CodeBlock(lang, code) => ElementView::CodeBlock(
                lang.deep_view(),
                code@,
            ),
            SlideElement::BulletList(items) => ElementView::BulletList(items.deep_view()),
            SlideElement::NumberedList(items) => ElementView::NumberedList(items.deep_view()),
            SlideElement::HorizontalRule => ElementView::HorizontalRule,
            SlideElement::BlankLine => ElementView::BlankLine,
        }
    }
}

/// A single slide in the presentation.
#[derive(Debug, Clone)]
pub struct Slide {
    /// The raw markdown content of this slide (before parsing).
    pub raw_content: String,
    /// The parsed elements that make up this slide.
    pub elements: Vec<SlideElement>,
}

/// What a [`Slide`] denotes.
pub struct SlideView {
    pub raw: Seq<char>,
    pub elements: Seq<ElementView>,
}

impl DeepView for Slide {
    type V = SlideView;

    open spec fn deep_view(&self) -> SlideView {
        SlideView { raw: self.raw_content@, elements: self.elements.deep_view() }
    }
}

/// The slide with no content.
pub open spec fn empty_slide() -> SlideView {
    SlideView { raw: Seq::empty(), elements: Seq::empty() }
}

impl Slide {
    /// Creates a new slide with the given raw content and parsed elements.
    pub fn new(raw_content: &str, elements: Vec<SlideElement>) -> (s: Self)
        ensures
            s.raw_content@ == raw_content@,
            s.elements == elements,
    {
        Slide { raw_content: raw_content.to_owned(), elements }
    }

    /// Creates an empty slide with no content.
    pub fn empty() -> (s: Self)
        ensures
            s.deep_view() == empty_slide(),
    {
        let s = Slide { raw_content: String::new(), elements: Vec::new() };
        assert(s.elements.deep_view() =~= Seq::<ElementView>::empty());
        s
    }

    /// Returns true if the slide has no elements.
    pub fn is_empty(&self) -> (b: bool)
        ensures
            b == (self.elements@.len() == 0),
    {
        self.elements.len() == 0
    }
}

/// A complete slide presentation.
#[derive(Debug, Clone)]
pub struct Presentation {
    /// The slides in this presentation, in order.
    pub slides: Vec<Slide>,
    /// An optional title for the presentation (extracted from the first H1 heading).
    pub title: Option<String>,
}

/// What a [`Presentation`] denotes.
pub struct PresentationView {
    pub slides: Seq<SlideView>,
    pub title: Option<Seq<char>>,
}

impl DeepView for Presentation {
    type V = PresentationView;

    open spec fn deep_view(&self) -> PresentationView {
        PresentationView { slides: self.slides.deep_view(), title: self.title.deep_view() }
    }
}

impl Presentation {
    /// Creates a new presentation with the given slides and optional title.
    pub fn new(slides: Vec<Slide>, title: Option<String>) -> (p: Self)
        ensures
            p.slides == slides,
            p.title == title,
    {
        Presentation { slides, title }
    }

    /// Returns the number of slides in the presentation.
    pub fn slide_count(&self) -> (n: usize)
        ensures
            n == self.slides@.len(),
    {
        self.slides.len()
    }

    /// Returns a reference to the slide at the given index, if it exists.
    pub fn get_slide(&self, index: usize) -> (r: Option<&Slide>)
        ensures
            r == (if index < self.slides@.len() {
                Some(&self.slides@[index as int])
            } else {
                None
            }),
    {
        if index < self.slides.len() {
            Some(&self.slides[index])
        } else {
            None
        }
    }

    /// Returns true if the presentation has no slides.
    pub fn is_empty(&self) -> (b: bool)
        ensures
            b == (self.slides@.len() == 0),
    {
        self.slides.len() == 0
    }
}

} // verus!
