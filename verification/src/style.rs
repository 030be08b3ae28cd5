//! Colours, styles and styled spans: what the tokenizer hands to whoever
//! paints the screen.

use crate::app::Rgb;
use vstd::prelude::*;

verus! {

/// A terminal colour: one of the sixteen named ones or an RGB triple.
#[derive(Clone, Copy, Debug, PartialEq, Eq)]
pub enum Color {
    White,
    Black,
    Blue,
    Green,
    Red,
    LightRed,
    Magenta,
    LightYellow,
    Yellow,
    LightGreen,
    Cyan,
    LightCyan,
    LightBlue,
    LightMagenta,
    DarkGray,
    Gray,
    Rgb(u8, u8, u8),
}

/// Colours and modifiers of a run of text. `None` leaves a colour to the
/// terminal.
#[derive(Clone, Copy, Debug, PartialEq, Eq)]
pub struct Style {
    pub fg: Option<Color>,
    pub bg: Option<Color>,
    pub bold: bool,
    pub italic: bool,
    pub underline: bool,
}

/// The three modifiers that markers toggle.
#[derive(Clone, Copy, Debug, PartialEq, Eq)]
pub struct StyleState {
    pub bold: bool,
    pub italic: bool,
    pub underline: bool,
}

/// A run of text with one style.
#[derive(Clone, Debug, PartialEq, Eq)]
pub struct Span {
    pub content: String,
    pub style: Style,
}

/// A span as contracts see it: its characters and its style.
pub ghost struct SpanView {
    pub text: Seq<char>,
    pub style: Style,
}

/// One line of the display.
#[derive(Clone, Debug, PartialEq, Eq)]
pub struct Line {
    pub spans: Vec<Span>,
}

impl View for Span {
    type V = SpanView;

    open spec fn view(&self) -> SpanView {
        SpanView { text: self.content@, style: self.style }
    }
}

impl View for Line {
    type V = Seq<SpanView>;

    open spec fn view(&self) -> Seq<SpanView> {
        span_views(self.spans@)
    }
}

/// The views of a sequence of spans.
pub open spec fn span_views(spans: Seq<Span>) -> Seq<SpanView> {
    spans.map_values(|s: Span| s@)
}

/// The text that the spans spell together.
pub open spec fn text_of(spans: Seq<SpanView>) -> Seq<char>
    decreases spans.len(),
{
    if spans.len() == 0 {
        Seq::empty()
    } else {
        text_of(spans.drop_last()) + spans.last().text
    }
}

/// The text of two runs of spans is the text of the first, then that of
/// the second.
pub proof fn lemma_text_of_concat(a: Seq<SpanView>, b: Seq<SpanView>)
    ensures
        text_of(a + b) == text_of(a) + text_of(b),
    decreases b.len(),
{
    if b.len() == 0 {
        assert(a + b == a);
        assert(text_of(a) + text_of(b) == text_of(a));
    } else {
        lemma_text_of_concat(a, b.drop_last());
        assert((a + b).drop_last() == a + b.drop_last());
        assert((a + b).last() == b.last());
        assert(text_of(a + b) == (text_of(a) + text_of(b.drop_last())) + b.last().text);
        assert(text_of(a + b) == text_of(a) + (text_of(b.drop_last()) + b.last().text));
    }
}

/// One span spells its own text.
pub proof fn lemma_text_of_single(span: SpanView)
    ensures
        text_of(seq![span]) == span.text,
{
    let one = seq![span];
    assert(one.drop_last() == Seq::<SpanView>::empty());
    assert(text_of(one.drop_last()) == Seq::<char>::empty());
    assert(Seq::<char>::empty() + span.text == span.text);
}

/// The theme colour `rgb` as a colour.
pub open spec fn rgb_color(rgb: Rgb) -> Color {
    Color::Rgb(rgb.0, rgb.1, rgb.2)
}

impl Style {
    /// The style that sets no colour and no modifier.
    pub open spec fn plain() -> Style {
        Style { fg: None, bg: None, bold: false, italic: false, underline: false }
    }

    /// The style that sets no colour and no modifier.
    pub fn new() -> (style: Style)
        ensures
            style == Style::plain(),
    {
        Style { fg: None, bg: None, bold: false, italic: false, underline: false }
    }

    /// `self` with the foreground `color`.
    pub fn fg(self, color: Color) -> (style: Style)
        ensures
            style == (Style { fg: Some(color), ..self }),
    {
        Style { fg: Some(color), ..self }
    }

    /// `self` with the background `color`.
    pub fn bg(self, color: Color) -> (style: Style)
        ensures
            style == (Style { bg: Some(color), ..self }),
    {
        Style { bg: Some(color), ..self }
    }

    /// `self` with bold switched on.
    pub fn bold(self) -> (style: Style)
        ensures
            style == (Style { bold: true, ..self }),
    {
        Style { bold: true, ..self }
    }
}

impl StyleState {
    /// No modifier switched on.
    pub open spec fn off() -> StyleState {
        StyleState { bold: false, italic: false, underline: false }
    }

    /// `base` with the modifiers of `self` added to its own.
    pub open spec fn applied(self, base: Style) -> Style {
        Style {
            fg: base.fg,
            bg: base.bg,
            bold: base.bold || self.bold,
            italic: base.italic || self.italic,
            underline: base.underline || self.underline,
        }
    }

    /// `base` with the modifiers of `self` added to its own.
    pub fn as_style(&self, base: Style) -> (style: Style)
        ensures
            style == self.applied(base),
    {
        Style {
            fg: base.fg,
            bg: base.bg,
            bold: base.bold || self.bold,
            italic: base.italic || self.italic,
            underline: base.underline || self.underline,
        }
    }
}

impl Default for StyleState {
    fn default() -> (state: StyleState)
        ensures
            state == StyleState::off(),
    {
        StyleState { bold: false, italic: false, underline: false }
    }
}

} // verus!
