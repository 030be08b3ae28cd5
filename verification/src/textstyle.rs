//! The tokenizer: it folds the markers of a raw buffer into a style and
//! cuts the visible text into spans of one style each.

use crate::app::{App, Rgb};
use crate::encoding::chars_of;
use crate::markup::{
    comma_at, digits_at, is_digit, is_marker, is_marker_char, marker_len, marker_span,
    scan_color_args, visible_text, visible_text_from, BOLD, COLOR, CTCP, ITALIC, RESET, UNDERLINE,
};
use crate::style::{
    lemma_text_of_concat, lemma_text_of_single, rgb_color, span_views, text_of, Color, Span,
    SpanView, Style, StyleState,
};
use vstd::prelude::*;

pub use crate::chat::chat_style;
pub use crate::viewport::visible_prompt_and_cursor_offset;

verus! {

/// The number that a colour code of one or two digits writes; `None` for
/// any other string.
pub open spec fn code_number(code: Seq<char>) -> Option<int> {
    if code.len() == 1 && is_digit(code[0]) {
        Some(code[0] as u32 as int - 48)
    } else if code.len() == 2 && is_digit(code[0]) && is_digit(code[1]) {
        Some(10 * (code[0] as u32 as int - 48) + (code[1] as u32 as int - 48))
    } else {
        None
    }
}

/// The named colour with number `n`, for `n` in `0..=15`.
pub open spec fn named_color(n: int) -> Option<Color> {
    if n == 0 {
        Some(Color::White)
    } else if n == 1 {
        Some(Color::Black)
    } else if n == 2 {
        Some(Color::Blue)
    } else if n == 3 {
        Some(Color::Green)
    } else if n == 4 {
        Some(Color::Red)
    } else if n == 5 {
        Some(Color::LightRed)
    } else if n == 6 {
        Some(Color::Magenta)
    } else if n == 7 {
        Some(Color::LightYellow)
    } else if n == 8 {
        Some(Color::Yellow)
    } else if n == 9 {
        Some(Color::LightGreen)
    } else if n == 10 {
        Some(Color::Cyan)
    } else if n == 11 {
        Some(Color::LightCyan)
    } else if n == 12 {
        Some(Color::LightBlue)
    } else if n == 13 {
        Some(Color::LightMagenta)
    } else if n == 14 {
        Some(Color::DarkGray)
    } else if n == 15 {
        Some(Color::Gray)
    } else {
        None
    }
}

/// The colour that `code` selects: a named colour for the numbers 0 to 15,
/// written with one or two digits, and the background of the theme for
/// every other string, the empty one included.
pub open spec fn color_of_code(code: Seq<char>, theme_bg: Rgb) -> Color {
    match code_number(code) {
        Some(n) => match named_color(n) {
            Some(color) => color,
            None => rgb_color(theme_bg),
        },
        None => rgb_color(theme_bg),
    }
}

/// The number that a colour code of one or two digits writes.
pub fn code_value(code: &str) -> (value: Option<usize>)
    ensures
        value is Some <==> code_number(code@) is Some,
        value is Some ==> value->0 == code_number(code@)->0,
{
    let chars = chars_of(code);
    if chars.len() == 1 && '0' <= chars[0] && chars[0] <= '9' {
        let d: u32 = chars[0] as u32 - 48;
        Some(d as usize)
    } else if chars.len() == 2 && '0' <= chars[0] && chars[0] <= '9' && '0' <= chars[1]
        && chars[1] <= '9' {
        let tens: u32 = chars[0] as u32 - 48;
        let ones: u32 = chars[1] as u32 - 48;
        Some((10 * tens + ones) as usize)
    } else {
        None
    }
}

/// Resolves a colour code against the colour table and the theme.
pub fn parse_color_code(app: &App, code: &str) -> (color: Option<Color>)
    ensures
        color == Some(color_of_code(code@, app.style_bg)),
{
    let (bgr, bgg, bgb) = app.style_bg;
    let fallback = Color::Rgb(bgr, bgg, bgb);
    let named = match code_value(code) {
        Some(0) => Color::White,
        Some(1) => Color::Black,
        Some(2) => Color::Blue,
        Some(3) => Color::Green,
        Some(4) => Color::Red,
        Some(5) => Color::LightRed,
        Some(6) => Color::Magenta,
        Some(7) => Color::LightYellow,
        Some(8) => Color::Yellow,
        Some(9) => Color::LightGreen,
        Some(10) => Color::Cyan,
        Some(11) => Color::LightCyan,
        Some(12) => Color::LightBlue,
        Some(13) => Color::LightMagenta,
        Some(14) => Color::DarkGray,
        Some(15) => Color::Gray,
        _ => fallback,
    };
    Some(named)
}

/// The foreground and background codes that one colour marker carried.
#[derive(Debug, PartialEq, Eq)]
pub struct ColorCodes {
    pub fg: String,
    pub bg: String,
}

impl View for ColorCodes {
    type V = (Seq<char>, Seq<char>);

    open spec fn view(&self) -> (Seq<char>, Seq<char>) {
        (self.fg@, self.bg@)
    }
}

/// The views of a sequence of colour codes.
pub open spec fn code_views(codes: Seq<ColorCodes>) -> Seq<(Seq<char>, Seq<char>)> {
    codes.map_values(|c: ColorCodes| c@)
}

/// The foreground code of the colour marker at index `i`: its one or two
/// digits; `"14"` where a character follows that is no digit; empty where
/// the marker ends the buffer.
pub open spec fn fg_code(s: Seq<char>, i: int) -> Seq<char> {
    let n = digits_at(s, i + 1);
    if n > 0 {
        s.subrange(i + 1, i + 1 + n)
    } else if i + 1 < s.len() {
        seq!['1', '4']
    } else {
        Seq::empty()
    }
}

/// The background code of the colour marker at index `i`: the digits, at
/// most two, behind the comma that follows the foreground digits at once;
/// empty where no comma does.
pub open spec fn bg_code(s: Seq<char>, i: int) -> Seq<char> {
    let at = i + 1 + digits_at(s, i + 1);
    if comma_at(s, at) {
        s.subrange(at + 1, at + 1 + digits_at(s, at + 1))
    } else {
        Seq::empty()
    }
}

/// The state that the tokenizer folds over a buffer: the toggles, and the
/// style that holds the current colours.
pub ghost struct Fold {
    pub toggles: StyleState,
    pub style: Style,
}

/// The state at the start of a buffer that is shown in `base`.
pub open spec fn initial_fold(base: Style) -> Fold {
    Fold { toggles: StyleState::off(), style: base }
}

/// The state after the marker at index `i` of `s`.
pub open spec fn after_marker(
    fold: Fold,
    s: Seq<char>,
    i: int,
    base: Style,
    theme_bg: Rgb,
) -> Fold {
    let c = s[i];
    let t = fold.toggles;
    if c == BOLD {
        Fold {
            toggles: StyleState { bold: !t.bold, italic: t.italic, underline: t.underline },
            style: fold.style,
        }
    } else if c == ITALIC {
        Fold {
            toggles: StyleState { bold: t.bold, italic: !t.italic, underline: t.underline },
            style: fold.style,
        }
    } else if c == UNDERLINE {
        Fold {
            toggles: StyleState { bold: t.bold, italic: t.italic, underline: !t.underline },
            style: fold.style,
        }
    } else if c == COLOR {
        Fold {
            toggles: t,
            style: Style {
                fg: Some(color_of_code(fg_code(s, i), theme_bg)),
                bg: Some(color_of_code(bg_code(s, i), theme_bg)),
                bold: fold.style.bold,
                italic: fold.style.italic,
                underline: fold.style.underline,
            },
        }
    } else if c == RESET {
        Fold {
            toggles: StyleState::off(),
            style: Style {
                fg: base.fg,
                bg: Some(rgb_color(theme_bg)),
                bold: base.bold,
                italic: base.italic,
                underline: base.underline,
            },
        }
    } else {
        fold
    }
}

/// The span that a run of text becomes under `fold`; nothing for an empty
/// run.
pub open spec fn flushed(run: Seq<char>, fold: Fold) -> Seq<SpanView> {
    if run.len() == 0 {
        Seq::empty()
    } else {
        seq![SpanView { text: run, style: fold.toggles.applied(fold.style) }]
    }
}

/// The spans of `s` from index `i` on, where `run` is the text gathered
/// since the last flush and `fold` the state reached.
pub open spec fn spans_from(
    s: Seq<char>,
    i: int,
    fold: Fold,
    run: Seq<char>,
    base: Style,
    theme_bg: Rgb,
) -> Seq<SpanView>
    decreases s.len() - i,
{
    if i < 0 || i >= s.len() {
        flushed(run, fold)
    } else if s[i] == CTCP {
        spans_from(s, i + 1, fold, run, base, theme_bg)
    } else if is_marker(s[i]) {
        flushed(run, fold) + spans_from(
            s,
            i + marker_len(s, i),
            after_marker(fold, s, i, base, theme_bg),
            Seq::empty(),
            base,
            theme_bg,
        )
    } else {
        spans_from(s, i + 1, fold, run.push(s[i]), base, theme_bg)
    }
}

/// The styled spans of the buffer `s`, shown in `base` on a theme whose
/// background is `theme_bg`.
pub open spec fn styled_runs(s: Seq<char>, base: Style, theme_bg: Rgb) -> Seq<SpanView> {
    spans_from(s, 0, initial_fold(base), Seq::empty(), base, theme_bg)
}

/// The spans from index `i` on spell the gathered run followed by the
/// visible characters from `i` on.
pub proof fn lemma_spans_from_text(
    s: Seq<char>,
    i: int,
    fold: Fold,
    run: Seq<char>,
    base: Style,
    theme_bg: Rgb,
)
    requires
        0 <= i,
    ensures
        text_of(spans_from(s, i, fold, run, base, theme_bg)) == run + visible_text_from(s, i),
        forall|k: int|
            0 <= k < spans_from(s, i, fold, run, base, theme_bg).len() ==> (
            #[trigger] spans_from(s, i, fold, run, base, theme_bg)[k]).text.len() > 0,
    decreases s.len() - i,
{
    let here = flushed(run, fold);
    assert(text_of(here) == run) by {
        if run.len() > 0 {
            lemma_text_of_single(here[0]);
        }
    }
    if i >= s.len() {
        assert(run + visible_text_from(s, i) == run);
    } else if s[i] == CTCP {
        lemma_spans_from_text(s, i + 1, fold, run, base, theme_bg);
    } else if is_marker(s[i]) {
        let next = after_marker(fold, s, i, base, theme_bg);
        let at = i + marker_len(s, i);
        let rest = spans_from(s, at, next, Seq::empty(), base, theme_bg);
        lemma_spans_from_text(s, at, next, Seq::empty(), base, theme_bg);
        lemma_text_of_concat(here, rest);
        assert(Seq::<char>::empty() + visible_text_from(s, at) == visible_text_from(s, at));
    } else {
        lemma_spans_from_text(s, i + 1, fold, run.push(s[i]), base, theme_bg);
        assert(visible_text_from(s, i) == seq![s[i]] + visible_text_from(s, i + 1));
        assert(run.push(s[i]) + visible_text_from(s, i + 1) == run + (seq![s[i]]
            + visible_text_from(s, i + 1)));
    }
}

/// The tokenizer and the index map agree on what is markup: the spans of
/// a buffer spell exactly its visible text, and none of them is empty.
pub proof fn lemma_spans_spell_visible_text(s: Seq<char>, base: Style, theme_bg: Rgb)
    ensures
        text_of(styled_runs(s, base, theme_bg)) == visible_text(s),
        forall|k: int|
            0 <= k < styled_runs(s, base, theme_bg).len() ==> (#[trigger] styled_runs(
                s,
                base,
                theme_bg,
            )[k]).text.len() > 0,
{
    lemma_spans_from_text(s, 0, initial_fold(base), Seq::empty(), base, theme_bg);
    assert(Seq::<char>::empty() + visible_text_from(s, 0) == visible_text(s));
}

/// The codes of the colour markers of `s` at or after index `i`, in order.
pub open spec fn codes_from(s: Seq<char>, i: int) -> Seq<(Seq<char>, Seq<char>)>
    decreases s.len() - i,
{
    if i < 0 || i >= s.len() {
        Seq::empty()
    } else if s[i] == COLOR {
        seq![(fg_code(s, i), bg_code(s, i))] + codes_from(s, i + marker_len(s, i))
    } else {
        codes_from(s, i + 1)
    }
}

/// The codes of the colour markers of `s`, in order.
pub open spec fn color_codes(s: Seq<char>) -> Seq<(Seq<char>, Seq<char>)> {
    codes_from(s, 0)
}

/// The characters of `chars` in `from..to` as a string.
pub(crate) fn string_of(chars: &Vec<char>, from: usize, to: usize) -> (text: String)
    requires
        from <= to <= chars.len(),
    ensures
        text@ == chars@.subrange(from as int, to as int),
{
    let mut text = String::new();
    let mut i: usize = from;
    while i < to
        invariant
            from <= i <= to <= chars.len(),
            text@ == chars@.subrange(from as int, i as int),
        decreases to - i,
    {
        text.push(chars[i]);
        i = i + 1;
        assert(chars@.subrange(from as int, i as int) == chars@.subrange(from as int, i - 1).push(
            chars@[i - 1],
        ));
    }
    text
}

/// The foreground code that stands in for a missing one.
fn fallback_code() -> (code: String)
    ensures
        code@ == seq!['1', '4'],
{
    let mut code = String::new();
    code.push('1');
    code.push('4');
    assert(code@ == seq!['1', '4']);
    code
}

/// Appends the gathered run to `spans` as one span, unless it is empty.
fn flush(spans: &mut Vec<Span>, text: String, styles: &StyleState, current_style: Style)
    ensures
        span_views(final(spans)@) == span_views(old(spans)@) + flushed(
            text@,
            Fold { toggles: *styles, style: current_style },
        ),
{
    let ghost before = spans@;
    if !text.as_str().is_empty() {
        let span = Span { content: text, style: styles.as_style(current_style) };
        spans.push(span);
        assert(span_views(spans@) == span_views(before).push(span@));
        assert(span_views(before).push(span@) == span_views(before) + seq![span@]);
    } else {
        assert(span_views(before) + Seq::<SpanView>::empty() == span_views(before));
    }
}

/// Reads the codes of the colour marker at index `i`.
fn read_codes(chars: &Vec<char>, i: usize) -> (pair: ColorCodes)
    requires
        i < chars.len(),
        chars@[i as int] == COLOR,
    ensures
        pair@ == (fg_code(chars@, i as int), bg_code(chars@, i as int)),
{
    let args = scan_color_args(chars, i + 1);
    let fg = if args.fg_digits > 0 {
        string_of(chars, i + 1, i + 1 + args.fg_digits)
    } else if i + 1 < chars.len() {
        fallback_code()
    } else {
        String::new()
    };
    let bg = if args.comma {
        let at: usize = i + 2 + args.fg_digits;
        string_of(chars, at, at + args.bg_digits)
    } else {
        String::new()
    };
    ColorCodes { fg, bg }
}

/// Folds the marker at index `i` into the toggles and the style, and
/// records the codes of a colour marker.
fn apply_marker(
    chars: &Vec<char>,
    i: usize,
    styles: &mut StyleState,
    current_style: &mut Style,
    codes: &mut Vec<ColorCodes>,
    start_default: Style,
    app: &App,
)
    requires
        i < chars.len(),
        is_marker(chars@[i as int]),
        chars@[i as int] != CTCP,
    ensures
        (Fold { toggles: *final(styles), style: *final(current_style) }) == after_marker(
            Fold { toggles: *old(styles), style: *old(current_style) },
            chars@,
            i as int,
            start_default,
            app.style_bg,
        ),
        code_views(final(codes)@) + codes_from(chars@, i + marker_len(chars@, i as int))
            == code_views(old(codes)@) + codes_from(chars@, i as int),
{
    let c = chars[i];
    let ghost seen = code_views(codes@);
    let ghost later = codes_from(chars@, i + marker_len(chars@, i as int));
    if c == BOLD {
        styles.bold = !styles.bold;
    } else if c == ITALIC {
        styles.italic = !styles.italic;
    } else if c == UNDERLINE {
        styles.underline = !styles.underline;
    } else if c == COLOR {
        let pair = read_codes(chars, i);
        match parse_color_code(app, pair.fg.as_str()) {
            Some(color) => {
                *current_style = current_style.fg(color);
            },
            None => {},
        }
        match parse_color_code(app, pair.bg.as_str()) {
            Some(color) => {
                *current_style = current_style.bg(color);
            },
            None => {},
        }
        let ghost view = pair@;
        codes.push(pair);
        proof {
            assert(code_views(codes@) == seen.push(view));
            assert(seen.push(view) + later == seen + (seq![view] + later));
        }
    } else {
        *styles = StyleState::default();
        *current_style = start_default;
        proof {
            reveal_strlit("99");
        }
        match parse_color_code(app, "99") {
            Some(color) => {
                *current_style = current_style.bg(color);
            },
            None => {},
        }
    }
}

/// Tokenizes `line`: appends its styled spans to `spans` and returns them
/// together with the codes of every colour marker met, in order.
///
/// The text starts in `current_style` with no modifier toggled. A reset
/// marker returns to that style and sets the background to that of the
/// theme held by `app`.
pub fn text_style(line: &str, spans: Vec<Span>, current_style: Style, app: &App) -> (out: (
    Vec<Span>,
    Vec<ColorCodes>,
))
    ensures
        span_views(out.0@) == span_views(spans@) + styled_runs(line@, current_style, app.style_bg),
        code_views(out.1@) == color_codes(line@),
{
    let chars = chars_of(line);
    let start_default = current_style;
    let mut spans = spans;
    let mut codes: Vec<ColorCodes> = Vec::new();
    let mut current_style = current_style;
    let mut styles = StyleState::default();
    let mut text = String::new();
    let mut i: usize = 0;
    let ghost goal = span_views(spans@) + styled_runs(line@, start_default, app.style_bg);
    proof {
        assert(code_views(codes@) + codes_from(chars@, 0) == color_codes(chars@));
    }
    while i < chars.len()
        invariant
            chars@ == line@,
            i <= chars.len(),
            span_views(spans@) + spans_from(
                chars@,
                i as int,
                Fold { toggles: styles, style: current_style },
                text@,
                start_default,
                app.style_bg,
            ) == goal,
            code_views(codes@) + codes_from(chars@, i as int) == color_codes(chars@),
        decreases chars.len() - i,
    {
        let c = chars[i];
        let ghost fold = Fold { toggles: styles, style: current_style };
        let ghost done = span_views(spans@);
        let ghost seen = code_views(codes@);
        if c == CTCP {
            i = i + 1;
        } else if is_marker_char(c) {
            let ghost run = text@;
            let ghost rest = spans_from(
                chars@,
                i + marker_len(chars@, i as int),
                after_marker(fold, chars@, i as int, start_default, app.style_bg),
                Seq::empty(),
                start_default,
                app.style_bg,
            );
            flush(&mut spans, text, &styles, current_style);
            text = String::new();
            let n: usize = marker_span(&chars, i);
            apply_marker(
                &chars,
                i,
                &mut styles,
                &mut current_style,
                &mut codes,
                start_default,
                app,
            );
            i = i + n;
            proof {
                assert((done + flushed(run, fold)) + rest == done + (flushed(run, fold) + rest));
            }
        } else {
            text.push(c);
            i = i + 1;
        }
    }
    flush(&mut spans, text, &styles, current_style);
    (spans, codes)
}

} // verus!
