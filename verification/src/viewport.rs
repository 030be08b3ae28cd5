//! The window of the single-line prompt: which tail of the visible text
//! fits the width at hand, where the cursor stands in it, and which parts
//! of the styled spans it shows.

use crate::app::App;
use crate::cursor::{
    build_prompt_cursor_map, index_map, lemma_byte_index, visible_count, PromptCursorMap,
};
use crate::encoding::{
    byte_offset, chars_of, lemma_encode_injective, lemma_encode_split, lemma_offset_is_boundary,
};
use crate::markup::{lemma_visible_from_bounds, visible_positions, visible_text};
use crate::style::{
    lemma_text_of_concat, lemma_text_of_single, rgb_color, span_views, text_of, Color, Span,
    SpanView, Style,
};
use crate::textstyle::{
    code_number, code_value, color_codes, lemma_spans_spell_visible_text, string_of, styled_runs,
    text_style, ColorCodes,
};
use vstd::prelude::*;

verus! {

/// The number of terminal columns that `c` takes, as the width tables of
/// Unicode give it; `None` for a control character.
pub uninterp spec fn char_columns(c: char) -> Option<usize>;

/// `UnicodeWidthChar::width` of the crate `unicode-width`: a lookup in its
/// width tables, which depends on the character alone.
#[verifier::external_body]
fn glyph_width(c: char) -> (w: Option<usize>)
    ensures
        w == char_columns(c),
{
    unicode_width::UnicodeWidthChar::width(c)
}

/// The number of columns that `c` takes on screen; a control character
/// takes none.
pub open spec fn columns(c: char) -> usize {
    match char_columns(c) {
        Some(w) => w,
        None => 0,
    }
}

/// The column widths of the characters of `text`.
pub open spec fn widths_of(text: Seq<char>) -> Seq<usize> {
    text.map_values(|c: char| columns(c))
}

/// The column widths of the characters of `text`.
pub fn column_widths(text: &Vec<char>) -> (widths: Vec<usize>)
    ensures
        widths@ == widths_of(text@),
{
    let mut widths: Vec<usize> = Vec::new();
    let mut i: usize = 0;
    while i < text.len()
        invariant
            i <= text.len(),
            widths@ == widths_of(text@.take(i as int)),
        decreases text.len() - i,
    {
        let w: usize = match glyph_width(text[i]) {
            Some(w) => w,
            None => 0,
        };
        widths.push(w);
        i = i + 1;
        assert(text@.take(i as int) == text@.take(i - 1).push(text@[i - 1]));
    }
    assert(text@.take(i as int) == text@);
    widths
}

/// Sum of the widths with indices in `from..to`.
pub open spec fn total(widths: Seq<usize>, from: int, to: int) -> int
    decreases to - from,
{
    if from >= to {
        0
    } else {
        widths[from] + total(widths, from + 1, to)
    }
}

/// A sum of widths grows by the width that is added at its end.
pub proof fn lemma_total_push(widths: Seq<usize>, from: int, to: int)
    requires
        from <= to,
    ensures
        total(widths, from, to + 1) == total(widths, from, to) + widths[to],
    decreases to - from,
{
    if from < to {
        lemma_total_push(widths, from + 1, to);
    } else {
        assert(total(widths, from + 1, to + 1) == 0);
    }
}

/// A sum of widths is not negative and does not shrink when it starts
/// earlier.
pub proof fn lemma_total_monotone(widths: Seq<usize>, a: int, b: int, to: int)
    requires
        a <= b,
    ensures
        0 <= total(widths, b, to) <= total(widths, a, to),
    decreases to - a,
{
    if b >= to {
        if a < to {
            lemma_total_monotone(widths, a + 1, b, to);
        }
    } else if a < b {
        lemma_total_monotone(widths, a + 1, b, to);
    } else {
        lemma_total_monotone(widths, a + 1, b + 1, to);
    }
}

/// Whether the window of `max` columns starts at index `j`: the text from
/// `j` on fits, and the text from one character earlier on does not.
pub open spec fn is_window_start(widths: Seq<usize>, max: int, j: int) -> bool {
    &&& 0 <= j <= widths.len()
    &&& total(widths, j, widths.len() as int) <= max
    &&& j > 0 ==> total(widths, j - 1, widths.len() as int) > max
}

/// The index at which the window of `max` columns starts: the least index
/// from which the text fits.
pub open spec fn window_start_of(widths: Seq<usize>, max: int) -> int {
    choose|j: int| is_window_start(widths, max, j)
}

/// At most one index is the start of the window.
pub proof fn lemma_window_start_unique(widths: Seq<usize>, max: int, a: int, b: int)
    requires
        is_window_start(widths, max, a),
        is_window_start(widths, max, b),
    ensures
        a == b,
{
    let len = widths.len() as int;
    if a < b {
        lemma_total_monotone(widths, a, b - 1, len);
    } else if b < a {
        lemma_total_monotone(widths, b, a - 1, len);
    }
}

/// Finds the start of the window: scanning from the end of the text, it
/// takes characters while their widths together stay within `max_width`.
pub fn window_start(widths: &Vec<usize>, max_width: usize) -> (start: usize)
    ensures
        is_window_start(widths@, max_width as int, start as int),
        start == window_start_of(widths@, max_width as int),
{
    let len: usize = widths.len();
    let mut start: usize = len;
    let mut width: usize = 0;
    while start > 0
        invariant_except_break
            start <= len,
            len == widths.len(),
            width == total(widths@, start as int, len as int),
            width <= max_width,
        ensures
            is_window_start(widths@, max_width as int, start as int),
        decreases start,
    {
        let w: usize = widths[start - 1];
        if w > max_width - width {
            break ;
        }
        width = width + w;
        start = start - 1;
    }
    proof {
        let j = window_start_of(widths@, max_width as int);
        lemma_window_start_unique(widths@, max_width as int, start as int, j);
    }
    start
}

/// The column of the cursor within the window that starts at `start`: the
/// widths of the characters between the start and the cursor, and 0 for
/// a cursor left of the window.
pub open spec fn cursor_column(widths: Seq<usize>, start: int, cursor: int) -> int {
    if cursor >= start {
        total(widths, start, if cursor <= widths.len() {
            cursor
        } else {
            widths.len() as int
        })
    } else {
        0
    }
}

/// Computes the column of the cursor within the window that starts at
/// `start`.
pub fn cursor_offset(widths: &Vec<usize>, start: usize, cursor: usize) -> (column: usize)
    requires
        start <= widths.len(),
        total(widths@, start as int, widths.len() as int) <= usize::MAX,
    ensures
        column == cursor_column(widths@, start as int, cursor as int),
        column <= total(widths@, start as int, widths.len() as int),
{
    let len: usize = widths.len();
    let end: usize = if cursor <= len {
        cursor
    } else {
        len
    };
    let mut column: usize = 0;
    if end >= start {
        let mut i: usize = start;
        while i < end
            invariant
                start <= i <= end <= len,
                len == widths.len(),
                column == total(widths@, start as int, i as int),
                total(widths@, start as int, len as int) <= usize::MAX,
            decreases end - i,
        {
            proof {
                lemma_total_push(widths@, start as int, i as int);
                lemma_total_split(widths@, start as int, i + 1, len as int);
                lemma_total_monotone(widths@, i + 1, len as int, len as int);
            }
            column = column + widths[i];
            i = i + 1;
        }
        proof {
            lemma_total_split(widths@, start as int, end as int, len as int);
            lemma_total_monotone(widths@, end as int, len as int, len as int);
        }
    } else {
        proof {
            lemma_total_monotone(widths@, start as int, len as int, len as int);
        }
    }
    column
}

/// A sum of widths is the sum of its two parts.
pub proof fn lemma_total_split(widths: Seq<usize>, from: int, mid: int, to: int)
    requires
        from <= mid <= to,
    ensures
        total(widths, from, to) == total(widths, from, mid) + total(widths, mid, to),
    decreases mid - from,
{
    if from < mid {
        lemma_total_split(widths, from + 1, mid, to);
    }
}

/// Text of width one per character: the window holds the last `max`
/// characters, or all where there are fewer, and the cursor stands as
/// many columns into the window as characters lie between its start and
/// the cursor.
pub proof fn lemma_window_of_narrow_text(widths: Seq<usize>, max: int, cursor: int)
    requires
        0 <= max,
        forall|i: int| 0 <= i < widths.len() ==> widths[i] == 1,
    ensures
        window_start_of(widths, max) == if widths.len() <= max {
            0
        } else {
            widths.len() - max
        },
        window_start_of(widths, max) <= cursor <= widths.len() ==> cursor_column(
            widths,
            window_start_of(widths, max),
            cursor,
        ) == cursor - window_start_of(widths, max),
{
    let len = widths.len() as int;
    let start = if len <= max {
        0
    } else {
        len - max
    };
    lemma_total_of_narrow_text(widths, start, len);
    if start > 0 {
        lemma_total_of_narrow_text(widths, start - 1, len);
    }
    assert(is_window_start(widths, max, start));
    lemma_window_start_unique(widths, max, start, window_start_of(widths, max));
    if start <= cursor <= len {
        lemma_total_of_narrow_text(widths, start, cursor);
    }
}

/// Characters of width one sum up to their number.
pub proof fn lemma_total_of_narrow_text(widths: Seq<usize>, from: int, to: int)
    requires
        0 <= from <= to <= widths.len(),
        forall|i: int| 0 <= i < widths.len() ==> widths[i] == 1,
    ensures
        total(widths, from, to) == to - from,
    decreases to - from,
{
    if from < to {
        lemma_total_of_narrow_text(widths, from + 1, to);
    }
}

/// The parts of the spans from index `k` on that lie in a range of
/// characters: the range leaves out the first `skip` characters of those
/// spans and holds the `needed` ones that follow. A span that the range
/// cuts is split and keeps its style; no empty span is kept.
pub open spec fn slice_from(spans: Seq<SpanView>, k: int, skip: int, needed: int) -> Seq<SpanView>
    decreases spans.len() - k,
{
    if k < 0 || k >= spans.len() || needed <= 0 {
        Seq::empty()
    } else {
        let len = spans[k].text.len() as int;
        if len <= skip {
            slice_from(spans, k + 1, skip - len, needed)
        } else {
            let n = if needed <= len - skip {
                needed
            } else {
                len - skip
            };
            let piece = SpanView {
                text: spans[k].text.subrange(skip, skip + n),
                style: spans[k].style,
            };
            seq![piece] + slice_from(spans, k + 1, 0, needed - n)
        }
    }
}

/// The parts of `spans` that hold the characters with indices in
/// `start..start + needed`, counted over the text of all spans.
pub open spec fn slice_spans(spans: Seq<SpanView>, start: int, needed: int) -> Seq<SpanView> {
    slice_from(spans, 0, start, needed)
}

/// The parts cut out of the spans from index `k` on spell the range of
/// their text that was asked for.
pub proof fn lemma_slice_from_text(spans: Seq<SpanView>, k: int, skip: int, needed: int)
    requires
        0 <= k <= spans.len(),
        0 <= skip,
        0 <= needed,
        skip + needed <= text_of(spans.skip(k)).len(),
    ensures
        text_of(slice_from(spans, k, skip, needed)) == text_of(spans.skip(k)).subrange(
            skip,
            skip + needed,
        ),
    decreases spans.len() - k,
{
    let all = text_of(spans.skip(k));
    if k >= spans.len() || needed <= 0 {
        assert(all.subrange(skip, skip + needed) == Seq::<char>::empty());
    } else {
        let head = spans[k].text;
        let tail = text_of(spans.skip(k + 1));
        assert(spans.skip(k) == seq![spans[k]] + spans.skip(k + 1));
        lemma_text_of_concat(seq![spans[k]], spans.skip(k + 1));
        lemma_text_of_single(spans[k]);
        assert(all == head + tail);
        let len = head.len() as int;
        if len <= skip {
            lemma_slice_from_text(spans, k + 1, skip - len, needed);
            assert(all.subrange(skip, skip + needed) == tail.subrange(
                skip - len,
                skip - len + needed,
            ));
        } else {
            let n = if needed <= len - skip {
                needed
            } else {
                len - skip
            };
            let piece = SpanView { text: head.subrange(skip, skip + n), style: spans[k].style };
            let rest = slice_from(spans, k + 1, 0, needed - n);
            lemma_slice_from_text(spans, k + 1, 0, needed - n);
            lemma_text_of_concat(seq![piece], rest);
            lemma_text_of_single(piece);
            assert(all.subrange(skip, skip + needed) == head.subrange(skip, skip + n)
                + tail.subrange(0, needed - n));
        }
    }
}

/// The parts cut out of `spans` spell the range of their text that was
/// asked for.
pub proof fn lemma_slice_spans_text(spans: Seq<SpanView>, start: int, needed: int)
    requires
        0 <= start,
        0 <= needed,
        start + needed <= text_of(spans).len(),
    ensures
        text_of(slice_spans(spans, start, needed)) == text_of(spans).subrange(
            start,
            start + needed,
        ),
{
    assert(spans.skip(0) == spans);
    lemma_slice_from_text(spans, 0, start, needed);
}

/// Cuts the characters with indices in `start..start + needed`, counted
/// over the text of all spans, out of `spans`.
pub fn window_spans(spans: &Vec<Span>, start: usize, needed: usize) -> (out: Vec<Span>)
    ensures
        span_views(out@) == slice_spans(span_views(spans@), start as int, needed as int),
{
    let ghost all = span_views(spans@);
    let mut out: Vec<Span> = Vec::new();
    let mut skip: usize = start;
    let mut left: usize = needed;
    let mut k: usize = 0;
    proof {
        assert(span_views(out@) + slice_from(all, 0, skip as int, left as int) == slice_spans(
            all,
            start as int,
            needed as int,
        ));
    }
    while k < spans.len() && left > 0
        invariant
            k <= spans.len(),
            all == span_views(spans@),
            span_views(out@) + slice_from(all, k as int, skip as int, left as int) == slice_spans(
                all,
                start as int,
                needed as int,
            ),
        decreases spans.len() - k,
    {
        let ghost done = span_views(out@);
        let chars = chars_of(spans[k].content.as_str());
        let len: usize = chars.len();
        assert(all[k as int].text == chars@);
        if len <= skip {
            skip = skip - len;
        } else {
            let n: usize = if left <= len - skip {
                left
            } else {
                len - skip
            };
            let piece = Span { content: string_of(&chars, skip, skip + n), style: spans[k].style };
            let ghost rest = slice_from(all, k + 1, 0, left - n);
            out.push(piece);
            proof {
                assert(span_views(out@) == done.push(piece@));
                assert(done.push(piece@) + rest == done + (seq![piece@] + rest));
            }
            left = left - n;
            skip = 0;
        }
        k = k + 1;
    }
    proof {
        assert(slice_from(all, k as int, skip as int, left as int) == Seq::<SpanView>::empty());
        assert(span_views(out@) + Seq::<SpanView>::empty() == span_views(out@));
    }
    out
}

/// The character of `prompt` that starts at byte offset `idx`, which is
/// the offset of the character with index `p`.
fn char_at_offset(prompt: &str, idx: usize, Ghost(p): Ghost<int>) -> (c: Option<char>)
    requires
        0 <= p < prompt@.len(),
        idx == byte_offset(prompt@, p),
    ensures
        c == Some(prompt@[p]),
{
    proof {
        lemma_offset_is_boundary(prompt@, p);
        lemma_encode_split(prompt@, p);
    }
    let (_, tail) = prompt.split_at(idx);
    proof {
        lemma_encode_injective(tail@, prompt@.skip(p));
    }
    let mut rest = tail.chars();
    rest.next()
}

/// The visible text of `prompt`, read through its index map: the character
/// that starts at each offset of the map.
pub fn visible_chars(prompt: &str, map: &PromptCursorMap) -> (text: Vec<char>)
    requires
        map@ == index_map(prompt@),
    ensures
        text@ == visible_text(prompt@),
{
    let mut text: Vec<char> = Vec::new();
    let mut k: usize = 0;
    proof {
        assert(map@.len() == map.visible_to_raw@.len());
        assert(index_map(prompt@).len() == visible_count(prompt@));
    }
    while k < map.visible_to_raw.len()
        invariant
            map@ == index_map(prompt@),
            k <= map.visible_to_raw.len(),
            map.visible_to_raw.len() == visible_count(prompt@),
            text@ == visible_text(prompt@).take(k as int),
        decreases map.visible_to_raw.len() - k,
    {
        let idx: usize = map.visible_to_raw[k];
        let ghost p = visible_positions(prompt@)[k as int];
        proof {
            lemma_visible_from_bounds(prompt@, 0);
            lemma_byte_index(prompt@, k as int);
            assert(map@[k as int] == idx);
        }
        match char_at_offset(prompt, idx, Ghost(p)) {
            Some(c) => {
                text.push(c);
            },
            None => {},
        }
        k = k + 1;
        assert(visible_text(prompt@).take(k as int) == visible_text(prompt@).take(k - 1).push(
            visible_text(prompt@)[k - 1],
        ));
    }
    assert(visible_text(prompt@).take(k as int) == visible_text(prompt@));
    text
}

/// The row of the colour picker that `code` selects: its number, and 0
/// for a code that writes none.
pub open spec fn selector(code: Seq<char>) -> usize {
    match code_number(code) {
        Some(n) => n as usize,
        None => 0,
    }
}

/// The rows of the two colour pickers that the last colour marker of `s`
/// selects; both 0 where `s` has no colour marker.
pub open spec fn selectors(s: Seq<char>) -> (usize, usize) {
    let codes = color_codes(s);
    if codes.len() > 0 {
        (selector(codes.last().0), selector(codes.last().1))
    } else {
        (0, 0)
    }
}

/// The style in which the text of the prompt and of messages starts: the
/// text colour of the theme, and nothing else.
pub open spec fn text_base(app: &App) -> Style {
    Style {
        fg: Some(rgb_color(app.style_txt)),
        bg: None,
        bold: false,
        italic: false,
        underline: false,
    }
}

/// The style in which the text of the prompt and of messages starts.
pub fn text_base_style(app: &App) -> (style: Style)
    ensures
        style == text_base(app),
{
    let (r, g, b) = app.style_txt;
    Style::new().fg(Color::Rgb(r, g, b))
}

/// The rows that the last of `codes` selects.
fn last_selectors(codes: &Vec<ColorCodes>, Ghost(s): Ghost<Seq<char>>) -> (rows: (usize, usize))
    requires
        crate::textstyle::code_views(codes@) == color_codes(s),
    ensures
        rows == selectors(s),
{
    if codes.len() > 0 {
        let last = &codes[codes.len() - 1];
        assert(color_codes(s).last() == last@);
        let fg: usize = match code_value(last.fg.as_str()) {
            Some(n) => n,
            None => 0,
        };
        let bg: usize = match code_value(last.bg.as_str()) {
            Some(n) => n,
            None => 0,
        };
        (fg, bg)
    } else {
        (0, 0)
    }
}

/// Renders the prompt into a line of at most `max_width` columns.
///
/// The window shows the tail of the visible text: it starts at the least
/// visible index from which the text fits `max_width`. The result holds
/// the styled spans of `prompt` cut down to that window, and the column of
/// the cursor in it, which is 0 for a cursor left of the window. The two
/// colour pickers of `app` are set to the rows that the last colour marker
/// of `prompt` selects.
pub fn visible_prompt_and_cursor_offset(prompt: &str, max_width: usize, app: &mut App) -> (out: (
    Vec<Span>,
    usize,
))
    ensures
        ({
            let text = visible_text(prompt@);
            let widths = widths_of(text);
            let start = window_start_of(widths, max_width as int);
            &&& is_window_start(widths, max_width as int, start)
            &&& span_views(out.0@) == slice_spans(
                styled_runs(prompt@, text_base(old(app)), old(app).style_bg),
                start,
                text.len() - start,
            )
            &&& out.1 == cursor_column(widths, start, old(app).character_index as int)
            &&& text_of(span_views(out.0@)) == text.skip(start)
        }),
        out.1 <= max_width,
        final(app).color_state_fg == Some(selectors(prompt@).0),
        final(app).color_state_bg == Some(selectors(prompt@).1),
        final(app).same_prompt(old(app)),
        final(app).same_screen(old(app)),
        final(app).same_names(old(app)),
        final(app).same_theme(old(app)),
        final(app).same_servers(old(app)),
{
    let map = build_prompt_cursor_map(prompt);
    let style = text_base_style(app);
    let (styled_spans, codes) = text_style(prompt, Vec::new(), style, app);
    proof {
        assert(span_views(Seq::<Span>::empty()) + styled_runs(prompt@, style, app.style_bg)
            == styled_runs(prompt@, style, app.style_bg));
    }
    let (fg_selector, bg_selector) = last_selectors(&codes, Ghost(prompt@));
    app.color_state_fg = Some(fg_selector);
    app.color_state_bg = Some(bg_selector);

    let stripped = visible_chars(prompt, &map);
    let widths = column_widths(&stripped);
    let start: usize = window_start(&widths, max_width);
    let cursor_offset: usize = cursor_offset(&widths, start, app.character_index);
    let visible_spans = window_spans(&styled_spans, start, stripped.len() - start);
    proof {
        let runs = styled_runs(prompt@, style, app.style_bg);
        lemma_spans_spell_visible_text(prompt@, style, app.style_bg);
        lemma_slice_spans_text(runs, start as int, stripped.len() - start);
    }
    (visible_spans, cursor_offset)
}

} // verus!
