use rustychat::app::App;
use rustychat::cursor::build_prompt_cursor_map;
use rustychat::style::{Color, Span, Style};
use rustychat::viewport::{
    column_widths, cursor_offset, text_base_style, visible_chars,
    visible_prompt_and_cursor_offset, window_spans, window_start,
};

fn base() -> Style {
    Style::new().fg(Color::Rgb(255, 255, 255))
}

fn span(text: &str, style: Style) -> Span {
    Span { content: text.to_string(), style }
}

fn app_at(cursor: usize) -> App {
    let mut app = App::default();
    app.character_index = cursor;
    app
}

#[test]
fn widths_of_narrow_wide_and_control_characters() {
    let text: Vec<char> = "a\u{65e5}\u{7}\u{301}\u{e9}".chars().collect();
    assert_eq!(column_widths(&text), vec![1, 2, 0, 0, 1]);
    assert!(column_widths(&Vec::new()).is_empty());
}

#[test]
fn window_start_takes_the_tail_that_fits() {
    assert_eq!(window_start(&vec![1, 1, 1, 1, 1], 3), 2);
    assert_eq!(window_start(&vec![1, 1, 1, 1, 1], 5), 0);
    assert_eq!(window_start(&vec![1, 1, 1, 1, 1], 9), 0);
    assert_eq!(window_start(&vec![1, 1, 1, 1, 1], 0), 5);
    assert_eq!(window_start(&vec![], 4), 0);
}

#[test]
fn window_start_does_not_split_a_wide_character() {
    assert_eq!(window_start(&vec![2, 2, 2], 3), 2);
    assert_eq!(window_start(&vec![2, 2, 2], 4), 1);
    assert_eq!(window_start(&vec![1, 2, 1], 2), 2);
    assert_eq!(window_start(&vec![1, 2], 1), 2);
}

#[test]
fn window_start_takes_zero_width_characters_along() {
    assert_eq!(window_start(&vec![1, 0, 1], 1), 1);
    assert_eq!(window_start(&vec![0, 0], 0), 0);
    assert_eq!(window_start(&vec![1, 0, 0], 0), 1);
}

#[test]
fn window_start_with_largest_budget() {
    assert_eq!(window_start(&vec![3, 2, 1], usize::MAX), 0);
}

#[test]
fn cursor_offset_sums_widths_from_the_start() {
    let widths = vec![1, 2, 1, 2, 1];
    assert_eq!(cursor_offset(&widths, 1, 1), 0);
    assert_eq!(cursor_offset(&widths, 1, 2), 2);
    assert_eq!(cursor_offset(&widths, 1, 4), 5);
    assert_eq!(cursor_offset(&widths, 1, 5), 6);
    assert_eq!(cursor_offset(&widths, 1, 50), 6);
    assert_eq!(cursor_offset(&widths, 0, 5), 7);
}

#[test]
fn cursor_left_of_the_window_is_at_column_zero() {
    let widths = vec![1, 1, 1, 1];
    assert_eq!(cursor_offset(&widths, 3, 0), 0);
    assert_eq!(cursor_offset(&widths, 3, 2), 0);
    assert_eq!(cursor_offset(&widths, 4, 3), 0);
}

#[test]
fn window_spans_cuts_across_spans() {
    let bold = base().bold();
    let spans = vec![span("hello", bold), span(" wor", base()), span("ld", bold)];
    assert_eq!(window_spans(&spans, 0, 11), spans);
    assert_eq!(
        window_spans(&spans, 3, 8),
        vec![span("lo", bold), span(" wor", base()), span("ld", bold)]
    );
    assert_eq!(window_spans(&spans, 5, 6), vec![span(" wor", base()), span("ld", bold)]);
    assert_eq!(window_spans(&spans, 6, 2), vec![span("wo", base())]);
    assert_eq!(window_spans(&spans, 4, 6), vec![span("o", bold), span(" wor", base()), span("l", bold)]);
    assert_eq!(window_spans(&spans, 11, 0), Vec::new());
    assert_eq!(window_spans(&spans, 11, 3), Vec::new());
    assert_eq!(window_spans(&spans, 2, 0), Vec::new());
    assert_eq!(window_spans(&spans, 9, 40), vec![span("ld", bold)]);
    assert_eq!(window_spans(&Vec::new(), 0, 3), Vec::new());
}

#[test]
fn window_spans_counts_characters_not_bytes() {
    let spans = vec![span("\u{65e5}\u{672c}", base()), span("\u{8a9e}x", base().bold())];
    assert_eq!(
        window_spans(&spans, 1, 2),
        vec![span("\u{672c}", base()), span("\u{8a9e}", base().bold())]
    );
}

#[test]
fn visible_chars_reads_through_the_map() {
    let raw = "\u{2}h\u{e9}\u{3}4,5l\u{1}l\u{65e5}\u{f}";
    let map = build_prompt_cursor_map(raw);
    let text: String = visible_chars(raw, &map).into_iter().collect();
    assert_eq!(text, "h\u{e9}ll\u{65e5}");
    assert!(visible_chars("", &build_prompt_cursor_map("")).is_empty());
}

#[test]
fn text_base_style_is_the_text_colour() {
    let mut app = App::default();
    app.style_txt = (1, 2, 3);
    assert_eq!(
        text_base_style(&app),
        Style { fg: Some(Color::Rgb(1, 2, 3)), bg: None, bold: false, italic: false, underline: false }
    );
}

#[test]
fn windowing_of_a_long_prompt() {
    let prompt = "a".repeat(100);
    let mut app = app_at(95);
    let (spans, offset) = visible_prompt_and_cursor_offset(&prompt, 20, &mut app);
    assert_eq!(offset, 15);
    assert!(offset < 20);
    assert_eq!(spans, vec![span(&"a".repeat(20), base())]);
}

#[test]
fn windowing_with_cursor_at_the_end() {
    let prompt = "a".repeat(100);
    let mut app = app_at(100);
    let (_, offset) = visible_prompt_and_cursor_offset(&prompt, 20, &mut app);
    assert_eq!(offset, 20);
    let mut app = app_at(1000);
    let (_, offset) = visible_prompt_and_cursor_offset(&prompt, 20, &mut app);
    assert_eq!(offset, 20);
}

#[test]
fn windowing_with_cursor_left_of_the_window() {
    let prompt = "a".repeat(100);
    let mut app = app_at(10);
    let (spans, offset) = visible_prompt_and_cursor_offset(&prompt, 20, &mut app);
    assert_eq!(offset, 0);
    assert_eq!(spans, vec![span(&"a".repeat(20), base())]);
}

#[test]
fn short_prompt_is_shown_whole() {
    let mut app = app_at(2);
    let (spans, offset) = visible_prompt_and_cursor_offset("\u{2}hi\u{2} there", 40, &mut app);
    assert_eq!(offset, 2);
    assert_eq!(spans, vec![span("hi", base().bold()), span(" there", base())]);
    assert_eq!(app.character_index, 2);
    assert_eq!(app.prompt, "");
}

#[test]
fn window_cuts_through_a_styled_span() {
    let mut app = app_at(11);
    let (spans, offset) = visible_prompt_and_cursor_offset("\u{2}hello\u{2} world", 8, &mut app);
    assert_eq!(offset, 8);
    assert_eq!(spans, vec![span("lo", base().bold()), span(" world", base())]);
}

#[test]
fn window_counts_wide_characters_double() {
    let mut app = app_at(5);
    let (spans, offset) =
        visible_prompt_and_cursor_offset("\u{65e5}\u{672c}\u{8a9e}ab", 4, &mut app);
    assert_eq!(offset, 4);
    assert_eq!(spans, vec![span("\u{8a9e}ab", base())]);
    let mut app = app_at(3);
    let (spans, offset) =
        visible_prompt_and_cursor_offset("\u{65e5}\u{672c}\u{8a9e}ab", 5, &mut app);
    assert_eq!(offset, 2);
    assert_eq!(spans, vec![span("\u{8a9e}ab", base())]);
}

#[test]
fn window_of_no_width_shows_nothing() {
    let mut app = app_at(1);
    let (spans, offset) = visible_prompt_and_cursor_offset("abc", 0, &mut app);
    assert_eq!(offset, 0);
    assert!(spans.is_empty());
}

#[test]
fn empty_prompt_has_no_spans() {
    let mut app = app_at(0);
    let (spans, offset) = visible_prompt_and_cursor_offset("", 10, &mut app);
    assert_eq!(offset, 0);
    assert!(spans.is_empty());
    assert_eq!(app.color_state_fg, Some(0));
    assert_eq!(app.color_state_bg, Some(0));
}

#[test]
fn pickers_follow_the_last_color_marker() {
    let mut app = app_at(0);
    visible_prompt_and_cursor_offset("\u{3}07,3x", 10, &mut app);
    assert_eq!(app.color_state_fg, Some(7));
    assert_eq!(app.color_state_bg, Some(3));
    visible_prompt_and_cursor_offset("\u{3}07,3x\u{3}12y", 10, &mut app);
    assert_eq!(app.color_state_fg, Some(12));
    assert_eq!(app.color_state_bg, Some(0));
    visible_prompt_and_cursor_offset("\u{3}07,3x\u{3}y", 10, &mut app);
    assert_eq!(app.color_state_fg, Some(14));
    assert_eq!(app.color_state_bg, Some(0));
    visible_prompt_and_cursor_offset("\u{3}07,3x\u{3}", 10, &mut app);
    assert_eq!(app.color_state_fg, Some(0));
    assert_eq!(app.color_state_bg, Some(0));
    visible_prompt_and_cursor_offset("plain", 10, &mut app);
    assert_eq!(app.color_state_fg, Some(0));
    assert_eq!(app.color_state_bg, Some(0));
}

#[test]
fn rendering_keeps_the_rest_of_the_state() {
    let mut app = app_at(3);
    app.prompt = "abc".to_string();
    app.w = 80;
    app.h = 24;
    app.style_txt = (10, 20, 30);
    app.active_nick = "me".to_string();
    let (spans, _) = visible_prompt_and_cursor_offset("abc", 10, &mut app);
    assert_eq!(spans, vec![span("abc", Style::new().fg(Color::Rgb(10, 20, 30)))]);
    assert_eq!(app.prompt, "abc");
    assert_eq!(app.character_index, 3);
    assert_eq!((app.w, app.h), (80, 24));
    assert_eq!(app.style_txt, (10, 20, 30));
    assert_eq!(app.active_nick, "me");
}
