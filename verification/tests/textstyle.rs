use rustychat::app::App;
use rustychat::style::{Color, Span, Style, StyleState};
use rustychat::textstyle::{code_value, parse_color_code, text_style, ColorCodes};

const THEME_BG: Color = Color::Rgb(47, 50, 54);
const TEXT: Color = Color::Rgb(255, 255, 255);

fn base() -> Style {
    Style::new().fg(TEXT)
}

fn span(text: &str, style: Style) -> Span {
    Span { content: text.to_string(), style }
}

fn codes(fg: &str, bg: &str) -> ColorCodes {
    ColorCodes { fg: fg.to_string(), bg: bg.to_string() }
}

fn tokenize(line: &str) -> (Vec<Span>, Vec<ColorCodes>) {
    text_style(line, Vec::new(), base(), &App::default())
}

#[test]
fn color_code_table() {
    let app = App::default();
    let table = [
        ("0", "00", Color::White),
        ("1", "01", Color::Black),
        ("2", "02", Color::Blue),
        ("3", "03", Color::Green),
        ("4", "04", Color::Red),
        ("5", "05", Color::LightRed),
        ("6", "06", Color::Magenta),
        ("7", "07", Color::LightYellow),
        ("8", "08", Color::Yellow),
        ("9", "09", Color::LightGreen),
    ];
    for (one, two, color) in table {
        assert_eq!(parse_color_code(&app, one), Some(color));
        assert_eq!(parse_color_code(&app, two), Some(color));
    }
    assert_eq!(parse_color_code(&app, "10"), Some(Color::Cyan));
    assert_eq!(parse_color_code(&app, "11"), Some(Color::LightCyan));
    assert_eq!(parse_color_code(&app, "12"), Some(Color::LightBlue));
    assert_eq!(parse_color_code(&app, "13"), Some(Color::LightMagenta));
    assert_eq!(parse_color_code(&app, "14"), Some(Color::DarkGray));
    assert_eq!(parse_color_code(&app, "15"), Some(Color::Gray));
}

#[test]
fn color_code_resolution() {
    let app = App::default();
    assert_eq!(parse_color_code(&app, "4"), Some(Color::Red));
    assert_eq!(parse_color_code(&app, "04"), Some(Color::Red));
    assert_eq!(parse_color_code(&app, "16"), Some(THEME_BG));
    assert_eq!(parse_color_code(&app, ""), Some(THEME_BG));
    assert_eq!(parse_color_code(&app, "99"), Some(THEME_BG));
    assert_eq!(parse_color_code(&app, "004"), Some(THEME_BG));
    assert_eq!(parse_color_code(&app, "x"), Some(THEME_BG));
    assert_eq!(parse_color_code(&app, "4x"), Some(THEME_BG));
}

#[test]
fn color_code_falls_back_to_the_theme_in_use() {
    let mut app = App::default();
    app.style_bg = (1, 2, 3);
    assert_eq!(parse_color_code(&app, "77"), Some(Color::Rgb(1, 2, 3)));
    assert_eq!(parse_color_code(&app, "7"), Some(Color::LightYellow));
}

#[test]
fn code_value_reads_one_or_two_digits() {
    assert_eq!(code_value("0"), Some(0));
    assert_eq!(code_value("7"), Some(7));
    assert_eq!(code_value("07"), Some(7));
    assert_eq!(code_value("14"), Some(14));
    assert_eq!(code_value("99"), Some(99));
    assert_eq!(code_value(""), None);
    assert_eq!(code_value("123"), None);
    assert_eq!(code_value("a"), None);
    assert_eq!(code_value("1a"), None);
    assert_eq!(code_value("\u{664}"), None);
}

#[test]
fn as_style_adds_modifiers() {
    let state = StyleState { bold: true, italic: false, underline: true };
    let styled = state.as_style(base());
    assert_eq!(
        styled,
        Style { fg: Some(TEXT), bg: None, bold: true, italic: false, underline: true }
    );
    let already = Style { fg: None, bg: None, bold: false, italic: true, underline: false };
    assert_eq!(
        state.as_style(already),
        Style { fg: None, bg: None, bold: true, italic: true, underline: true }
    );
    assert_eq!(StyleState::default().as_style(base()), base());
}

#[test]
fn plain_text_is_one_span() {
    let (spans, seen) = tokenize("hello w\u{f6}rld");
    assert_eq!(spans, vec![span("hello w\u{f6}rld", base())]);
    assert!(seen.is_empty());
}

#[test]
fn empty_text_has_no_span() {
    let (spans, seen) = tokenize("");
    assert!(spans.is_empty());
    assert!(seen.is_empty());
}

#[test]
fn markers_alone_give_no_span() {
    let (spans, seen) = tokenize("\u{2}\u{1d}\u{3}4,5\u{f}\u{1}");
    assert!(spans.is_empty());
    assert_eq!(seen, vec![codes("4", "5")]);
}

#[test]
fn bold_toggles_on_and_off() {
    let (spans, _) = tokenize("\u{2}hi\u{2} there");
    assert_eq!(spans, vec![span("hi", base().bold()), span(" there", base())]);
}

#[test]
fn italic_and_underline_toggle_independently() {
    let (spans, _) = tokenize("a\u{1d}b\u{1f}c\u{1d}d\u{1f}e");
    let italic = Style { italic: true, ..base() };
    let both = Style { italic: true, underline: true, ..base() };
    let underline = Style { underline: true, ..base() };
    assert_eq!(
        spans,
        vec![
            span("a", base()),
            span("b", italic),
            span("c", both),
            span("d", underline),
            span("e", base()),
        ]
    );
}

#[test]
fn reset_clears_state() {
    let (spans, seen) = tokenize("\u{2}\u{3}4x\u{f}y");
    let first = Style {
        fg: Some(Color::Red),
        bg: Some(THEME_BG),
        bold: true,
        italic: false,
        underline: false,
    };
    let second = Style {
        fg: Some(TEXT),
        bg: Some(THEME_BG),
        bold: false,
        italic: false,
        underline: false,
    };
    assert_eq!(spans, vec![span("x", first), span("y", second)]);
    assert_eq!(seen, vec![codes("4", "")]);
}

#[test]
fn reset_forces_the_background_of_the_theme() {
    let mut app = App::default();
    app.style_bg = (9, 8, 7);
    let start = Style { fg: None, bg: None, bold: false, italic: false, underline: false };
    let (spans, _) = text_style("a\u{f}b", Vec::new(), start, &app);
    let after = Style { bg: Some(Color::Rgb(9, 8, 7)), ..start };
    assert_eq!(spans, vec![span("a", start), span("b", after)]);
}

#[test]
fn color_with_foreground_and_background() {
    let (spans, seen) = tokenize("a\u{3}04,12z");
    let colored = Style { fg: Some(Color::Red), bg: Some(Color::LightBlue), ..base() };
    assert_eq!(spans, vec![span("a", base()), span("z", colored)]);
    assert_eq!(seen, vec![codes("04", "12")]);
}

#[test]
fn color_reads_at_most_two_digits_each() {
    let (spans, seen) = tokenize("\u{3}123,4567");
    let colored = Style { fg: Some(Color::LightBlue), bg: Some(THEME_BG), ..base() };
    assert_eq!(spans, vec![span("3,4567", colored)]);
    assert_eq!(seen, vec![codes("12", "")]);
    let (spans, seen) = tokenize("\u{3}1,567");
    let colored = Style { fg: Some(Color::Black), bg: Some(THEME_BG), ..base() };
    assert_eq!(spans, vec![span("7", colored)]);
    assert_eq!(seen, vec![codes("1", "56")]);
}

#[test]
fn color_without_digits_falls_back_to_fourteen() {
    let (spans, seen) = tokenize("\u{3}x");
    let colored = Style { fg: Some(Color::DarkGray), bg: Some(THEME_BG), ..base() };
    assert_eq!(spans, vec![span("x", colored)]);
    assert_eq!(seen, vec![codes("14", "")]);
}

#[test]
fn color_followed_by_comma_only() {
    let (spans, seen) = tokenize("\u{3},x");
    let colored = Style { fg: Some(Color::DarkGray), bg: Some(THEME_BG), ..base() };
    assert_eq!(spans, vec![span("x", colored)]);
    assert_eq!(seen, vec![codes("14", "")]);
    let (spans, seen) = tokenize("\u{3},3x");
    let colored = Style { fg: Some(Color::DarkGray), bg: Some(Color::Green), ..base() };
    assert_eq!(spans, vec![span("x", colored)]);
    assert_eq!(seen, vec![codes("14", "3")]);
}

#[test]
fn color_at_the_end_has_empty_codes() {
    let (spans, seen) = tokenize("a\u{3}");
    assert_eq!(spans, vec![span("a", base())]);
    assert_eq!(seen, vec![codes("", "")]);
}

#[test]
fn digits_with_trailing_comma_at_the_end() {
    let (spans, seen) = tokenize("a\u{3}5,");
    assert_eq!(spans, vec![span("a", base())]);
    assert_eq!(seen, vec![codes("5", "")]);
}

#[test]
fn every_color_marker_is_reported_in_order() {
    let (_, seen) = tokenize("\u{3}1a\u{3}b\u{3}2,3c\u{3}");
    assert_eq!(seen, vec![codes("1", ""), codes("14", ""), codes("2", "3"), codes("", "")]);
}

#[test]
fn ctcp_marker_is_dropped_without_a_flush() {
    let (spans, seen) = tokenize("a\u{1}b\u{1}");
    assert_eq!(spans, vec![span("ab", base())]);
    assert!(seen.is_empty());
}

#[test]
fn colors_outlive_toggles() {
    let (spans, _) = tokenize("\u{3}3a\u{2}b\u{2}c");
    let green = Style { fg: Some(Color::Green), bg: Some(THEME_BG), ..base() };
    assert_eq!(spans, vec![span("a", green), span("b", green.bold()), span("c", green)]);
}

#[test]
fn spans_are_appended_to_those_given() {
    let lead = span("> ", Style::new());
    let (spans, _) = text_style("x\u{2}y", vec![lead.clone()], base(), &App::default());
    assert_eq!(spans, vec![lead, span("x", base()), span("y", base().bold())]);
}

#[test]
fn spans_spell_the_visible_text() {
    let raw = "\u{2}h\u{e9}\u{3}4,5llo\u{1} w\u{f}or\u{3}ld\u{1f}!\u{3}";
    let (spans, _) = tokenize(raw);
    let spelled: String = spans.iter().map(|s| s.content.as_str()).collect();
    let map = rustychat::cursor::build_prompt_cursor_map(raw);
    let visible: String =
        map.visible_to_raw.iter().map(|&at| raw[at..].chars().next().unwrap()).collect();
    assert_eq!(spelled, "h\u{e9}llo world!");
    assert_eq!(spelled, visible);
    assert!(spans.iter().all(|s| !s.content.is_empty()));
}
