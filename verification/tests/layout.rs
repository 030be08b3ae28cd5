use rustychat::app::App;
use rustychat::layout::{chat_slice_start, popup_window, prompt_threshold, prompt_width};

#[test]
fn prompt_width_is_what_the_names_leave() {
    assert_eq!(prompt_width(80, 10, 5, 3), Some(50));
    assert_eq!(prompt_width(30, 10, 5, 3), Some(0));
    assert_eq!(prompt_width(29, 10, 5, 3), None);
    assert_eq!(prompt_width(11, 0, 0, 0), None);
    assert_eq!(prompt_width(12, 0, 0, 0), Some(0));
    assert_eq!(prompt_width(100, usize::MAX, usize::MAX, 1), None);
}

#[test]
fn prompt_threshold_measures_the_names_in_columns() {
    let mut app = App::default();
    app.w = 80;
    app.active_server = "irc.a.net".to_string();
    app.active_channel = "#\u{65e5}\u{672c}".to_string();
    app.active_nick = "j\u{f6}rg".to_string();
    assert_eq!(prompt_threshold(&app), Some(80 - 12 - 9 - 5 - 4));
    app.w = 29;
    assert_eq!(prompt_threshold(&app), None);
    app.w = 30;
    assert_eq!(prompt_threshold(&app), Some(0));
}

#[test]
fn chat_slice_start_shows_the_last_rows() {
    assert_eq!(chat_slice_start(10, 24, 0), 0);
    assert_eq!(chat_slice_start(18, 24, 0), 0);
    assert_eq!(chat_slice_start(19, 24, 0), 1);
    assert_eq!(chat_slice_start(100, 24, 0), 82);
    assert_eq!(chat_slice_start(100, 24, 10), 72);
    assert_eq!(chat_slice_start(100, 24, 82), 0);
    assert_eq!(chat_slice_start(100, 24, 500), 0);
    assert_eq!(chat_slice_start(3, 6, 0), 3);
    assert_eq!(chat_slice_start(0, 6, 0), 0);
}

#[test]
fn popup_window_shows_a_page() {
    assert_eq!(popup_window(5, 24, 0), (0, 5));
    assert_eq!(popup_window(15, 24, 0), (0, 15));
    assert_eq!(popup_window(16, 24, 0), (0, 15));
    assert_eq!(popup_window(100, 24, 7), (7, 22));
    assert_eq!(popup_window(100, 24, 85), (85, 100));
    assert_eq!(popup_window(0, 2, 0), (0, 0));
    assert_eq!(popup_window(3, 2, 3), (3, 3));
}
