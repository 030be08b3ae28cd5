//! The arithmetic of the screen: how many columns the prompt gets, which
//! part of a long list a popup shows, and where the chat area starts in
//! the history.

use crate::app::App;
use vstd::prelude::*;

verus! {

/// The number of terminal columns that `text` takes, as the width tables
/// of Unicode give it.
pub uninterp spec fn text_columns(text: Seq<char>) -> usize;

/// `UnicodeWidthStr::width` of the crate `unicode-width`: the displayed
/// width of a string, which depends on its characters alone.
#[verifier::external_body]
fn str_width(text: &str) -> (w: usize)
    ensures
        w == text_columns(text@),
{
    unicode_width::UnicodeWidthStr::width(text)
}

/// Columns left for the prompt on a screen of `w` columns, beside a
/// status area with the three names and 12 columns of frame and
/// separators.
pub open spec fn threshold_of(w: int, server: int, channel: int, nick: int) -> int {
    w - 12 - channel - nick - server
}

/// Columns left for the prompt, or `None` where the status area alone is
/// wider than the screen.
pub fn prompt_width(w: u16, server: usize, channel: usize, nick: usize) -> (columns: Option<usize>)
    ensures
        threshold_of(w as int, server as int, channel as int, nick as int) >= 0 ==> columns
            == Some(threshold_of(w as int, server as int, channel as int, nick as int) as usize),
        threshold_of(w as int, server as int, channel as int, nick as int) < 0 ==> columns
            is None,
{
    let width: usize = w as usize;
    if width < 12 {
        return None;
    }
    let rest: usize = width - 12;
    if channel > rest {
        return None;
    }
    let rest: usize = rest - channel;
    if nick > rest {
        return None;
    }
    let rest: usize = rest - nick;
    if server > rest {
        return None;
    }
    Some(rest - server)
}

/// Columns left for the prompt of `app`, or `None` where the names of
/// server, channel and nick leave none.
pub fn prompt_threshold(app: &App) -> (columns: Option<usize>)
    ensures
        ({
            let left = threshold_of(
                app.w as int,
                text_columns(app.active_server@) as int,
                text_columns(app.active_channel@) as int,
                text_columns(app.active_nick@) as int,
            );
            &&& left >= 0 ==> columns == Some(left as usize)
            &&& left < 0 ==> columns is None
        }),
{
    let server: usize = str_width(app.active_server.as_str());
    let channel: usize = str_width(app.active_channel.as_str());
    let nick: usize = str_width(app.active_nick.as_str());
    prompt_width(app.w, server, channel, nick)
}

/// Number of rows of the chat area on a screen of `h` rows.
pub open spec fn chat_rows(h: int) -> int {
    h - 6
}

/// Index of the first line shown of a history of `len` lines that was
/// scrolled back by `chat_pos` lines: a history that fits is shown whole;
/// of a longer one the last rows are shown, moved back by `chat_pos`, but
/// not before the first line.
pub open spec fn chat_start(len: int, h: int, chat_pos: int) -> int {
    if len > chat_rows(h) {
        if len - chat_rows(h) - chat_pos > 0 {
            len - chat_rows(h) - chat_pos
        } else {
            0
        }
    } else {
        0
    }
}

/// Index of the first line of the history that the chat area shows.
pub fn chat_slice_start(len: usize, h: u16, chat_pos: usize) -> (start: usize)
    requires
        h >= 6,
    ensures
        start == chat_start(len as int, h as int, chat_pos as int),
        start <= len,
{
    let rows: usize = h as usize - 6;
    if len > rows {
        let above: usize = len - rows;
        if above > chat_pos {
            above - chat_pos
        } else {
            0
        }
    } else {
        0
    }
}

/// Number of entries that a list popup shows at once on a screen of `h`
/// rows: seven tenths of the rows, less one.
pub open spec fn popup_page(h: int) -> int {
    (h * 70) / 100 - 1
}

/// The range of entries that a list popup shows of a list of `len`
/// entries scrolled to `pos`: a list that fits is shown whole, of a longer
/// one a page from `pos` on.
pub open spec fn popup_range(len: int, h: int, pos: int) -> (int, int) {
    if len > popup_page(h) {
        (pos, popup_page(h) + pos)
    } else {
        (0, len)
    }
}

/// The range of entries that a list popup shows.
pub fn popup_window(len: usize, h: u16, pos: usize) -> (range: (usize, usize))
    requires
        popup_page(h as int) >= 0,
        len > popup_page(h as int) ==> pos + popup_page(h as int) <= len,
    ensures
        (range.0 as int, range.1 as int) == popup_range(len as int, h as int, pos as int),
        range.0 <= range.1 <= len,
{
    let page: usize = (h as usize * 70) / 100 - 1;
    if len > page {
        (pos, page + pos)
    } else {
        (0, len)
    }
}

} // verus!
