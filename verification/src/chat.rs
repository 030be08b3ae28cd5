//! The chat history: each message is word-wrapped to the width at hand,
//! led by a label with the sender's name, and tokenized line by line.

use crate::app::{chat_history, App};
use crate::encoding::chars_of;
use crate::style::{rgb_color, span_views, Color, Line, Span, SpanView, Style};
use crate::textstyle::{styled_runs, text_style};
use crate::viewport::{text_base, text_base_style};
use vstd::prelude::*;

verus! {

/// Number of characters that the sender's name takes in the label.
pub const NICK_WIDTH: usize = 10;

/// Number of characters of the label: the name, a colon and a space.
pub const LABEL_WIDTH: usize = 12;

/// `n` spaces.
pub open spec fn spaces(n: int) -> Seq<char> {
    Seq::new(n as nat, |i: int| ' ')
}

/// The label that leads the first line of a message from `name`: a name
/// of more than ten characters is cut to nine and an ellipsis, any other is
/// padded with spaces to ten; a colon and a space follow.
pub open spec fn label_of(name: Seq<char>) -> Seq<char> {
    let shown = if name.len() > 10 {
        name.take(9).push('\u{2026}')
    } else {
        name + spaces(10 - name.len())
    };
    shown + seq![':', ' ']
}

/// The style of the label: the highlight colour of the theme, bold.
pub open spec fn label_style(app: &App) -> Style {
    Style {
        fg: Some(rgb_color(app.style_highlight)),
        bg: None,
        bold: true,
        italic: false,
        underline: false,
    }
}

/// One line of a message: the label on the first line and as many spaces
/// on every other, then the styled spans of the fragment.
pub open spec fn message_line(label: Seq<char>, first: bool, fragment: Seq<char>, app: &App) -> Seq<
    SpanView,
> {
    let lead = if first {
        SpanView { text: label, style: label_style(app) }
    } else {
        SpanView { text: spaces(label.len() as int), style: Style::plain() }
    };
    seq![lead] + styled_runs(fragment, text_base(app), app.style_bg)
}

/// The lines that word-wrapping `text` to `width` columns gives, as the
/// crate `textwrap` computes them with its default options, except that
/// it breaks no word.
pub uninterp spec fn wrapped(width: usize, text: Seq<char>) -> Seq<Seq<char>>;

/// The views of a sequence of strings.
pub open spec fn string_views(lines: Seq<String>) -> Seq<Seq<char>> {
    lines.map_values(|l: String| l@)
}

/// The views of a sequence of lines.
pub open spec fn line_views(lines: Seq<Line>) -> Seq<Seq<SpanView>> {
    lines.map_values(|l: Line| l@)
}

/// `textwrap::wrap` with the options `Options::new(width)` and
/// `break_words(false)`: the lines depend on the width and the text alone.
#[verifier::external_body]
fn line_wrap(width: usize, data: &str) -> (lines: Vec<String>)
    ensures
        string_views(lines@) == wrapped(width, data@),
{
    let options = textwrap::Options::new(width).break_words(false);
    textwrap::wrap(data, options).into_iter().map(|line| line.into_owned()).collect()
}

/// A string of `n` spaces.
fn blank(n: usize) -> (text: String)
    ensures
        text@ == spaces(n as int),
{
    let mut text = String::new();
    let mut i: usize = 0;
    while i < n
        invariant
            i <= n,
            text@ == spaces(i as int),
        decreases n - i,
    {
        text.push(' ');
        i = i + 1;
        assert(spaces(i as int) == spaces(i - 1).push(' '));
    }
    text
}

/// The label that leads the first line of a message from `sender`.
pub fn sender_label(sender: &str) -> (label: String)
    ensures
        label@ == label_of(sender@),
        label@.len() == LABEL_WIDTH,
{
    let chars = chars_of(sender);
    let mut label = String::new();
    let shown: usize = if chars.len() > NICK_WIDTH {
        NICK_WIDTH - 1
    } else {
        chars.len()
    };
    let mut i: usize = 0;
    while i < shown
        invariant
            i <= shown <= chars.len(),
            label@ == chars@.take(i as int),
        decreases shown - i,
    {
        label.push(chars[i]);
        i = i + 1;
        assert(chars@.take(i as int) == chars@.take(i - 1).push(chars@[i - 1]));
    }
    if chars.len() > NICK_WIDTH {
        label.push('\u{2026}');
    } else {
        let ghost name = label@;
        assert(name == chars@) by {
            assert(chars@.take(chars@.len() as int) == chars@);
        }
        let mut pad: usize = chars.len();
        while pad < NICK_WIDTH
            invariant
                chars.len() <= pad <= NICK_WIDTH,
                label@ == name + spaces(pad - chars.len()),
            decreases NICK_WIDTH - pad,
        {
            label.push(' ');
            pad = pad + 1;
            assert(name + spaces(pad - chars.len()) == (name + spaces(pad - 1 - chars.len())).push(
                ' ',
            ));
        }
    }
    label.push(':');
    label.push(' ');
    assert(label@ == label_of(sender@));
    label
}

/// Styles the fragments of one wrapped message: each becomes a line that
/// starts with `label` on the first line and with as many spaces on every
/// other.
pub fn style_fragments(label: &str, fragments: &Vec<String>, app: &App) -> (lines: Vec<Line>)
    ensures
        lines@.len() == fragments@.len(),
        forall|i: int|
            0 <= i < lines@.len() ==> (#[trigger] lines@[i])@ == message_line(
                label@,
                i == 0,
                fragments@[i]@,
                app,
            ),
{
    let current_style = text_base_style(app);
    let width: usize = label.unicode_len();
    let mut lines: Vec<Line> = Vec::new();
    let mut i: usize = 0;
    while i < fragments.len()
        invariant
            i <= fragments.len(),
            lines@.len() == i,
            current_style == text_base(app),
            width == label@.len(),
            forall|k: int|
                0 <= k < i ==> (#[trigger] lines@[k])@ == message_line(
                    label@,
                    k == 0,
                    fragments@[k]@,
                    app,
                ),
        decreases fragments.len() - i,
    {
        let mut spans: Vec<Span> = Vec::new();
        let lead = if i == 0 {
            let (hr, hg, hb) = app.style_highlight;
            let style = Style::new().fg(Color::Rgb(hr, hg, hb)).bold();
            Span { content: label.to_owned(), style }
        } else {
            Span { content: blank(width), style: Style::new() }
        };
        spans.push(lead);
        assert(span_views(spans@) == seq![lead@]);
        let (spans, _) = text_style(fragments[i].as_str(), spans, current_style, app);
        let line = Line { spans };
        lines.push(line);
        i = i + 1;
    }
    lines
}

/// The lines of one message within `width_budget` columns: position `i`
/// holds the line of the fragment `i` of the wrapped body.
pub open spec fn message_lines(
    sender: Seq<char>,
    body: Seq<char>,
    width_budget: int,
    app: &App,
) -> Seq<Seq<SpanView>> {
    let fragments = wrapped((width_budget - LABEL_WIDTH) as usize, body);
    Seq::new(
        fragments.len(),
        |i: int| message_line(label_of(sender), i == 0, fragments[i], app),
    )
}

/// Lays out one message: the body is wrapped to the columns that the
/// label leaves of `width_budget`, without breaking words, and each
/// fragment is styled into a line.
pub fn wrap_message(sender: &str, body: &str, width_budget: usize, app: &App) -> (lines: Vec<Line>)
    requires
        width_budget >= LABEL_WIDTH,
    ensures
        line_views(lines@) == message_lines(sender@, body@, width_budget as int, app),
{
    let label = sender_label(sender);
    let fragments = line_wrap(width_budget - LABEL_WIDTH, body);
    let lines = style_fragments(label.as_str(), &fragments, app);
    proof {
        let want = message_lines(sender@, body@, width_budget as int, app);
        let cut = wrapped((width_budget - LABEL_WIDTH) as usize, body@);
        assert(string_views(fragments@).len() == fragments@.len());
        assert forall|i: int| 0 <= i < lines@.len() implies line_views(lines@)[i] == want[i] by {
            assert(string_views(fragments@)[i] == fragments@[i]@);
        }
        assert(line_views(lines@) =~= want);
    }
    lines
}

/// Number of columns that the chat area leaves for a message: half the
/// terminal less 6 where the area is split, the terminal less 4 where it
/// is not.
pub open spec fn chat_width(app: &App) -> int {
    if app.split.0 {
        app.w / 2 - 6
    } else {
        app.w - 4
    }
}

/// The lines of the first `n` messages of `list`, in order.
pub open spec fn chat_lines(list: Seq<(String, String)>, n: int, app: &App) -> Seq<Seq<SpanView>>
    decreases n,
{
    if n <= 0 {
        Seq::empty()
    } else {
        chat_lines(list, n - 1, app) + message_lines(
            list[n - 1].0@,
            list[n - 1].1@,
            chat_width(app),
            app,
        )
    }
}

/// Lays out a history, a list of senders and bodies, for the chat area of
/// `app`.
pub fn history_lines(app: &App, chat_list: &Vec<(String, String)>) -> (lines: Vec<Line>)
    requires
        chat_list@.len() > 0 ==> chat_width(app) >= LABEL_WIDTH,
    ensures
        line_views(lines@) == chat_lines(chat_list@, chat_list@.len() as int, app),
{
    let mut chat: Vec<Line> = Vec::new();
    assert(line_views(chat@) == chat_lines(chat_list@, 0, app));
    if chat_list.len() == 0 {
        return chat;
    }
    let (on, _, _, _, _) = &app.split;
    let width_budget: usize = if *on {
        (app.w / 2) as usize - 6
    } else {
        app.w as usize - 4
    };
    let mut k: usize = 0;
    while k < chat_list.len()
        invariant
            k <= chat_list.len(),
            width_budget == chat_width(app),
            width_budget >= LABEL_WIDTH,
            line_views(chat@) == chat_lines(chat_list@, k as int, app),
        decreases chat_list.len() - k,
    {
        let ghost before = chat@;
        let mut lines = wrap_message(
            chat_list[k].0.as_str(),
            chat_list[k].1.as_str(),
            width_budget,
            app,
        );
        let ghost added = lines@;
        chat.append(&mut lines);
        k = k + 1;
        assert(line_views(before + added) == line_views(before) + line_views(added));
    }
    chat
}

/// Lays out the history of the channel `channel_id` of the server
/// `server_id` for the chat area of `app`; no line where there is no such
/// channel.
pub fn chat_style(app: &App, server_id: String, channel_id: String) -> (lines: Vec<Line>)
    requires
        app.history(server_id@, channel_id@).len() > 0 ==> chat_width(app) >= LABEL_WIDTH,
    ensures
        line_views(lines@) == chat_lines(
            app.history(server_id@, channel_id@),
            app.history(server_id@, channel_id@).len() as int,
            app,
        ),
{
    match chat_history(app, &server_id, &channel_id) {
        Some(chat_list) => history_lines(app, chat_list),
        None => {
            let lines: Vec<Line> = Vec::new();
            assert(line_views(lines@) == chat_lines(app.history(server_id@, channel_id@), 0, app));
            lines
        },
    }
}

} // verus!
