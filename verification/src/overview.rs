//! The overview of servers and channels: one row per server, followed by
//! one numbered row per channel, and the row of the channel that is shown.

use crate::app::{
    channel_views, labels, lemma_channel_labels, lemma_server_labels, App,
    ChannelData, ChannelView, ServerView,
};
use crate::keys::{find, index_of, names_of};
use vstd::prelude::*;
use vstd::string::StringExecFns;

verus! {

/// One row of the overview.
#[derive(Debug, PartialEq, Eq)]
pub enum OverviewRow {
    /// The heading of a server.
    Server(String),
    /// A channel with its number, counted over all servers from 0, and
    /// whether it has news to show.
    Channel { index: usize, name: String, alert: bool },
}

/// A row as contracts see it.
pub ghost enum RowView {
    Server(Seq<char>),
    Channel(int, Seq<char>, bool),
}

impl View for OverviewRow {
    type V = RowView;

    open spec fn view(&self) -> RowView {
        match self {
            OverviewRow::Server(name) => RowView::Server(name@),
            OverviewRow::Channel { index, name, alert } => RowView::Channel(
                *index as int,
                name@,
                *alert,
            ),
        }
    }
}

/// The views of a sequence of rows.
pub open spec fn row_views(rows: Seq<OverviewRow>) -> Seq<RowView> {
    rows.map_values(|r: OverviewRow| r@)
}

/// Number of channels of the first `n` servers.
pub open spec fn channel_count(servers: Seq<(Seq<char>, ServerView)>, n: int) -> int
    decreases n,
{
    if n <= 0 {
        0
    } else {
        channel_count(servers, n - 1) + servers[n - 1].1.channels.len()
    }
}

/// Whether a channel shows an alert: it has news, and it is not the
/// status channel.
pub open spec fn alerts(name: Seq<char>, channel: ChannelView) -> bool {
    channel.notification && name != "Status"@
}

/// The rows of the first `n` of `channels`, numbered from `first`.
pub open spec fn channel_rows(channels: Seq<(Seq<char>, ChannelView)>, first: int, n: int) -> Seq<
    RowView,
>
    decreases n,
{
    if n <= 0 {
        Seq::empty()
    } else {
        channel_rows(channels, first, n - 1).push(
            RowView::Channel(
                first + n - 1,
                channels[n - 1].0,
                alerts(channels[n - 1].0, channels[n - 1].1),
            ),
        )
    }
}

/// The rows of the first `n` servers: for each its heading, then its
/// channels; the channels are numbered through.
pub open spec fn overview(servers: Seq<(Seq<char>, ServerView)>, n: int) -> Seq<RowView>
    decreases n,
{
    if n <= 0 {
        Seq::empty()
    } else {
        overview(servers, n - 1).push(RowView::Server(servers[n - 1].0)) + channel_rows(
            servers[n - 1].1.channels,
            channel_count(servers, n - 1),
            servers[n - 1].1.channels.len() as int,
        )
    }
}

/// The row of the channel `channel` of the server `server`, if there is
/// such a channel: behind the rows of the servers before it and its own
/// heading, at the place of the channel among its server's.
pub open spec fn selected_row(
    servers: Seq<(Seq<char>, ServerView)>,
    server: Seq<char>,
    channel: Seq<char>,
) -> Option<int> {
    match index_of(labels(servers), server) {
        Some(i) => match index_of(labels(servers[i].1.channels), channel) {
            Some(c) => Some(overview(servers, i).len() + 1 + c),
            None => None,
        },
        None => None,
    }
}

/// The overview has one row for each server and each channel.
pub proof fn lemma_overview_len(servers: Seq<(Seq<char>, ServerView)>, n: int)
    requires
        0 <= n <= servers.len(),
    ensures
        overview(servers, n).len() == n + channel_count(servers, n),
        channel_count(servers, n) >= 0,
    decreases n,
{
    if n > 0 {
        lemma_overview_len(servers, n - 1);
        lemma_channel_rows_len(
            servers[n - 1].1.channels,
            channel_count(servers, n - 1),
            servers[n - 1].1.channels.len() as int,
        );
    }
}

/// There is one row for each channel.
pub proof fn lemma_channel_rows_len(channels: Seq<(Seq<char>, ChannelView)>, first: int, n: int)
    requires
        0 <= n,
    ensures
        channel_rows(channels, first, n).len() == n,
    decreases n,
{
    if n > 0 {
        lemma_channel_rows_len(channels, first, n - 1);
    }
}

/// Appends the rows of the channels of one server to `rows`, numbered
/// from `first`.
fn push_channel_rows(
    rows: &mut Vec<OverviewRow>,
    channels: &Vec<(String, ChannelData)>,
    first: usize,
)
    requires
        first <= old(rows).len(),
    ensures
        row_views(final(rows)@) == row_views(old(rows)@) + channel_rows(
            channel_views(channels@),
            first as int,
            channels@.len() as int,
        ),
        final(rows).len() == old(rows).len() + channels.len(),
{
    let ghost before = row_views(rows@);
    let ghost views = channel_views(channels@);
    let status = String::from_str("Status");
    let mut j: usize = 0;
    proof {
        assert(before + channel_rows(views, first as int, 0) == before);
    }
    while j < channels.len()
        invariant
            j <= channels.len(),
            status@ == "Status"@,
            views == channel_views(channels@),
            first <= old(rows).len(),
            rows.len() == old(rows).len() + j,
            row_views(rows@) == before + channel_rows(views, first as int, j as int),
        decreases channels.len() - j,
    {
        let ghost so_far = row_views(rows@);
        let name = channels[j].0.clone();
        let alert = channels[j].1.notification && !(channels[j].0 == status);
        let row = OverviewRow::Channel { index: first + j, name, alert };
        proof {
            assert(views[j as int] == (channels@[j as int].0@, channels@[j as int].1@));
        }
        let ghost view = row@;
        rows.push(row);
        j = j + 1;
        proof {
            let done = channel_rows(views, first as int, j - 1);
            assert(row_views(rows@) == so_far.push(view));
            assert((before + done).push(view) == before + done.push(view));
        }
    }
}

/// The rows of the overview of `app`, and the index of the row of the
/// channel that is shown, if that channel is entered.
pub fn overview_rows(app: &App) -> (out: (Vec<OverviewRow>, Option<usize>))
    ensures
        row_views(out.0@) == overview(app.servers(), app.servers().len() as int),
        out.1 is Some <==> selected_row(app.servers(), app.active_server@, app.active_channel@)
            is Some,
        out.1 is Some ==> out.1->0 == selected_row(
            app.servers(),
            app.active_server@,
            app.active_channel@,
        )->0 && out.1->0 < out.0@.len(),
{
    let ghost servers = app.servers();
    let shown: Option<usize> = find(&app.server_list, &app.active_server);
    let mut rows: Vec<OverviewRow> = Vec::new();
    let mut selected: Option<usize> = None;
    let mut index: usize = 0;
    let mut k: usize = 0;
    proof {
        lemma_server_labels(app.server_list@);
        assert(row_views(rows@) == overview(servers, 0));
    }
    while k < app.server_list.len()
        invariant
            k <= app.server_list.len(),
            servers == app.servers(),
            labels(servers) == names_of(app.server_list@),
            shown is Some <==> index_of(labels(servers), app.active_server@) is Some,
            shown is Some ==> shown->0 == index_of(labels(servers), app.active_server@)->0
                && shown->0 < app.server_list.len(),
            row_views(rows@) == overview(servers, k as int),
            index == channel_count(servers, k as int),
            rows.len() == k + index,
            shown is Some && shown->0 < k ==> (selected is Some <==> selected_row(
                servers,
                app.active_server@,
                app.active_channel@,
            ) is Some),
            shown is Some && shown->0 < k && selected is Some ==> selected->0 == selected_row(
                servers,
                app.active_server@,
                app.active_channel@,
            )->0 && selected->0 < rows.len(),
            !(shown is Some && shown->0 < k) ==> selected is None,
        decreases app.server_list.len() - k,
    {
        let ghost so_far = row_views(rows@);
        let heading = OverviewRow::Server(app.server_list[k].0.clone());
        let ghost heading_view = heading@;
        let at: usize = rows.len();
        rows.push(heading);
        proof {
            let entry = app.server_list@[k as int];
            assert(servers[k as int] == (entry.0@, entry.1@));
            assert(row_views(rows@) == so_far.push(heading_view));
            lemma_overview_len(servers, k as int);
        }
        push_channel_rows(&mut rows, &app.server_list[k].1.channels, index);
        if shown == Some(k) {
            proof {
                lemma_channel_labels(app.server_list@[k as int].1.channels@);
            }
            match find(&app.server_list[k].1.channels, &app.active_channel) {
                Some(c) => {
                    selected = Some(at + 1 + c);
                },
                None => {},
            }
        }
        index = index + app.server_list[k].1.channels.len();
        k = k + 1;
    }
    proof {
        if shown is None {
            assert(selected_row(servers, app.active_server@, app.active_channel@) is None);
        }
    }
    (rows, selected)
}

} // verus!
