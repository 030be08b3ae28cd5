//! The part of the client's state that editing and rendering read and
//! change.

use crate::keys::{
    find, find_rank, index_of, lemma_insert_keeps_order, names_ascend, names_of, names_sorted,
    rank,
};
use vstd::prelude::*;
use vstd::string::StringExecFns;

verus! {

/// A colour of the theme, as red, green and blue.
pub type Rgb = (u8, u8, u8);

/// History, members and flags of one channel.
pub struct ChannelData {
    /// The messages, oldest first, each as sender and body.
    pub chat_list: Vec<(String, String)>,
    /// The nicknames of the members.
    pub user_list: Vec<String>,
    /// Whether something arrived that the user has not seen.
    pub notification: bool,
    /// Number of lines that the history is scrolled back by.
    pub chat_pos: usize,
}

/// A channel as contracts see it.
pub ghost struct ChannelView {
    pub chat: Seq<(Seq<char>, Seq<char>)>,
    pub users: Seq<Seq<char>>,
    pub notification: bool,
    pub chat_pos: usize,
}

/// One server: its channels in the order of their names, and the nickname
/// in use on it.
pub struct ServerData {
    pub channels: Vec<(String, ChannelData)>,
    pub nick: String,
}

/// A server as contracts see it.
pub ghost struct ServerView {
    pub nick: Seq<char>,
    pub channels: Seq<(Seq<char>, ChannelView)>,
}

/// The messages of a history as pairs of texts.
pub open spec fn chat_views(list: Seq<(String, String)>) -> Seq<(Seq<char>, Seq<char>)> {
    list.map_values(|m: (String, String)| (m.0@, m.1@))
}

/// The channels of a server as names and views.
pub open spec fn channel_views(list: Seq<(String, ChannelData)>) -> Seq<(Seq<char>, ChannelView)> {
    list.map_values(|e: (String, ChannelData)| (e.0@, e.1@))
}

/// The servers of the client as names and views.
pub open spec fn server_views(list: Seq<(String, ServerData)>) -> Seq<(Seq<char>, ServerView)> {
    list.map_values(|e: (String, ServerData)| (e.0@, e.1@))
}

/// The names of a list of named views, in order.
pub open spec fn labels<V>(entries: Seq<(Seq<char>, V)>) -> Seq<Seq<char>> {
    entries.map_values(|e: (Seq<char>, V)| e.0)
}

impl View for ChannelData {
    type V = ChannelView;

    open spec fn view(&self) -> ChannelView {
        ChannelView {
            chat: chat_views(self.chat_list@),
            users: self.user_list@.map_values(|u: String| u@),
            notification: self.notification,
            chat_pos: self.chat_pos,
        }
    }
}

impl View for ServerData {
    type V = ServerView;

    open spec fn view(&self) -> ServerView {
        ServerView { nick: self.nick@, channels: channel_views(self.channels@) }
    }
}

/// A channel in which nothing has happened yet.
pub open spec fn empty_channel() -> ChannelView {
    ChannelView { chat: Seq::empty(), users: Seq::empty(), notification: false, chat_pos: 0 }
}

impl Default for ChannelData {
    fn default() -> (channel: ChannelData)
        ensures
            channel@ == empty_channel(),
    {
        let channel = ChannelData {
            chat_list: Vec::new(),
            user_list: Vec::new(),
            notification: false,
            chat_pos: 0,
        };
        assert(channel@.chat =~= Seq::empty());
        assert(channel@.users =~= Seq::empty());
        channel
    }
}

/// State of the prompt, the theme and the screen.
pub struct App {
    /// The raw prompt buffer, markers included.
    pub prompt: String,
    /// The cursor, counted in visible characters of the prompt.
    pub character_index: usize,
    /// Width of the terminal in columns.
    pub w: u16,
    /// Height of the terminal in rows.
    pub h: u16,
    /// Whether the chat area is split in two, then the server and channel
    /// shown on the left and those shown on the right.
    pub split: (bool, String, String, String, String),
    /// Theme colour of borders and frames.
    pub style_fg: Rgb,
    /// Theme colour of the background; it also stands for "no colour".
    pub style_bg: Rgb,
    /// Theme colour of notifications.
    pub style_notif: Rgb,
    /// Theme colour of highlights such as the sender label.
    pub style_highlight: Rgb,
    /// Theme colour of ordinary text.
    pub style_txt: Rgb,
    /// Name of the server whose channel is shown.
    pub active_server: String,
    /// Name of the channel that is shown.
    pub active_channel: String,
    /// Nickname in use on the active server.
    pub active_nick: String,
    /// The servers in the order of their names.
    pub server_list: Vec<(String, ServerData)>,
    /// Row selected in the foreground colour picker.
    pub color_state_fg: Option<usize>,
    /// Row selected in the background colour picker.
    pub color_state_bg: Option<usize>,
}

/// The five colours of the theme.
#[derive(Clone, Copy, Debug, PartialEq, Eq)]
pub struct Colors {
    pub bg: Rgb,
    pub fg: Rgb,
    pub txt: Rgb,
    pub highlight: Rgb,
    pub notif: Rgb,
}

/// The theme that is used where the configuration gives none.
pub open spec fn builtin_theme() -> Colors {
    Colors {
        bg: (47u8, 50u8, 54u8),
        fg: (255u8, 238u8, 140u8),
        txt: (255u8, 255u8, 255u8),
        highlight: (238u8, 140u8, 255u8),
        notif: (140u8, 255u8, 238u8),
    }
}

impl App {
    /// Whether `self` and `other` differ at most in the prompt and cursor.
    pub open spec fn same_but_prompt(&self, other: &App) -> bool {
        &&& self.same_screen(other)
        &&& self.same_theme(other)
        &&& self.same_names(other)
        &&& self.same_pickers(other)
        &&& self.same_servers(other)
    }

    /// The servers as names and views, in order.
    pub open spec fn servers(&self) -> Seq<(Seq<char>, ServerView)> {
        server_views(self.server_list@)
    }

    /// Whether the state is well formed: the names of the servers ascend,
    /// and so do the names of the channels of each server. No name then
    /// occurs twice.
    pub open spec fn wf(&self) -> bool {
        &&& names_ascend(labels(self.servers()))
        &&& forall|i: int|
            0 <= i < self.servers().len() ==> names_ascend(
                labels(#[trigger] self.servers()[i].1.channels),
            )
    }

    /// The history of the channel `channel` of the server `server`; empty
    /// where there is no such server or channel.
    pub open spec fn history(&self, server: Seq<char>, channel: Seq<char>) -> Seq<
        (String, String),
    > {
        match index_of(names_of(self.server_list@), server) {
            Some(i) => match index_of(names_of(self.server_list@[i].1.channels@), channel) {
                Some(c) => self.server_list@[i].1.channels@[c].1.chat_list@,
                None => Seq::empty(),
            },
            None => Seq::empty(),
        }
    }

    /// Whether `self` and `other` have the same prompt and cursor.
    pub open spec fn same_prompt(&self, other: &App) -> bool {
        &&& self.prompt == other.prompt
        &&& self.character_index == other.character_index
    }

    /// Whether `self` and `other` have the same screen size and split.
    pub open spec fn same_screen(&self, other: &App) -> bool {
        &&& self.w == other.w
        &&& self.h == other.h
        &&& self.split == other.split
    }

    /// Whether `self` and `other` name the same server, channel and nick.
    pub open spec fn same_names(&self, other: &App) -> bool {
        &&& self.active_server == other.active_server
        &&& self.active_channel == other.active_channel
        &&& self.active_nick == other.active_nick
    }

    /// Whether `self` and `other` hold the same servers and channels.
    pub open spec fn same_servers(&self, other: &App) -> bool {
        self.server_list == other.server_list
    }

    /// Whether `self` and `other` select the same rows in the pickers.
    pub open spec fn same_pickers(&self, other: &App) -> bool {
        &&& self.color_state_fg == other.color_state_fg
        &&& self.color_state_bg == other.color_state_bg
    }

    /// The five colours of the theme.
    pub open spec fn theme(&self) -> Colors {
        Colors {
            bg: self.style_bg,
            fg: self.style_fg,
            txt: self.style_txt,
            highlight: self.style_highlight,
            notif: self.style_notif,
        }
    }

    /// Whether `self` and `other` have the same five theme colours.
    pub open spec fn same_theme(&self, other: &App) -> bool {
        &&& self.style_fg == other.style_fg
        &&& self.style_bg == other.style_bg
        &&& self.style_notif == other.style_notif
        &&& self.style_highlight == other.style_highlight
        &&& self.style_txt == other.style_txt
    }
}

impl Default for App {
    /// An empty prompt on a screen of no size, with the built-in theme.
    fn default() -> (app: App)
        ensures
            app.prompt@.len() == 0,
            app.character_index == 0,
            app.w == 0,
            app.h == 0,
            !app.split.0,
            app.split.1@.len() == 0,
            app.split.2@.len() == 0,
            app.split.3@.len() == 0,
            app.split.4@.len() == 0,
            app.theme() == builtin_theme(),
            app.active_server@.len() == 0,
            app.active_channel@.len() == 0,
            app.active_nick@.len() == 0,
            app.server_list@.len() == 0,
            app.wf(),
            app.color_state_fg is None,
            app.color_state_bg is None,
    {
        App {
            prompt: String::new(),
            character_index: 0,
            w: 0,
            h: 0,
            split: (false, String::new(), String::new(), String::new(), String::new()),
            style_fg: (255, 238, 140),
            style_bg: (47, 50, 54),
            style_notif: (140, 255, 238),
            style_highlight: (238, 140, 255),
            style_txt: (255, 255, 255),
            active_server: String::new(),
            active_channel: String::new(),
            active_nick: String::new(),
            server_list: Vec::new(),
            color_state_fg: None,
            color_state_bg: None,
        }
    }
}

/// The five colours of the theme held by `app`.
pub fn get_colors(app: &App) -> (colors: Colors)
    ensures
        colors == app.theme(),
{
    Colors {
        bg: app.style_bg,
        fg: app.style_fg,
        txt: app.style_txt,
        highlight: app.style_highlight,
        notif: app.style_notif,
    }
}

/// The names of a list of entries are the names of their views.
pub proof fn lemma_server_labels(list: Seq<(String, ServerData)>)
    ensures
        labels(server_views(list)) == names_of(list),
{
    assert(labels(server_views(list)) =~= names_of(list));
}

/// The names of a list of entries are the names of their views.
pub proof fn lemma_channel_labels(list: Seq<(String, ChannelData)>)
    ensures
        labels(channel_views(list)) == names_of(list),
{
    assert(labels(channel_views(list)) =~= names_of(list));
}

/// Whether the state is well formed.
pub fn well_formed(app: &App) -> (ok: bool)
    ensures
        ok == app.wf(),
{
    proof {
        lemma_server_labels(app.server_list@);
    }
    if !names_sorted(&app.server_list) {
        return false;
    }
    let ghost servers = app.servers();
    let mut i: usize = 0;
    while i < app.server_list.len()
        invariant
            i <= app.server_list.len(),
            servers == app.servers(),
            forall|j: int| 0 <= j < i ==> names_ascend(labels(#[trigger] servers[j].1.channels)),
        decreases app.server_list.len() - i,
    {
        proof {
            lemma_channel_labels(app.server_list@[i as int].1.channels@);
            assert(servers[i as int].1.channels == channel_views(
                app.server_list@[i as int].1.channels@,
            ));
        }
        if !names_sorted(&app.server_list[i].1.channels) {
            return false;
        }
        i = i + 1;
    }
    true
}

/// The history of the channel `channel_id` of the server `server_id`, if
/// there is such a channel.
pub fn chat_history<'a>(app: &'a App, server_id: &String, channel_id: &String) -> (found: Option<
    &'a Vec<(String, String)>,
>)
    ensures
        found is Some ==> found->0@ == app.history(server_id@, channel_id@),
        found is None ==> app.history(server_id@, channel_id@).len() == 0,
        found is Some <==> index_of(names_of(app.server_list@), server_id@) is Some && index_of(
            names_of(
                app.server_list@[index_of(names_of(app.server_list@), server_id@)->0].1.channels@,
            ),
            channel_id@,
        ) is Some,
{
    match find(&app.server_list, server_id) {
        Some(i) => match find(&app.server_list[i].1.channels, channel_id) {
            Some(c) => Some(&app.server_list[i].1.channels[c].1.chat_list),
            None => None,
        },
        None => None,
    }
}

/// The channels `channels` with `message` appended to the history of the
/// channel `channel`, if there is one.
pub open spec fn with_message(
    channels: Seq<(Seq<char>, ChannelView)>,
    channel: Seq<char>,
    message: (Seq<char>, Seq<char>),
) -> Seq<(Seq<char>, ChannelView)> {
    match index_of(labels(channels), channel) {
        Some(c) => channels.update(
            c,
            (
                channels[c].0,
                ChannelView {
                    chat: channels[c].1.chat.push(message),
                    users: channels[c].1.users,
                    notification: channels[c].1.notification,
                    chat_pos: channels[c].1.chat_pos,
                },
            ),
        ),
        None => channels,
    }
}

/// The servers `servers` with `message` appended to the history of the
/// channel `channel` of the server `server`, if there is one.
pub open spec fn servers_with_message(
    servers: Seq<(Seq<char>, ServerView)>,
    server: Seq<char>,
    channel: Seq<char>,
    message: (Seq<char>, Seq<char>),
) -> Seq<(Seq<char>, ServerView)> {
    match index_of(labels(servers), server) {
        Some(i) => servers.update(
            i,
            (
                servers[i].0,
                ServerView {
                    nick: servers[i].1.nick,
                    channels: with_message(servers[i].1.channels, channel, message),
                },
            ),
        ),
        None => servers,
    }
}

/// Appends a message to the history of the channel `channel_id` of the
/// server `server_id` and says whether there is such a channel; without
/// one nothing changes.
pub fn push_chat(
    app: &mut App,
    server_id: &String,
    channel_id: &String,
    sender: String,
    text: String,
) -> (pushed: bool)
    ensures
        final(app).servers() == servers_with_message(
            old(app).servers(),
            server_id@,
            channel_id@,
            (sender@, text@),
        ),
        pushed == (final(app).servers() != old(app).servers()),
        old(app).wf() ==> final(app).wf(),
        final(app).same_prompt(old(app)),
        final(app).same_screen(old(app)),
        final(app).same_theme(old(app)),
        final(app).same_names(old(app)),
        final(app).same_pickers(old(app)),
{
    let ghost before = app.servers();
    let ghost was_wf = app.wf();
    proof {
        lemma_server_labels(app.server_list@);
    }
    match find(&app.server_list, server_id) {
        Some(i) => {
            proof {
                lemma_channel_labels(app.server_list@[i as int].1.channels@);
                assert(before[i as int].1.channels == channel_views(
                    app.server_list@[i as int].1.channels@,
                ));
            }
            match find(&app.server_list[i].1.channels, channel_id) {
                Some(c) => {
                    let ghost channels = before[i as int].1.channels;
                    let ghost chat = channels[c as int].1.chat;
                    app.server_list[i].1.channels[c].1.chat_list.push((sender, text));
                    proof {
                        let want = servers_with_message(
                            before,
                            server_id@,
                            channel_id@,
                            (sender@, text@),
                        );
                        let now = app.servers();
                        let now_channels = channel_views(app.server_list@[i as int].1.channels@);
                        assert(now_channels[c as int].1.chat =~= chat.push((sender@, text@)));
                        assert(now_channels[c as int].1.users =~= channels[c as int].1.users);
                        assert(now_channels =~= with_message(
                            channels,
                            channel_id@,
                            (sender@, text@),
                        ));
                        assert(now =~= want);
                        assert(now[i as int].1.channels[c as int].1.chat.len() == chat.len() + 1);
                        assert(labels(now) =~= labels(before));
                        if was_wf {
                            assert forall|j: int| 0 <= j < now.len() implies names_ascend(
                                labels(#[trigger] now[j].1.channels),
                            ) by {
                                if j == i {
                                    assert(labels(now[j].1.channels) =~= labels(channels));
                                    assert(names_ascend(labels(before[j].1.channels)));
                                } else {
                                    assert(now[j] == before[j]);
                                    assert(names_ascend(labels(before[j].1.channels)));
                                }
                            }
                        }
                    }
                    true
                },
                None => false,
            }
        },
        None => false,
    }
}

/// The servers `servers` with the nickname of the server `server` set to
/// `nick`, if there is such a server.
pub open spec fn servers_with_nick(
    servers: Seq<(Seq<char>, ServerView)>,
    server: Seq<char>,
    nick: Seq<char>,
) -> Seq<(Seq<char>, ServerView)> {
    match index_of(labels(servers), server) {
        Some(i) => servers.update(
            i,
            (servers[i].0, ServerView { nick, channels: servers[i].1.channels }),
        ),
        None => servers,
    }
}

/// Sets the nickname in use on the server `server_id`; without such a
/// server nothing changes.
pub fn set_server_nick(app: &mut App, server_id: &String, nick: String)
    ensures
        final(app).servers() == servers_with_nick(old(app).servers(), server_id@, nick@),
        old(app).wf() ==> final(app).wf(),
        final(app).same_prompt(old(app)),
        final(app).same_screen(old(app)),
        final(app).same_theme(old(app)),
        final(app).same_names(old(app)),
        final(app).same_pickers(old(app)),
{
    let ghost before = app.servers();
    let ghost was_wf = app.wf();
    proof {
        lemma_server_labels(app.server_list@);
    }
    match find(&app.server_list, server_id) {
        Some(i) => {
            app.server_list[i].1.nick = nick;
            proof {
                let now = app.servers();
                assert(now =~= servers_with_nick(before, server_id@, nick@));
                assert(labels(now) =~= labels(before));
                if was_wf {
                    assert forall|j: int| 0 <= j < now.len() implies names_ascend(
                        labels(#[trigger] now[j].1.channels),
                    ) by {
                        assert(now[j].1.channels == before[j].1.channels);
                        assert(names_ascend(labels(before[j].1.channels)));
                    }
                }
            }
        },
        None => {},
    }
}

/// The note that a connection attempt leaves in the status channel.
pub open spec fn connecting_note(addr: Seq<char>) -> Seq<char> {
    "<connecting to "@ + addr + ">"@
}

/// A server that was just connected to as `nick`: it has the one channel
/// `Status`, which holds the note of the connection attempt.
pub open spec fn fresh_server(nick: Seq<char>, addr: Seq<char>) -> ServerView {
    ServerView {
        nick,
        channels: seq![
            (
                "Status"@,
                ChannelView {
                    chat: seq![("System"@, connecting_note(addr))],
                    users: Seq::empty(),
                    notification: false,
                    chat_pos: 0,
                },
            ),
        ],
    }
}

/// The servers after a connection to `server` was started: a server that
/// is known gets the note of the attempt into its status channel, a new
/// one is put in at the place of its name.
pub open spec fn servers_with_connection(
    servers: Seq<(Seq<char>, ServerView)>,
    server: Seq<char>,
    nick: Seq<char>,
    addr: Seq<char>,
) -> Seq<(Seq<char>, ServerView)> {
    if index_of(labels(servers), server) is Some {
        servers_with_message(servers, server, "Status"@, ("System"@, connecting_note(addr)))
    } else {
        servers.insert(rank(labels(servers), server), (server, fresh_server(nick, addr)))
    }
}

/// Records that a connection to the server `server_id` at `addr` was
/// started as `nick`: the server is entered if it is new, its status
/// channel gets a note, and it becomes the active server with its status
/// channel shown.
pub fn register_server(app: &mut App, server_id: String, nick: String, addr: String)
    requires
        old(app).wf(),
    ensures
        final(app).wf(),
        final(app).servers() == servers_with_connection(
            old(app).servers(),
            server_id@,
            nick@,
            addr@,
        ),
        final(app).active_server@ == server_id@,
        final(app).active_channel@ == "Status"@,
        final(app).active_nick@ == nick@,
        final(app).same_prompt(old(app)),
        final(app).same_screen(old(app)),
        final(app).same_theme(old(app)),
        final(app).same_pickers(old(app)),
{
    let ghost before = app.servers();
    let mut note = String::from_str("<connecting to ");
    note.append(addr.as_str());
    note.append(">");
    let status = String::from_str("Status");
    let system = String::from_str("System");
    proof {
        lemma_server_labels(app.server_list@);
    }
    match find(&app.server_list, &server_id) {
        Some(_) => {
            push_chat(app, &server_id, &status, system, note);
        },
        None => {
            let at: usize = find_rank(&app.server_list, &server_id);
            let mut chat_list: Vec<(String, String)> = Vec::new();
            chat_list.push((system, note));
            let channel = ChannelData {
                chat_list,
                user_list: Vec::new(),
                notification: false,
                chat_pos: 0,
            };
            let mut channels: Vec<(String, ChannelData)> = Vec::new();
            channels.push((status, channel));
            let server = ServerData { channels, nick: nick.clone() };
            proof {
                assert(channel@.chat =~= seq![("System"@, connecting_note(addr@))]);
                assert(channel@.users =~= Seq::empty());
                assert(server@.channels =~= fresh_server(nick@, addr@).channels);
                lemma_insert_keeps_order(labels(before), server_id@);
            }
            app.server_list.insert(at, (server_id.clone(), server));
            proof {
                let now = app.servers();
                let entry = (server_id@, fresh_server(nick@, addr@));
                assert(now =~= before.insert(at as int, entry));
                assert(labels(now) =~= labels(before).insert(at as int, server_id@));
                assert forall|j: int| 0 <= j < now.len() implies names_ascend(
                    labels(#[trigger] now[j].1.channels),
                ) by {
                    if j < at {
                        assert(now[j] == before[j]);
                    } else if j > at {
                        assert(now[j] == before[j - 1]);
                    } else {
                        assert(labels(now[j].1.channels).len() == 1);
                    }
                }
            }
        },
    }
    app.active_server = server_id;
    app.active_channel = String::from_str("Status");
    app.active_nick = nick;
}

} // verus!
