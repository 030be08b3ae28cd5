//! What the sections of the configuration file mean for the state of the
//! client. Reading and parsing the file is left to the caller, who hands
//! over what was found.

use crate::app::{servers_with_nick, set_server_nick, App, Colors, Rgb};
use crate::chat::string_views;
use vstd::prelude::*;
use vstd::string::StringExecFns;

verus! {

/// The section `[config]`.
#[derive(Debug)]
pub struct ClientConfig {
    pub nick: String,
}

/// The section `[theme]`: each colour as a list that should hold red,
/// green and blue.
#[derive(Debug)]
pub struct Theme {
    pub fg: Vec<u8>,
    pub bg: Vec<u8>,
    pub notification: Vec<u8>,
    pub highlight: Vec<u8>,
    pub text: Vec<u8>,
}

/// The section `[twitch]`.
#[derive(Debug)]
pub struct Twitch {
    pub nick: String,
    pub oauth: String,
}

/// One server of the section `[autojoin]`.
#[derive(Debug)]
pub struct Server {
    pub ip: String,
    pub nick: String,
    pub channels: Vec<String>,
}

/// The section `[autojoin]`: its servers in the order in which the caller
/// found them.
#[derive(Debug)]
pub struct AutoJoin {
    pub servers: Vec<Server>,
}

/// The configuration file; every section may be missing.
#[derive(Debug)]
pub struct Config {
    pub config: Option<ClientConfig>,
    pub theme: Option<Theme>,
    pub twitch: Option<Twitch>,
    pub autojoin: Option<AutoJoin>,
}

/// A server to connect to at start.
#[derive(Debug)]
pub struct JoinTarget {
    pub server_id: String,
    pub addr: String,
    pub nick: String,
}

/// The colour that a list of the theme gives: its three values, or
/// `default` where it does not hold exactly three.
pub open spec fn triple_or(values: Seq<u8>, default: Rgb) -> Rgb {
    if values.len() == 3 {
        (values[0], values[1], values[2])
    } else {
        default
    }
}

/// The theme that the section `theme` gives, each colour falling back to
/// that of `defaults`.
pub open spec fn theme_colors(theme: Theme, defaults: Colors) -> Colors {
    Colors {
        bg: triple_or(theme.bg@, defaults.bg),
        fg: triple_or(theme.fg@, defaults.fg),
        txt: triple_or(theme.text@, defaults.txt),
        highlight: triple_or(theme.highlight@, defaults.highlight),
        notif: triple_or(theme.notification@, defaults.notif),
    }
}

/// The section `[config]` of a configuration that was read, if any.
pub open spec fn client_of(config: Option<Config>) -> Option<ClientConfig> {
    match config {
        Some(c) => c.config,
        None => None,
    }
}

/// The section `[theme]` of a configuration that was read, if any.
pub open spec fn theme_of(config: Option<Config>) -> Option<Theme> {
    match config {
        Some(c) => c.theme,
        None => None,
    }
}

/// The section `[twitch]` of a configuration that was read, if any.
pub open spec fn twitch_of(config: Option<Config>) -> Option<Twitch> {
    match config {
        Some(c) => c.twitch,
        None => None,
    }
}

/// The servers of the section `[autojoin]` of a configuration that was
/// read; none where the file or the section is missing.
pub open spec fn servers_of(config: Option<Config>) -> Seq<Server> {
    match config {
        Some(c) => match c.autojoin {
            Some(a) => a.servers@,
            None => Seq::empty(),
        },
        None => Seq::empty(),
    }
}

/// The colour that a list of the theme gives, or `default`.
fn triple(values: &Vec<u8>, default: Rgb) -> (rgb: Rgb)
    ensures
        rgb == triple_or(values@, default),
{
    if values.len() == 3 {
        (values[0], values[1], values[2])
    } else {
        default
    }
}

/// The name of the server that stands for the client itself.
pub open spec fn system_server() -> Seq<char> {
    "System"@
}

/// Takes the nickname from the section `[config]`: it becomes the active
/// nickname and the nickname on the system server, if that is entered.
/// Without the section nothing changes.
pub fn read_config(app: &mut App, config: &Option<Config>)
    ensures
        client_of(*config) is Some ==> final(app).active_nick@ == client_of(*config)->0.nick@
            && final(app).servers() == servers_with_nick(
            old(app).servers(),
            system_server(),
            client_of(*config)->0.nick@,
        ),
        client_of(*config) is None ==> final(app).active_nick == old(app).active_nick
            && final(app).same_servers(old(app)),
        old(app).wf() ==> final(app).wf(),
        final(app).active_server == old(app).active_server,
        final(app).active_channel == old(app).active_channel,
        final(app).same_prompt(old(app)),
        final(app).same_screen(old(app)),
        final(app).same_theme(old(app)),
        final(app).same_pickers(old(app)),
{
    match config {
        Some(found) => match &found.config {
            Some(conf) => {
                app.active_nick = conf.nick.clone();
                let system = String::from_str("System");
                set_server_nick(app, &system, conf.nick.clone());
            },
            None => {},
        },
        None => {},
    }
}

/// The nickname and the token of the section `[twitch]`, or a pair that
/// says that there is none.
pub fn read_twitch(config: &Option<Config>) -> (login: (String, String))
    ensures
        twitch_of(*config) is Some ==> login.0@ == twitch_of(*config)->0.nick@ && login.1@
            == twitch_of(*config)->0.oauth@,
        twitch_of(*config) is None ==> login.0@ == "Twitch Entry not found"@ && login.1@
            == "Error"@,
{
    match config {
        Some(found) => match &found.twitch {
            Some(tw) => { return (tw.nick.clone(), tw.oauth.clone()); },
            None => {},
        },
        None => {},
    }
    ("Twitch Entry not found".to_owned(), "Error".to_owned())
}

/// Takes the five colours from the section `[theme]`; a colour whose list
/// does not hold exactly three values gets its built-in value. Without
/// the section nothing changes.
pub fn read_theme(app: &mut App, config: &Option<Config>)
    ensures
        theme_of(*config) is Some ==> final(app).theme() == theme_colors(
            theme_of(*config)->0,
            crate::app::builtin_theme(),
        ),
        theme_of(*config) is None ==> final(app).same_theme(old(app)),
        final(app).same_prompt(old(app)),
        final(app).same_screen(old(app)),
        final(app).same_names(old(app)),
        final(app).same_pickers(old(app)),
        final(app).same_servers(old(app)),
{
    match config {
        Some(found) => match &found.theme {
            Some(colors) => {
                app.style_fg = triple(&colors.fg, (255, 238, 140));
                app.style_bg = triple(&colors.bg, (47, 50, 54));
                app.style_notif = triple(&colors.notification, (140, 255, 238));
                app.style_highlight = triple(&colors.highlight, (238, 140, 255));
                app.style_txt = triple(&colors.text, (255, 255, 255));
            },
            None => {},
        },
        None => {},
    }
}

/// The lines that join the channels of one server.
pub open spec fn join_lines_of(server: Server) -> Seq<Seq<char>> {
    server.channels@.map_values(|channel: String| "JOIN "@ + channel@)
}

/// The lines that join the channels of those of the first `n` servers
/// whose address is `id`.
pub open spec fn join_lines(servers: Seq<Server>, n: int, id: Seq<char>) -> Seq<Seq<char>>
    decreases n,
{
    if n <= 0 {
        Seq::empty()
    } else if servers[n - 1].ip@ == id {
        join_lines(servers, n - 1, id) + join_lines_of(servers[n - 1])
    } else {
        join_lines(servers, n - 1, id)
    }
}

/// Appends the lines that join the channels of `server` to `lines`.
fn push_join_lines(lines: &mut Vec<String>, server: &Server)
    ensures
        string_views(final(lines)@) == string_views(old(lines)@) + join_lines_of(*server),
{
    let ghost before = string_views(lines@);
    let mut k: usize = 0;
    proof {
        assert(join_lines_of(*server).take(0) == Seq::<Seq<char>>::empty());
        assert(before + Seq::<Seq<char>>::empty() == before);
    }
    while k < server.channels.len()
        invariant
            k <= server.channels.len(),
            string_views(lines@) == before + join_lines_of(*server).take(k as int),
        decreases server.channels.len() - k,
    {
        let ghost so_far = string_views(lines@);
        let mut line = String::from_str("JOIN ");
        line.append(server.channels[k].as_str());
        let ghost text = line@;
        lines.push(line);
        k = k + 1;
        proof {
            let all = join_lines_of(*server);
            assert(string_views(lines@) == so_far.push(text));
            assert(all.take(k as int) == all.take(k - 1).push(all[k - 1]));
            assert((before + all.take(k - 1)).push(text) == before + all.take(k - 1).push(text));
        }
    }
    proof {
        assert(join_lines_of(*server).take(k as int) == join_lines_of(*server));
    }
}

/// The lines to send to the server `server_id` once it has registered:
/// one `JOIN` for each channel that the section `[autojoin]` lists for a
/// server with that address.
pub fn autojoin_channel(config: &Option<Config>, server_id: String) -> (lines: Vec<String>)
    ensures
        string_views(lines@) == join_lines(
            servers_of(*config),
            servers_of(*config).len() as int,
            server_id@,
        ),
{
    let mut lines: Vec<String> = Vec::new();
    match config {
        Some(found) => match &found.autojoin {
            Some(auto) => {
                let mut i: usize = 0;
                assert(string_views(lines@) == join_lines(auto.servers@, 0, server_id@));
                while i < auto.servers.len()
                    invariant
                        i <= auto.servers.len(),
                        string_views(lines@) == join_lines(auto.servers@, i as int, server_id@),
                    decreases auto.servers.len() - i,
                {
                    if auto.servers[i].ip == server_id {
                        push_join_lines(&mut lines, &auto.servers[i]);
                    }
                    i = i + 1;
                }
            },
            None => {
                assert(string_views(lines@) == Seq::<Seq<char>>::empty());
            },
        },
        None => {
            assert(string_views(lines@) == Seq::<Seq<char>>::empty());
        },
    }
    lines
}

/// The port that every server is reached at, as it is appended to an
/// address.
pub open spec fn port_suffix() -> Seq<char> {
    ":6667"@
}

/// The servers of the section `[autojoin]`, each with the address to
/// connect to: its name and the port.
pub fn autojoin_targets(config: &Option<Config>) -> (targets: Vec<JoinTarget>)
    ensures
        targets@.len() == servers_of(*config).len(),
        forall|i: int|
            0 <= i < targets@.len() ==> {
                &&& (#[trigger] targets@[i]).server_id@ == servers_of(*config)[i].ip@
                &&& targets@[i].addr@ == servers_of(*config)[i].ip@ + port_suffix()
                &&& targets@[i].nick@ == servers_of(*config)[i].nick@
            },
{
    let mut targets: Vec<JoinTarget> = Vec::new();
    match config {
        Some(found) => match &found.autojoin {
            Some(auto) => {
                let mut i: usize = 0;
                while i < auto.servers.len()
                    invariant
                        i <= auto.servers.len(),
                        targets@.len() == i,
                        forall|k: int|
                            0 <= k < i ==> {
                                &&& (#[trigger] targets@[k]).server_id@ == auto.servers@[k].ip@
                                &&& targets@[k].addr@ == auto.servers@[k].ip@ + port_suffix()
                                &&& targets@[k].nick@ == auto.servers@[k].nick@
                            },
                    decreases auto.servers.len() - i,
                {
                    let server = &auto.servers[i];
                    let mut addr = server.ip.clone();
                    addr.append(":6667");
                    let server_id = server.ip.clone();
                    let nick = server.nick.clone();
                    targets.push(JoinTarget { server_id, addr, nick });
                    i = i + 1;
                }
            },
            None => {},
        },
        None => {},
    }
    targets
}

} // verus!
