use rustychat::app::{get_colors, register_server, App, Colors};
use rustychat::config::{
    autojoin_channel, autojoin_targets, read_config, read_theme, read_twitch, AutoJoin,
    ClientConfig, Config, Server, Theme, Twitch,
};

fn empty() -> Config {
    Config { config: None, theme: None, twitch: None, autojoin: None }
}

fn server(ip: &str, nick: &str, channels: &[&str]) -> Server {
    Server {
        ip: ip.to_string(),
        nick: nick.to_string(),
        channels: channels.iter().map(|c| c.to_string()).collect(),
    }
}

fn with_servers(servers: Vec<Server>) -> Option<Config> {
    Some(Config { autojoin: Some(AutoJoin { servers }), ..empty() })
}

#[test]
fn default_theme_is_built_in() {
    let app = App::default();
    assert_eq!(
        get_colors(&app),
        Colors {
            bg: (47, 50, 54),
            fg: (255, 238, 140),
            txt: (255, 255, 255),
            highlight: (238, 140, 255),
            notif: (140, 255, 238),
        }
    );
}

#[test]
fn read_config_sets_the_nick() {
    let mut app = App::default();
    let config = Some(Config { config: Some(ClientConfig { nick: "me".to_string() }), ..empty() });
    read_config(&mut app, &config);
    assert_eq!(app.active_nick, "me");
    assert!(app.server_list.is_empty());
}

#[test]
fn read_config_sets_the_nick_on_the_system_server() {
    let mut app = App::default();
    register_server(&mut app, "System".to_string(), "guest".to_string(), "local".to_string());
    register_server(&mut app, "irc.a.net".to_string(), "other".to_string(), "irc.a.net:6667".to_string());
    app.active_nick = "guest".to_string();
    let config = Some(Config { config: Some(ClientConfig { nick: "me".to_string() }), ..empty() });
    read_config(&mut app, &config);
    assert_eq!(app.active_nick, "me");
    assert_eq!(app.server_list[0].0, "System");
    assert_eq!(app.server_list[0].1.nick, "me");
    assert_eq!(app.server_list[1].0, "irc.a.net");
    assert_eq!(app.server_list[1].1.nick, "other");
    assert_eq!(app.active_server, "irc.a.net");
}

#[test]
fn read_config_without_section_or_file() {
    let mut app = App::default();
    app.active_nick = "before".to_string();
    read_config(&mut app, &Some(empty()));
    assert_eq!(app.active_nick, "before");
    read_config(&mut app, &None);
    assert_eq!(app.active_nick, "before");
}

#[test]
fn read_twitch_gives_the_login() {
    let config = Some(Config {
        twitch: Some(Twitch { nick: "streamer".to_string(), oauth: "SECRET-REDACTED".to_string() }),
        ..empty()
    });
    assert_eq!(read_twitch(&config), ("streamer".to_string(), "SECRET-REDACTED".to_string()));
}

#[test]
fn read_twitch_without_section_or_file() {
    let missing = ("Twitch Entry not found".to_string(), "Error".to_string());
    assert_eq!(read_twitch(&Some(empty())), missing);
    assert_eq!(read_twitch(&None), missing);
}

#[test]
fn read_theme_takes_the_colours() {
    let mut app = App::default();
    let theme = Theme {
        fg: vec![1, 2, 3],
        bg: vec![4, 5, 6],
        notification: vec![7, 8, 9],
        highlight: vec![10, 11, 12],
        text: vec![13, 14, 15],
    };
    read_theme(&mut app, &Some(Config { theme: Some(theme), ..empty() }));
    assert_eq!(
        get_colors(&app),
        Colors {
            fg: (1, 2, 3),
            bg: (4, 5, 6),
            notif: (7, 8, 9),
            highlight: (10, 11, 12),
            txt: (13, 14, 15),
        }
    );
}

#[test]
fn read_theme_falls_back_for_each_malformed_colour() {
    let mut app = App::default();
    app.style_fg = (0, 0, 0);
    app.style_bg = (0, 0, 0);
    app.style_notif = (0, 0, 0);
    app.style_highlight = (0, 0, 0);
    app.style_txt = (0, 0, 0);
    let theme = Theme {
        fg: vec![1, 2],
        bg: vec![],
        notification: vec![7, 8, 9, 10],
        highlight: vec![10, 11, 12],
        text: vec![1],
    };
    read_theme(&mut app, &Some(Config { theme: Some(theme), ..empty() }));
    assert_eq!(app.style_fg, (255, 238, 140));
    assert_eq!(app.style_bg, (47, 50, 54));
    assert_eq!(app.style_notif, (140, 255, 238));
    assert_eq!(app.style_highlight, (10, 11, 12));
    assert_eq!(app.style_txt, (255, 255, 255));
}

#[test]
fn read_theme_without_section_or_file() {
    let mut app = App::default();
    app.style_fg = (1, 1, 1);
    read_theme(&mut app, &Some(empty()));
    assert_eq!(app.style_fg, (1, 1, 1));
    read_theme(&mut app, &None);
    assert_eq!(app.style_fg, (1, 1, 1));
    assert_eq!(app.style_bg, (47, 50, 54));
}

#[test]
fn autojoin_channel_lists_the_joins_of_one_server() {
    let config = with_servers(vec![
        server("irc.a.net", "me", &["#rust", "#verus"]),
        server("irc.b.net", "you", &["#other"]),
    ]);
    assert_eq!(
        autojoin_channel(&config, "irc.a.net".to_string()),
        vec!["JOIN #rust".to_string(), "JOIN #verus".to_string()]
    );
    assert_eq!(autojoin_channel(&config, "irc.b.net".to_string()), vec!["JOIN #other".to_string()]);
    assert!(autojoin_channel(&config, "irc.c.net".to_string()).is_empty());
}

#[test]
fn autojoin_channel_takes_every_entry_with_the_address() {
    let config = with_servers(vec![
        server("irc.a.net", "me", &["#one"]),
        server("irc.b.net", "me", &["#no"]),
        server("irc.a.net", "me2", &[]),
        server("irc.a.net", "me3", &["#two"]),
    ]);
    assert_eq!(
        autojoin_channel(&config, "irc.a.net".to_string()),
        vec!["JOIN #one".to_string(), "JOIN #two".to_string()]
    );
}

#[test]
fn autojoin_channel_without_section_or_file() {
    assert!(autojoin_channel(&Some(empty()), "irc.a.net".to_string()).is_empty());
    assert!(autojoin_channel(&None, "irc.a.net".to_string()).is_empty());
}

#[test]
fn autojoin_targets_add_the_port() {
    let config = with_servers(vec![
        server("irc.a.net", "me", &["#rust"]),
        server("10.0.0.1", "you", &[]),
    ]);
    let targets = autojoin_targets(&config);
    assert_eq!(targets.len(), 2);
    assert_eq!(targets[0].server_id, "irc.a.net");
    assert_eq!(targets[0].addr, "irc.a.net:6667");
    assert_eq!(targets[0].nick, "me");
    assert_eq!(targets[1].server_id, "10.0.0.1");
    assert_eq!(targets[1].addr, "10.0.0.1:6667");
    assert_eq!(targets[1].nick, "you");
    assert!(autojoin_targets(&None).is_empty());
    assert!(autojoin_targets(&Some(empty())).is_empty());
}
