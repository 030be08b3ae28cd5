use rustychat::app::{
    chat_history, push_chat, register_server, set_server_nick, well_formed, App, ChannelData,
    ServerData,
};
use rustychat::keys::{find, find_rank, name_before, names_sorted};
use rustychat::overview::{overview_rows, OverviewRow};

fn named(names: &[&str]) -> Vec<(String, u8)> {
    names.iter().map(|n| (n.to_string(), 0)).collect()
}

fn connect(app: &mut App, server: &str, nick: &str) {
    register_server(app, server.to_string(), nick.to_string(), format!("{}:6667", server));
}

fn channel(name: &str, notification: bool) -> (String, ChannelData) {
    (name.to_string(), ChannelData { notification, ..ChannelData::default() })
}

#[test]
fn names_are_ordered_like_strings() {
    let names = ["", "a", "ab", "b", "B", "#rust", "Status", "\u{e9}", "z", "a\u{65e5}", "aa"];
    for a in names {
        for b in names {
            assert_eq!(name_before(a, b), a < b, "{:?} before {:?}", a, b);
        }
    }
}

#[test]
fn find_gives_the_index_of_a_name() {
    let entries = named(&["a", "b", "d"]);
    assert_eq!(find(&entries, &"a".to_string()), Some(0));
    assert_eq!(find(&entries, &"d".to_string()), Some(2));
    assert_eq!(find(&entries, &"c".to_string()), None);
    assert_eq!(find(&entries, &"".to_string()), None);
    assert_eq!(find(&named(&[]), &"a".to_string()), None);
}

#[test]
fn find_rank_gives_the_place_of_a_name() {
    let entries = named(&["b", "d", "f"]);
    assert_eq!(find_rank(&entries, &"a".to_string()), 0);
    assert_eq!(find_rank(&entries, &"b".to_string()), 0);
    assert_eq!(find_rank(&entries, &"c".to_string()), 1);
    assert_eq!(find_rank(&entries, &"e".to_string()), 2);
    assert_eq!(find_rank(&entries, &"g".to_string()), 3);
    assert_eq!(find_rank(&named(&[]), &"a".to_string()), 0);
}

#[test]
fn names_sorted_wants_strictly_ascending_names() {
    assert!(names_sorted(&named(&[])));
    assert!(names_sorted(&named(&["a"])));
    assert!(names_sorted(&named(&["a", "b", "c"])));
    assert!(!names_sorted(&named(&["a", "c", "b"])));
    assert!(!names_sorted(&named(&["a", "a"])));
    assert!(!names_sorted(&named(&["b", "a"])));
}

#[test]
fn default_channel_is_empty() {
    let channel = ChannelData::default();
    assert!(channel.chat_list.is_empty());
    assert!(channel.user_list.is_empty());
    assert!(!channel.notification);
    assert_eq!(channel.chat_pos, 0);
}

#[test]
fn register_enters_a_new_server_with_its_status_channel() {
    let mut app = App::default();
    connect(&mut app, "irc.b.net", "me");
    assert_eq!(app.server_list.len(), 1);
    assert_eq!(app.server_list[0].0, "irc.b.net");
    assert_eq!(app.server_list[0].1.nick, "me");
    assert_eq!(app.server_list[0].1.channels.len(), 1);
    assert_eq!(app.server_list[0].1.channels[0].0, "Status");
    assert_eq!(
        app.server_list[0].1.channels[0].1.chat_list,
        vec![("System".to_string(), "<connecting to irc.b.net:6667>".to_string())]
    );
    assert_eq!(app.active_server, "irc.b.net");
    assert_eq!(app.active_channel, "Status");
    assert_eq!(app.active_nick, "me");
    assert!(well_formed(&app));
}

#[test]
fn register_keeps_the_servers_in_order() {
    let mut app = App::default();
    connect(&mut app, "irc.b.net", "b");
    connect(&mut app, "irc.c.net", "c");
    connect(&mut app, "irc.a.net", "a");
    connect(&mut app, "System", "s");
    let names: Vec<&str> = app.server_list.iter().map(|(n, _)| n.as_str()).collect();
    assert_eq!(names, vec!["System", "irc.a.net", "irc.b.net", "irc.c.net"]);
    assert_eq!(app.server_list[1].1.nick, "a");
    assert_eq!(app.active_server, "System");
    assert!(well_formed(&app));
}

#[test]
fn register_again_adds_a_note_and_keeps_the_server() {
    let mut app = App::default();
    connect(&mut app, "irc.a.net", "first");
    connect(&mut app, "irc.a.net", "second");
    assert_eq!(app.server_list.len(), 1);
    assert_eq!(app.server_list[0].1.nick, "first");
    assert_eq!(app.server_list[0].1.channels[0].1.chat_list.len(), 2);
    assert_eq!(app.active_nick, "second");
    assert!(well_formed(&app));
}

#[test]
fn register_without_status_channel_adds_no_note() {
    let mut app = App::default();
    app.server_list.push((
        "irc.a.net".to_string(),
        ServerData { channels: vec![channel("#rust", false)], nick: "me".to_string() },
    ));
    connect(&mut app, "irc.a.net", "me");
    assert_eq!(app.server_list.len(), 1);
    assert_eq!(app.server_list[0].1.channels.len(), 1);
    assert!(app.server_list[0].1.channels[0].1.chat_list.is_empty());
    assert_eq!(app.active_channel, "Status");
}

#[test]
fn push_chat_appends_to_the_channel() {
    let mut app = App::default();
    connect(&mut app, "irc.a.net", "me");
    let server = "irc.a.net".to_string();
    let status = "Status".to_string();
    assert!(push_chat(&mut app, &server, &status, "bob".to_string(), "hi".to_string()));
    let history = chat_history(&app, &server, &status).unwrap();
    assert_eq!(history.len(), 2);
    assert_eq!(history[1], ("bob".to_string(), "hi".to_string()));
    assert!(!push_chat(&mut app, &server, &"#none".to_string(), "bob".to_string(), "x".to_string()));
    assert!(!push_chat(&mut app, &"no".to_string(), &status, "bob".to_string(), "x".to_string()));
    assert_eq!(chat_history(&app, &server, &status).unwrap().len(), 2);
    assert!(chat_history(&app, &server, &"#none".to_string()).is_none());
    assert!(chat_history(&app, &"no".to_string(), &status).is_none());
}

#[test]
fn set_server_nick_changes_one_server() {
    let mut app = App::default();
    connect(&mut app, "irc.a.net", "a");
    connect(&mut app, "irc.b.net", "b");
    set_server_nick(&mut app, &"irc.b.net".to_string(), "new".to_string());
    assert_eq!(app.server_list[0].1.nick, "a");
    assert_eq!(app.server_list[1].1.nick, "new");
    set_server_nick(&mut app, &"irc.c.net".to_string(), "none".to_string());
    assert_eq!(app.server_list[0].1.nick, "a");
    assert_eq!(app.server_list[1].1.nick, "new");
    assert_eq!(app.active_nick, "b");
}

#[test]
fn well_formed_sees_disorder() {
    let mut app = App::default();
    assert!(well_formed(&app));
    app.server_list.push((
        "b".to_string(),
        ServerData { channels: vec![channel("#a", false), channel("#b", false)], nick: String::new() },
    ));
    assert!(well_formed(&app));
    app.server_list.push(("a".to_string(), ServerData { channels: Vec::new(), nick: String::new() }));
    assert!(!well_formed(&app));
    app.server_list.pop();
    app.server_list[0].1.channels.push(channel("#a", false));
    assert!(!well_formed(&app));
}

#[test]
fn overview_numbers_the_channels_through() {
    let mut app = App::default();
    app.server_list.push((
        "irc.a.net".to_string(),
        ServerData {
            channels: vec![channel("#rust", true), channel("Status", true)],
            nick: "me".to_string(),
        },
    ));
    app.server_list.push(("irc.b.net".to_string(), ServerData { channels: Vec::new(), nick: "me".to_string() }));
    app.server_list.push((
        "irc.c.net".to_string(),
        ServerData { channels: vec![channel("#verus", false)], nick: "me".to_string() },
    ));
    app.active_server = "irc.c.net".to_string();
    app.active_channel = "#verus".to_string();
    let (rows, selected) = overview_rows(&app);
    assert_eq!(
        rows,
        vec![
            OverviewRow::Server("irc.a.net".to_string()),
            OverviewRow::Channel { index: 0, name: "#rust".to_string(), alert: true },
            OverviewRow::Channel { index: 1, name: "Status".to_string(), alert: false },
            OverviewRow::Server("irc.b.net".to_string()),
            OverviewRow::Server("irc.c.net".to_string()),
            OverviewRow::Channel { index: 2, name: "#verus".to_string(), alert: false },
        ]
    );
    assert_eq!(selected, Some(5));
    app.active_server = "irc.a.net".to_string();
    app.active_channel = "Status".to_string();
    assert_eq!(overview_rows(&app).1, Some(2));
    app.active_channel = "#none".to_string();
    assert_eq!(overview_rows(&app).1, None);
    app.active_server = "irc.z.net".to_string();
    app.active_channel = "#rust".to_string();
    assert_eq!(overview_rows(&app).1, None);
}

#[test]
fn overview_of_nothing_is_empty() {
    let (rows, selected) = overview_rows(&App::default());
    assert!(rows.is_empty());
    assert_eq!(selected, None);
}
