//! The decisions of a connection to a server: what to send to register,
//! and what each thing that happens on the connection leads to. Opening
//! the connection, reading and writing are left to the caller.

use vstd::prelude::*;
use vstd::string::StringExecFns;

verus! {

/// What the client asks of a connection.
#[derive(Debug, PartialEq, Eq)]
pub enum ConnCommand {
    SendLine(String),
    Quit,
}

/// The name under which a server is known: the address it was given by.
pub type ServerId = String;

/// What a connection reports to the client.
#[derive(Debug, PartialEq, Eq)]
pub enum NetEvent {
    Line(String),
    Error(String),
}

/// What can happen on a connection.
#[derive(Debug, PartialEq, Eq)]
pub enum ConnEvent {
    /// The connection could not be opened; the text says why.
    ConnectFailed(String),
    /// The client asks for something.
    Command(ConnCommand),
    /// A line arrived.
    Line(String),
    /// The server closed the connection.
    Closed,
    /// Reading failed; the text says why.
    ReadFailed(String),
}

/// What the task that owns a connection does next.
#[derive(Debug, PartialEq, Eq)]
pub enum ConnAction {
    /// Write the bytes of the text, which ends the line, and go on.
    Write(String),
    /// Hand the event to the client and go on.
    Report(NetEvent),
    /// Hand the event to the client and end the task.
    ReportAndStop(NetEvent),
    /// End the task.
    Stop,
}

/// The text of an action, where it has one.
pub open spec fn action_text(action: ConnAction) -> Seq<char> {
    match action {
        ConnAction::Write(text) => text@,
        ConnAction::Report(NetEvent::Line(text)) => text@,
        ConnAction::Report(NetEvent::Error(text)) => text@,
        ConnAction::ReportAndStop(NetEvent::Line(text)) => text@,
        ConnAction::ReportAndStop(NetEvent::Error(text)) => text@,
        ConnAction::Stop => Seq::empty(),
    }
}

/// The end of a protocol line.
pub open spec fn crlf() -> Seq<char> {
    "\r\n"@
}

/// The lines that register the client, each with its line end. Without a
/// token: nickname, then user. With one: the token as password, the
/// nickname, then the request for membership events.
pub open spec fn registration_lines(nick: Seq<char>, real_name: Seq<char>, oauth: Seq<char>) -> Seq<
    Seq<char>,
> {
    if oauth.len() == 0 {
        seq!["NICK "@ + nick + crlf(), "USER guest 0 * :"@ + real_name + crlf()]
    } else {
        seq![
            "PASS oauth:"@ + oauth + crlf(),
            "NICK "@ + nick + crlf(),
            "CAP REQ :twitch.tv/membership"@ + crlf(),
        ]
    }
}

/// `head`, `body` and a line end in one string.
fn protocol_line(head: &str, body: &str) -> (line: String)
    ensures
        line@ == head@ + body@ + crlf(),
{
    let mut line = String::from_str(head);
    line.append(body);
    line.append("\r\n");
    line
}

/// The lines to write once the connection stands, in order.
pub fn registration(nick: &str, real_name: &str, oauth: &str) -> (lines: Vec<String>)
    ensures
        lines@.len() == registration_lines(nick@, real_name@, oauth@).len(),
        forall|i: int|
            0 <= i < lines@.len() ==> (#[trigger] lines@[i])@ == registration_lines(
                nick@,
                real_name@,
                oauth@,
            )[i],
{
    let mut lines: Vec<String> = Vec::new();
    if oauth.is_empty() {
        lines.push(protocol_line("NICK ", nick));
        lines.push(protocol_line("USER guest 0 * :", real_name));
    } else {
        lines.push(protocol_line("PASS oauth:", oauth));
        lines.push(protocol_line("NICK ", nick));
        let membership = protocol_line("CAP REQ :twitch.tv/membership", "");
        assert(membership@ == "CAP REQ :twitch.tv/membership"@ + crlf()) by {
            reveal_strlit("");
            assert("CAP REQ :twitch.tv/membership"@ + ""@ == "CAP REQ :twitch.tv/membership"@);
        }
        lines.push(membership);
    }
    lines
}

/// What follows from `event`.
///
/// A line to send is written with its line end; a request to quit ends
/// the task. A line that arrived is reported. A failure to connect, the
/// end of the connection and a failure to read are reported as errors and
/// end the task.
pub fn on_event(event: ConnEvent) -> (action: ConnAction)
    ensures
        match event {
            ConnEvent::ConnectFailed(why) => action is ReportAndStop && action->ReportAndStop_0
                is Error && action_text(action) == "Failed to connect: "@ + why@,
            ConnEvent::Command(ConnCommand::SendLine(line)) => action is Write && action_text(
                action,
            ) == line@ + crlf(),
            ConnEvent::Command(ConnCommand::Quit) => action is Stop,
            ConnEvent::Line(line) => action is Report && action->Report_0 is Line && action_text(
                action,
            ) == line@,
            ConnEvent::Closed => action is ReportAndStop && action->ReportAndStop_0 is Error
                && action_text(action) == "Disconnected"@,
            ConnEvent::ReadFailed(why) => action is ReportAndStop && action->ReportAndStop_0
                is Error && action_text(action) == "Read error: "@ + why@,
        },
{
    match event {
        ConnEvent::ConnectFailed(why) => {
            let mut text = String::from_str("Failed to connect: ");
            text.append(why.as_str());
            ConnAction::ReportAndStop(NetEvent::Error(text))
        },
        ConnEvent::Command(ConnCommand::SendLine(line)) => {
            let mut text = line;
            text.append("\r\n");
            ConnAction::Write(text)
        },
        ConnEvent::Command(ConnCommand::Quit) => ConnAction::Stop,
        ConnEvent::Line(line) => ConnAction::Report(NetEvent::Line(line)),
        ConnEvent::Closed => ConnAction::ReportAndStop(
            NetEvent::Error(String::from_str("Disconnected")),
        ),
        ConnEvent::ReadFailed(why) => {
            let mut text = String::from_str("Read error: ");
            text.append(why.as_str());
            ConnAction::ReportAndStop(NetEvent::Error(text))
        },
    }
}

} // verus!
