use vstd::prelude::*;

use crate::config::ServerConfig;
use crate::connection::{Command, ConnectionEvent, Event, TaggedCommand, TaggedEvent};
use crate::irc::Channel;
use crate::message::{command_of, message_command, message_trailing, opt_text, trailing_of};
use crate::text::text_eq;

verus! {

/// Whether the client's server connection is up.
#[derive(Debug, Clone, Copy, PartialEq, Eq, Structural)]
pub enum ClientStatus {
    Connected,
    Disconnected,
}

impl Default for ClientStatus {
    fn default() -> (r: ClientStatus)
        ensures
            r == ClientStatus::Disconnected,
    {
        ClientStatus::Disconnected
    }
}

/// The keepalive probe command.
pub open spec fn ping_word() -> Seq<char> {
    seq!['P', 'I', 'N', 'G']
}

/// The reply to a keepalive probe with `token`.
pub open spec fn pong_line(token: Seq<char>) -> Seq<char> {
    seq!['P', 'O', 'N', 'G', ' ', ':'] + token
}

/// The handshake line that claims `nickname`.
pub open spec fn nick_line(nickname: Seq<char>) -> Seq<char> {
    seq!['N', 'I', 'C', 'K', ' '] + nickname
}

/// The handshake line that gives the fixed user name and real name.
pub open spec fn user_line() -> Seq<char> {
    seq!['U', 'S', 'E', 'R', ' ', 'n', 'e', 'a', 't', 'b', 'o', 't', ' ', '0', ' ', '*', ' ', 'n', 'e', 'a', 't', 'b', 'o', 't']
}

/// Whether `c` asks the connection tagged `tag` to send `line`.
pub open spec fn is_line_for(c: TaggedCommand, tag: Seq<char>, line: Seq<char>) -> bool {
    &&& c.name@ == tag
    &&& c.command matches Command::Message(m) && m@ == line
}

/// The commands owed for an inbound line with this command word and trailing
/// parameter: a `PONG` with the token for a `PING` that carries one, else none.
pub open spec fn reply_to(
    command: Option<Seq<char>>,
    trailing: Option<Seq<char>>,
    tag: Seq<char>,
    out: Seq<TaggedCommand>,
) -> bool {
    if command == Some(ping_word()) && trailing is Some {
        out.len() == 1 && is_line_for(out[0], tag, pong_line(trailing->0))
    } else {
        out.len() == 0
    }
}

/// The handshake for a chosen nickname: `NICK`, then `USER`; none without a nickname.
pub open spec fn handshake(nickname: Option<String>, tag: Seq<char>, out: Seq<TaggedCommand>) -> bool {
    match nickname {
        Some(n) => out.len() == 2 && is_line_for(out[0], tag, nick_line(n@)) && is_line_for(
            out[1],
            tag,
            user_line(),
        ),
        None => out.len() == 0,
    }
}

/// The protocol logic for one server.
#[derive(Clone)]
pub struct Client {
    pub config: ServerConfig,
    pub nickname: Option<String>,
    pub channels: Vec<Channel>,
    pub status: ClientStatus,
}

impl Client {
    pub fn new(config: ServerConfig) -> (r: Client)
        ensures
            r.config == config,
            r.nickname is None,
            r.channels@.len() == 0,
            r.status == ClientStatus::Disconnected,
    {
        Client { config, nickname: None, channels: Vec::new(), status: ClientStatus::Disconnected }
    }

    /// The tag of the server this client speaks to.
    pub open spec fn tag(&self) -> Seq<char> {
        self.config.name@
    }

    /// Handles one event from the bus and gives the commands to publish, in order.
    /// Events for another tag change nothing.
    pub fn handle_event(&mut self, tagged_event: &TaggedEvent) -> (r: Vec<TaggedCommand>)
        ensures
            tagged_event.name@ != old(self).tag() ==> r@.len() == 0 && *final(self) == *old(self),
            tagged_event.name@ == old(self).tag() ==> match tagged_event.event {
                Event::Connection(ConnectionEvent::Connected) => {
                    &&& final(self).status == ClientStatus::Connected
                    &&& final(self).config == old(self).config
                    &&& final(self).channels == old(self).channels
                    &&& old(self).config.first_nickname() matches Some(n) ==> final(self).nickname == Some(n)
                    &&& old(self).config.first_nickname() is None ==> final(self).nickname == old(self).nickname
                    &&& handshake(old(self).config.first_nickname(), old(self).tag(), r@)
                },
                Event::Connection(_) => {
                    &&& final(self).status == ClientStatus::Disconnected
                    &&& final(self).config == old(self).config
                    &&& final(self).nickname == old(self).nickname
                    &&& final(self).channels@.len() == 0
                    &&& r@.len() == 0
                },
                Event::Message(raw) => {
                    &&& *final(self) == *old(self)
                    &&& reply_to(command_of(raw@), trailing_of(raw@), old(self).tag(), r@)
                },
            },
    {
        if tagged_event.name != self.config.name {
            return Vec::new();
        }
        match &tagged_event.event {
            Event::Connection(ConnectionEvent::Connected) => self.handle_connected(),
            Event::Connection(_) => {
                self.status = ClientStatus::Disconnected;
                self.channels = Vec::new();
                Vec::new()
            },
            Event::Message(raw) => {
                let command = message_command(raw.as_str());
                let trailing = message_trailing(raw.as_str());
                self.handle_message(command, trailing)
            },
        }
    }

    /// The reply to an inbound line, given its command word and trailing parameter.
    pub fn handle_message(&self, command: Option<String>, trailing: Option<String>) -> (r: Vec<
        TaggedCommand,
    >)
        ensures
            reply_to(opt_text(command), opt_text(trailing), self.tag(), r@),
    {
        let mut out: Vec<TaggedCommand> = Vec::new();
        if let Some(c) = command {
            proof {
                reveal_strlit("PING");
                assert("PING"@ =~= ping_word());
            }
            if text_eq(c.as_str(), "PING") {
                if let Some(token) = trailing {
                    let mut line = String::from_str("PONG :");
                    line.append(token.as_str());
                    proof {
                        reveal_strlit("PONG :");
                        assert(line@ =~= pong_line(token@));
                    }
                    out.push(TaggedCommand::new_message(self.config.name.as_str(), line));
                }
            }
        }
        out
    }

    /// The transport is up: picks the first candidate nickname and gives the handshake.
    fn handle_connected(&mut self) -> (r: Vec<TaggedCommand>)
        ensures
            final(self).status == ClientStatus::Connected,
            final(self).config == old(self).config,
            final(self).channels == old(self).channels,
            old(self).config.first_nickname() matches Some(n) ==> final(self).nickname == Some(n),
            old(self).config.first_nickname() is None ==> final(self).nickname == old(self).nickname,
            handshake(old(self).config.first_nickname(), old(self).tag(), r@),
    {
        self.status = ClientStatus::Connected;
        let mut out: Vec<TaggedCommand> = Vec::new();
        if let Some(nicknames) = &self.config.nicknames {
            if nicknames.len() > 0 {
                let nickname = nicknames[0].clone();
                let mut nick = String::from_str("NICK ");
                nick.append(nickname.as_str());
                let user = String::from_str("USER neatbot 0 * neatbot");
                proof {
                    reveal_strlit("NICK ");
                    reveal_strlit("USER neatbot 0 * neatbot");
                    assert(nick@ =~= nick_line(nickname@));
                    assert(user@ =~= user_line());
                }
                out.push(TaggedCommand::new_message(self.config.name.as_str(), nick));
                out.push(TaggedCommand::new_message(self.config.name.as_str(), user));
                self.nickname = Some(nickname);
            }
        }
        out
    }
}

} // verus!
