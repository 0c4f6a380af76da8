use neatbot::client::{Client, ClientStatus};
use neatbot::config::{Config, ConfigError, ServerConfig};
use neatbot::connection::{
    Command, Connection, ConnectionCommand, ConnectionError, ConnectionEvent, ConnectionManager,
    ConnectionStatus, Event, ReadOutcome, TaggedCommand, TaggedEvent, WriterStep, MAX_FRAME_LENGTH,
};
use neatbot::irc::{AccessLevel, ChannelMode};
use neatbot::plugin::{leading_word, PluginRegistry};
use neatbot::text::{decimal_text, text_eq};

fn server(tag: &str, host: &str, port: u16, nicks: &[&str]) -> ServerConfig {
    ServerConfig {
        name: tag.to_string(),
        host: host.to_string(),
        port,
        ssl: true,
        nicknames: Some(nicks.iter().map(|n| n.to_string()).collect()),
        ..Default::default()
    }
}

fn event(tag: &str, event: Event) -> TaggedEvent {
    TaggedEvent { name: tag.to_string(), event }
}

fn line_of(c: &TaggedCommand) -> String {
    match &c.command {
        Command::Message(m) => m.clone(),
        other => panic!("not a message: {:?}", other),
    }
}

#[test]
fn ping_gets_pong_with_same_token() {
    let mut client = Client::new(server("libera", "irc.libera.chat", 6697, &["neatbot"]));
    let out = client.handle_event(&event("libera", Event::Message("PING :abc123".to_string())));
    assert_eq!(out.len(), 1);
    assert_eq!(out[0].name, "libera");
    assert_eq!(line_of(&out[0]), "PONG :abc123");
}

#[test]
fn ping_for_other_tag_is_ignored() {
    let mut client = Client::new(server("libera", "irc.libera.chat", 6697, &["neatbot"]));
    let out = client.handle_event(&event("oftc", Event::Message("PING :abc123".to_string())));
    assert!(out.is_empty());
}

#[test]
fn other_messages_get_no_reply() {
    let mut client = Client::new(server("libera", "irc.libera.chat", 6697, &["neatbot"]));
    let out = client.handle_event(&event(
        "libera",
        Event::Message(":nick!u@h PRIVMSG #chan :hello".to_string()),
    ));
    assert!(out.is_empty());
}

#[test]
fn handle_message_builds_pong() {
    let client = Client::new(server("libera", "h", 1, &[]));
    let out = client.handle_message(Some("PING".to_string()), Some("tok en".to_string()));
    assert_eq!(line_of(&out[0]), "PONG :tok en");
    assert!(client.handle_message(Some("PING".to_string()), None).is_empty());
    assert!(client.handle_message(Some("PONG".to_string()), Some("x".to_string())).is_empty());
}

#[test]
fn handshake_on_connect_for_libera() {
    let mut client = Client::new(server("libera", "irc.libera.chat", 6697, &["neatbot"]));
    let out = client.handle_event(&event("libera", Event::Connection(ConnectionEvent::Connected)));
    assert_eq!(out.len(), 2);
    assert_eq!(out[0].name, "libera");
    assert_eq!(line_of(&out[0]), "NICK neatbot");
    assert_eq!(out[1].name, "libera");
    assert_eq!(line_of(&out[1]), "USER neatbot 0 * neatbot");
    assert_eq!(client.nickname.as_deref(), Some("neatbot"));
    assert_eq!(client.status, ClientStatus::Connected);
}

#[test]
fn handshake_uses_first_candidate() {
    let mut client = Client::new(server("x", "h", 1, &["first", "second"]));
    let out = client.handle_event(&event("x", Event::Connection(ConnectionEvent::Connected)));
    assert_eq!(line_of(&out[0]), "NICK first");
}

#[test]
fn no_handshake_without_nicknames() {
    let mut client = Client::new(server("x", "h", 1, &[]));
    let out = client.handle_event(&event("x", Event::Connection(ConnectionEvent::Connected)));
    assert!(out.is_empty());
    assert_eq!(client.status, ClientStatus::Connected);
    assert!(client.nickname.is_none());
}

#[test]
fn disconnect_clears_channels_keeps_nickname() {
    let mut client = Client::new(server("x", "h", 1, &["n"]));
    client.handle_event(&event("x", Event::Connection(ConnectionEvent::Connected)));
    let out = client.handle_event(&event("x", Event::Connection(ConnectionEvent::Disconnected)));
    assert!(out.is_empty());
    assert_eq!(client.status, ClientStatus::Disconnected);
    assert!(client.channels.is_empty());
    assert_eq!(client.nickname.as_deref(), Some("n"));
}

#[test]
fn client_status_defaults_to_disconnected() {
    assert_eq!(ClientStatus::default(), ClientStatus::Disconnected);
}

#[test]
fn manager_registers_each_server() {
    let config = Config {
        server: vec![server("libera", "irc.libera.chat", 6697, &[]), server("oftc", "irc.oftc.net", 6667, &[])],
        plugin_locations: vec![],
    };
    let manager = ConnectionManager::new(&config).unwrap();
    let conns = manager.into_connections();
    assert_eq!(conns.len(), 2);
    assert_eq!(conns[0].name, "libera");
    assert_eq!(conns[0].host, "irc.libera.chat:6697");
    assert!(conns[0].ssl);
    assert_eq!(conns[1].host, "irc.oftc.net:6667");
    assert_eq!(conns[1].status, ConnectionStatus::Disconnected);
}

#[test]
fn duplicate_tag_is_rejected() {
    let config = Config {
        server: vec![server("a", "h1", 1, &[]), server("a", "h2", 2, &[])],
        plugin_locations: vec![],
    };
    match ConnectionManager::new(&config) {
        Err(ConfigError::DuplicateServerTag(t)) => assert_eq!(t, "a"),
        other => panic!("expected a duplicate tag, got {:?}", other.map(|_| ())),
    }
    let mut manager = ConnectionManager::new(&Config { server: vec![], plugin_locations: vec![] }).unwrap();
    assert!(manager.add_server(&server("b", "h", 7, &[])).is_ok());
    assert!(manager.add_server(&server("b", "h", 8, &[])).is_err());
    assert_eq!(manager.connections.len(), 1);
}

#[test]
fn port_zero_and_max_in_address() {
    assert_eq!(decimal_text(0), "0");
    assert_eq!(decimal_text(65535), "65535");
    assert_eq!(decimal_text(10), "10");
}

#[test]
fn connection_state_machine() {
    let mut c = Connection::new("libera", "irc.libera.chat:6697", true);
    assert_eq!(c.status, ConnectionStatus::Disconnected);
    assert!(c.established().is_none());
    assert!(c.begin_connect());
    assert!(!c.begin_connect());
    assert_eq!(c.status, ConnectionStatus::Connecting);
    let e = c.established().unwrap();
    assert_eq!(e.name, "libera");
    assert!(matches!(e.event, Event::Connection(ConnectionEvent::Connected)));
    assert_eq!(c.status, ConnectionStatus::Connected);
    assert!(c.begin_disconnect(ConnectionCommand::Reconnect));
    assert_eq!(c.status, ConnectionStatus::Reconnecting);
    assert!(c.closed());
    assert_eq!(c.status, ConnectionStatus::Disconnected);
    assert!(c.begin_connect());
    assert_eq!(c.status, ConnectionStatus::Connecting);
    c.established();
    assert!(c.begin_disconnect(ConnectionCommand::Disconnect));
    assert_eq!(c.status, ConnectionStatus::Disconnecting);
    assert!(!c.closed());
    assert_eq!(c.status, ConnectionStatus::Disconnected);
}

#[test]
fn failed_connect_reports_error_on_own_tag() {
    let mut c = Connection::new("a", "nowhere:1", false);
    c.begin_connect();
    let e = c.lost(Some(ConnectionError::Unreachable("refused".to_string())));
    assert_eq!(e.name, "a");
    assert!(matches!(e.event, Event::Connection(ConnectionEvent::Error(ConnectionError::Unreachable(_)))));
    assert_eq!(c.status, ConnectionStatus::Disconnected);
}

#[test]
fn reader_reports_frames_and_stops_on_overlong() {
    assert_eq!(MAX_FRAME_LENGTH, 1024);
    let a = Connection::new("a", "h:1", false);
    let b = Connection::new("b", "h:2", false);
    let step = a.read_step(ReadOutcome::Line("PING :x".to_string()));
    assert!(step.keep_reading);
    assert_eq!(step.event.name, "a");
    assert!(matches!(step.event.event, Event::Message(ref m) if m == "PING :x"));
    let step = a.read_step(ReadOutcome::Error(ConnectionError::FrameTooLong));
    assert!(!step.keep_reading);
    assert!(matches!(step.event.event, Event::Connection(ConnectionEvent::Error(ConnectionError::FrameTooLong))));
    let step = b.read_step(ReadOutcome::Line("hello".to_string()));
    assert!(step.keep_reading);
    assert_eq!(step.event.name, "b");
    let step = b.read_step(ReadOutcome::Closed);
    assert!(!step.keep_reading);
    assert!(matches!(step.event.event, Event::Connection(ConnectionEvent::Disconnected)));
}

#[test]
fn writer_keeps_order_and_filters_tags() {
    let c = Connection::new("a", "h:1", false);
    let cmds = vec![
        TaggedCommand::new_message("a", "first".to_string()),
        TaggedCommand::new_message("b", "other".to_string()),
        TaggedCommand::new("a", Command::Startup),
        TaggedCommand::new_message("a", "second".to_string()),
        TaggedCommand::new_connection("a", ConnectionCommand::Disconnect),
        TaggedCommand::new_message("a", "late".to_string()),
    ];
    let mut sent = Vec::new();
    for cmd in &cmds {
        match c.write_step(cmd) {
            WriterStep::Skip => {}
            WriterStep::Send(l) => sent.push(l),
            WriterStep::Stop(cc) => {
                assert_eq!(cc, ConnectionCommand::Disconnect);
                break;
            }
        }
    }
    assert_eq!(sent, vec!["first".to_string(), "second".to_string()]);
}

#[test]
fn channel_modes_parse() {
    assert!(matches!(ChannelMode::parse("c"), ChannelMode::ColourFilter));
    assert!(matches!(ChannelMode::parse("S"), ChannelMode::TLSOnly));
    assert!(matches!(ChannelMode::parse("z"), ChannelMode::ReducedModeration));
    assert!(matches!(ChannelMode::parse("x"), ChannelMode::Unknown(ref s) if s == "x"));
    assert!(matches!(ChannelMode::parse("cc"), ChannelMode::Unknown(ref s) if s == "cc"));
    assert!(matches!("Q".parse::<ChannelMode>(), Ok(ChannelMode::BlockForwardedUsers)));
}

#[test]
fn access_levels_parse() {
    assert_eq!(AccessLevel::parse("~"), AccessLevel::Owner);
    assert_eq!(AccessLevel::parse("&"), AccessLevel::SuperOp);
    assert_eq!(AccessLevel::parse("@"), AccessLevel::Op);
    assert_eq!(AccessLevel::parse("%"), AccessLevel::HalfOp);
    assert_eq!(AccessLevel::parse("+"), AccessLevel::Voice);
    assert_eq!(AccessLevel::parse(""), AccessLevel::User);
    assert_eq!("@@".parse::<AccessLevel>().unwrap(), AccessLevel::User);
}

#[test]
fn text_helpers() {
    assert!(text_eq("PING", "PING"));
    assert!(!text_eq("PING", "PONG"));
    assert!(!text_eq("PING", "PIN"));
    assert_eq!(leading_word("!hello world"), "!hello");
    assert_eq!(leading_word(" x"), "");
    assert_eq!(leading_word("single"), "single");
}

fn sample_registry() -> PluginRegistry {
    let mut reg = PluginRegistry::new();
    reg.register_filter("log".to_string(), 1);
    reg.register_filter("count".to_string(), 2);
    reg.register_command("hello".to_string(), vec!["!hi".to_string(), "!hello".to_string()], 3);
    reg.register_regex("greet".to_string(), "wor.d".to_string(), 4);
    reg.register_regex("broken".to_string(), "(".to_string(), 5);
    reg.register_event("joins".to_string(), "JOIN".to_string(), 6);
    reg.register_event("privs".to_string(), "PRIVMSG".to_string(), 7);
    reg
}

#[test]
fn dispatch_runs_groups_in_order() {
    let reg = sample_registry();
    let plan = reg.dispatch(":n!u@h PRIVMSG #c :!hello world");
    assert_eq!(plan, vec![1, 2, 3, 4, 7]);
    let plan = reg.dispatch(":n!u@h JOIN #c");
    assert_eq!(plan, vec![1, 2, 6]);
    let plan = reg.dispatch(":n!u@h PRIVMSG #c :nothing here");
    assert_eq!(plan, vec![1, 2, 7]);
}

#[test]
fn two_filters_run_in_registration_order() {
    let mut reg = PluginRegistry::new();
    reg.register_filter("b".to_string(), 20);
    reg.register_filter("a".to_string(), 10);
    assert_eq!(reg.dispatch("PING :x"), vec![20, 10]);
}

#[test]
fn reregistering_a_name_replaces_in_place() {
    let mut reg = PluginRegistry::new();
    reg.register_filter("a".to_string(), 1);
    reg.register_filter("b".to_string(), 2);
    reg.register_filter("a".to_string(), 3);
    assert_eq!(reg.filters.len(), 2);
    assert_eq!(reg.dispatch("PING :x"), vec![3, 2]);
}

#[test]
fn reset_forgets_every_handler() {
    let mut reg = sample_registry();
    reg.reset_globals();
    assert!(reg.dispatch(":n!u@h PRIVMSG #c :!hello world").is_empty());
    assert!(reg.dispatch(":n!u@h JOIN #c").is_empty());
}

#[test]
fn dispatch_plan_takes_verdicts() {
    let reg = sample_registry();
    let plan = reg.dispatch_plan(Some("!hi".to_string()), vec![false, true], Some("JOIN".to_string()));
    assert_eq!(plan, vec![1, 2, 3, 5, 6]);
}

#[test]
fn empty_config_text_is_refused() {
    assert!(matches!(neatbot::config::require_contents(""), Err(ConfigError::EmptyFile)));
    assert!(neatbot::config::require_contents("[[server]]").is_ok());
}
