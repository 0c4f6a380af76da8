use vstd::prelude::*;

use crate::config::{Config, ConfigError, ServerConfig};
use crate::text::{decimal, decimal_text};

verus! {

/// The longest inbound frame, in bytes, that a reader accepts.
pub const MAX_FRAME_LENGTH: usize = 1024;

/// Why a connection failed.
#[derive(Debug, Clone)]
pub enum ConnectionError {
    /// The transport could not be established.
    Unreachable(String),
    /// A frame was longer than `MAX_FRAME_LENGTH` or could not be decoded.
    FrameTooLong,
    /// Reading or writing the transport failed.
    Io(String),
}

/// A change in a connection's transport.
#[derive(Debug, Clone)]
pub enum ConnectionEvent {
    Connected,
    Disconnected,
    Error(ConnectionError),
}

/// What a connection reports: a lifecycle change or one inbound protocol line.
#[derive(Debug, Clone)]
pub enum Event {
    Connection(ConnectionEvent),
    Message(String),
}

/// A request to a connection about its transport.
#[derive(Debug, Clone, Copy, PartialEq, Eq, Structural)]
pub enum ConnectionCommand {
    Disconnect,
    Reconnect,
}

/// What a connection is asked to do: send one protocol line, or act on its transport.
#[derive(Debug, Clone)]
pub enum Command {
    Message(String),
    Connection(ConnectionCommand),
    Startup,
}

/// An event, with the tag of the connection it comes from.
#[derive(Debug, Clone)]
pub struct TaggedEvent {
    pub name: String,
    pub event: Event,
}

/// A command, with the tag of the connection it is meant for.
#[derive(Debug, Clone)]
pub struct TaggedCommand {
    pub name: String,
    pub command: Command,
}

impl TaggedCommand {
    pub fn new(server_name: &str, command: Command) -> (r: TaggedCommand)
        ensures
            r.name@ == server_name@,
            r.command == command,
    {
        TaggedCommand { name: String::from_str(server_name), command }
    }

    /// A command that sends the protocol line `message`.
    pub fn new_message(server_name: &str, message: String) -> (r: TaggedCommand)
        ensures
            r.name@ == server_name@,
            r.command == Command::Message(message),
    {
        TaggedCommand { name: String::from_str(server_name), command: Command::Message(message) }
    }

    pub fn new_connection(server_name: &str, connection: ConnectionCommand) -> (r: TaggedCommand)
        ensures
            r.name@ == server_name@,
            r.command == Command::Connection(connection),
    {
        TaggedCommand {
            name: String::from_str(server_name),
            command: Command::Connection(connection),
        }
    }
}

/// Where a connection stands.
#[derive(Debug, Clone, Copy, PartialEq, Eq, Structural)]
pub enum ConnectionStatus {
    Disconnected,
    Connecting,
    Connected,
    Reconnecting,
    Disconnecting,
}

/// One connection to one server, named by its tag.
#[derive(Debug)]
pub struct Connection {
    pub name: String,
    /// Where to connect, as `host:port`.
    pub host: String,
    pub ssl: bool,
    pub status: ConnectionStatus,
}

/// What one read of the transport produced.
#[derive(Debug, Clone)]
pub enum ReadOutcome {
    /// One whole frame, without its line delimiter.
    Line(String),
    /// The frame could not be decoded.
    Error(ConnectionError),
    /// The stream ended.
    Closed,
}

/// What the reader does after one read: report `event`, then read on or stop.
#[derive(Debug, Clone)]
pub struct ReaderStep {
    pub event: TaggedEvent,
    pub keep_reading: bool,
}

/// What the writer does with one command from the shared bus.
#[derive(Debug, Clone)]
pub enum WriterStep {
    /// The command is for another connection, or asks nothing of the transport.
    Skip,
    /// Write this frame.
    Send(String),
    /// Stop writing and close the transport (and, for `Reconnect`, connect again).
    Stop(ConnectionCommand),
}

/// The event that the reader reports for one read.
pub open spec fn reader_event(outcome: ReadOutcome) -> Event {
    match outcome {
        ReadOutcome::Line(l) => Event::Message(l),
        ReadOutcome::Error(e) => Event::Connection(ConnectionEvent::Error(e)),
        ReadOutcome::Closed => Event::Connection(ConnectionEvent::Disconnected),
    }
}

/// The events that a reader reports for a run of reads: one per read, up to and
/// including the first read that is not a frame.
pub open spec fn reader_events(outcomes: Seq<ReadOutcome>) -> Seq<Event>
    decreases outcomes.len(),
{
    if outcomes.len() == 0 {
        Seq::empty()
    } else if outcomes[0] is Line {
        seq![reader_event(outcomes[0])] + reader_events(outcomes.drop_first())
    } else {
        seq![reader_event(outcomes[0])]
    }
}

/// The events of one session: `Connected`, then what the reader reports.
pub open spec fn session_events(outcomes: Seq<ReadOutcome>) -> Seq<Event> {
    seq![Event::Connection(ConnectionEvent::Connected)] + reader_events(outcomes)
}

/// Whether an event reports an established transport.
pub open spec fn is_connected_event(e: Event) -> bool {
    e matches Event::Connection(ConnectionEvent::Connected)
}

/// What the writer of the connection tagged `tag` does with `c`.
pub open spec fn writer_action(tag: Seq<char>, c: TaggedCommand) -> WriterStep {
    if c.name@ != tag {
        WriterStep::Skip
    } else {
        match c.command {
            Command::Message(m) => WriterStep::Send(m),
            Command::Connection(cc) => WriterStep::Stop(cc),
            Command::Startup => WriterStep::Skip,
        }
    }
}

/// Whether some command of `cmds` stops the writer of `tag`.
pub open spec fn writer_halted(tag: Seq<char>, cmds: Seq<TaggedCommand>) -> bool {
    exists|k: int| 0 <= k < cmds.len() && (#[trigger] writer_action(tag, cmds[k])) is Stop
}

/// The frames that the writer of `tag` writes, in order, for the commands `cmds`
/// taken from the bus in that order.
pub open spec fn outbox(tag: Seq<char>, cmds: Seq<TaggedCommand>) -> Seq<String>
    decreases cmds.len(),
{
    if cmds.len() == 0 {
        Seq::empty()
    } else {
        let before = cmds.drop_last();
        let prev = outbox(tag, before);
        if writer_halted(tag, before) {
            prev
        } else {
            match writer_action(tag, cmds.last()) {
                WriterStep::Send(m) => prev.push(m),
                _ => prev,
            }
        }
    }
}

/// The number of `Connected` events tagged `tag` in `evs`.
pub open spec fn connected_count(evs: Seq<TaggedEvent>, tag: Seq<char>) -> nat
    decreases evs.len(),
{
    if evs.len() == 0 {
        0
    } else {
        (if evs[0].name@ == tag && is_connected_event(evs[0].event) {
            1nat
        } else {
            0nat
        }) + connected_count(evs.drop_first(), tag)
    }
}

/// The events of one session of the connection tagged `name`, each carrying that tag.
pub open spec fn tagged_session(name: String, outcomes: Seq<ReadOutcome>) -> Seq<TaggedEvent> {
    session_events(outcomes).map_values(|e: Event| TaggedEvent { name, event: e })
}

/// The events of one session of each connection, taken together: connection `k`
/// reads `outcomes[k]`.
pub open spec fn all_sessions(conns: Seq<Connection>, outcomes: Seq<Seq<ReadOutcome>>) -> Seq<TaggedEvent>
    decreases conns.len(),
{
    if conns.len() == 0 || outcomes.len() == 0 {
        Seq::empty()
    } else {
        tagged_session(conns[0].name, outcomes[0]) + all_sessions(conns.drop_first(), outcomes.drop_first())
    }
}

proof fn lemma_reader_never_connects(outcomes: Seq<ReadOutcome>)
    ensures
        forall|i: int| 0 <= i < reader_events(outcomes).len() ==> !is_connected_event(#[trigger] reader_events(outcomes)[i]),
    decreases outcomes.len(),
{
    if outcomes.len() > 0 {
        lemma_reader_never_connects(outcomes.drop_first());
        let r = reader_events(outcomes);
        assert forall|i: int| 0 <= i < r.len() implies !is_connected_event(#[trigger] r[i]) by {
            if i > 0 {
                assert(r[i] == reader_events(outcomes.drop_first())[i - 1]);
            }
        }
    }
}

/// A session reports `Connected` exactly once, as its first event.
pub proof fn lemma_session_connects_once(outcomes: Seq<ReadOutcome>)
    ensures
        session_events(outcomes).len() > 0,
        is_connected_event(session_events(outcomes)[0]),
        forall|i: int| 0 < i < session_events(outcomes).len() ==> !is_connected_event(#[trigger] session_events(outcomes)[i]),
{
    lemma_reader_never_connects(outcomes);
    let s = session_events(outcomes);
    assert forall|i: int| 0 < i < s.len() implies !is_connected_event(#[trigger] s[i]) by {
        assert(s[i] == reader_events(outcomes)[i - 1]);
    }
}

proof fn lemma_count_concat(a: Seq<TaggedEvent>, b: Seq<TaggedEvent>, tag: Seq<char>)
    ensures
        connected_count(a + b, tag) == connected_count(a, tag) + connected_count(b, tag),
    decreases a.len(),
{
    if a.len() > 0 {
        assert((a + b).drop_first() =~= a.drop_first() + b);
        lemma_count_concat(a.drop_first(), b, tag);
    } else {
        assert(a + b =~= b);
    }
}

proof fn lemma_count_tagged(evs: Seq<Event>, name: String, tag: Seq<char>, first_only: bool)
    requires
        first_only ==> evs.len() > 0 && is_connected_event(evs[0]),
        first_only ==> forall|i: int| 0 < i < evs.len() ==> !is_connected_event(#[trigger] evs[i]),
        !first_only ==> forall|i: int| 0 <= i < evs.len() ==> !is_connected_event(#[trigger] evs[i]),
    ensures
        connected_count(evs.map_values(|e: Event| TaggedEvent { name, event: e }), tag) == (if first_only && name@ == tag { 1nat } else { 0nat }),
    decreases evs.len(),
{
    let t = evs.map_values(|e: Event| TaggedEvent { name, event: e });
    if evs.len() > 0 {
        let rest = evs.drop_first();
        assert(t.drop_first() =~= rest.map_values(|e: Event| TaggedEvent { name, event: e }));
        assert forall|i: int| 0 <= i < rest.len() implies !is_connected_event(#[trigger] rest[i]) by {
            assert(rest[i] == evs[i + 1]);
        }
        lemma_count_tagged(rest, name, tag, false);
    }
}

proof fn lemma_session_count(name: String, outcomes: Seq<ReadOutcome>, tag: Seq<char>)
    ensures
        connected_count(tagged_session(name, outcomes), tag) == (if name@ == tag { 1nat } else { 0nat }),
{
    lemma_session_connects_once(outcomes);
    lemma_count_tagged(session_events(outcomes), name, tag, true);
}

proof fn lemma_no_session_of_tag(conns: Seq<Connection>, outcomes: Seq<Seq<ReadOutcome>>, tag: Seq<char>)
    requires
        !has_tag(conns, tag),
    ensures
        connected_count(all_sessions(conns, outcomes), tag) == 0,
    decreases conns.len(),
{
    if conns.len() > 0 && outcomes.len() > 0 {
        assert(conns[0].name@ != tag);
        lemma_session_count(conns[0].name, outcomes[0], tag);
        let rest = conns.drop_first();
        assert(!has_tag(rest, tag)) by {
            if has_tag(rest, tag) {
                let k = choose|k: int| 0 <= k < rest.len() && (#[trigger] rest[k]).name@ == tag;
                assert(conns[k + 1] == rest[k]);
            }
        }
        lemma_no_session_of_tag(rest, outcomes.drop_first(), tag);
        lemma_count_concat(tagged_session(conns[0].name, outcomes[0]), all_sessions(rest, outcomes.drop_first()), tag);
    }
}

/// With distinct tags, one session per connection yields exactly one `Connected`
/// event on each connection's own tag, however the sessions' events interleave
/// (the count does not depend on their order).
pub proof fn lemma_each_server_connects_once(
    conns: Seq<Connection>,
    outcomes: Seq<Seq<ReadOutcome>>,
    i: int,
)
    requires
        tags_distinct(conns),
        outcomes.len() == conns.len(),
        0 <= i < conns.len(),
    ensures
        connected_count(all_sessions(conns, outcomes), conns[i].name@) == 1,
    decreases conns.len(),
{
    let tag = conns[i].name@;
    let rest = conns.drop_first();
    let head = tagged_session(conns[0].name, outcomes[0]);
    lemma_session_count(conns[0].name, outcomes[0], tag);
    lemma_count_concat(head, all_sessions(rest, outcomes.drop_first()), tag);
    assert(tags_distinct(rest)) by {
        assert forall|a: int, b: int| 0 <= a < rest.len() && 0 <= b < rest.len() && a != b
            implies (#[trigger] rest[a]).name@ != (#[trigger] rest[b]).name@ by {
            assert(rest[a] == conns[a + 1] && rest[b] == conns[b + 1]);
        }
    }
    if i == 0 {
        assert(!has_tag(rest, tag)) by {
            if has_tag(rest, tag) {
                let k = choose|k: int| 0 <= k < rest.len() && (#[trigger] rest[k]).name@ == tag;
                assert(conns[k + 1] == rest[k]);
            }
        }
        lemma_no_session_of_tag(rest, outcomes.drop_first(), tag);
    } else {
        assert(rest[i - 1] == conns[i]);
        assert(conns[0].name@ != tag);
        lemma_each_server_connects_once(rest, outcomes.drop_first(), i - 1);
    }
}

proof fn lemma_outbox_extends(tag: Seq<char>, cmds: Seq<TaggedCommand>, n: int)
    requires
        0 <= n <= cmds.len(),
    ensures
        outbox(tag, cmds.take(n)).len() <= outbox(tag, cmds).len(),
        forall|k: int| 0 <= k < outbox(tag, cmds.take(n)).len() ==> #[trigger] outbox(tag, cmds)[k] == outbox(tag, cmds.take(n))[k],
    decreases cmds.len(),
{
    if n == cmds.len() {
        assert(cmds.take(n) =~= cmds);
    } else {
        let before = cmds.drop_last();
        assert(before.take(n) =~= cmds.take(n));
        lemma_outbox_extends(tag, before, n);
    }
}

proof fn lemma_outbox_step(tag: Seq<char>, cmds: Seq<TaggedCommand>, i: int)
    requires
        0 <= i < cmds.len(),
        !writer_halted(tag, cmds.take(i)),
        writer_action(tag, cmds[i]) is Send,
    ensures
        outbox(tag, cmds.take(i + 1)) == outbox(tag, cmds.take(i)).push(writer_action(tag, cmds[i])->Send_0),
{
    assert(cmds.take(i + 1).drop_last() =~= cmds.take(i));
}

/// Two commands published in order for the same connection, both frames to send,
/// are written in that order, as long as no earlier command stopped its writer.
pub proof fn lemma_writer_keeps_order(tag: Seq<char>, cmds: Seq<TaggedCommand>, i: int, j: int)
    requires
        0 <= i < j < cmds.len(),
        writer_action(tag, cmds[i]) is Send,
        writer_action(tag, cmds[j]) is Send,
        !writer_halted(tag, cmds.take(j)),
    ensures
        outbox(tag, cmds.take(i)).len() < outbox(tag, cmds.take(j)).len() < outbox(tag, cmds).len(),
        writer_action(tag, cmds[i]) == WriterStep::Send(outbox(tag, cmds)[outbox(tag, cmds.take(i)).len() as int]),
        writer_action(tag, cmds[j]) == WriterStep::Send(outbox(tag, cmds)[outbox(tag, cmds.take(j)).len() as int]),
{
    assert(!writer_halted(tag, cmds.take(i))) by {
        if writer_halted(tag, cmds.take(i)) {
            let k = choose|k: int| 0 <= k < cmds.take(i).len() && (#[trigger] writer_action(tag, cmds.take(i)[k])) is Stop;
            assert(cmds.take(i)[k] == cmds.take(j)[k]);
        }
    }
    lemma_outbox_step(tag, cmds, i);
    lemma_outbox_step(tag, cmds, j);
    let p = outbox(tag, cmds.take(i)).len() as int;
    let q = outbox(tag, cmds.take(j)).len() as int;
    assert(cmds.take(j).take(i + 1) =~= cmds.take(i + 1));
    lemma_outbox_extends(tag, cmds.take(j), i + 1);
    lemma_outbox_extends(tag, cmds, i + 1);
    lemma_outbox_extends(tag, cmds, j + 1);
    assert(outbox(tag, cmds.take(i + 1))[p] == outbox(tag, cmds)[p]);
    assert(outbox(tag, cmds.take(j + 1))[q] == outbox(tag, cmds)[q]);
}

/// An over-long frame ends only the reader that met it: that reader reports every
/// frame before it, then the error, then nothing more; a reader that meets only
/// frames reports each of them and goes on.
pub proof fn lemma_overlong_frame_isolated(
    frames: Seq<ReadOutcome>,
    rest: Seq<ReadOutcome>,
    other: Seq<ReadOutcome>,
)
    requires
        forall|k: int| 0 <= k < frames.len() ==> (#[trigger] frames[k]) is Line,
        forall|k: int| 0 <= k < other.len() ==> (#[trigger] other[k]) is Line,
    ensures
        reader_events(frames + seq![ReadOutcome::Error(ConnectionError::FrameTooLong)] + rest) == frames.map_values(|o: ReadOutcome| reader_event(o)).push(Event::Connection(ConnectionEvent::Error(ConnectionError::FrameTooLong))),
        reader_events(other) == other.map_values(|o: ReadOutcome| reader_event(o)),
    decreases frames.len() + other.len(),
{
    let bad = seq![ReadOutcome::Error(ConnectionError::FrameTooLong)];
    let all = frames + bad + rest;
    if frames.len() > 0 {
        assert(all.drop_first() =~= frames.drop_first() + bad + rest);
        lemma_overlong_frame_isolated(frames.drop_first(), rest, seq![]);
        assert(frames.map_values(|o: ReadOutcome| reader_event(o)) =~= seq![reader_event(frames[0])] + frames.drop_first().map_values(|o: ReadOutcome| reader_event(o)));
        assert(reader_events(all) =~= seq![reader_event(frames[0])] + reader_events(all.drop_first()));
    } else {
        assert(all[0] == bad[0]);
    }
    if other.len() > 0 {
        lemma_overlong_frame_isolated(seq![], rest, other.drop_first());
        assert(other.map_values(|o: ReadOutcome| reader_event(o)) =~= seq![reader_event(other[0])] + other.drop_first().map_values(|o: ReadOutcome| reader_event(o)));
    }
}

impl Connection {
    pub fn new(name: &str, host: &str, ssl: bool) -> (r: Connection)
        ensures
            r.name@ == name@,
            r.host@ == host@,
            r.ssl == ssl,
            r.status == ConnectionStatus::Disconnected,
    {
        Connection {
            name: String::from_str(name),
            host: String::from_str(host),
            ssl,
            status: ConnectionStatus::Disconnected,
        }
    }

    /// Starts connecting; only a disconnected connection can.
    pub fn begin_connect(&mut self) -> (started: bool)
        ensures
            started == (old(self).status == ConnectionStatus::Disconnected),
            final(self).name == old(self).name,
            final(self).host == old(self).host,
            final(self).ssl == old(self).ssl,
            final(self).status == (if started {
                ConnectionStatus::Connecting
            } else {
                old(self).status
            }),
    {
        if self.status == ConnectionStatus::Disconnected {
            self.status = ConnectionStatus::Connecting;
            true
        } else {
            false
        }
    }

    /// Records that the transport is up, and gives the `Connected` event to report.
    pub fn established(&mut self) -> (r: Option<TaggedEvent>)
        ensures
            final(self).name == old(self).name,
            final(self).host == old(self).host,
            final(self).ssl == old(self).ssl,
            old(self).status == ConnectionStatus::Connecting ==> final(self).status
                == ConnectionStatus::Connected && r == Some(
                TaggedEvent { name: old(self).name, event: Event::Connection(ConnectionEvent::Connected) },
            ),
            old(self).status != ConnectionStatus::Connecting ==> final(self).status == old(
                self,
            ).status && r is None,
    {
        if self.status == ConnectionStatus::Connecting {
            self.status = ConnectionStatus::Connected;
            Some(
                TaggedEvent {
                    name: self.name.clone(),
                    event: Event::Connection(ConnectionEvent::Connected),
                },
            )
        } else {
            None
        }
    }

    /// Records that the transport failed or ended, and gives the event to report.
    pub fn lost(&mut self, error: Option<ConnectionError>) -> (r: TaggedEvent)
        ensures
            final(self).name == old(self).name,
            final(self).host == old(self).host,
            final(self).ssl == old(self).ssl,
            final(self).status == ConnectionStatus::Disconnected,
            r.name == old(self).name,
            r.event == (match error {
                Some(e) => Event::Connection(ConnectionEvent::Error(e)),
                None => Event::Connection(ConnectionEvent::Disconnected),
            }),
    {
        self.status = ConnectionStatus::Disconnected;
        let event = match error {
            Some(e) => Event::Connection(ConnectionEvent::Error(e)),
            None => Event::Connection(ConnectionEvent::Disconnected),
        };
        TaggedEvent { name: self.name.clone(), event }
    }

    /// Starts closing a connected transport on request; a `Reconnect` goes through
    /// `Reconnecting`.
    pub fn begin_disconnect(&mut self, request: ConnectionCommand) -> (closing: bool)
        ensures
            closing == (old(self).status == ConnectionStatus::Connected),
            final(self).name == old(self).name,
            final(self).host == old(self).host,
            final(self).ssl == old(self).ssl,
            final(self).status == (if !closing {
                old(self).status
            } else if request == ConnectionCommand::Reconnect {
                ConnectionStatus::Reconnecting
            } else {
                ConnectionStatus::Disconnecting
            }),
    {
        if self.status == ConnectionStatus::Connected {
            self.status = match request {
                ConnectionCommand::Reconnect => ConnectionStatus::Reconnecting,
                ConnectionCommand::Disconnect => ConnectionStatus::Disconnecting,
            };
            true
        } else {
            false
        }
    }

    /// Records that the transport is closed: the connection is disconnected, and
    /// the result tells whether it was asked to reconnect (the caller then starts
    /// again with `begin_connect`).
    pub fn closed(&mut self) -> (reconnect: bool)
        ensures
            reconnect == (old(self).status == ConnectionStatus::Reconnecting),
            final(self).name == old(self).name,
            final(self).host == old(self).host,
            final(self).ssl == old(self).ssl,
            final(self).status == ConnectionStatus::Disconnected,
    {
        let reconnect = self.status == ConnectionStatus::Reconnecting;
        self.status = ConnectionStatus::Disconnected;
        reconnect
    }

    /// The reader's decision for one read: every frame becomes one message event
    /// and reading goes on; a decode error or the end of the stream is reported
    /// and ends this reader.
    pub fn read_step(&self, outcome: ReadOutcome) -> (r: ReaderStep)
        ensures
            r.event.name == self.name,
            r.event.event == reader_event(outcome),
            r.keep_reading == (outcome is Line),
    {
        let keep_reading = match &outcome {
            ReadOutcome::Line(_) => true,
            _ => false,
        };
        let event = match outcome {
            ReadOutcome::Line(l) => Event::Message(l),
            ReadOutcome::Error(e) => Event::Connection(ConnectionEvent::Error(e)),
            ReadOutcome::Closed => Event::Connection(ConnectionEvent::Disconnected),
        };
        ReaderStep { event: TaggedEvent { name: self.name.clone(), event }, keep_reading }
    }

    /// The writer's decision for one command from the shared bus: a command for
    /// another tag is skipped.
    pub fn write_step(&self, command: &TaggedCommand) -> (r: WriterStep)
        ensures
            r == writer_action(self.name@, *command),
    {
        if command.name != self.name {
            return WriterStep::Skip;
        }
        match &command.command {
            Command::Message(m) => WriterStep::Send(m.clone()),
            Command::Connection(cc) => WriterStep::Stop(*cc),
            Command::Startup => WriterStep::Skip,
        }
    }
}

/// The address that a server is reached at: `host:port`.
pub open spec fn address_of(config: ServerConfig) -> Seq<char> {
    config.host@ + seq![':'] + decimal(config.port as nat)
}

/// Whether no two connections share a tag.
pub open spec fn tags_distinct(conns: Seq<Connection>) -> bool {
    forall|i: int, j: int|
        0 <= i < conns.len() && 0 <= j < conns.len() && i != j ==> (#[trigger] conns[i]).name@
            != (#[trigger] conns[j]).name@
}

/// Whether some connection of `conns` has the tag `tag`.
pub open spec fn has_tag(conns: Seq<Connection>, tag: Seq<char>) -> bool {
    exists|i: int| 0 <= i < conns.len() && (#[trigger] conns[i]).name@ == tag
}

/// Whether `c` is the connection that `config` describes, not yet connected.
pub open spec fn made_from(c: Connection, config: ServerConfig) -> bool {
    &&& c.name@ == config.name@
    &&& c.host@ == address_of(config)
    &&& c.ssl == config.ssl
    &&& c.status == ConnectionStatus::Disconnected
}

/// The set of connections, one per server tag.
#[derive(Debug)]
pub struct ConnectionManager {
    pub connections: Vec<Connection>,
}

impl ConnectionManager {
    /// Tags are unique among the connections.
    pub open spec fn wf(&self) -> bool {
        tags_distinct(self.connections@)
    }

    /// A manager with one connection per configured server, in order; fails on the
    /// first server whose tag is already taken.
    pub fn new(config: &Config) -> (r: Result<ConnectionManager, ConfigError>)
        ensures
            r matches Ok(m) ==> m.wf() && m.connections@.len() == config.server@.len() && (forall|
                i: int,
            |
                0 <= i < config.server@.len() ==> made_from(
                    #[trigger] m.connections@[i],
                    config.server@[i],
                )),
            r is Err <==> exists|i: int, j: int|
                0 <= i < j < config.server@.len() && (#[trigger] config.server@[i]).name@ == (
                #[trigger] config.server@[j]).name@,
            r matches Err(e) ==> e matches ConfigError::DuplicateServerTag(t) && exists|i: int, j: int|
                0 <= i < j < config.server@.len() && (#[trigger] config.server@[i]).name@ == t@
                    && (#[trigger] config.server@[j]).name@ == t@,
    {
        let mut manager = ConnectionManager { connections: Vec::new() };
        let mut k: usize = 0;
        while k < config.server.len()
            invariant
                k <= config.server@.len(),
                manager.wf(),
                manager.connections@.len() == k,
                forall|i: int| 0 <= i < k ==> made_from(#[trigger] manager.connections@[i], config.server@[i]),
                forall|i: int, j: int|
                    0 <= i < j < k ==> (#[trigger] config.server@[i]).name@ != (
                    #[trigger] config.server@[j]).name@,
            decreases config.server@.len() - k,
        {
            let ghost before = manager.connections@;
            match manager.add_server(&config.server[k]) {
                Ok(()) => {},
                Err(e) => {
                    proof {
                        let t = config.server@[k as int].name@;
                        let i = choose|i: int| 0 <= i < manager.connections@.len() && (#[trigger] manager.connections@[i]).name@ == t;
                        assert(config.server@[i].name@ == config.server@[k as int].name@);
                        assert(e matches ConfigError::DuplicateServerTag(t) && config.server@[i].name@ == t@
                            && config.server@[k as int].name@ == t@);
                    }
                    return Err(e);
                },
            }
            proof {
                assert forall|i: int| 0 <= i < k + 1 implies made_from(
                    #[trigger] manager.connections@[i],
                    config.server@[i],
                ) by {
                    if i < k {
                        assert(manager.connections@[i] == manager.connections@.drop_last()[i]);
                    }
                }
                assert forall|i: int, j: int|
                    0 <= i < j < k + 1 implies (#[trigger] config.server@[i]).name@ != (
                    #[trigger] config.server@[j]).name@ by {
                    if j == k {
                        assert(made_from(manager.connections@[i], config.server@[i]));
                        assert(!has_tag(before, config.server@[j].name@));
                        assert(before[i] == manager.connections@[i]);
                    }
                }
            }
            k = k + 1;
        }
        Ok(manager)
    }

    /// Adds a connection for a server whose tag is not yet in use.
    pub fn add_server(&mut self, config: &ServerConfig) -> (r: Result<(), ConfigError>)
        requires
            old(self).wf(),
        ensures
            final(self).wf(),
            r is Err <==> has_tag(old(self).connections@, config.name@),
            r matches Err(e) ==> e matches ConfigError::DuplicateServerTag(t) && t@ == config.name@,
            r is Err ==> final(self).connections@ == old(self).connections@,
            r is Ok ==> final(self).connections@.len() == old(self).connections@.len() + 1
                && final(self).connections@.drop_last() == old(self).connections@
                && made_from(final(self).connections@.last(), *config),
    {
        let mut i: usize = 0;
        while i < self.connections.len()
            invariant
                i <= self.connections@.len(),
                self.connections@ == old(self).connections@,
                self.wf(),
                forall|j: int| 0 <= j < i ==> (#[trigger] self.connections@[j]).name@ != config.name@,
            decreases self.connections@.len() - i,
        {
            if self.connections[i].name == config.name {
                return Err(ConfigError::DuplicateServerTag(config.name.clone()));
            }
            i = i + 1;
        }
        let mut host = config.host.clone();
        host.append(":");
        let port = decimal_text(config.port);
        host.append(port.as_str());
        proof {
            reveal_strlit(":");
            assert(host@ =~= address_of(*config));
        }
        let connection = Connection::new(config.name.as_str(), host.as_str(), config.ssl);
        let ghost before = self.connections@;
        self.connections.push(connection);
        proof {
            assert(self.connections@.drop_last() =~= before);
            assert forall|a: int, b: int|
                0 <= a < self.connections@.len() && 0 <= b < self.connections@.len() && a != b
                implies (#[trigger] self.connections@[a]).name@ != (
                #[trigger] self.connections@[b]).name@ by {
                if a < before.len() && b < before.len() {
                    assert(before[a] == self.connections@[a]);
                    assert(before[b] == self.connections@[b]);
                }
            }
        }
        Ok(())
    }

    /// The connections, in the order their servers were added.
    pub fn into_connections(self) -> (r: Vec<Connection>)
        ensures
            r@ == self.connections@,
    {
        self.connections
    }
}

} // verus!
