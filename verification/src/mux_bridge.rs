//! The client end of the WebSocket multiplexer: it turns the SOCKS5 clients of a listener
//! into streams of one connection, and outlives that connection.
use crate::mux::{
    connect_message, connect_text, frame_of, law_connect_round_trip, law_frame_round_trip,
    law_refused_round_trip, parse_frame, parse_reply, reply_of, unframe, Reply, ReplyView,
};
use crate::mux_server::{handles as server_handles, Action, Incoming};
use crate::socks5::{success_reply, Request};
use crate::text::is_white;
use std::collections::HashMap;
use vstd::prelude::*;
use vstd::string::*;

verus! {

/// How long the bridge waits before it connects again, in seconds.
pub const RECONNECT_SECS: u64 = 3;

/// How often a ping keeps the connection alive, in seconds.
pub const PING_SECS: u64 = 30;

/// What follows a client's SOCKS5 request.
pub enum Decision {
    /// The client is dropped without an answer.
    Drop,
    /// A stream to this `host:port` is to be opened.
    Open(String),
    /// A stream to this IPv6 address and port is to be opened.
    OpenIpv6 { octets: Vec<u8>, port: u16 },
}

/// What a client that waits for its stream is told.
pub enum Answer {
    Connected,
    /// The server refused, with this message.
    Refused(String),
    /// The connection was lost before the server answered.
    Lost,
}

/// A stream: `R` tells its client whether the server connected it, and is gone once that
/// is done; `D` takes its data.
pub struct Stream<R, D> {
    pub ready: Option<R>,
    pub data: D,
}

/// What the bridge does about a message.
pub enum Notice<R> {
    Nothing,
    /// Tell this client that its stream is connected.
    Ready(R),
    /// Tell this client that its stream is refused, with this message.
    Refused(R, String),
    /// Hand `payload` to the client of stream `sid`.
    Deliver { sid: u16, payload: Vec<u8> },
    /// The connection is over.
    Ended,
}

/// What happens to the bridge's connection.
pub enum LinkEvent<W> {
    /// It was made.
    Connected(W),
    /// It could not be made.
    NotConnected,
    /// A message came.
    Message(Incoming),
    /// There will be no more messages.
    NoMore,
}

/// What the bridge does about its connection. There is nothing that ends the bridge.
pub enum LinkStep<R> {
    /// Do this, and read the next message.
    Read(Notice<R>),
    /// Wait for so many seconds, and make a new connection.
    Reconnect(u64),
}

/// What a bridge holds: what writes to the connection, if there is one, the streams, and
/// the number of the next stream.
pub struct BridgeView<W, R, D> {
    pub writer: Option<W>,
    pub streams: Map<u16, Stream<R, D>>,
    pub next_sid: u16,
}

/// The streams of a bridge's clients; `W` writes to its connection.
#[verifier::reject_recursive_types(R)]
#[verifier::reject_recursive_types(D)]
pub struct Bridge<W, R, D> {
    writer: Option<W>,
    streams: HashMap<u16, Stream<R, D>>,
    next_sid: u16,
}

impl<W, R, D> View for Bridge<W, R, D> {
    type V = BridgeView<W, R, D>;

    closed spec fn view(&self) -> BridgeView<W, R, D> {
        BridgeView { writer: self.writer, streams: self.streams@, next_sid: self.next_sid }
    }
}

/// The stream number after `sid`; the largest one is followed by zero.
pub open spec fn sid_after(sid: u16) -> u16 {
    if sid == u16::MAX {
        0
    } else {
        (sid + 1) as u16
    }
}

impl<W, R, D> BridgeView<W, R, D> {
    /// The bridge without a connection, and so without streams.
    pub open spec fn offline(self) -> BridgeView<W, R, D> {
        BridgeView { writer: None, streams: Map::empty(), next_sid: self.next_sid }
    }

    /// The bridge with a new connection, which begins without streams.
    pub open spec fn online(self, writer: W) -> BridgeView<W, R, D> {
        BridgeView { writer: Some(writer), streams: Map::empty(), next_sid: self.next_sid }
    }

    /// The bridge with these streams.
    pub open spec fn with_streams(self, streams: Map<u16, Stream<R, D>>) -> BridgeView<W, R, D> {
        BridgeView { writer: self.writer, streams, next_sid: self.next_sid }
    }
}

/// The bridge that a message leaves, and what is done about it.
pub open spec fn handles<W, R, D>(
    before: BridgeView<W, R, D>,
    message: Incoming,
    after: BridgeView<W, R, D>,
    notice: Notice<R>,
) -> bool {
    match message {
        Incoming::Text(text) => match reply_of(text@) {
            ReplyView::Ready { sid } => if before.streams.contains_key(sid) {
                let stream = before.streams[sid];
                &&& after == before.with_streams(
                    before.streams.insert(sid, Stream { ready: None, data: stream.data }),
                )
                &&& match stream.ready {
                    Some(client) => notice == Notice::Ready(client),
                    None => notice is Nothing,
                }
            } else {
                after == before && notice is Nothing
            },
            ReplyView::Refused { sid, message: why } => {
                &&& after == before.with_streams(before.streams.remove(sid))
                &&& if before.streams.contains_key(sid) && before.streams[sid].ready is Some {
                    notice matches Notice::Refused(client, m) && Some(client)
                        == before.streams[sid].ready && m@ == why
                } else {
                    notice is Nothing
                }
            },
            ReplyView::Other => after == before && notice is Nothing,
        },
        Incoming::Binary(data) => {
            &&& after == before
            &&& match unframe(data@) {
                Some((sid, bytes)) => if before.streams.contains_key(sid) {
                    notice matches Notice::Deliver { sid: s, payload } && s == sid && payload@
                        == bytes
                } else {
                    notice is Nothing
                },
                None => notice is Nothing,
            }
        },
        Incoming::Close => after == before.offline() && notice is Ended,
        Incoming::Failed => after == before.offline() && notice is Ended,
        Incoming::Other => after == before && notice is Nothing,
    }
}

/// Whether an event leaves the bridge without a connection.
pub open spec fn ends_link<W>(event: LinkEvent<W>) -> bool {
    match event {
        LinkEvent::Connected(w) => false,
        LinkEvent::NotConnected => true,
        LinkEvent::Message(message) => message is Close || message is Failed,
        LinkEvent::NoMore => true,
    }
}

/// The bridge that an event leaves, and what is done about its connection.
pub open spec fn follows<W, R, D>(
    before: BridgeView<W, R, D>,
    event: LinkEvent<W>,
    after: BridgeView<W, R, D>,
    step: LinkStep<R>,
) -> bool {
    if ends_link(event) {
        after == before.offline() && step == LinkStep::<R>::Reconnect(RECONNECT_SECS)
    } else {
        match event {
            LinkEvent::Connected(w) => {
                &&& after == before.online(w)
                &&& step == LinkStep::Read(Notice::<R>::Nothing)
            },
            LinkEvent::Message(message) => {
                &&& step matches LinkStep::Read(notice)
                &&& handles(before, message, after, notice)
            },
            _ => true,
        }
    }
}

/// Decides on a client's request.
pub fn decide_request(request: Request) -> (d: Decision)
    ensures
        match request {
            Request::Invalid => d is Drop,
            Request::Target(t) => d == Decision::Open(t),
            Request::Ipv6 { octets, port } => d == (Decision::OpenIpv6 { octets, port }),
        },
{
    match request {
        Request::Invalid => Decision::Drop,
        Request::Target(t) => Decision::Open(t),
        Request::Ipv6 { octets, port } => Decision::OpenIpv6 { octets, port },
    }
}

/// What a client is sent once its stream is decided on; without it the client is dropped.
pub fn answer_client(answer: &Answer) -> (reply: Option<Vec<u8>>)
    ensures
        match reply {
            Some(bytes) => *answer is Connected && bytes@ == seq![5u8, 0, 0, 1, 0, 0, 0, 0, 0, 0],
            None => *answer !is Connected,
        },
{
    match answer {
        Answer::Connected => Some(success_reply()),
        Answer::Refused(_) => None,
        Answer::Lost => None,
    }
}

impl<W, R, D> Bridge<W, R, D> {
    /// A bridge without a connection, whose first stream will be number 1.
    pub fn new() -> (bridge: Bridge<W, R, D>)
        ensures
            bridge@ == (BridgeView::<W, R, D> {
                writer: None,
                streams: Map::empty(),
                next_sid: 1,
            }),
    {
        Bridge { writer: None, streams: HashMap::new(), next_sid: 1 }
    }

    /// The number for a new client's stream.
    pub fn take_sid(&mut self) -> (sid: u16)
        ensures
            sid == old(self)@.next_sid,
            final(self)@.next_sid == sid_after(sid),
            final(self)@.writer == old(self)@.writer,
            final(self)@.streams == old(self)@.streams,
    {
        let sid: u16 = self.next_sid;
        self.next_sid = sid.wrapping_add(1);
        sid
    }

    /// A new connection has been made. It begins without streams.
    pub fn connected(&mut self, writer: W)
        ensures
            final(self)@ == old(self)@.online(writer),
    {
        self.writer = Some(writer);
        self.streams.clear();
    }

    fn go_offline(&mut self)
        ensures
            final(self)@ == old(self)@.offline(),
    {
        self.writer = None;
        self.streams.clear();
    }

    /// The connection is over, or could not be made: all streams are gone, and after so many
    /// seconds a new one is to be made.
    pub fn lost(&mut self) -> (wait: u64)
        ensures
            final(self)@ == old(self)@.offline(),
            wait == RECONNECT_SECS,
    {
        self.go_offline();
        RECONNECT_SECS
    }

    /// Decides what to do about the connection.
    pub fn on_event(&mut self, event: LinkEvent<W>) -> (step: LinkStep<R>)
        ensures
            follows(old(self)@, event, final(self)@, step),
    {
        match event {
            LinkEvent::Connected(w) => {
                self.connected(w);
                LinkStep::Read(Notice::Nothing)
            },
            LinkEvent::NotConnected => LinkStep::Reconnect(self.lost()),
            LinkEvent::Message(message) => match self.on_message(message) {
                Notice::Ended => LinkStep::Reconnect(self.lost()),
                notice => LinkStep::Read(notice),
            },
            LinkEvent::NoMore => LinkStep::Reconnect(self.lost()),
        }
    }

    /// What writes to the connection.
    pub fn writer(&self) -> (writer: Option<&W>)
        ensures
            match writer {
                Some(w) => self@.writer == Some(*w),
                None => self@.writer is None,
            },
    {
        self.writer.as_ref()
    }

    /// What takes the data of stream `sid`.
    pub fn data(&self, sid: u16) -> (data: Option<&D>)
        ensures
            match data {
                Some(d) => self@.streams.contains_key(sid) && *d == self@.streams[sid].data,
                None => !self@.streams.contains_key(sid),
            },
    {
        match self.streams.get(&sid) {
            Some(stream) => Some(&stream.data),
            None => None,
        }
    }

    /// Opens stream `sid` and gives the message that asks the server for it; without a
    /// connection nothing is opened.
    pub fn open(&mut self, sid: u16, target: &str, password: &str, ready: R, data: D) -> (message:
        Option<String>)
        ensures
            match message {
                Some(m) => {
                    &&& old(self)@.writer is Some
                    &&& m@ == connect_message(sid, target@, password@)
                    &&& final(self)@ == old(self)@.with_streams(
                        old(self)@.streams.insert(sid, Stream { ready: Some(ready), data }),
                    )
                },
                None => old(self)@.writer is None && final(self)@ == old(self)@,
            },
    {
        if self.writer.is_none() {
            return None;
        }
        self.streams.insert(sid, Stream { ready: Some(ready), data });
        Some(connect_text(sid, target, password))
    }

    /// Forgets stream `sid`, whose client is gone.
    pub fn forget(&mut self, sid: u16)
        ensures
            final(self)@ == old(self)@.with_streams(old(self)@.streams.remove(sid)),
    {
        let gone = self.take(sid);
    }

    fn take(&mut self, sid: u16) -> (stream: Option<Stream<R, D>>)
        ensures
            final(self)@ == old(self)@.with_streams(old(self)@.streams.remove(sid)),
            match stream {
                Some(s) => old(self)@.streams.contains_key(sid) && s == old(self)@.streams[sid],
                None => !old(self)@.streams.contains_key(sid),
            },
    {
        let stream = self.streams.remove(&sid);
        assert(stream is None ==> self@.streams =~= old(self)@.streams.remove(sid));
        stream
    }

    /// Decides what to do about a message from the server.
    pub fn on_message(&mut self, message: Incoming) -> (notice: Notice<R>)
        ensures
            handles(old(self)@, message, final(self)@, notice),
    {
        match message {
            Incoming::Text(text) => match parse_reply(text.as_str()) {
                Reply::Ready { sid } => match self.take(sid) {
                    Some(stream) => {
                        self.streams.insert(sid, Stream { ready: None, data: stream.data });
                        assert(self@.streams =~= old(self)@.streams.insert(
                            sid,
                            Stream { ready: None, data: stream.data },
                        ));
                        match stream.ready {
                            Some(client) => Notice::Ready(client),
                            None => Notice::Nothing,
                        }
                    },
                    None => {
                        assert(self@.streams =~= old(self)@.streams);
                        Notice::Nothing
                    },
                },
                Reply::Refused { sid, message } => match self.take(sid) {
                    Some(stream) => match stream.ready {
                        Some(client) => Notice::Refused(client, message),
                        None => Notice::Nothing,
                    },
                    None => Notice::Nothing,
                },
                Reply::Other => Notice::Nothing,
            },
            Incoming::Binary(data) => match parse_frame(data.as_slice()) {
                Some((sid, payload)) => if self.streams.contains_key(&sid) {
                    Notice::Deliver { sid, payload }
                } else {
                    Notice::Nothing
                },
                None => Notice::Nothing,
            },
            Incoming::Close => {
                self.go_offline();
                Notice::Ended
            },
            Incoming::Failed => {
                self.go_offline();
                Notice::Ended
            },
            Incoming::Other => Notice::Nothing,
        }
    }
}

/// The number of the `i`-th stream, counted from zero.
pub open spec fn nth_sid(i: nat) -> u16
    decreases i,
{
    if i == 0 {
        1
    } else {
        sid_after(nth_sid((i - 1) as nat))
    }
}

/// The numbers of the streams go from 1 up, and round through 0.
pub proof fn law_nth_sid(i: nat)
    ensures
        nth_sid(i) == (1 + i) % 65536,
    decreases i,
{
    if i > 0 {
        law_nth_sid((i - 1) as nat);
    }
}

/// Streams less than 65536 apart have different numbers.
pub proof fn law_near_sids_differ(i: nat, j: nat)
    requires
        i < j < i + 65536,
    ensures
        nth_sid(i) != nth_sid(j),
{
    law_nth_sid(i);
    law_nth_sid(j);
}

/// Whatever ends a connection, or keeps it from being made, leaves the bridge without a
/// connection and without streams, and is followed by a wait of [`RECONNECT_SECS`] seconds
/// and a new attempt; nothing else is.
pub proof fn law_lost_connection_is_made_again<W, R, D>(
    before: BridgeView<W, R, D>,
    event: LinkEvent<W>,
    after: BridgeView<W, R, D>,
    step: LinkStep<R>,
)
    requires
        follows(before, event, after, step),
    ensures
        step is Reconnect <==> ends_link(event),
        ends_link(event) ==> {
            &&& step == LinkStep::<R>::Reconnect(RECONNECT_SECS)
            &&& after.writer is None
            &&& after.streams == Map::<u16, Stream<R, D>>::empty()
        },
        event matches LinkEvent::Connected(w) ==> {
            &&& after.writer == Some(w)
            &&& after.streams == Map::<u16, Stream<R, D>>::empty()
        },
        event is Message && !ends_link(event) ==> after.writer == before.writer,
        after.next_sid == before.next_sid,
{
}

/// The attempt that follows the end of a connection starts afresh: where it succeeds, the
/// bridge has the new connection and no streams, and where it fails, neither, and there is
/// another attempt.
pub proof fn law_attempts_start_afresh<W, R, D>(
    before: BridgeView<W, R, D>,
    end: LinkEvent<W>,
    between: BridgeView<W, R, D>,
    wait: LinkStep<R>,
    attempt: LinkEvent<W>,
    after: BridgeView<W, R, D>,
    step: LinkStep<R>,
)
    requires
        ends_link(end),
        follows(before, end, between, wait),
        attempt is Connected || attempt is NotConnected,
        follows(between, attempt, after, step),
    ensures
        after == match attempt {
            LinkEvent::Connected(w) => before.online(w),
            _ => before.offline(),
        },
        step is Reconnect <==> attempt is NotConnected,
{
}

/// A stream that the client end opens with the server's password is connected to its
/// target, under its number.
pub proof fn law_opened_stream_is_dialed<W>(
    sid: u16,
    target: Seq<char>,
    password: Seq<char>,
    before: Map<u16, W>,
    text: String,
    after: Map<u16, W>,
    action: Action<W>,
)
    requires
        !target.contains(' '),
        password.len() > 0,
        !is_white(password.last()),
        text@ == connect_message(sid, target, password),
        server_handles(password, before, Incoming::Text(text), after, action),
    ensures
        action matches Action::Dial { sid: s, target: t } && s == sid && t@ == target,
        after == before,
{
    law_connect_round_trip(sid, target, password);
}

/// A stream that the client end opens with a password other than the server's is refused,
/// and the client end takes the server's answer for that.
pub proof fn law_wrong_password_is_refused<W>(
    sid: u16,
    target: Seq<char>,
    password: Seq<char>,
    server_password: Seq<char>,
    before: Map<u16, W>,
    text: String,
    after: Map<u16, W>,
    action: Action<W>,
)
    requires
        !target.contains(' '),
        password.len() > 0,
        !is_white(password.last()),
        password != server_password,
        text@ == connect_message(sid, target, password),
        server_handles(server_password, before, Incoming::Text(text), after, action),
    ensures
        action matches Action::Send(reply) && reply_of(reply@) matches ReplyView::Refused {
            sid: s,
            ..
        } && s == sid,
        after == before,
{
    law_connect_round_trip(sid, target, password);
    law_refused_round_trip(sid, "Auth Failed"@);
}

/// What either end sends on a stream that the other end has reaches that stream, byte for
/// byte, and no other.
pub proof fn law_data_reaches_its_stream<W, R, D, T>(
    sid: u16,
    payload: Seq<u8>,
    data: Vec<u8>,
    bridge: BridgeView<W, R, D>,
    bridge_after: BridgeView<W, R, D>,
    notice: Notice<R>,
    password: Seq<char>,
    targets: Map<u16, T>,
    targets_after: Map<u16, T>,
    action: Action<T>,
)
    requires
        data@ == frame_of(sid, payload),
        handles(bridge, Incoming::Binary(data), bridge_after, notice),
        server_handles(password, targets, Incoming::Binary(data), targets_after, action),
    ensures
        if bridge.streams.contains_key(sid) {
            notice matches Notice::Deliver { sid: s, payload: p } && s == sid && p@ == payload
        } else {
            notice is Nothing
        },
        if targets.contains_key(sid) {
            action matches Action::Write { sid: s, payload: p, stream } && s == sid && p@ == payload
                && stream == targets[sid]
        } else {
            action is Nothing
        },
{
    law_frame_round_trip(sid, payload);
}

/// A client is told at most once what became of its stream: once it has been told, no
/// message leads to telling it again, only to telling the client of another stream.
pub proof fn law_client_is_told_once<W, R, D>(
    before: BridgeView<W, R, D>,
    message: Incoming,
    after: BridgeView<W, R, D>,
    notice: Notice<R>,
    sid: u16,
)
    requires
        handles(before, message, after, notice),
        before.streams.contains_key(sid) ==> before.streams[sid].ready is None,
    ensures
        after.streams.contains_key(sid) ==> after.streams[sid].ready is None,
        notice matches Notice::Ready(client) ==> waits_elsewhere(before, sid, client),
        notice matches Notice::Refused(client, m) ==> waits_elsewhere(before, sid, client),
{
    match message {
        Incoming::Text(text) => match reply_of(text@) {
            ReplyView::Ready { sid: other } => {
                assert(notice is Ready ==> before.streams.contains_key(other));
            },
            ReplyView::Refused { sid: other, message: why } => {
                assert(notice is Refused ==> before.streams.contains_key(other));
            },
            ReplyView::Other => {},
        },
        _ => {},
    }
}

/// Whether `client` waits for a stream other than `sid`.
pub open spec fn waits_elsewhere<W, R, D>(
    bridge: BridgeView<W, R, D>,
    sid: u16,
    client: R,
) -> bool {
    exists|other: u16|
        other != sid && #[trigger] bridge.streams.contains_key(other)
            && bridge.streams[other].ready == Some(client)
}

/// Whether a message is about stream `k`: that it is connected or refused.
pub open spec fn is_about_stream(message: Incoming, k: u16) -> bool {
    match message {
        Incoming::Text(text) => match reply_of(text@) {
            ReplyView::Ready { sid } => sid == k,
            ReplyView::Refused { sid, message: why } => sid == k,
            ReplyView::Other => false,
        },
        _ => false,
    }
}

/// A message leaves the streams that it is not about as they are, and the connection too,
/// unless it ends the connection.
pub proof fn law_other_streams_stay<W, R, D>(
    before: BridgeView<W, R, D>,
    message: Incoming,
    after: BridgeView<W, R, D>,
    notice: Notice<R>,
    k: u16,
)
    requires
        handles(before, message, after, notice),
        !(message is Close),
        !(message is Failed),
    ensures
        after.writer == before.writer,
        after.next_sid == before.next_sid,
        !is_about_stream(message, k) ==> {
            &&& after.streams.contains_key(k) == before.streams.contains_key(k)
            &&& before.streams.contains_key(k) ==> after.streams[k] == before.streams[k]
        },
{
}

/// The message that a stream is connected is passed on to the client that waits for it, and the
/// stream stays, with what takes its data.
pub proof fn law_ready<W, R, D>(
    before: BridgeView<W, R, D>,
    sid: u16,
    text: String,
    after: BridgeView<W, R, D>,
    notice: Notice<R>,
)
    requires
        reply_of(text@) == (ReplyView::Ready { sid }),
        handles(before, Incoming::Text(text), after, notice),
    ensures
        after.streams.contains_key(sid) == before.streams.contains_key(sid),
        before.streams.contains_key(sid) ==> {
            &&& after.streams[sid].data == before.streams[sid].data
            &&& after.streams[sid].ready is None
            &&& match before.streams[sid].ready {
                Some(client) => notice == Notice::Ready(client),
                None => notice is Nothing,
            }
        },
        !before.streams.contains_key(sid) ==> notice is Nothing && after == before,
{
}

/// The message that a stream is refused is passed on, with its reason, to the client that waits
/// for it, and the stream is gone.
pub proof fn law_refused<W, R, D>(
    before: BridgeView<W, R, D>,
    sid: u16,
    why: Seq<char>,
    text: String,
    after: BridgeView<W, R, D>,
    notice: Notice<R>,
)
    requires
        reply_of(text@) == (ReplyView::Refused { sid, message: why }),
        handles(before, Incoming::Text(text), after, notice),
    ensures
        !after.streams.contains_key(sid),
        before.streams.contains_key(sid) && before.streams[sid].ready is Some ==> {
            &&& notice matches Notice::Refused(client, message)
            &&& Some(client) == before.streams[sid].ready
            &&& message@ == why
        },
        !(before.streams.contains_key(sid) && before.streams[sid].ready is Some) ==> notice
            is Nothing,
{
}

/// Data of an open stream goes, all of it, to the client of that stream; other data is dropped.
/// Neither changes anything.
pub proof fn law_data<W, R, D>(
    before: BridgeView<W, R, D>,
    data: Vec<u8>,
    sid: u16,
    after: BridgeView<W, R, D>,
    notice: Notice<R>,
)
    requires
        data@.len() >= 2,
        sid == data@[0] * 256 + data@[1],
        handles(before, Incoming::Binary(data), after, notice),
    ensures
        after == before,
        before.streams.contains_key(sid) ==> {
            &&& notice matches Notice::Deliver { sid: s, payload }
            &&& s == sid
            &&& payload@ == data@.skip(2)
        },
        !before.streams.contains_key(sid) ==> notice is Nothing,
{
    crate::mux::law_unframe(data@);
}

/// A message that says nothing about a stream does nothing, and the close of the connection or
/// a failure ends it, with all streams.
pub proof fn law_rest<W, R, D>(
    before: BridgeView<W, R, D>,
    message: Incoming,
    after: BridgeView<W, R, D>,
    notice: Notice<R>,
)
    requires
        handles(before, message, after, notice),
    ensures
        message is Close || message is Failed ==> {
            &&& notice is Ended
            &&& after.writer is None
            &&& forall|k: u16| !#[trigger] after.streams.contains_key(k)
            &&& after.next_sid == before.next_sid
        },
        message is Other ==> notice is Nothing && after == before,
        message matches Incoming::Binary(data) && data@.len() < 2 ==> notice is Nothing && after
            == before,
        message matches Incoming::Text(text) && reply_of(text@) is Other ==> notice is Nothing
            && after == before,
{
}

/// Going online keeps the counter and nothing else, and so does going offline; a change of the
/// streams changes nothing else.
pub proof fn law_bridge_states<W, R, D>(
    bridge: BridgeView<W, R, D>,
    writer: W,
    streams: Map<u16, Stream<R, D>>,
)
    ensures
        bridge.online(writer).writer == Some(writer),
        bridge.online(writer).streams == Map::<u16, Stream<R, D>>::empty(),
        bridge.online(writer).next_sid == bridge.next_sid,
        bridge.offline().writer is None,
        bridge.offline().streams == Map::<u16, Stream<R, D>>::empty(),
        bridge.offline().next_sid == bridge.next_sid,
        bridge.with_streams(streams).writer == bridge.writer,
        bridge.with_streams(streams).streams == streams,
        bridge.with_streams(streams).next_sid == bridge.next_sid,
{
}

/// What ends a connection: that it cannot be made, that there are no more messages, a message
/// that closes it, and a failure.
pub proof fn law_ends_link<W>(event: LinkEvent<W>)
    ensures
        event is Connected ==> !ends_link(event),
        event is NotConnected || event is NoMore ==> ends_link(event),
        event matches LinkEvent::Message(message) ==> (ends_link(event) <==> message is Close
            || message is Failed),
{
}

/// The times of the client end.
pub proof fn law_bridge_limits()
    ensures
        RECONNECT_SECS == 3,
        PING_SECS == 30,
{
}

/// A message that does not end the connection is handled, and so is a new connection; the next
/// message is read then.
pub proof fn law_reads_on<W, R, D>(
    before: BridgeView<W, R, D>,
    event: LinkEvent<W>,
    after: BridgeView<W, R, D>,
    step: LinkStep<R>,
)
    requires
        follows(before, event, after, step),
    ensures
        event is Connected ==> step == LinkStep::Read(Notice::<R>::Nothing),
        event matches LinkEvent::Message(message) ==> {
            ||| message is Close
            ||| message is Failed
            ||| step matches LinkStep::Read(notice) && handles(before, message, after, notice)
        },
{
}

} // verus!
