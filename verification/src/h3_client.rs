//! The client end of the HTTP tunnel: from a SOCKS5 request to the requests that carry
//! its data.
use crate::header::{header_bytes, header_or_empty, text_or_empty};
use crate::socks5::{address_reply, success_reply, Request};
use crate::text::{
    decimal, decimal_of, joined, law_split_joined, law_splitn_joined, lemma_decimal_without, split,
    splitn,
};
use crate::tunnel::{
    ascii_bytes, authorized, first_with_prefix, is_header_char, law_header_text_round_trip,
    law_route, law_session_header_round_trip, route_of, seq_of, session_of, target_of, RequestHead,
};
use vstd::prelude::*;
use vstd::slice::slice_to_vec;
use vstd::string::*;

verus! {

/// How many bytes of a client's first data go with the connect request at most.
pub const FIRST_DATA_LEN: usize = 4096;

/// How long the client's first data is waited for, in milliseconds.
pub const FIRST_DATA_MILLIS: u64 = 50;

/// How many data requests of one session are under way at a time.
pub const MAX_UPLOADS: usize = 16;

/// How long a chunk waits before it is tried again to send it, in milliseconds.
pub const UPLOAD_POLL_MILLIS: u64 = 10;

/// How long the bridge waits before it connects again, in seconds.
pub const RECONNECT_SECS: u64 = 3;

/// How long the connection may take to be made, in seconds.
pub const HANDSHAKE_SECS: u64 = 10;

/// How long the connection may be silent before it is given up, in seconds.
pub const MAX_IDLE_SECS: u64 = 60;

/// How often the connection is kept alive, in seconds.
pub const KEEPALIVE_SECS: u64 = 10;

/// The head of a request to the tunnel server.
pub struct TunnelRequest {
    pub method: String,
    pub uri: String,
    pub headers: Vec<(String, String)>,
}

/// What follows a client's SOCKS5 request.
pub enum Decision {
    /// The client is dropped without an answer.
    Drop,
    /// The client is dropped with this answer.
    Refuse(Vec<u8>),
    /// A tunnel to this `host:port` is to be opened.
    Open(String),
}

/// What happens to the connection to the server; `C` sends requests over it.
pub enum LinkEvent<C> {
    /// It was made.
    Connected(C),
    /// It could not be made.
    NotConnected,
    /// It is over.
    Closed,
}

/// The connection to the server, if there is one.
pub struct Link<C> {
    client: Option<C>,
}

impl<C> View for Link<C> {
    type V = Option<C>;

    closed spec fn view(&self) -> Option<C> {
        self.client
    }
}

/// What came of a read from the client.
pub enum ClientRead {
    Data(Vec<u8>),
    Failed,
    TimedOut,
}

/// What came of a data request.
pub enum Upload {
    /// The request could not be sent.
    NotSent,
    /// The request was sent, and no answer came.
    NoAnswer,
    /// The answer had this status.
    Answered(u16),
}

/// Whether a chunk can be sent.
pub enum Gate {
    /// It is to be sent now.
    Go,
    /// Too many are under way: try again after a while.
    Wait,
    /// The upload has failed; nothing more is sent.
    Stop,
}

/// A session on the server, and the number of its next chunk.
pub struct Uploader {
    session: String,
    next: u64,
}

/// The names and values of headers, as texts.
pub open spec fn header_texts(headers: Seq<(String, String)>) -> Seq<(Seq<char>, Seq<char>)> {
    headers.map_values(|h: (String, String)| (h.0@, h.1@))
}

/// The URI of a connect request.
pub open spec fn connect_uri(server_name: Seq<char>) -> Seq<char> {
    "https://"@ + server_name + "/tunnel/connect"@
}

/// The query of a data request.
pub open spec fn data_query(session: Seq<char>, seq: u64) -> Seq<char> {
    "sid="@ + session + "&seq="@ + decimal(seq as nat)
}

/// The URI of a data request.
pub open spec fn data_uri(server_name: Seq<char>, session: Seq<char>, seq: u64) -> Seq<char> {
    "https://"@ + server_name + "/tunnel/data?"@ + data_query(session, seq)
}

/// Decides on a client's request: this bridge carries no IPv6 targets.
pub fn decide_request(request: Request) -> (d: Decision)
    ensures
        match request {
            Request::Invalid => d is Drop,
            Request::Target(t) => d matches Decision::Open(target) && target == t,
            Request::Ipv6 { .. } => d matches Decision::Refuse(reply) && reply@ == seq![
                5u8,
                8,
                0,
                1,
                0,
                0,
                0,
                0,
                0,
                0,
            ],
        },
{
    match request {
        Request::Invalid => Decision::Drop,
        Request::Target(t) => Decision::Open(t),
        Request::Ipv6 { .. } => Decision::Refuse(address_reply()),
    }
}

/// Decides on opening a tunnel: without a connection to the server, a client that asks for one
/// is dropped.
pub fn open_tunnel(d: Decision, connected: bool) -> (r: Decision)
    ensures
        (d is Open && !connected) ==> r is Drop,
        !(d is Open && !connected) ==> r == d,
{
    match d {
        Decision::Open(target) => if connected {
            Decision::Open(target)
        } else {
            Decision::Drop
        },
        other => other,
    }
}

/// What a client is sent: success, ahead of the server's answer, where a tunnel is to be
/// opened for it.
pub fn client_reply(d: &Decision) -> (reply: Option<Vec<u8>>)
    ensures
        match *d {
            Decision::Drop => reply is None,
            Decision::Refuse(bytes) => reply matches Some(out) && out@ == bytes@,
            Decision::Open(target) => reply matches Some(out) && out@ == seq![
                5u8,
                0,
                0,
                1,
                0,
                0,
                0,
                0,
                0,
                0,
            ],
        },
{
    match d {
        Decision::Drop => None,
        Decision::Refuse(bytes) => Some(slice_to_vec(bytes.as_slice())),
        Decision::Open(_) => Some(success_reply()),
    }
}

/// How long to wait before the connection to the server is made again; a connection that
/// stands is not made again.
pub fn on_link(connected: bool) -> (wait: Option<u64>)
    ensures
        match wait {
            Some(s) => !connected && s == RECONNECT_SECS,
            None => connected,
        },
{
    if connected {
        None
    } else {
        Some(RECONNECT_SECS)
    }
}

impl<C> Link<C> {
    /// No connection.
    pub fn new() -> (link: Link<C>)
        ensures
            link@ is None,
    {
        Link { client: None }
    }

    /// What sends requests over the connection.
    pub fn client(&self) -> (client: Option<&C>)
        ensures
            match client {
                Some(c) => self@ == Some(*c),
                None => self@ is None,
            },
    {
        self.client.as_ref()
    }

    /// Decides what follows an event: whatever ends the connection, or keeps it from being
    /// made, leaves none, and after a wait a new one is to be made. There is nothing that
    /// ends the attempts.
    pub fn on_event(&mut self, event: LinkEvent<C>) -> (wait: Option<u64>)
        ensures
            match event {
                LinkEvent::Connected(c) => final(self)@ == Some(c) && wait is None,
                _ => final(self)@ is None && wait == Some(RECONNECT_SECS),
            },
    {
        self.client = match event {
            LinkEvent::Connected(c) => Some(c),
            LinkEvent::NotConnected => None,
            LinkEvent::Closed => None,
        };
        on_link(self.client.is_some())
    }
}

/// The client's first data: nothing where none came in time.
pub fn first_data(read: ClientRead) -> (data: Vec<u8>)
    ensures
        match read {
            ClientRead::Data(d) => data == d,
            _ => data@.len() == 0,
        },
{
    match read {
        ClientRead::Data(d) => d,
        ClientRead::Failed => Vec::new(),
        ClientRead::TimedOut => Vec::new(),
    }
}

/// The request that opens a tunnel.
pub fn connect_request(server_name: &str, target: &str, password: &str, body_len: u64) -> (r:
    TunnelRequest)
    ensures
        r.method@ == "POST"@,
        r.uri@ == connect_uri(server_name@),
        header_texts(r.headers@) == seq![
            ("x-target"@, target@),
            ("x-auth"@, password@),
            ("content-length"@, decimal(body_len as nat)),
        ],
{
    let mut uri = "https://".to_string();
    uri.append(server_name);
    uri.append("/tunnel/connect");
    let mut headers: Vec<(String, String)> = Vec::new();
    headers.push(("x-target".to_string(), target.to_string()));
    headers.push(("x-auth".to_string(), password.to_string()));
    headers.push(("content-length".to_string(), decimal_of(body_len)));
    assert(header_texts(headers@) =~= seq![
        ("x-target"@, target@),
        ("x-auth"@, password@),
        ("content-length"@, decimal(body_len as nat)),
    ]);
    TunnelRequest { method: "POST".to_string(), uri, headers }
}

/// Begins the upload to a new session, by the answer to the connect request: any
/// status but 200 means that there is no session.
pub fn connected(status: u16, session: &Option<Vec<u8>>) -> (u: Option<Uploader>)
    ensures
        match u {
            Some(up) => {
                &&& status == 200
                &&& up.session() == header_or_empty(header_bytes(*session))
                &&& up.next() == 0
            },
            None => status != 200,
        },
{
    if status == 200 {
        Some(Uploader { session: text_or_empty(session), next: 0 })
    } else {
        None
    }
}

/// Whether a read from the client goes on as an upload; the end of its data and a
/// failure end the upload.
pub fn upload_data(read: ClientRead) -> (data: Option<Vec<u8>>)
    ensures
        match read {
            ClientRead::Data(d) => match data {
                Some(out) => out == d && d@.len() > 0,
                None => d@.len() == 0,
            },
            _ => data is None,
        },
{
    match read {
        ClientRead::Data(d) => if d.len() == 0 {
            None
        } else {
            Some(d)
        },
        ClientRead::Failed => None,
        ClientRead::TimedOut => None,
    }
}

/// Whether what came of one data request stops the whole upload.
pub fn upload_failed(upload: &Upload) -> (failed: bool)
    ensures
        failed == match *upload {
            Upload::NotSent => true,
            Upload::NoAnswer => false,
            Upload::Answered(status) => status != 200,
        },
{
    match upload {
        Upload::NotSent => true,
        Upload::NoAnswer => false,
        Upload::Answered(status) => *status != 200,
    }
}

/// Decides whether the next chunk can be sent, when `under_way` others are being sent.
pub fn gate(failed: bool, under_way: usize) -> (g: Gate)
    ensures
        match g {
            Gate::Stop => failed,
            Gate::Go => !failed && under_way < MAX_UPLOADS,
            Gate::Wait => !failed && under_way >= MAX_UPLOADS,
        },
{
    if failed {
        Gate::Stop
    } else if under_way < MAX_UPLOADS {
        Gate::Go
    } else {
        Gate::Wait
    }
}

impl Uploader {
    /// The session, as the server named it.
    pub closed spec fn session(&self) -> Seq<char> {
        self.session@
    }

    /// The number of the next chunk.
    pub closed spec fn next(&self) -> u64 {
        self.next
    }

    /// Whether there is a number for another chunk.
    pub fn has_next(&self) -> (yes: bool)
        ensures
            yes == (self.next() < u64::MAX),
    {
        self.next < u64::MAX
    }

    /// The request for the next chunk, `len` bytes long. Chunks are numbered from zero on,
    /// without gaps.
    pub fn next_request(&mut self, server_name: &str, len: u64) -> (r: TunnelRequest)
        requires
            old(self).next() < u64::MAX,
        ensures
            final(self).next() == old(self).next() + 1,
            final(self).session() == old(self).session(),
            r.method@ == "POST"@,
            r.uri@ == data_uri(server_name@, old(self).session(), old(self).next()),
            header_texts(r.headers@) == seq![
                ("x-session-id"@, old(self).session()),
                ("content-length"@, decimal(len as nat)),
            ],
    {
        let seq: u64 = self.next;
        self.next = seq + 1;
        let mut query = "sid=".to_string();
        query.append(self.session.as_str());
        query.append("&seq=");
        query.append(decimal_of(seq).as_str());
        let mut uri = "https://".to_string();
        uri.append(server_name);
        uri.append("/tunnel/data?");
        uri.append(query.as_str());
        let mut headers: Vec<(String, String)> = Vec::new();
        headers.push(("x-session-id".to_string(), self.session.clone()));
        headers.push(("content-length".to_string(), decimal_of(len)));
        assert(header_texts(headers@) =~= seq![
            ("x-session-id"@, self.session@),
            ("content-length"@, decimal(len as nat)),
        ]);
        TunnelRequest { method: "POST".to_string(), uri, headers }
    }
}

/// The server reads from the query of a data request the number that the client wrote
/// into it.
pub proof fn law_seq_round_trip(session: Seq<char>, seq: u64)
    requires
        !session.contains('&'),
    ensures
        seq_of(Some(data_query(session, seq))) == seq,
{
    reveal_strlit("sid=");
    reveal_strlit("&seq=");
    reveal_strlit("seq=");
    let q = data_query(session, seq);
    let num = decimal(seq as nat);
    let i: int = 4 + session.len() as int;
    crate::text::lemma_decimal(seq as nat);
    assert forall|j: int| 0 <= j < i implies #[trigger] q[j] != '&' by {
        if j >= 4 {
            assert(q[j] == session[j - 4]);
        }
    }
    assert(q[i] == '&');
    crate::text::lemma_first_pos_unique(q, '&', i);
    let p0 = q.take(i);
    let p1 = q.skip(i + 1);
    assert(p1 =~= "seq="@ + num);
    assert forall|j: int| 0 <= j < p1.len() implies #[trigger] p1[j] != '&' by {
        if j >= 4 {
            assert(crate::text::is_digit(num[j - 4]));
        }
    }
    crate::text::lemma_first_pos_unique(p1, '&', p1.len() as int);
    assert(split(p1, '&') =~= seq![p1]);
    assert(split(q, '&') =~= seq![p0, p1]);
    assert(p0[1] == 'i');
    assert(!"seq="@.is_prefix_of(p0)) by {
        if "seq="@.is_prefix_of(p0) {
            assert(p0.subrange(0, 4)[1] == "seq="@[1]);
        }
    }
    assert("seq="@ =~= p1.subrange(0, 4));
    assert(seq![p0, p1].drop_first() =~= seq![p1]);
    assert(first_with_prefix(seq![p1], "seq="@) == Some(p1));
    assert(first_with_prefix(split(q, '&'), "seq="@) == Some(p1));
    assert(p1.skip(4) =~= num);
    crate::text::law_decimal_round_trip(seq as nat);
}

/// A data request names, at the server, the session that the server opened and the number
/// that the client gave the chunk.
pub proof fn law_upload_finds_session(id: u64, seq: u64)
    ensures
        session_of(Some(ascii_bytes(decimal(id as nat)))) == id,
        seq_of(Some(data_query(decimal(id as nat), seq))) == seq,
{
    law_session_header_round_trip(id);
    lemma_decimal_without(id as nat, '&');
    law_seq_round_trip(decimal(id as nat), seq);
}

/// The server reads from a connect request the target that the client wrote into it, and
/// lets it in exactly where it has no password or the client's.
pub proof fn law_connect_headers_round_trip(
    head: RequestHead,
    target: Seq<char>,
    password: Seq<char>,
    server_password: Seq<char>,
)
    requires
        forall|i: int| 0 <= i < target.len() ==> is_header_char(#[trigger] target[i]),
        forall|i: int| 0 <= i < password.len() ==> is_header_char(#[trigger] password[i]),
        header_bytes(head.target) == Some(ascii_bytes(target)),
        header_bytes(head.auth) == Some(ascii_bytes(password)),
    ensures
        target_of(head) == target,
        authorized(head, server_password) == (server_password.len() == 0 || server_password
            == password),
{
    law_header_text_round_trip(target);
    law_header_text_round_trip(password);
}

/// The URI of a connect request is that of the path `/tunnel/connect` at the server, which the
/// server takes for a connect request.
pub proof fn law_connect_uri(server_name: Seq<char>)
    requires
        !server_name.contains('/'),
    ensures
        connect_uri(server_name).take(8) == "https://"@,
        splitn(connect_uri(server_name).skip(8), 2, '/') == seq![server_name, "tunnel/connect"@],
        route_of("/"@ + "tunnel/connect"@) is Connect,
{
    reveal_strlit("https://");
    reveal_strlit("/");
    reveal_strlit("tunnel/connect");
    reveal_strlit("/tunnel/connect");
    let uri = connect_uri(server_name);
    let pieces = seq![server_name, "tunnel/connect"@];
    assert(uri.take(8) =~= "https://"@);
    assert(pieces.drop_first() =~= seq!["tunnel/connect"@]);
    assert(joined(pieces.drop_first(), '/') == "tunnel/connect"@);
    assert(uri.skip(8) =~= joined(pieces, '/'));
    law_splitn_joined(pieces, 2, '/');
    law_route(Seq::empty());
    assert("/"@ + "tunnel/connect"@ =~= "/tunnel/connect"@ + Seq::empty());
}

/// The URI of a data request is that of the path `/tunnel/data` at the server, with a query of
/// the session and the chunk number; the server takes the path for a data request.
pub proof fn law_data_uri(server_name: Seq<char>, session: Seq<char>, seq: u64)
    requires
        !server_name.contains('/'),
    ensures
        data_uri(server_name, session, seq).take(8) == "https://"@,
        splitn(data_uri(server_name, session, seq).skip(8), 2, '/') == seq![
            server_name,
            "tunnel/data?"@ + data_query(session, seq),
        ],
        route_of("/"@ + ("tunnel/data?"@ + data_query(session, seq))) is Data,
        splitn("/"@ + ("tunnel/data?"@ + data_query(session, seq)), 2, '?') == seq![
            "/tunnel/data"@,
            data_query(session, seq),
        ],
{
    reveal_strlit("https://");
    reveal_strlit("/");
    reveal_strlit("?");
    reveal_strlit("tunnel/data?");
    reveal_strlit("/tunnel/data?");
    reveal_strlit("/tunnel/data");
    let uri = data_uri(server_name, session, seq);
    let query = data_query(session, seq);
    let rest = "tunnel/data?"@ + query;
    let pieces = seq![server_name, rest];
    assert(uri.take(8) =~= "https://"@);
    assert(pieces.drop_first() =~= seq![rest]);
    assert(joined(pieces.drop_first(), '/') == rest);
    assert(uri.skip(8) =~= joined(pieces, '/'));
    law_splitn_joined(pieces, 2, '/');
    law_route("?"@ + query);
    let path = "/"@ + rest;
    assert(path =~= "/tunnel/data"@ + ("?"@ + query));
    let parts = seq!["/tunnel/data"@, query];
    assert(parts.drop_first() =~= seq![query]);
    assert(joined(parts.drop_first(), '?') == query);
    assert(path =~= joined(parts, '?'));
    law_splitn_joined(parts, 2, '?');
}

/// The query of a data request holds the session and the chunk number, in that order.
pub proof fn law_data_query(session: Seq<char>, seq: u64)
    requires
        !session.contains('&'),
    ensures
        split(data_query(session, seq), '&') == seq![
            "sid="@ + session,
            "seq="@ + decimal(seq as nat),
        ],
{
    reveal_strlit("sid=");
    reveal_strlit("seq=");
    reveal_strlit("&seq=");
    let first = "sid="@ + session;
    let second = "seq="@ + decimal(seq as nat);
    let pieces = seq![first, second];
    lemma_decimal_without(seq as nat, '&');
    assert forall|j: int| 0 <= j < first.len() implies #[trigger] first[j] != '&' by {
        if j >= 4 {
            assert(first[j] == session[j - 4]);
        }
    }
    assert forall|j: int| 0 <= j < second.len() implies #[trigger] second[j] != '&' by {
        if j >= 4 {
            assert(second[j] == decimal(seq as nat)[j - 4]);
        }
    }
    assert(pieces.drop_first() =~= seq![second]);
    assert(joined(pieces.drop_first(), '&') == second);
    assert(data_query(session, seq) =~= joined(pieces, '&'));
    law_split_joined(pieces, '&');
}

/// The names and values of headers are those of the headers, one by one.
pub proof fn law_header_texts(headers: Seq<(String, String)>)
    ensures
        header_texts(headers).len() == headers.len(),
        forall|i: int|
            0 <= i < headers.len() ==> #[trigger] header_texts(headers)[i] == (
                headers[i].0@,
                headers[i].1@,
            ),
{
}

/// The times and sizes of the client end.
pub proof fn law_client_limits()
    ensures
        FIRST_DATA_LEN == 4096,
        FIRST_DATA_MILLIS == 50,
        MAX_UPLOADS == 16,
        UPLOAD_POLL_MILLIS == 10,
        RECONNECT_SECS == 3,
        HANDSHAKE_SECS == 10,
        MAX_IDLE_SECS == 60,
        KEEPALIVE_SECS == 10,
{
}

/// The URI of either request is `https://`, the server, the path and the query, whatever the
/// server and the session are called; the query is its two parts with an `&` between them.
pub proof fn law_uris(server_name: Seq<char>, session: Seq<char>, seq: u64)
    ensures
        connect_uri(server_name).take(8) == "https://"@,
        connect_uri(server_name).skip(8) == server_name + "/tunnel/connect"@,
        data_uri(server_name, session, seq).take(8) == "https://"@,
        data_uri(server_name, session, seq).skip(8) == server_name + joined(
            seq!["/tunnel/data"@, data_query(session, seq)],
            '?',
        ),
        data_query(session, seq) == joined(
            seq!["sid="@ + session, "seq="@ + decimal(seq as nat)],
            '&',
        ),
{
    reveal_strlit("https://");
    reveal_strlit("/tunnel/connect");
    reveal_strlit("/tunnel/data?");
    reveal_strlit("/tunnel/data");
    reveal_strlit("sid=");
    reveal_strlit("&seq=");
    reveal_strlit("seq=");
    let query = data_query(session, seq);
    let number = "seq="@ + decimal(seq as nat);
    let path = seq!["/tunnel/data"@, query];
    let parts = seq!["sid="@ + session, number];
    assert(path.drop_first() =~= seq![query]);
    assert(joined(seq![query], '?') == query);
    assert(parts.drop_first() =~= seq![number]);
    assert(joined(seq![number], '&') == number);
    assert(connect_uri(server_name).take(8) =~= "https://"@);
    assert(connect_uri(server_name).skip(8) =~= server_name + "/tunnel/connect"@);
    assert(data_uri(server_name, session, seq).take(8) =~= "https://"@);
    assert(data_uri(server_name, session, seq).skip(8) =~= server_name + joined(path, '?'));
    assert(query =~= joined(parts, '&'));
}

/// The server routes the path of every data request of the client to data, and that of every
/// connect request to connect, whatever the session and the chunk number are.
pub proof fn law_requests_are_routed(session: Seq<char>, seq: u64)
    ensures
        route_of(joined(seq!["/tunnel/data"@, data_query(session, seq)], '?')) is Data,
        route_of("/tunnel/connect"@) is Connect,
{
    reveal_strlit("/tunnel/data");
    let query = data_query(session, seq);
    let path = seq!["/tunnel/data"@, query];
    assert(path.drop_first() =~= seq![query]);
    assert(joined(seq![query], '?') == query);
    law_route(seq!['?'] + query);
    assert(joined(path, '?') =~= "/tunnel/data"@ + (seq!['?'] + query));
    law_route(Seq::empty());
    assert("/tunnel/connect"@ + Seq::empty() =~= "/tunnel/connect"@);
}

} // verus!
