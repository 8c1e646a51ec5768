//! The server end of the HTTP tunnel: what each request asks for, when it is refused,
//! and what is answered.
use crate::header::{ascii_text, header_bytes, header_or_empty, is_header_text, text_or_empty};
use crate::inbox::{Inbox, Receipt};
use crate::sessions::{id_after, SessionTable};
use crate::text::{
    chars_of, decimal_of, number_or_zero, parse_or_zero, same_text, split, split_all, starts_with,
    string_of, texts,
};
use vstd::prelude::*;
use vstd::slice::slice_subrange;
use vstd::string::*;

verus! {

/// How long the server waits for the first bytes from a target, in seconds.
pub const FIRST_ANSWER_SECS: u64 = 10;

/// How long a pause from a target ends its first answer, in milliseconds.
pub const ANSWER_IDLE_MILLIS: u64 = 50;

/// How many bytes one read from a session's target takes at most.
pub const PIPE_READ_LEN: usize = 65536;

/// How many streams a client may have open on one connection.
pub const MAX_STREAMS: u32 = 256;

/// How many bytes a client may send ahead on one stream.
pub const STREAM_WINDOW: u32 = 4_194_304;

/// How many bytes a client may send ahead on one connection.
pub const CONNECTION_WINDOW: u32 = 33_554_432;

/// What the server reads of a request's head.
pub struct RequestHead {
    /// The path with the query, empty where the request has none.
    pub path: String,
    /// The query.
    pub query: Option<String>,
    /// The bytes of the header `x-target`.
    pub target: Option<Vec<u8>>,
    /// The bytes of the header `x-auth`.
    pub auth: Option<Vec<u8>>,
    /// The bytes of the header `x-session-id`.
    pub session_id: Option<Vec<u8>>,
}

/// What a request asks for.
pub enum Route {
    Connect,
    Data,
    Close,
    Unknown,
}

/// A whole answer: a status and a text as body.
pub struct Reply {
    pub status: u16,
    pub body: String,
}

/// A target to connect to, through a proxy where there is one.
pub struct Dial {
    pub target: String,
    pub proxy: Option<String>,
}

/// An opened session and the first bytes from its target.
pub struct Opened {
    pub id: u64,
    pub data: Vec<u8>,
}

/// What came of a read from a session's target.
pub enum PipeRead {
    Data(Vec<u8>),
    Failed,
    TimedOut,
}

/// What follows a read from a session's target.
pub enum PipeStep {
    /// These bytes go to the client.
    Forward(Vec<u8>),
    /// The answer to the client ends, and so does the session.
    End,
}

/// How a data request ends.
pub struct DataEnd {
    /// Whether the session counts as active now.
    pub touch: bool,
    /// The answer; without one the request is dropped.
    pub reply: Option<Reply>,
}

impl Reply {
    /// The answer's status and text.
    pub open spec fn is(self, status: u16, body: Seq<char>) -> bool {
        self.status == status && self.body@ == body
    }
}

/// What the path of a request asks for.
pub open spec fn route_of(path: Seq<char>) -> Route {
    if "/tunnel/connect"@.is_prefix_of(path) {
        Route::Connect
    } else if "/tunnel/data"@.is_prefix_of(path) {
        Route::Data
    } else if "/tunnel/close"@.is_prefix_of(path) {
        Route::Close
    } else {
        Route::Unknown
    }
}

/// The target that a request names, empty where it names none.
pub open spec fn target_of(head: RequestHead) -> Seq<char> {
    header_or_empty(header_bytes(head.target))
}

/// Whether a request may use a server with this password; an empty password lets every
/// request in.
pub open spec fn authorized(head: RequestHead, password: Seq<char>) -> bool {
    password.len() == 0 || header_or_empty(header_bytes(head.auth)) == password
}

/// The session number in a header value, zero where there is none.
pub open spec fn session_of(raw: Option<Seq<u8>>) -> nat {
    number_or_zero(header_or_empty(raw), u64::MAX as nat)
}

/// The first of the pieces that begins with `prefix`.
pub open spec fn first_with_prefix(pieces: Seq<Seq<char>>, prefix: Seq<char>) -> Option<Seq<char>>
    decreases pieces.len(),
{
    if pieces.len() == 0 {
        None
    } else if prefix.is_prefix_of(pieces[0]) {
        Some(pieces[0])
    } else {
        first_with_prefix(pieces.drop_first(), prefix)
    }
}

/// The chunk number in a query, zero where there is none: what follows `seq=` in the
/// first piece that begins so.
pub open spec fn seq_of(query: Option<Seq<char>>) -> nat {
    match query {
        Some(q) => match first_with_prefix(split(q, '&'), "seq="@) {
            Some(p) => number_or_zero(p.skip(4), u64::MAX as nat),
            None => 0,
        },
        None => 0,
    }
}

/// The text of an optional query.
pub open spec fn query_text(query: Option<String>) -> Option<Seq<char>> {
    match query {
        Some(q) => Some(q@),
        None => None,
    }
}

/// What the path of a request asks for.
pub fn route(path: &str) -> (r: Route)
    ensures
        r == route_of(path@),
{
    if starts_with(path, "/tunnel/connect") {
        Route::Connect
    } else if starts_with(path, "/tunnel/data") {
        Route::Data
    } else if starts_with(path, "/tunnel/close") {
        Route::Close
    } else {
        Route::Unknown
    }
}

/// Decides on a connect request: it is refused where it names no target and where it
/// is not authorized; otherwise its target is to be dialled, through the proxy where
/// the server has one.
pub fn decide_connect(head: &RequestHead, password: &str, proxy: &str) -> (r: Result<Dial, Reply>)
    ensures
        match r {
            Ok(dial) => {
                &&& target_of(*head).len() > 0
                &&& authorized(*head, password@)
                &&& dial.target@ == target_of(*head)
                &&& match dial.proxy {
                    Some(p) => proxy@.len() > 0 && p@ == proxy@,
                    None => proxy@.len() == 0,
                }
            },
            Err(reply) => {
                if target_of(*head).len() == 0 {
                    reply.is(400, "no target"@)
                } else {
                    !authorized(*head, password@) && reply.is(403, "bad auth"@)
                }
            },
        },
{
    let target = text_or_empty(&head.target);
    if target.as_str().is_empty() {
        return Err(Reply { status: 400, body: "no target".to_string() });
    }
    let auth = text_or_empty(&head.auth);
    if !password.is_empty() && !same_text(auth.as_str(), password) {
        return Err(Reply { status: 403, body: "bad auth".to_string() });
    }
    let proxy = if proxy.is_empty() {
        None
    } else {
        Some(proxy.to_string())
    };
    Ok(Dial { target, proxy })
}

impl Dial {
    /// The refusal of a connect request whose target could not be reached.
    pub fn failed(&self, error: &str) -> (reply: Reply)
        ensures
            reply.is(
                502,
                (if self.proxy is Some {
                    "socks5: "@
                } else {
                    "connect: "@
                }) + error@,
            ),
    {
        let prefix = match self.proxy {
            Some(_) => "socks5: ",
            None => "connect: ",
        };
        let mut body = prefix.to_string();
        body.append(error);
        Reply { status: 502, body }
    }
}

/// The part of a connect request's body that goes to the target first.
pub fn initial_bytes(body: Vec<u8>) -> (out: Option<Vec<u8>>)
    ensures
        match out {
            Some(b) => b == body && body@.len() > 0,
            None => body@.len() == 0,
        },
{
    if body.len() == 0 {
        None
    } else {
        Some(body)
    }
}

/// Decides on a target's first answer: without one the request is refused, and no
/// session is opened; otherwise the session is opened under the next number.
pub fn first_answer<S>(table: &mut SessionTable<S>, data: Vec<u8>, session: S) -> (r: Result<
    Opened,
    Reply,
>)
    ensures
        match r {
            Ok(opened) => {
                &&& data@.len() > 0
                &&& opened.data == data
                &&& opened.id == old(table).next_id()
                &&& final(table)@ == old(table)@.insert(opened.id, session)
                &&& final(table).next_id() == id_after(opened.id)
            },
            Err(reply) => {
                &&& data@.len() == 0
                &&& reply.is(504, "no response"@)
                &&& final(table)@ == old(table)@
                &&& final(table).next_id() == old(table).next_id()
            },
        },
{
    if data.len() == 0 {
        return Err(Reply { status: 504, body: "no response".to_string() });
    }
    let id = table.open(session);
    Ok(Opened { id, data })
}

impl Opened {
    /// The value of the answer's header `x-session-id`.
    pub fn session_header(&self) -> (value: String)
        ensures
            value@ == crate::text::decimal(self.id as nat),
    {
        decimal_of(self.id)
    }
}

/// Decides what follows a read from a session's target: bytes go on to the client, and
/// anything else, the end of the target's data among it, ends the session.
pub fn pipe_step(read: PipeRead) -> (step: PipeStep)
    ensures
        match step {
            PipeStep::Forward(out) => read matches PipeRead::Data(bytes) && bytes@.len() > 0 && out
                == bytes,
            PipeStep::End => read matches PipeRead::Data(bytes) ==> bytes@.len() == 0,
        },
{
    match read {
        PipeRead::Data(bytes) => if bytes.len() == 0 {
            PipeStep::End
        } else {
            PipeStep::Forward(bytes)
        },
        PipeRead::Failed => PipeStep::End,
        PipeRead::TimedOut => PipeStep::End,
    }
}

/// The chunk number in a query.
pub fn parse_seq(query: &Option<String>) -> (n: u64)
    ensures
        n == seq_of(query_text(*query)),
{
    let q = match query {
        Some(q) => q,
        None => return 0,
    };
    let pieces = split_all(chars_of(q.as_str()).as_slice(), '&');
    let ghost all = split(q@, '&');
    let ghost prefix = "seq="@;
    let mut i: usize = 0;
    assert(texts(pieces@).skip(0) =~= all);
    while i < pieces.len()
        invariant
            0 <= i <= pieces@.len(),
            prefix == "seq="@,
            all == texts(pieces@),
            first_with_prefix(all, prefix) == first_with_prefix(all.skip(i as int), prefix),
            all == split(q@, '&'),
            *query == Some(*q),
        decreases pieces@.len() - i,
    {
        assert(all.skip(i as int)[0] == pieces@[i as int]@);
        if starts_with(pieces[i].as_str(), "seq=") {
            let chars = chars_of(pieces[i].as_str());
            proof {
                reveal_strlit("seq=");
            }
            let number = string_of(slice_subrange(chars.as_slice(), 4, chars.len()));
            assert(number@ =~= pieces@[i as int]@.skip(4));
            return parse_or_zero(number.as_str(), u64::MAX);
        }
        assert(all.skip(i as int).drop_first() =~= all.skip(i + 1));
        i += 1;
    }
    0
}

/// The session number in a header value.
pub fn parse_session(raw: &Option<Vec<u8>>) -> (id: u64)
    ensures
        id == session_of(header_bytes(*raw)),
{
    parse_or_zero(text_or_empty(raw).as_str(), u64::MAX)
}

/// Finds the session and the chunk number of a data request; without such a session
/// the request is refused.
pub fn find_data<'a, S>(table: &'a SessionTable<S>, head: &RequestHead) -> (r: Result<
    (&'a S, u64),
    Reply,
>)
    ensures
        ({
            let id = session_of(header_bytes(head.session_id)) as u64;
            match r {
                Ok((session, seq)) => {
                    &&& table@.contains_key(id)
                    &&& *session == table@[id]
                    &&& seq == seq_of(query_text(head.query))
                },
                Err(reply) => !table@.contains_key(id) && reply.is(404, "session not found"@),
            }
        }),
{
    let id = parse_session(&head.session_id);
    let seq = parse_seq(&head.query);
    match table.get(id) {
        Some(session) => Ok((session, seq)),
        None => Err(Reply { status: 404, body: "session not found".to_string() }),
    }
}

/// Takes the body of a data request as chunk `seq` of its session; an empty body is no
/// chunk.
pub fn take_data(inbox: &mut Inbox, seq: u64, body: Vec<u8>) -> (receipt: Option<Receipt>)
    requires
        old(inbox)@.wf(),
        body@.len() > 0 ==> !old(inbox)@.exhausts(seq),
    ensures
        final(inbox)@.wf(),
        match receipt {
            Some(r) => body@.len() > 0 && (final(inbox)@, r@) == old(inbox)@.accept(seq, body@),
            None => body@.len() == 0 && final(inbox)@ == old(inbox)@,
        },
{
    if body.len() == 0 {
        None
    } else {
        Some(inbox.accept(seq, body))
    }
}

/// Ends a data request, by what became of its chunk; a request with an empty body has
/// none. All are answered alike but the one whose chunk found no room, which is dropped.
pub fn end_data(receipt: &Option<Receipt>) -> (end: DataEnd)
    ensures
        match *receipt {
            Some(Receipt::Overflow) => !end.touch && end.reply is None,
            _ => {
                &&& end.touch == (*receipt is Some)
                &&& end.reply matches Some(reply) && reply.is(200, "ok"@)
            },
        },
{
    match receipt {
        Some(Receipt::Overflow) => DataEnd { touch: false, reply: None },
        Some(_) => DataEnd {
            touch: true,
            reply: Some(Reply { status: 200, body: "ok".to_string() }),
        },
        None => DataEnd {
            touch: false,
            reply: Some(Reply { status: 200, body: "ok".to_string() }),
        },
    }
}

/// Closes the session that a close request names. Whether there was one or not, the
/// answer is the same.
pub fn close_session<S>(table: &mut SessionTable<S>, head: &RequestHead) -> (r: (Option<S>, Reply))
    ensures
        ({
            let id = session_of(header_bytes(head.session_id)) as u64;
            &&& final(table)@ == old(table)@.remove(id)
            &&& final(table).next_id() == old(table).next_id()
            &&& match r.0 {
                Some(s) => old(table)@.contains_key(id) && s == old(table)@[id],
                None => !old(table)@.contains_key(id),
            }
            &&& r.1.is(200, "ok"@)
        }),
{
    let id = parse_session(&head.session_id);
    (table.close(id), Reply { status: 200, body: "ok".to_string() })
}

/// The answer to a request for an unknown path.
pub fn unknown_path() -> (reply: Reply)
    ensures
        reply.is(404, "unknown path"@),
{
    Reply { status: 404, body: "unknown path".to_string() }
}

/// Whether a character may stand in a header value that is read as text.
pub open spec fn is_header_char(c: char) -> bool {
    32 <= c as int <= 126 || c as int == 9
}

/// The bytes of an ASCII text.
pub open spec fn ascii_bytes(text: Seq<char>) -> Seq<u8> {
    text.map_values(|c: char| c as u8)
}

/// A header value made of a text of such characters is read back as that text.
pub proof fn law_header_text_round_trip(text: Seq<char>)
    requires
        forall|i: int| 0 <= i < text.len() ==> is_header_char(#[trigger] text[i]),
    ensures
        header_or_empty(Some(ascii_bytes(text))) == text,
{
    let raw = ascii_bytes(text);
    assert forall|i: int| 0 <= i < raw.len() implies crate::header::is_header_text_byte(
        #[trigger] raw[i],
    ) by {
        assert(is_header_char(text[i]));
    }
    assert forall|i: int| 0 <= i < text.len() implies ascii_text(raw)[i] == #[trigger] text[i] by {
        assert(is_header_char(text[i]));
        assert(raw[i] as char == text[i]);
    }
    assert(is_header_text(raw));
    assert(ascii_text(raw) =~= text);
}

/// The session number that is handed out when a session is opened names that session
/// in later requests.
pub proof fn law_session_header_round_trip(id: u64)
    ensures
        session_of(Some(ascii_bytes(crate::text::decimal(id as nat)))) == id,
{
    let text = crate::text::decimal(id as nat);
    crate::text::lemma_decimal(id as nat);
    assert forall|i: int| 0 <= i < text.len() implies is_header_char(#[trigger] text[i]) by {
        assert(crate::text::is_digit(text[i]));
    }
    law_header_text_round_trip(text);
    crate::text::law_decimal_round_trip(id as nat);
}

/// A path that begins with `/tunnel/connect`, `/tunnel/data` or `/tunnel/close` asks for that,
/// whatever follows.
pub proof fn law_route(tail: Seq<char>)
    ensures
        route_of("/tunnel/connect"@ + tail) is Connect,
        route_of("/tunnel/data"@ + tail) is Data,
        route_of("/tunnel/close"@ + tail) is Close,
{
    reveal_strlit("/tunnel/connect");
    reveal_strlit("/tunnel/data");
    reveal_strlit("/tunnel/close");
    let connect = "/tunnel/connect"@ + tail;
    let data = "/tunnel/data"@ + tail;
    let close = "/tunnel/close"@ + tail;
    assert(connect.subrange(0, 15) =~= "/tunnel/connect"@);
    assert(data.subrange(0, 12) =~= "/tunnel/data"@);
    assert(close.subrange(0, 13) =~= "/tunnel/close"@);
    law_route_prefix(connect);
    law_route_prefix(data);
    law_route_prefix(close);
    assert(data[8] == 'd' && close[9] == 'l');
    assert("/tunnel/connect"@[8] == 'c' && "/tunnel/connect"@[9] == 'o');
    assert("/tunnel/data"@[8] == 'd' && close[8] == 'c');
    assert(data.len() >= 15 ==> data.take(15)[8] == 'd');
    assert(close.len() >= 15 ==> close.take(15)[9] == 'l');
    assert(close.take(12)[8] == 'c');
    assert(connect.take(15) =~= "/tunnel/connect"@);
    assert(data.take(12) =~= "/tunnel/data"@);
    assert(close.take(13) =~= "/tunnel/close"@);
}

/// A path asks for something exactly where it begins with the name of that; any other path
/// asks for nothing that is known.
pub proof fn law_route_prefix(path: Seq<char>)
    ensures
        route_of(path) is Connect <==> path.len() >= 15 && path.take(15) == "/tunnel/connect"@,
        route_of(path) is Data <==> path.len() >= 12 && path.take(12) == "/tunnel/data"@,
        route_of(path) is Close <==> path.len() >= 13 && path.take(13) == "/tunnel/close"@,
{
    reveal_strlit("/tunnel/connect");
    reveal_strlit("/tunnel/data");
    reveal_strlit("/tunnel/close");
    if path.len() >= 15 {
        assert(path.take(15) =~= path.subrange(0, 15));
        assert(path.take(15)[8] == path[8] && path.take(15)[9] == path[9]);
    }
    if path.len() >= 12 {
        assert(path.take(12) =~= path.subrange(0, 12));
        assert(path.take(12)[8] == path[8]);
    }
    if path.len() >= 13 {
        assert(path.take(13) =~= path.subrange(0, 13));
        assert(path.take(13)[8] == path[8] && path.take(13)[9] == path[9]);
    }
    assert("/tunnel/connect"@[8] == 'c' && "/tunnel/connect"@[9] == 'o');
    assert("/tunnel/data"@[8] == 'd');
    assert("/tunnel/close"@[8] == 'c' && "/tunnel/close"@[9] == 'l');
}

/// An answer with a status and a text has that status and that text.
pub proof fn law_reply(reply: Reply, status: u16, body: Seq<char>)
    ensures
        reply.is(status, body) <==> reply.status == status && reply.body@ == body,
{
}

/// A server without a password lets everyone in; one with a password lets in exactly the
/// requests whose header `x-auth` is, byte for byte, the password, in characters that a header
/// may hold as text.
pub proof fn law_authorized(head: RequestHead, password: Seq<char>)
    ensures
        password.len() == 0 ==> authorized(head, password),
        password.len() > 0 ==> (authorized(head, password) <==> {
            &&& head.auth is Some
            &&& head.auth->0@.len() == password.len()
            &&& forall|i: int|
                0 <= i < password.len() ==> {
                    &&& (#[trigger] password[i]) as int == head.auth->0@[i]
                    &&& is_header_char(password[i])
                }
        }),
{
    if password.len() > 0 {
        match head.auth {
            Some(raw) => {
                let b = raw@;
                crate::header::law_header_bytes(raw);
                if forall|i: int|
                    0 <= i < b.len() ==> 0x20 <= (#[trigger] b[i]) <= 0x7e || b[i] == 0x09 {
                    crate::header::law_header_text(b);
                    let text = header_or_empty(Some(b));
                    if text == password {
                        assert forall|i: int| 0 <= i < password.len() implies {
                            &&& (#[trigger] password[i]) as int == b[i]
                            &&& is_header_char(password[i])
                        } by {
                            assert(text[i] as int == b[i]);
                        }
                    }
                    if b.len() == password.len() && forall|i: int|
                        0 <= i < password.len() ==> (#[trigger] password[i]) as int == b[i] {
                        assert forall|i: int| 0 <= i < text.len() implies text[i]
                            == password[i] by {
                            assert(text[i] as int == b[i]);
                            assert(password[i] as int == b[i]);
                        }
                        assert(text =~= password);
                    }
                } else {
                    let i = choose|i: int|
                        0 <= i < b.len() && !(0x20 <= (#[trigger] b[i]) <= 0x7e || b[i] == 0x09);
                    crate::header::law_no_header_text(b, i);
                    assert(b.len() == password.len() ==> !(password[i] as int == b[i]
                        && is_header_char(password[i])));
                }
            },
            None => {},
        }
    }
}

/// The characters that a header may hold as text are those from the space to the tilde, and
/// the tab.
pub proof fn law_is_header_char(c: char)
    ensures
        is_header_char(c) <==> ' ' as int <= c as int <= '~' as int || c == '\t',
{
}

/// The target is what the header `x-target` says, character for character; without that header,
/// and where it holds anything but text, there is none.
pub proof fn law_target(head: RequestHead)
    ensures
        head.target matches Some(raw) ==> {
            if forall|i: int|
                0 <= i < raw@.len() ==> 0x20 <= (#[trigger] raw@[i]) <= 0x7e || raw@[i] == 0x09 {
                &&& target_of(head).len() == raw@.len()
                &&& forall|i: int|
                    0 <= i < raw@.len() ==> (#[trigger] target_of(head)[i]) as int == raw@[i]
            } else {
                target_of(head).len() == 0
            }
        },
        head.target is None ==> target_of(head).len() == 0,
{
    match head.target {
        Some(raw) => {
            let b = raw@;
            if forall|i: int|
                0 <= i < b.len() ==> 0x20 <= (#[trigger] b[i]) <= 0x7e || b[i] == 0x09 {
                crate::header::law_header_text(b);
            } else {
                let i = choose|i: int|
                    0 <= i < b.len() && !(0x20 <= (#[trigger] b[i]) <= 0x7e || b[i] == 0x09);
                crate::header::law_no_header_text(b, i);
            }
        },
        None => {},
    }
}

/// A header with the digits of a number names the session of that number, up to the largest
/// one; any other header, and none, names session zero.
pub proof fn law_session_of(text: Seq<char>)
    requires
        forall|i: int| 0 <= i < text.len() ==> is_header_char(#[trigger] text[i]),
    ensures
        session_of(Some(ascii_bytes(text))) == match crate::text::number(text) {
            Some(n) => if n <= 0xffff_ffff_ffff_ffff {
                n
            } else {
                0
            },
            None => 0,
        },
        session_of(None) == 0,
{
    law_header_text_round_trip(text);
    assert(crate::text::number(seq![]) is None);
    assert(header_or_empty(None) =~= seq![]);
}

/// A header that is no text names session zero.
pub proof fn law_session_of_no_text(raw: Seq<u8>, i: int)
    requires
        0 <= i < raw.len(),
        !(0x20 <= raw[i] <= 0x7e || raw[i] == 0x09),
    ensures
        session_of(Some(raw)) == 0,
{
    crate::header::law_no_header_text(raw, i);
    assert(header_or_empty(Some(raw)) =~= seq![]);
    assert(crate::text::number(seq![]) is None);
}

/// The bytes of an ASCII text are its characters.
pub proof fn law_ascii_bytes(text: Seq<char>)
    requires
        forall|i: int| 0 <= i < text.len() ==> 0 <= (#[trigger] text[i]) as int <= 0x7f,
    ensures
        ascii_bytes(text).len() == text.len(),
        forall|i: int| 0 <= i < text.len() ==> #[trigger] ascii_bytes(text)[i] == text[i] as int,
{
    assert forall|i: int| 0 <= i < text.len() implies #[trigger] ascii_bytes(text)[i]
        == text[i] as int by {
        assert(0 <= text[i] as int <= 0x7f);
    }
}

proof fn lemma_first_with_prefix(pieces: Seq<Seq<char>>, prefix: Seq<char>, i: int)
    requires
        0 <= i <= pieces.len(),
        i < pieces.len() ==> prefix.is_prefix_of(pieces[i]),
        forall|j: int| 0 <= j < i ==> !prefix.is_prefix_of(#[trigger] pieces[j]),
    ensures
        first_with_prefix(pieces, prefix) == if i < pieces.len() {
            Some(pieces[i])
        } else {
            None
        },
    decreases pieces.len(),
{
    if i > 0 {
        let rest = pieces.drop_first();
        assert(!prefix.is_prefix_of(pieces[0]));
        assert forall|j: int| 0 <= j < i - 1 implies !prefix.is_prefix_of(
            #[trigger] rest[j],
        ) by {
            assert(rest[j] == pieces[j + 1]);
        }
        lemma_first_with_prefix(rest, prefix, i - 1);
    }
}

/// Whether a piece of a query is the one of the chunk number.
pub open spec fn is_seq_piece(piece: Seq<char>) -> bool {
    piece.len() >= 4 && piece[0] == 's' && piece[1] == 'e' && piece[2] == 'q' && piece[3] == '='
}

/// Of a query of pieces with `&` between them, the first that begins with `seq=` gives the
/// chunk number: what follows in it, and zero where that is no number up to the largest one.
/// Where no piece begins so (`i` is then the number of pieces), and without a query, it is zero.
pub proof fn law_seq_of(pieces: Seq<Seq<char>>, i: int)
    requires
        pieces.len() > 0,
        forall|j: int| 0 <= j < pieces.len() ==> !(#[trigger] pieces[j]).contains('&'),
        0 <= i <= pieces.len(),
        i < pieces.len() ==> is_seq_piece(pieces[i]),
        forall|j: int| 0 <= j < i ==> !is_seq_piece(#[trigger] pieces[j]),
    ensures
        seq_of(Some(crate::text::joined(pieces, '&'))) == if i == pieces.len() {
            0
        } else {
            match crate::text::number(pieces[i].skip(4)) {
                Some(n) => if n <= 0xffff_ffff_ffff_ffff {
                    n
                } else {
                    0
                },
                None => 0,
            }
        },
        seq_of(None) == 0,
{
    reveal_strlit("seq=");
    crate::text::law_split_joined(pieces, '&');
    assert forall|j: int| 0 <= j < pieces.len() implies "seq="@.is_prefix_of(#[trigger] pieces[j])
        == is_seq_piece(pieces[j]) by {
        let p = pieces[j];
        if p.len() >= 4 {
            assert(p.subrange(0, 4)[0] == p[0] && p.subrange(0, 4)[1] == p[1]
                && p.subrange(0, 4)[2] == p[2] && p.subrange(0, 4)[3] == p[3]);
            if is_seq_piece(p) {
                assert(p.subrange(0, 4) =~= "seq="@);
            }
        }
    }
    lemma_first_with_prefix(pieces, "seq="@, i);
}

/// The text of a query is its text, and no query has none.
pub proof fn law_query_text(query: String)
    ensures
        query_text(Some(query)) == Some(query@),
        query_text(None) is None,
{
}

/// The times and sizes of the server end.
pub proof fn law_tunnel_limits()
    ensures
        FIRST_ANSWER_SECS == 10,
        ANSWER_IDLE_MILLIS == 50,
        PIPE_READ_LEN == 65536,
        MAX_STREAMS == 256,
        STREAM_WINDOW == 4 * 1024 * 1024,
        CONNECTION_WINDOW == 32 * 1024 * 1024,
{
}

} // verus!
