//! The server end of the WebSocket multiplexer: it connects the streams that the client
//! end asks for to their targets.
use crate::mux::{
    close_message, close_text, command_of, frame, frame_of, law_given_password, parse_command,
    parse_frame, ready_message, ready_text, refused_message, refused_text, unframe, Command,
    CommandView,
};
use crate::text::{decimal, is_white, same_text, splitn};
use std::collections::HashMap;
use vstd::prelude::*;
use vstd::string::*;

verus! {

/// How long a target may take to connect, in seconds.
pub const CONNECT_SECS: u64 = 10;

/// How many bytes one read from a target takes at most.
pub const TARGET_READ_LEN: usize = 65536;

/// A message from the other end of the WebSocket.
pub enum Incoming {
    Text(String),
    Binary(Vec<u8>),
    /// The other end closes the connection.
    Close,
    /// Reading failed.
    Failed,
    /// A message that carries nothing, such as a ping.
    Other,
}

/// What the server end does about a message; `W` is what it writes to a target with.
pub enum Action<W> {
    Nothing,
    /// Send this text message.
    Send(String),
    /// Connect stream `sid` to `target`.
    Dial { sid: u16, target: String },
    /// Shut down the connection to a target.
    Shutdown(W),
    /// Write `payload` to the target of stream `sid`, and report how that went.
    Write { sid: u16, payload: Vec<u8>, stream: W },
    /// Shut down all streams and end.
    End,
    /// End at once.
    Abort,
}

/// What came of connecting to a target.
pub enum Dialed<W> {
    Connected(W),
    Failed(String),
    TimedOut,
}

/// The streams of one WebSocket connection.
#[verifier::reject_recursive_types(W)]
pub struct MuxServer<W> {
    password: String,
    streams: HashMap<u16, W>,
}

impl<W> View for MuxServer<W> {
    type V = Map<u16, W>;

    closed spec fn view(&self) -> Map<u16, W> {
        self.streams@
    }
}

/// The streams that a message leaves, and what is done about it.
pub open spec fn handles<W>(
    password: Seq<char>,
    before: Map<u16, W>,
    message: Incoming,
    after: Map<u16, W>,
    action: Action<W>,
) -> bool {
    match message {
        Incoming::Text(text) => match command_of(text@) {
            CommandView::Connect { sid, target, password: given } => {
                &&& after == before
                &&& if given == password {
                    action matches Action::Dial { sid: s, target: t } && s == sid && t@ == target
                } else {
                    action matches Action::Send(reply) && reply@ == refused_message(
                        sid,
                        "Auth Failed"@,
                    )
                }
            },
            CommandView::Close { sid } => {
                &&& after == before.remove(sid)
                &&& if before.contains_key(sid) {
                    action matches Action::Shutdown(w) && w == before[sid]
                } else {
                    action is Nothing
                }
            },
            CommandView::Other => after == before && action is Nothing,
        },
        Incoming::Binary(data) => match unframe(data@) {
            Some((sid, payload)) => if before.contains_key(sid) {
                &&& after == before.remove(sid)
                &&& action matches Action::Write { sid: s, payload: p, stream: w } && s == sid && p@
                    == payload && w == before[sid]
            } else {
                after == before && action is Nothing
            },
            None => after == before && action is Nothing,
        },
        Incoming::Close => after == before && action is End,
        Incoming::Failed => after == before && action is Abort,
        Incoming::Other => after == before && action is Nothing,
    }
}

/// The binary message for what was read from one side of a stream; the end of the data
/// gives none.
pub fn carry(sid: u16, read: &[u8]) -> (message: Option<Vec<u8>>)
    ensures
        match message {
            Some(m) => read@.len() > 0 && m@ == frame_of(sid, read@),
            None => read@.len() == 0,
        },
{
    if read.len() == 0 {
        None
    } else {
        Some(frame(sid, read))
    }
}

impl<W> MuxServer<W> {
    /// The password that connect messages must carry.
    pub closed spec fn password(&self) -> Seq<char> {
        self.password@
    }

    /// A connection without streams.
    pub fn new(password: &str) -> (server: MuxServer<W>)
        ensures
            server@ == Map::<u16, W>::empty(),
            server.password() == password@,
    {
        MuxServer { password: password.to_string(), streams: HashMap::new() }
    }

    /// Decides what to do about a message. A stream that is to be written to is taken out
    /// of the table until [`MuxServer::written`] reports how that went.
    pub fn on_message(&mut self, message: Incoming) -> (action: Action<W>)
        ensures
            handles(old(self).password(), old(self)@, message, final(self)@, action),
            final(self).password() == old(self).password(),
    {
        match message {
            Incoming::Text(text) => match parse_command(text.as_str()) {
                Command::Connect { sid, target, password } => if same_text(
                    password.as_str(),
                    self.password.as_str(),
                ) {
                    Action::Dial { sid, target }
                } else {
                    Action::Send(refused_text(sid, "Auth Failed"))
                },
                Command::Close { sid } => match self.take(sid) {
                    Some(w) => Action::Shutdown(w),
                    None => Action::Nothing,
                },
                Command::Other => Action::Nothing,
            },
            Incoming::Binary(data) => match parse_frame(data.as_slice()) {
                Some((sid, payload)) => match self.take(sid) {
                    Some(stream) => Action::Write { sid, payload, stream },
                    None => {
                        assert(self@ =~= old(self)@);
                        Action::Nothing
                    },
                },
                None => Action::Nothing,
            },
            Incoming::Close => Action::End,
            Incoming::Failed => Action::Abort,
            Incoming::Other => Action::Nothing,
        }
    }

    fn take(&mut self, sid: u16) -> (stream: Option<W>)
        ensures
            final(self)@ == old(self)@.remove(sid),
            final(self).password() == old(self).password(),
            match stream {
                Some(w) => old(self)@.contains_key(sid) && w == old(self)@[sid],
                None => !old(self)@.contains_key(sid),
            },
    {
        let stream = self.streams.remove(&sid);
        assert(stream is None ==> self@ =~= old(self)@.remove(sid));
        stream
    }

    /// Reports how writing to a stream went: a stream that could not be written to is
    /// forgotten.
    pub fn written(&mut self, sid: u16, stream: W, ok: bool)
        ensures
            final(self)@ == if ok {
                old(self)@.insert(sid, stream)
            } else {
                old(self)@
            },
            final(self).password() == old(self).password(),
    {
        if ok {
            self.streams.insert(sid, stream);
        }
    }

    /// Reports what came of connecting stream `sid`, and gives the message that tells the
    /// client end.
    pub fn dialed(&mut self, sid: u16, result: Dialed<W>) -> (message: String)
        ensures
            final(self).password() == old(self).password(),
            match result {
                Dialed::Connected(w) => {
                    &&& final(self)@ == old(self)@.insert(sid, w)
                    &&& message@ == ready_message(sid)
                },
                Dialed::Failed(error) => {
                    &&& final(self)@ == old(self)@
                    &&& message@ == refused_message(sid, error@)
                },
                Dialed::TimedOut => {
                    &&& final(self)@ == old(self)@
                    &&& message@ == refused_message(sid, "Timeout"@)
                },
            },
    {
        match result {
            Dialed::Connected(w) => {
                self.streams.insert(sid, w);
                ready_text(sid)
            },
            Dialed::Failed(error) => refused_text(sid, error.as_str()),
            Dialed::TimedOut => refused_text(sid, "Timeout"),
        }
    }

    /// Forgets stream `sid`, whose target has nothing more to send, and gives the message
    /// that tells the client end.
    pub fn target_ended(&mut self, sid: u16) -> (r: (Option<W>, String))
        ensures
            final(self)@ == old(self)@.remove(sid),
            final(self).password() == old(self).password(),
            match r.0 {
                Some(w) => old(self)@.contains_key(sid) && w == old(self)@[sid],
                None => !old(self)@.contains_key(sid),
            },
            r.1@ == close_message(sid),
    {
        (self.take(sid), close_text(sid))
    }

    /// Takes all streams out of the table, to be shut down.
    pub fn finish(&mut self) -> (streams: Vec<(u16, W)>)
        ensures
            final(self)@ == Map::<u16, W>::empty(),
            final(self).password() == old(self).password(),
            forall|i: int|
                0 <= i < streams@.len() ==> old(self)@.contains_pair(
                    (#[trigger] streams@[i]).0,
                    streams@[i].1,
                ),
            forall|i: int, j: int|
                0 <= i < j < streams@.len() ==> (#[trigger] streams@[i]).0 != (
                #[trigger] streams@[j]).0,
            forall|sid: u16| #[trigger]
                old(self)@.contains_key(sid) ==> exists|i: int|
                    0 <= i < streams@.len() && (#[trigger] streams@[i]).0 == sid,
    {
        let mut sids: Vec<u16> = Vec::new();
        let ghost all = self@;
        for sid in it: self.streams.keys()
            invariant
                sids@.len() == it.index() <= it.seq().len(),
                forall|i: int| 0 <= i < it.index() ==> sids@[i] == *it.seq()[i],
                it.index() == it.seq().len() ==> sids@ == it.seq().unref(),
                it.seq().unref().to_set() == self.streams@.dom(),
                it.seq().no_duplicates(),
        {
            sids.push(*sid);
        }
        assert(sids@.to_set() =~= all.dom());
        assert(sids@.no_duplicates());
        let mut streams: Vec<(u16, W)> = Vec::new();
        for i in 0..sids.len()
            invariant
                sids@.to_set() == all.dom(),
                sids@.no_duplicates(),
                self.password() == old(self).password(),
                streams@.len() == i,
                forall|j: int| 0 <= j < i ==> (#[trigger] streams@[j]).0 == sids@[j],
                forall|j: int|
                    0 <= j < i ==> all.contains_pair(
                        (#[trigger] streams@[j]).0,
                        streams@[j].1,
                    ),
                forall|sid: u16| #[trigger]
                    self@.contains_key(sid) <==> all.contains_key(sid) && !sids@.take(
                        i as int,
                    ).contains(sid),
                forall|sid: u16| #[trigger] self@.contains_key(sid) ==> self@[sid] == all[sid],
        {
            let sid: u16 = sids[i];
            let ghost before = self@;
            assert(sids@.to_set().contains(sid));
            assert(!sids@.take(i as int).contains(sid)) by {
                if sids@.take(i as int).contains(sid) {
                    let j = choose|j: int| 0 <= j < i && sids@.take(i as int)[j] == sid;
                    assert(sids@[j] == sids@[i as int]);
                }
            }
            assert(before.contains_key(sid));
            let taken = self.take(sid);
            match taken {
                Some(w) => {
                    streams.push((sid, w));
                },
                None => {
                    assert(false);
                },
            }
            assert forall|k: u16| #[trigger]
                self@.contains_key(k) <==> all.contains_key(k) && !sids@.take(i + 1).contains(
                    k,
                ) by {
                assert(sids@.take(i + 1) =~= sids@.take(i as int).push(sid));
                if sids@.take(i as int).contains(k) {
                    let j = choose|j: int| 0 <= j < i && sids@.take(i as int)[j] == k;
                    assert(sids@.take(i + 1)[j] == k);
                }
                assert(sids@.take(i + 1)[i as int] == sid);
            }
        }
        assert(sids@.take(sids@.len() as int) =~= sids@);
        assert forall|sid: u16| all.contains_key(sid) implies sids@.contains(sid) by {
            assert(sids@.to_set().contains(sid));
        }
        assert(self@ =~= Map::<u16, W>::empty());
        assert forall|sid: u16| #[trigger] all.contains_key(sid) implies exists|i: int|
            0 <= i < streams@.len() && (#[trigger] streams@[i]).0 == sid by {
            let j = choose|j: int| 0 <= j < sids@.len() && sids@[j] == sid;
            assert(streams@[j].0 == sid);
        }
        streams
    }
}

/// A message that is written in full leaves the table of streams as it was.
pub proof fn law_write_keeps_streams<W>(streams: Map<u16, W>, sid: u16)
    requires
        streams.contains_key(sid),
    ensures
        streams.remove(sid).insert(sid, streams[sid]) == streams,
{
    assert(streams.remove(sid).insert(sid, streams[sid]) =~= streams);
}

/// No message gives a password that is empty or ends with white space.
pub proof fn law_unusable_password(password: Seq<char>, text: Seq<char>)
    requires
        password.len() == 0 || is_white(password.last()),
    ensures
        command_of(text) matches CommandView::Connect { password: given, .. } ==> given
            != password,
{
    law_given_password(text);
}

/// A server whose password is empty or ends with white space connects nowhere.
pub proof fn law_unusable_password_dials_nobody<W>(
    password: Seq<char>,
    before: Map<u16, W>,
    message: Incoming,
    after: Map<u16, W>,
    action: Action<W>,
)
    requires
        password.len() == 0 || is_white(password.last()),
        handles(password, before, message, after, action),
    ensures
        action !is Dial,
{
    match message {
        Incoming::Text(text) => law_unusable_password(password, text@),
        _ => {},
    }
}

/// Only a connect message that carries the password makes the server connect anywhere, and
/// it leaves the streams as they are.
pub proof fn law_no_dial_without_password<W>(
    password: Seq<char>,
    before: Map<u16, W>,
    message: Incoming,
    after: Map<u16, W>,
    action: Action<W>,
)
    requires
        handles(password, before, message, after, action),
        action is Dial,
    ensures
        message matches Incoming::Text(text) && command_of(text@) matches CommandView::Connect {
            password: given,
            ..
        } && given == password,
        after == before,
{
}

/// Whether a message is of stream `k`: a close message for it, or data with its number.
pub open spec fn is_of_stream(message: Incoming, k: u16) -> bool {
    match message {
        Incoming::Text(text) => command_of(text@) == (CommandView::Close { sid: k }),
        Incoming::Binary(data) => data@.len() >= 2 && data@[0] * 256 + data@[1] == k,
        _ => false,
    }
}

/// No message touches a stream that it is not of: the table has it exactly where it had it, with
/// the same target.
pub proof fn law_other_streams_stay<W>(
    password: Seq<char>,
    before: Map<u16, W>,
    message: Incoming,
    after: Map<u16, W>,
    action: Action<W>,
    k: u16,
)
    requires
        handles(password, before, message, after, action),
        !is_of_stream(message, k),
    ensures
        after.contains_key(k) == before.contains_key(k),
        before.contains_key(k) ==> after[k] == before[k],
{
    match message {
        Incoming::Binary(data) => {
            crate::mux::law_unframe(data@);
        },
        _ => {},
    }
}

/// A close message takes its stream, and no other, out of the table, and shuts its target down;
/// where there is no such stream nothing changes and nothing is done.
pub proof fn law_close<W>(
    password: Seq<char>,
    before: Map<u16, W>,
    sid: u16,
    text: String,
    after: Map<u16, W>,
    action: Action<W>,
)
    requires
        command_of(text@) == (CommandView::Close { sid }),
        handles(password, before, Incoming::Text(text), after, action),
    ensures
        !after.contains_key(sid),
        forall|k: u16|
            k != sid ==> {
                &&& #[trigger] after.contains_key(k) == before.contains_key(k)
                &&& before.contains_key(k) ==> after[k] == before[k]
            },
        before.contains_key(sid) ==> action == Action::Shutdown(before[sid]),
        !before.contains_key(sid) ==> action is Nothing && after == before,
{
    if !before.contains_key(sid) {
        assert(after =~= before);
    }
}

/// Data of an open stream goes, all of it, to the target of that stream, which is out of the
/// table until the write is reported; data of no open stream is dropped, and changes nothing.
pub proof fn law_data<W>(
    password: Seq<char>,
    before: Map<u16, W>,
    data: Vec<u8>,
    sid: u16,
    after: Map<u16, W>,
    action: Action<W>,
)
    requires
        data@.len() >= 2,
        sid == data@[0] * 256 + data@[1],
        handles(password, before, Incoming::Binary(data), after, action),
    ensures
        before.contains_key(sid) ==> {
            &&& action matches Action::Write { sid: s, payload, stream }
            &&& s == sid
            &&& payload@ == data@.skip(2)
            &&& stream == before[sid]
            &&& !after.contains_key(sid)
            &&& forall|k: u16|
                k != sid ==> {
                    &&& #[trigger] after.contains_key(k) == before.contains_key(k)
                    &&& before.contains_key(k) ==> after[k] == before[k]
                }
        },
        !before.contains_key(sid) ==> action is Nothing && after == before,
{
    crate::mux::law_unframe(data@);
}

/// A connect message with the password leads to the connection that it asks for, and one with
/// any other is refused in as many words; neither changes a stream.
pub proof fn law_connect<W>(
    password: Seq<char>,
    before: Map<u16, W>,
    text: String,
    sid: u16,
    target: Seq<char>,
    given: Seq<char>,
    after: Map<u16, W>,
    action: Action<W>,
)
    requires
        command_of(text@) == (CommandView::Connect { sid, target, password: given }),
        handles(password, before, Incoming::Text(text), after, action),
    ensures
        after == before,
        given == password ==> {
            &&& action matches Action::Dial { sid: s, target: t }
            &&& s == sid
            &&& t@ == target
        },
        given != password ==> {
            &&& action matches Action::Send(reply)
            &&& splitn(reply@, 3, ' ') == seq!["502"@, decimal(sid as nat), "Auth Failed"@]
        },
{
    crate::mux::law_refused_message(sid, "Auth Failed"@);
}

/// A message that is too short, or neither asks for a stream nor closes one, does nothing; the
/// close of the connection shuts all down, and a failure ends at once. None of them changes a
/// stream.
pub proof fn law_rest<W>(
    password: Seq<char>,
    before: Map<u16, W>,
    message: Incoming,
    after: Map<u16, W>,
    action: Action<W>,
)
    requires
        handles(password, before, message, after, action),
    ensures
        message is Close ==> action is End && after == before,
        message is Failed ==> action is Abort && after == before,
        message is Other ==> action is Nothing && after == before,
        message matches Incoming::Binary(data) && data@.len() < 2 ==> action is Nothing && after
            == before,
        message matches Incoming::Text(text) && command_of(text@) is Other ==> action is Nothing
            && after == before,
{
}

/// The times and sizes of the server end.
pub proof fn law_server_limits()
    ensures
        CONNECT_SECS == 10,
        TARGET_READ_LEN == 65536,
{
}

} // verus!
