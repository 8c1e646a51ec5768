//! The messages of the WebSocket multiplexer: one connection carries the streams of many
//! clients, each under a stream number.
//!
//! Text messages open and close streams, binary messages carry their data behind the
//! stream number.
use crate::text::{
    decimal, decimal_of, first_pos, is_digit, is_white, law_decimal_round_trip, lemma_decimal,
    lemma_first_pos, lemma_first_pos_unique, number_or_zero, parse_or_zero, same_text,
    split_pieces, splitn, string_of, texts, trim, trim_end, trim_start, trimmed,
};
use vstd::prelude::*;
use vstd::slice::{slice_subrange, slice_to_vec};
use vstd::string::*;

verus! {

/// A text message from the client end.
pub enum Command {
    Connect { sid: u16, target: String, password: String },
    Close { sid: u16 },
    Other,
}

/// The command with its texts as sequences.
pub enum CommandView {
    Connect { sid: u16, target: Seq<char>, password: Seq<char> },
    Close { sid: u16 },
    Other,
}

/// A text message from the server end.
pub enum Reply {
    /// The stream is connected.
    Ready { sid: u16 },
    /// The stream is refused; the whole message says why.
    Refused { sid: u16, message: String },
    Other,
}

/// The reply with its text as a sequence.
pub enum ReplyView {
    Ready { sid: u16 },
    Refused { sid: u16, message: Seq<char> },
    Other,
}

impl View for Command {
    type V = CommandView;

    open spec fn view(&self) -> CommandView {
        match *self {
            Command::Connect { sid, target, password } => CommandView::Connect {
                sid,
                target: target@,
                password: password@,
            },
            Command::Close { sid } => CommandView::Close { sid },
            Command::Other => CommandView::Other,
        }
    }
}

impl View for Reply {
    type V = ReplyView;

    open spec fn view(&self) -> ReplyView {
        match *self {
            Reply::Ready { sid } => ReplyView::Ready { sid },
            Reply::Refused { sid, message } => ReplyView::Refused { sid, message: message@ },
            Reply::Other => ReplyView::Other,
        }
    }
}

/// The stream number in a field of a message, zero where there is none.
pub open spec fn sid_of(field: Seq<char>) -> u16 {
    number_or_zero(field, u16::MAX as nat) as u16
}

/// What the server end takes a text message for.
pub open spec fn command_of(text: Seq<char>) -> CommandView {
    let parts = splitn(trim(text), 4, ' ');
    if parts.len() == 4 && parts[0] == "CONNECT"@ {
        CommandView::Connect { sid: sid_of(parts[1]), target: parts[2], password: parts[3] }
    } else if parts.len() >= 2 && parts[0] == "CLOSE"@ {
        CommandView::Close { sid: sid_of(parts[1]) }
    } else {
        CommandView::Other
    }
}

/// What the client end takes a text message for.
pub open spec fn reply_of(text: Seq<char>) -> ReplyView {
    let parts = splitn(trim(text), 3, ' ');
    if parts.len() >= 2 && parts[0] == "200"@ {
        ReplyView::Ready { sid: sid_of(parts[1]) }
    } else if parts.len() >= 2 && parts[0] == "502"@ {
        ReplyView::Refused { sid: sid_of(parts[1]), message: trim(text) }
    } else {
        ReplyView::Other
    }
}

/// The message that asks for a stream.
pub open spec fn connect_message(sid: u16, target: Seq<char>, password: Seq<char>) -> Seq<char> {
    "CONNECT "@ + decimal(sid as nat) + " "@ + target + " "@ + password
}

/// The message that closes a stream.
pub open spec fn close_message(sid: u16) -> Seq<char> {
    "CLOSE "@ + decimal(sid as nat)
}

/// The message that a stream is connected.
pub open spec fn ready_message(sid: u16) -> Seq<char> {
    "200 "@ + decimal(sid as nat) + " Connected"@
}

/// The message that a stream is refused.
pub open spec fn refused_message(sid: u16, reason: Seq<char>) -> Seq<char> {
    "502 "@ + decimal(sid as nat) + " "@ + reason
}

/// A binary message: the stream number, the more significant byte first, and the data.
pub open spec fn frame_of(sid: u16, payload: Seq<u8>) -> Seq<u8> {
    seq![(sid / 256) as u8, (sid % 256) as u8] + payload
}

/// The stream number and the data of a binary message, if it is long enough for one.
pub open spec fn unframe(data: Seq<u8>) -> Option<(u16, Seq<u8>)> {
    if data.len() < 2 {
        None
    } else {
        Some(((data[0] * 256 + data[1]) as u16, data.skip(2)))
    }
}

/// Reads a text message at the server end.
pub fn parse_command(text: &str) -> (c: Command)
    ensures
        c@ == command_of(text@),
{
    let parts = split_pieces(trimmed(text).as_slice(), 4, ' ');
    let ghost views = texts(parts@);
    assert(views == splitn(trim(text@), 4, ' '));
    if parts.len() == 4 && same_text(parts[0].as_str(), "CONNECT") {
        let sid = parse_or_zero(parts[1].as_str(), u16::MAX as u64) as u16;
        assert(views[0] == parts@[0]@ && views[1] == parts@[1]@ && views[2] == parts@[2]@
            && views[3] == parts@[3]@);
        Command::Connect { sid, target: parts[2].clone(), password: parts[3].clone() }
    } else if parts.len() >= 2 && same_text(parts[0].as_str(), "CLOSE") {
        let sid = parse_or_zero(parts[1].as_str(), u16::MAX as u64) as u16;
        assert(views[0] == parts@[0]@ && views[1] == parts@[1]@);
        Command::Close { sid }
    } else {
        assert(parts@.len() > 0 ==> views[0] == parts@[0]@);
        Command::Other
    }
}

/// Reads a text message at the client end.
pub fn parse_reply(text: &str) -> (r: Reply)
    ensures
        r@ == reply_of(text@),
{
    let line = trimmed(text);
    let parts = split_pieces(line.as_slice(), 3, ' ');
    let ghost views = texts(parts@);
    assert(views == splitn(trim(text@), 3, ' '));
    if parts.len() < 2 {
        return Reply::Other;
    }
    let sid = parse_or_zero(parts[1].as_str(), u16::MAX as u64) as u16;
    assert(views[0] == parts@[0]@ && views[1] == parts@[1]@);
    if same_text(parts[0].as_str(), "200") {
        Reply::Ready { sid }
    } else if same_text(parts[0].as_str(), "502") {
        Reply::Refused { sid, message: string_of(line.as_slice()) }
    } else {
        Reply::Other
    }
}

/// The message that asks for a stream.
pub fn connect_text(sid: u16, target: &str, password: &str) -> (out: String)
    ensures
        out@ == connect_message(sid, target@, password@),
{
    let mut out = "CONNECT ".to_string();
    out.append(decimal_of(sid as u64).as_str());
    out.append(" ");
    out.append(target);
    out.append(" ");
    out.append(password);
    out
}

/// The message that closes a stream.
pub fn close_text(sid: u16) -> (out: String)
    ensures
        out@ == close_message(sid),
{
    let mut out = "CLOSE ".to_string();
    out.append(decimal_of(sid as u64).as_str());
    out
}

/// The message that a stream is connected.
pub fn ready_text(sid: u16) -> (out: String)
    ensures
        out@ == ready_message(sid),
{
    let mut out = "200 ".to_string();
    out.append(decimal_of(sid as u64).as_str());
    out.append(" Connected");
    out
}

/// The message that a stream is refused.
pub fn refused_text(sid: u16, reason: &str) -> (out: String)
    ensures
        out@ == refused_message(sid, reason@),
{
    let mut out = "502 ".to_string();
    out.append(decimal_of(sid as u64).as_str());
    out.append(" ");
    out.append(reason);
    out
}

/// The binary message that carries data of a stream.
pub fn frame(sid: u16, payload: &[u8]) -> (out: Vec<u8>)
    ensures
        out@ == frame_of(sid, payload@),
{
    let mut out: Vec<u8> = Vec::new();
    out.push((sid / 256) as u8);
    out.push((sid % 256) as u8);
    out.extend_from_slice(payload);
    assert(out@ =~= frame_of(sid, payload@));
    out
}

/// The stream number and the data of a binary message; a message too short for a stream
/// number holds neither.
pub fn parse_frame(data: &[u8]) -> (r: Option<(u16, Vec<u8>)>)
    ensures
        match r {
            Some((sid, payload)) => unframe(data@) == Some((sid, payload@)),
            None => unframe(data@) is None,
        },
{
    if data.len() < 2 {
        return None;
    }
    let sid: u16 = data[0] as u16 * 256 + data[1] as u16;
    let payload = slice_to_vec(slice_subrange(data, 2, data.len()));
    assert(payload@ =~= data@.skip(2));
    Some((sid, payload))
}

/// A text that neither begins nor ends with white space stays as it is when trimmed.
proof fn lemma_trim_nothing(s: Seq<char>)
    requires
        s.len() > 0,
        !is_white(s[0]),
        !is_white(s.last()),
    ensures
        trim(s) == s,
{
}

/// Trimming the end of a text leaves a beginning that does not end with white space.
proof fn lemma_trim_end_keeps(front: Seq<char>, back: Seq<char>)
    requires
        front.len() > 0,
        !is_white(front.last()),
    ensures
        trim_end(front + back).len() >= front.len(),
        front.is_prefix_of(trim_end(front + back)),
    decreases back.len(),
{
    let s = front + back;
    if back.len() == 0 {
        assert(s =~= front);
    } else if is_white(s.last()) {
        assert(s.drop_last() =~= front + back.drop_last());
        lemma_trim_end_keeps(front, back.drop_last());
    } else {
        assert(s.subrange(0, front.len() as int) =~= front);
    }
}

/// The pieces of a text that begins with a piece and a space.
proof fn lemma_splitn_head(head: Seq<char>, rest: Seq<char>, n: nat)
    requires
        n >= 2,
        !head.contains(' '),
    ensures
        splitn((head + " "@) + rest, n, ' ') == seq![head] + splitn(rest, (n - 1) as nat, ' '),
{
    reveal_strlit(" ");
    let s = (head + " "@) + rest;
    assert forall|j: int| 0 <= j < head.len() implies #[trigger] s[j] != ' ' by {
        assert(s[j] == head[j]);
        assert(head.contains(head[j]));
    }
    assert(s[head.len() as int] == ' ');
    lemma_first_pos_unique(s, ' ', head.len() as int);
    assert(s.take(head.len() as int) =~= head);
    assert(s.skip(head.len() as int + 1) =~= rest);
}

/// A text without a space is one piece.
proof fn lemma_splitn_single(s: Seq<char>, n: nat)
    requires
        !s.contains(' '),
    ensures
        splitn(s, n, ' ') == seq![s],
{
    assert forall|j: int| 0 <= j < s.len() implies #[trigger] s[j] != ' ' by {
        assert(s.contains(s[j]));
    }
    lemma_first_pos_unique(s, ' ', s.len() as int);
}

/// Decimal notation holds no space, and no white space at its end.
proof fn lemma_decimal_plain(n: nat)
    ensures
        !decimal(n).contains(' '),
        decimal(n).len() > 0,
        !is_white(decimal(n).last()),
{
    lemma_decimal(n);
    assert forall|i: int| 0 <= i < decimal(n).len() implies #[trigger] decimal(n)[i] != ' ' by {
        assert(is_digit(decimal(n)[i]));
    }
    assert(is_digit(decimal(n)[decimal(n).len() - 1]));
}

/// The stream number that one end writes is the one that the other end reads.
proof fn lemma_sid_round_trip(sid: u16)
    ensures
        sid_of(decimal(sid as nat)) == sid,
{
    law_decimal_round_trip(sid as nat);
}

/// Trimming leaves no white space at the end.
proof fn lemma_trim_end_last(s: Seq<char>)
    ensures
        trim_end(s).len() > 0 ==> !is_white(trim_end(s).last()),
    decreases s.len(),
{
    if s.len() > 0 && is_white(s.last()) {
        lemma_trim_end_last(s.drop_last());
    }
}

/// The last piece of a text is its end, and follows a space where there is a piece before it.
proof fn lemma_splitn_last(s: Seq<char>, n: nat) -> (k: int)
    ensures
        0 <= k <= s.len(),
        splitn(s, n, ' ').len() > 0,
        splitn(s, n, ' ').last() == s.skip(k),
        splitn(s, n, ' ').len() == 1 ==> k == 0,
        splitn(s, n, ' ').len() > 1 ==> k > 0 && s[k - 1] == ' ',
    decreases n,
{
    let i = first_pos(s, ' ');
    lemma_first_pos(s, ' ');
    if n <= 1 || i >= s.len() {
        assert(s.skip(0) =~= s);
        0
    } else {
        let rest = s.skip(i + 1);
        let more = splitn(rest, (n - 1) as nat, ' ');
        let k = lemma_splitn_last(rest, (n - 1) as nat);
        assert(splitn(s, n, ' ').last() == more.last());
        assert(rest.skip(k) =~= s.skip(i + 1 + k));
        i + 1 + k
    }
}

/// The password that a connect message gives is never empty, and never ends with white space.
pub proof fn law_given_password(text: Seq<char>)
    ensures
        command_of(text) matches CommandView::Connect { password, .. } ==> password.len() > 0
            && !is_white(password.last()),
{
    let line = trim(text);
    let parts = splitn(line, 4, ' ');
    lemma_trim_end_last(trim_start(text));
    let k = lemma_splitn_last(line, 4);
    if command_of(text) is Connect {
        assert(parts.last() == parts[3]);
        assert(is_white(' '));
        if k == line.len() {
            assert(line.last() == ' ');
        }
        assert(parts[3].last() == line.last());
    }
}

/// The server end reads from a connect message what the client end wrote into it, for
/// every target without a space and every password that is not empty and does not end
/// with white space.
pub proof fn law_connect_round_trip(sid: u16, target: Seq<char>, password: Seq<char>)
    requires
        !target.contains(' '),
        password.len() > 0,
        !is_white(password.last()),
    ensures
        command_of(connect_message(sid, target, password)) == (CommandView::Connect {
            sid,
            target,
            password,
        }),
{
    reveal_strlit("CONNECT ");
    reveal_strlit("CONNECT");
    reveal_strlit(" ");
    let num = decimal(sid as nat);
    let m = connect_message(sid, target, password);
    lemma_decimal_plain(sid as nat);
    lemma_sid_round_trip(sid);
    assert(m[0] == 'C');
    assert(m.last() == password.last());
    lemma_trim_nothing(m);
    let r3 = password;
    let r2 = (target + " "@) + r3;
    let r1 = (num + " "@) + r2;
    assert(m =~= ("CONNECT"@ + " "@) + r1);
    lemma_splitn_head("CONNECT"@, r1, 4);
    lemma_splitn_head(num, r2, 3);
    lemma_splitn_head(target, r3, 2);
    assert(splitn(r3, 1, ' ') == seq![r3]);
    assert(splitn(m, 4, ' ') =~= seq!["CONNECT"@, num, target, password]);
}

/// The server end reads from a close message the stream number that the client end wrote
/// into it.
pub proof fn law_close_round_trip(sid: u16)
    ensures
        command_of(close_message(sid)) == (CommandView::Close { sid }),
{
    reveal_strlit("CLOSE ");
    reveal_strlit("CLOSE");
    reveal_strlit("CONNECT");
    reveal_strlit(" ");
    let num = decimal(sid as nat);
    let m = close_message(sid);
    lemma_decimal_plain(sid as nat);
    lemma_sid_round_trip(sid);
    assert(m[0] == 'C');
    assert(m.last() == num.last());
    lemma_trim_nothing(m);
    assert(m =~= ("CLOSE"@ + " "@) + num);
    lemma_splitn_head("CLOSE"@, num, 4);
    lemma_splitn_single(num, 3);
    assert(splitn(m, 4, ' ') =~= seq!["CLOSE"@, num]);
}

/// The client end takes the message that a stream is connected for just that.
pub proof fn law_ready_round_trip(sid: u16)
    ensures
        reply_of(ready_message(sid)) == (ReplyView::Ready { sid }),
{
    reveal_strlit("200 ");
    reveal_strlit("200");
    reveal_strlit(" ");
    reveal_strlit(" Connected");
    reveal_strlit("Connected");
    let num = decimal(sid as nat);
    let m = ready_message(sid);
    lemma_decimal_plain(sid as nat);
    lemma_sid_round_trip(sid);
    assert(m[0] == '2');
    assert(m.last() == 'd');
    lemma_trim_nothing(m);
    let r1 = (num + " "@) + "Connected"@;
    assert(m =~= ("200"@ + " "@) + r1);
    lemma_splitn_head("200"@, r1, 3);
    lemma_splitn_head(num, "Connected"@, 2);
    assert(splitn("Connected"@, 1, ' ') == seq!["Connected"@]);
    assert(splitn(m, 3, ' ') =~= seq!["200"@, num, "Connected"@]);
}

/// The client end takes the message that a stream is refused for just that, whatever
/// the reason.
pub proof fn law_refused_round_trip(sid: u16, reason: Seq<char>)
    ensures
        reply_of(refused_message(sid, reason)) == (ReplyView::Refused {
            sid,
            message: trim_end(refused_message(sid, reason)),
        }),
{
    reveal_strlit("502 ");
    reveal_strlit("502");
    reveal_strlit("200");
    reveal_strlit(" ");
    let num = decimal(sid as nat);
    let m = refused_message(sid, reason);
    lemma_decimal_plain(sid as nat);
    lemma_sid_round_trip(sid);
    assert(m[0] == '5');
    assert(trim_start(m) == m);
    let t = trim_end(m);
    let front = ("502"@ + " "@) + num;
    assert(m =~= front + (" "@ + reason));
    assert(front.last() == num.last());
    lemma_trim_end_keeps(front, " "@ + reason);
    lemma_trim_end_prefix(m);
    assert(t.subrange(0, front.len() as int) == front);
    let r1 = t.skip(4);
    assert(t =~= ("502"@ + " "@) + r1);
    lemma_splitn_head("502"@, r1, 3);
    if t.len() == front.len() {
        assert(t =~= front);
        assert(r1 =~= num);
        lemma_splitn_single(num, 2);
        assert(splitn(t, 3, ' ') =~= seq!["502"@, num]);
    } else {
        let r2 = t.skip(front.len() as int + 1);
        assert(t[front.len() as int] == m[front.len() as int]);
        assert(m[front.len() as int] == ' ');
        assert(r1 =~= (num + " "@) + r2);
        lemma_splitn_head(num, r2, 2);
        assert(splitn(r2, 1, ' ') == seq![r2]);
        assert(splitn(t, 3, ' ') =~= seq!["502"@, num, r2]);
    }
    assert("502"@[0] != "200"@[0]);
}

/// What is left when the end of a text is trimmed is a beginning of it.
proof fn lemma_trim_end_prefix(s: Seq<char>)
    ensures
        trim_end(s).len() <= s.len(),
        trim_end(s) == s.take(trim_end(s).len() as int),
    decreases s.len(),
{
    if s.len() > 0 && is_white(s.last()) {
        lemma_trim_end_prefix(s.drop_last());
        assert(s.drop_last().take(trim_end(s).len() as int) =~= s.take(
            trim_end(s).len() as int,
        ));
    } else {
        assert(s.take(s.len() as int) =~= s);
    }
}

/// The message that closes a stream means nothing to the client end.
pub proof fn law_close_is_no_reply(sid: u16)
    ensures
        reply_of(close_message(sid)) is Other,
{
    reveal_strlit("CLOSE ");
    reveal_strlit("CLOSE");
    reveal_strlit("200");
    reveal_strlit("502");
    reveal_strlit(" ");
    let num = decimal(sid as nat);
    let m = close_message(sid);
    lemma_decimal_plain(sid as nat);
    assert(m[0] == 'C');
    assert(m.last() == num.last());
    lemma_trim_nothing(m);
    assert(m =~= ("CLOSE"@ + " "@) + num);
    lemma_splitn_head("CLOSE"@, num, 3);
    lemma_splitn_single(num, 2);
    assert(splitn(m, 3, ' ') =~= seq!["CLOSE"@, num]);
    assert("CLOSE"@[0] == 'C');
}

/// A binary message carries its stream number and its data unchanged.
pub proof fn law_frame_round_trip(sid: u16, payload: Seq<u8>)
    ensures
        unframe(frame_of(sid, payload)) == Some((sid, payload)),
{
    let f = frame_of(sid, payload);
    assert(f.skip(2) =~= payload);
    assert((sid / 256) as u8 == sid / 256);
    assert((sid % 256) as u8 == sid % 256);
}

/// The message that asks for a stream holds, with spaces between them, the word CONNECT, the
/// stream number, the target and the password.
pub proof fn law_connect_message(sid: u16, target: Seq<char>, password: Seq<char>)
    requires
        !target.contains(' '),
    ensures
        splitn(connect_message(sid, target, password), 4, ' ') == seq![
            "CONNECT"@,
            decimal(sid as nat),
            target,
            password,
        ],
{
    reveal_strlit("CONNECT ");
    reveal_strlit("CONNECT");
    reveal_strlit(" ");
    let num = decimal(sid as nat);
    lemma_decimal_plain(sid as nat);
    let r3 = password;
    let r2 = (target + " "@) + r3;
    let r1 = (num + " "@) + r2;
    let m = connect_message(sid, target, password);
    assert(m =~= ("CONNECT"@ + " "@) + r1);
    assert(!"CONNECT"@.contains(' '));
    lemma_splitn_head("CONNECT"@, r1, 4);
    lemma_splitn_head(num, r2, 3);
    lemma_splitn_head(target, r3, 2);
    assert(splitn(m, 4, ' ') =~= seq!["CONNECT"@, num, target, password]);
}

/// The message that closes a stream holds the word CLOSE, a space and the stream number.
pub proof fn law_close_message(sid: u16)
    ensures
        splitn(close_message(sid), 4, ' ') == seq!["CLOSE"@, decimal(sid as nat)],
{
    reveal_strlit("CLOSE ");
    reveal_strlit("CLOSE");
    reveal_strlit(" ");
    let num = decimal(sid as nat);
    lemma_decimal_plain(sid as nat);
    assert(close_message(sid) =~= ("CLOSE"@ + " "@) + num);
    assert(!"CLOSE"@.contains(' '));
    lemma_splitn_head("CLOSE"@, num, 4);
    lemma_splitn_single(num, 3);
    assert(splitn(close_message(sid), 4, ' ') =~= seq!["CLOSE"@, num]);
}

/// The message that a stream is connected holds, with spaces between them, the code 200, the
/// stream number and the word Connected.
pub proof fn law_ready_message(sid: u16)
    ensures
        splitn(ready_message(sid), 4, ' ') == seq!["200"@, decimal(sid as nat), "Connected"@],
{
    reveal_strlit("200 ");
    reveal_strlit("200");
    reveal_strlit(" Connected");
    reveal_strlit("Connected");
    reveal_strlit(" ");
    let num = decimal(sid as nat);
    lemma_decimal_plain(sid as nat);
    let r = (num + " "@) + "Connected"@;
    assert(ready_message(sid) =~= ("200"@ + " "@) + r);
    assert(!"200"@.contains(' '));
    assert(!"Connected"@.contains(' '));
    lemma_splitn_head("200"@, r, 4);
    lemma_splitn_head(num, "Connected"@, 3);
    lemma_splitn_single("Connected"@, 2);
    assert(splitn(ready_message(sid), 4, ' ') =~= seq!["200"@, num, "Connected"@]);
}

/// The message that a stream is refused holds, with spaces between them, the code 502, the
/// stream number and the reason.
pub proof fn law_refused_message(sid: u16, reason: Seq<char>)
    ensures
        splitn(refused_message(sid, reason), 3, ' ') == seq!["502"@, decimal(sid as nat), reason],
{
    reveal_strlit("502 ");
    reveal_strlit("502");
    reveal_strlit(" ");
    let num = decimal(sid as nat);
    lemma_decimal_plain(sid as nat);
    let r = (num + " "@) + reason;
    assert(refused_message(sid, reason) =~= ("502"@ + " "@) + r);
    assert(!"502"@.contains(' '));
    lemma_splitn_head("502"@, r, 3);
    lemma_splitn_head(num, reason, 2);
    assert(splitn(refused_message(sid, reason), 3, ' ') =~= seq!["502"@, num, reason]);
}

/// The stream number of a field is the number that the field denotes, up to 65535, and zero
/// where it denotes none.
pub proof fn law_sid_of(field: Seq<char>)
    ensures
        sid_of(field) == match crate::text::number(field) {
            Some(n) => if n <= 65535 {
                n
            } else {
                0
            },
            None => 0,
        },
{
}

/// What the server end takes a message for, by its words, that is by what stands between the
/// spaces once white space at its ends is gone; of a fourth word all that follows is part.
/// Four words of which the first is CONNECT ask for a stream, two or more of which the first is
/// CLOSE close one, and anything else is nothing.
pub proof fn law_command(text: Seq<char>, words: Seq<Seq<char>>)
    requires
        0 < words.len() <= 4,
        trim(text) == crate::text::joined(words, ' '),
        forall|i: int| 0 <= i < words.len() - 1 ==> !(#[trigger] words[i]).contains(' '),
        words.len() < 4 ==> !words.last().contains(' '),
    ensures
        words.len() == 4 && words[0] == "CONNECT"@ ==> command_of(text) == (CommandView::Connect {
            sid: sid_of(words[1]),
            target: words[2],
            password: words[3],
        }),
        words.len() >= 2 && words[0] == "CLOSE"@ ==> command_of(text) == (CommandView::Close {
            sid: sid_of(words[1]),
        }),
        !(words.len() == 4 && words[0] == "CONNECT"@) && !(words.len() >= 2 && words[0]
            == "CLOSE"@) ==> command_of(text) is Other,
{
    reveal_strlit("CONNECT");
    reveal_strlit("CLOSE");
    crate::text::law_splitn_joined(words, 4, ' ');
    assert("CONNECT"@.len() != "CLOSE"@.len());
}

/// What the client end takes a message for, by its words; of a third word all that follows is
/// part. Two or more words of which the first is 200 say that a stream is connected, those with
/// 502 that it is refused, and anything else is nothing.
pub proof fn law_answer(text: Seq<char>, words: Seq<Seq<char>>)
    requires
        0 < words.len() <= 3,
        trim(text) == crate::text::joined(words, ' '),
        forall|i: int| 0 <= i < words.len() - 1 ==> !(#[trigger] words[i]).contains(' '),
        words.len() < 3 ==> !words.last().contains(' '),
    ensures
        words.len() >= 2 && words[0] == "200"@ ==> reply_of(text) == (ReplyView::Ready {
            sid: sid_of(words[1]),
        }),
        words.len() >= 2 && words[0] == "502"@ ==> reply_of(text) == (ReplyView::Refused {
            sid: sid_of(words[1]),
            message: trim(text),
        }),
        words.len() < 2 || (words[0] != "200"@ && words[0] != "502"@) ==> reply_of(text) is Other,
{
    reveal_strlit("200");
    reveal_strlit("502");
    crate::text::law_splitn_joined(words, 3, ' ');
    assert("200"@[0] != "502"@[0]);
}

/// A binary message is the two bytes of the stream number, the more significant one first, and
/// the data behind them.
pub proof fn law_frame(sid: u16, payload: Seq<u8>)
    ensures
        frame_of(sid, payload).len() == payload.len() + 2,
        frame_of(sid, payload)[0] == sid / 256,
        frame_of(sid, payload)[1] == sid % 256,
        forall|i: int|
            0 <= i < payload.len() ==> frame_of(sid, payload)[i + 2] == #[trigger] payload[i],
{
    assert((sid / 256) as u8 == sid / 256);
    assert((sid % 256) as u8 == sid % 256);
}

/// A binary message of two bytes or more is of the stream that they number, and its data is all
/// that follows; a shorter one is of none.
pub proof fn law_unframe(data: Seq<u8>)
    ensures
        unframe(data) is None <==> data.len() < 2,
        unframe(data) matches Some((sid, payload)) ==> {
            &&& sid / 256 == data[0]
            &&& sid % 256 == data[1]
            &&& payload.len() == data.len() - 2
            &&& forall|i: int| 0 <= i < payload.len() ==> #[trigger] payload[i] == data[i + 2]
        },
{
}

/// What was read of a message is what the sequences say.
pub proof fn law_message_views(command: Command, reply: Reply)
    ensures
        match command {
            Command::Connect { sid, target, password } => command@ == (CommandView::Connect {
                sid,
                target: target@,
                password: password@,
            }),
            Command::Close { sid } => command@ == (CommandView::Close { sid }),
            Command::Other => command@ is Other,
        },
        match reply {
            Reply::Ready { sid } => reply@ == (ReplyView::Ready { sid }),
            Reply::Refused { sid, message } => reply@ == (ReplyView::Refused {
                sid,
                message: message@,
            }),
            Reply::Other => reply@ is Other,
        },
{
}

/// Each message is its words with spaces between them, whatever the words hold.
pub proof fn law_messages(sid: u16, target: Seq<char>, password: Seq<char>, reason: Seq<char>)
    ensures
        connect_message(sid, target, password) == crate::text::joined(
            seq!["CONNECT"@, decimal(sid as nat), target, password],
            ' ',
        ),
        close_message(sid) == crate::text::joined(seq!["CLOSE"@, decimal(sid as nat)], ' '),
        ready_message(sid) == crate::text::joined(
            seq!["200"@, decimal(sid as nat), "Connected"@],
            ' ',
        ),
        refused_message(sid, reason) == crate::text::joined(
            seq!["502"@, decimal(sid as nat), reason],
            ' ',
        ),
{
    law_close_message(sid);
    law_ready_message(sid);
    law_refused_message(sid, reason);
    crate::text::law_splitn(close_message(sid), 4, ' ');
    crate::text::law_splitn(ready_message(sid), 4, ' ');
    crate::text::law_splitn(refused_message(sid, reason), 3, ' ');
    reveal_strlit("CONNECT ");
    reveal_strlit("CONNECT");
    reveal_strlit(" ");
    let num = decimal(sid as nat);
    let words = seq!["CONNECT"@, num, target, password];
    assert(words.drop_first() =~= seq![num, target, password]);
    assert(seq![num, target, password].drop_first() =~= seq![target, password]);
    assert(seq![target, password].drop_first() =~= seq![password]);
    assert(crate::text::joined(seq![password], ' ') == password);
    assert(crate::text::joined(seq![target, password], ' ') == target.push(' ') + password);
    assert(crate::text::joined(seq![num, target, password], ' ') == num.push(' ') + (target.push(
        ' ',
    ) + password));
    assert(connect_message(sid, target, password) =~= crate::text::joined(words, ' '));
}

} // verus!
