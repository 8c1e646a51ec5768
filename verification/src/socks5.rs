//! The server side of a SOCKS5 handshake, as far as the bridges support it: no
//! authentication, and the command CONNECT.
use crate::text::{
    decimal, decimal_of, joined, law_split_joined, lemma_decimal_without, split,
};
use vstd::prelude::*;
use vstd::slice::slice_subrange;
use vstd::string::*;
use vstd::utf8::{decode_utf8, valid_utf8};

verus! {

/// How many bytes one read of the handshake takes at most.
pub const READ_LEN: usize = 300;

/// The receive buffer of a handshake. It is used for both messages of the client, so
/// behind the second message stands what is left of the first.
pub struct Handshake {
    buf: [u8; 300],
}

impl View for Handshake {
    type V = Seq<u8>;

    closed spec fn view(&self) -> Seq<u8> {
        self.buf@
    }
}

/// What a client asks for.
pub enum Request {
    /// Nothing that is supported.
    Invalid,
    /// A connection to this `host:port`.
    Target(String),
    /// A connection to this IPv6 address and port.
    Ipv6 { octets: Vec<u8>, port: u16 },
}

/// What a client asks for, with texts and bytes as sequences.
pub enum RequestView {
    Invalid,
    Target(Seq<char>),
    Ipv6 { octets: Seq<u8>, port: u16 },
}

impl View for Request {
    type V = RequestView;

    open spec fn view(&self) -> RequestView {
        match *self {
            Request::Invalid => RequestView::Invalid,
            Request::Target(target) => RequestView::Target(target@),
            Request::Ipv6 { octets, port } => RequestView::Ipv6 { octets: octets@, port },
        }
    }
}

/// What a client asks for whose second message, `n` bytes long, stands in `buf`.
pub open spec fn request_of(buf: Seq<u8>, n: nat) -> RequestView {
    if !is_connect(buf, n) {
        RequestView::Invalid
    } else if buf[3] == 1 {
        RequestView::Target(host_port(ipv4_text(buf.subrange(4, 8)), port_at(buf, 8)))
    } else if buf[3] == 3 {
        RequestView::Target(host_port(utf8_lossy(domain_bytes(buf)), port_at(buf, 5 + buf[4])))
    } else if buf[3] == 4 {
        RequestView::Ipv6 { octets: buf.subrange(4, 20), port: port_at(buf, 20) }
    } else {
        RequestView::Invalid
    }
}

/// The contents of a buffer after `read` has been received into it.
pub open spec fn overlay(buf: Seq<u8>, read: Seq<u8>) -> Seq<u8> {
    read + buf.skip(read.len() as int)
}

/// Whether the first message of a client, `n` bytes long, is a SOCKS5 greeting.
pub open spec fn is_greeting(buf: Seq<u8>, n: nat) -> bool {
    n >= 3 && buf[0] == 5
}

/// Whether the second message of a client, `n` bytes long, is a CONNECT request.
pub open spec fn is_connect(buf: Seq<u8>, n: nat) -> bool {
    n >= 7 && buf[0] == 5 && buf[1] == 1
}

/// The port in the two bytes at `i`.
pub open spec fn port_at(buf: Seq<u8>, i: int) -> u16 {
    (buf[i] * 256 + buf[i + 1]) as u16
}

/// `host:port`.
pub open spec fn host_port(host: Seq<char>, port: u16) -> Seq<char> {
    host.push(':') + decimal(port as nat)
}

/// The dotted notation of an IPv4 address.
pub open spec fn ipv4_text(octets: Seq<u8>) -> Seq<char> {
    (decimal(octets[0] as nat).push('.') + decimal(octets[1] as nat)).push('.') + (decimal(
        octets[2] as nat,
    ).push('.') + decimal(octets[3] as nat))
}

/// The domain name in a request: its bytes, behind their number.
pub open spec fn domain_bytes(buf: Seq<u8>) -> Seq<u8> {
    buf.subrange(5, 5 + buf[4])
}

/// What `String::from_utf8_lossy` makes of these bytes.
pub uninterp spec fn utf8_lossy(bytes: Seq<u8>) -> Seq<char>;

/// `String::from_utf8_lossy`: the text of the bytes, with U+FFFD in place of what is not
/// valid UTF-8; where all is valid, the text that the bytes encode.
#[verifier::external_body]
fn lossy_text(bytes: &[u8]) -> (text: String)
    ensures
        text@ == utf8_lossy(bytes@),
        valid_utf8(bytes@) ==> text@ == decode_utf8(bytes@),
{
    String::from_utf8_lossy(bytes).into_owned()
}

/// `host:port`.
pub fn host_and_port(host: &str, port: u16) -> (out: String)
    ensures
        out@ == host_port(host@, port),
{
    let mut out = host.to_string();
    out.push(':');
    out.append(decimal_of(port as u64).as_str());
    out
}

/// `[address]:port` for an IPv6 address in its textual notation.
pub fn ipv6_target(address: &str, port: u16) -> (out: String)
    ensures
        out@ == host_port((seq!['['] + address@).push(']'), port),
{
    let mut host = String::new();
    host.push('[');
    host.append(address);
    host.push(']');
    assert(host@ =~= (seq!['['] + address@).push(']'));
    host_and_port(host.as_str(), port)
}

/// The dotted notation of the IPv4 address in `octets`.
pub fn dotted(octets: &[u8]) -> (out: String)
    requires
        octets@.len() == 4,
    ensures
        out@ == ipv4_text(octets@),
{
    let mut out = decimal_of(octets[0] as u64);
    out.push('.');
    out.append(decimal_of(octets[1] as u64).as_str());
    out.push('.');
    let mut low = decimal_of(octets[2] as u64);
    low.push('.');
    low.append(decimal_of(octets[3] as u64).as_str());
    out.append(low.as_str());
    out
}

/// The answer to a greeting: no authentication.
pub fn method_reply() -> (out: Vec<u8>)
    ensures
        out@ == seq![5u8, 0],
{
    vec![5, 0]
}

/// The answer to a request that was granted.
pub fn success_reply() -> (out: Vec<u8>)
    ensures
        out@ == seq![5u8, 0, 0, 1, 0, 0, 0, 0, 0, 0],
{
    vec![5, 0, 0, 1, 0, 0, 0, 0, 0, 0]
}

/// The answer to a request whose type of address is not supported.
pub fn address_reply() -> (out: Vec<u8>)
    ensures
        out@ == seq![5u8, 8, 0, 1, 0, 0, 0, 0, 0, 0],
{
    vec![5, 8, 0, 1, 0, 0, 0, 0, 0, 0]
}

impl Handshake {
    /// A handshake that has received nothing.
    pub fn new() -> (h: Handshake)
        ensures
            h@ == Seq::new(300, |i: int| 0u8),
    {
        let h = Handshake { buf: [0; 300] };
        assert(h@ =~= Seq::new(300, |i: int| 0u8));
        h
    }

    fn receive(&mut self, read: &[u8])
        requires
            read@.len() <= READ_LEN,
        ensures
            final(self)@ == overlay(old(self)@, read@),
            final(self)@.len() == 300,
    {
        let ghost before = self@;
        assert(self@ =~= overlay(before, read@.take(0)));
        for i in 0..read.len()
            invariant
                read@.len() <= READ_LEN,
                before.len() == 300,
                self@ == overlay(before, read@.take(i as int)),
                self@.len() == 300,
        {
            self.buf[i] = read[i];
            assert(self@ =~= overlay(before, read@.take(i + 1)));
        }
        assert(read@.take(read@.len() as int) =~= read@);
    }

    /// Receives the client's first message and tells whether it is a SOCKS5 greeting.
    pub fn greet(&mut self, read: &[u8]) -> (ok: bool)
        requires
            read@.len() <= READ_LEN,
        ensures
            final(self)@ == overlay(old(self)@, read@),
            final(self)@.len() == READ_LEN,
            ok == is_greeting(final(self)@, read@.len()),
    {
        self.receive(read);
        read.len() >= 3 && self.buf[0] == 5
    }

    /// Receives the client's second message and tells what it asks for. What the message
    /// leaves out is taken as the buffer has it.
    pub fn request(&mut self, read: &[u8]) -> (r: Request)
        requires
            read@.len() <= READ_LEN,
        ensures
            final(self)@ == overlay(old(self)@, read@),
            final(self)@.len() == READ_LEN,
            r@ == request_of(final(self)@, read@.len()),
            ({
                let buf = final(self)@;
                match r {
                    Request::Invalid => !is_connect(buf, read@.len()) || (buf[3] != 1 && buf[3] != 3
                        && buf[3] != 4),
                    Request::Target(target) => {
                        &&& is_connect(buf, read@.len())
                        &&& buf[3] == 1 || buf[3] == 3
                        &&& buf[3] == 1 ==> target@ == host_port(
                            ipv4_text(buf.subrange(4, 8)),
                            port_at(buf, 8),
                        )
                        &&& buf[3] == 3 ==> target@ == host_port(
                            utf8_lossy(domain_bytes(buf)),
                            port_at(buf, 5 + buf[4]),
                        )
                        &&& buf[3] == 3 && valid_utf8(domain_bytes(buf)) ==> target@ == host_port(
                            decode_utf8(domain_bytes(buf)),
                            port_at(buf, 5 + buf[4]),
                        )
                    },
                    Request::Ipv6 { octets, port } => {
                        &&& is_connect(buf, read@.len())
                        &&& buf[3] == 4
                        &&& octets@ == buf.subrange(4, 20)
                        &&& port == port_at(buf, 20)
                    },
                }
            }),
    {
        self.receive(read);
        if read.len() < 7 || self.buf[0] != 5 || self.buf[1] != 1 {
            return Request::Invalid;
        }
        let buf = self.buf.as_slice();
        let kind: u8 = buf[3];
        if kind == 1 {
            let host = dotted(slice_subrange(buf, 4, 8));
            Request::Target(host_and_port(host.as_str(), read_port(buf, 8)))
        } else if kind == 3 {
            let len: usize = buf[4] as usize;
            let domain = lossy_text(slice_subrange(buf, 5, 5 + len));
            Request::Target(host_and_port(domain.as_str(), read_port(buf, 5 + len)))
        } else if kind == 4 {
            let octets = vstd::slice::slice_to_vec(slice_subrange(buf, 4, 20));
            Request::Ipv6 { octets, port: read_port(buf, 20) }
        } else {
            Request::Invalid
        }
    }
}

/// What a message holds itself is read from the message, whatever the buffer held before.
pub proof fn law_message_hides_leftover(buf: Seq<u8>, read: Seq<u8>)
    requires
        read.len() <= buf.len(),
    ensures
        overlay(buf, read).len() == buf.len(),
        forall|i: int| 0 <= i < read.len() ==> #[trigger] overlay(buf, read)[i] == read[i],
        forall|i: int, j: int|
            0 <= i <= j <= read.len() ==> #[trigger] overlay(buf, read).subrange(i, j)
                == read.subrange(i, j),
{
    assert forall|i: int, j: int|
        0 <= i <= j <= read.len() implies #[trigger] overlay(buf, read).subrange(i, j)
        == read.subrange(i, j) by {
        assert(overlay(buf, read).subrange(i, j) =~= read.subrange(i, j));
    }
}

fn read_port(buf: &[u8], i: usize) -> (port: u16)
    requires
        i + 1 < buf@.len(),
    ensures
        port == port_at(buf@, i as int),
{
    buf[i] as u16 * 256 + buf[i + 1] as u16
}

/// What is received stands at the beginning of the buffer, and behind it what the buffer held.
pub proof fn law_overlay(buf: Seq<u8>, read: Seq<u8>)
    requires
        read.len() <= buf.len(),
    ensures
        overlay(buf, read).len() == buf.len(),
        forall|i: int|
            0 <= i < buf.len() ==> #[trigger] overlay(buf, read)[i] == if i < read.len() {
                read[i]
            } else {
                buf[i]
            },
{
}

/// A greeting is at least three bytes long and begins with the version, five.
pub proof fn law_greeting(buf: Seq<u8>, n: nat)
    ensures
        is_greeting(buf, n) <==> !(n < 3 || buf[0] < 5 || buf[0] > 5),
{
}

/// A port is the number of its two bytes, the more significant one first: every port is read
/// back from its bytes.
pub proof fn law_port(buf: Seq<u8>, i: int, port: u16)
    ensures
        port_at(buf, i) / 256 == buf[i],
        port_at(buf, i) % 256 == buf[i + 1],
        buf[i] == port / 256 && buf[i + 1] == port % 256 ==> port_at(buf, i) == port,
{
}

/// A `host:port` is the host, a colon and the decimal notation of the port.
pub proof fn law_host_port(host: Seq<char>, port: u16)
    ensures
        host_port(host, port).take(host.len() as int) == host,
        host_port(host, port)[host.len() as int] == ':',
        host_port(host, port).skip(host.len() as int + 1) == decimal(port as nat),
{
    assert(host_port(host, port).take(host.len() as int) =~= host);
    assert(host_port(host, port).skip(host.len() as int + 1) =~= decimal(port as nat));
}

/// The dotted notation of an IPv4 address is the decimal notations of its four bytes, in
/// order, with dots between them.
pub proof fn law_ipv4_text(octets: Seq<u8>)
    requires
        octets.len() == 4,
    ensures
        split(ipv4_text(octets), '.') == seq![
            decimal(octets[0] as nat),
            decimal(octets[1] as nat),
            decimal(octets[2] as nat),
            decimal(octets[3] as nat),
        ],
{
    let a = decimal(octets[0] as nat);
    let b = decimal(octets[1] as nat);
    let c = decimal(octets[2] as nat);
    let d = decimal(octets[3] as nat);
    lemma_decimal_without(octets[0] as nat, '.');
    lemma_decimal_without(octets[1] as nat, '.');
    lemma_decimal_without(octets[2] as nat, '.');
    lemma_decimal_without(octets[3] as nat, '.');
    let pieces = seq![a, b, c, d];
    assert(seq![d].drop_first() =~= seq![]);
    assert(seq![c, d].drop_first() =~= seq![d]);
    assert(seq![b, c, d].drop_first() =~= seq![c, d]);
    assert(pieces.drop_first() =~= seq![b, c, d]);
    assert(joined(seq![d], '.') == d);
    assert(joined(seq![c, d], '.') == c.push('.') + d);
    assert(joined(seq![b, c, d], '.') == b.push('.') + (c.push('.') + d));
    assert(ipv4_text(octets) =~= joined(pieces, '.'));
    law_split_joined(pieces, '.');
}

/// A request for an IPv4 address and a port is read as that address and that port.
pub proof fn law_ipv4_request(buf: Seq<u8>, n: nat, octets: Seq<u8>, port: u16)
    requires
        buf.len() == 300,
        n >= 7,
        octets.len() == 4,
        buf.take(10) == seq![
            5u8,
            1,
            buf[2],
            1,
            octets[0],
            octets[1],
            octets[2],
            octets[3],
            (port / 256) as u8,
            (port % 256) as u8,
        ],
    ensures
        request_of(buf, n) == RequestView::Target(
            ipv4_text(octets).push(':') + decimal(port as nat),
        ),
{
    let head = buf.take(10);
    assert(head[0] == buf[0] && head[1] == buf[1] && head[3] == buf[3] && head[4] == buf[4]
        && head[5] == buf[5] && head[6] == buf[6] && head[7] == buf[7] && head[8] == buf[8]
        && head[9] == buf[9]);
    assert(buf.subrange(4, 8) =~= octets);
    law_port(buf, 8, port);
    law_host_port(ipv4_text(octets), port);
    assert(host_port(ipv4_text(octets), port) =~= ipv4_text(octets).push(':') + decimal(
        port as nat,
    ));
}

/// A request for a domain name and a port is read as that name and that port, whatever the
/// length of the name.
pub proof fn law_domain_request(buf: Seq<u8>, n: nat, name: Seq<u8>, port: u16)
    requires
        buf.len() == 300,
        n >= 7,
        name.len() <= 255,
        buf.take(name.len() as int + 7) == seq![5u8, 1, buf[2], 3, name.len() as u8] + name + seq![
            (port / 256) as u8,
            (port % 256) as u8,
        ],
    ensures
        request_of(buf, n) == RequestView::Target(
            utf8_lossy(name).push(':') + decimal(port as nat),
        ),
{
    let len = name.len() as int;
    let head = buf.take(len + 7);
    assert(head[0] == buf[0] && head[1] == buf[1] && head[3] == buf[3] && head[4] == buf[4]);
    assert(buf[4] == len);
    assert forall|j: int| 0 <= j < len implies buf[5 + j] == name[j] by {
        assert(head[5 + j] == buf[5 + j]);
    }
    assert(domain_bytes(buf) =~= name);
    assert(head[5 + len] == buf[5 + len] && head[6 + len] == buf[6 + len]);
    law_port(buf, 5 + len, port);
    law_host_port(utf8_lossy(name), port);
    assert(host_port(utf8_lossy(name), port) =~= utf8_lossy(name).push(':') + decimal(
        port as nat,
    ));
}

/// A request for an IPv6 address and a port is read as that address and that port.
pub proof fn law_ipv6_request(buf: Seq<u8>, n: nat, address: Seq<u8>, port: u16)
    requires
        buf.len() == 300,
        n >= 7,
        address.len() == 16,
        buf.take(22) == seq![5u8, 1, buf[2], 4] + address + seq![
            (port / 256) as u8,
            (port % 256) as u8,
        ],
    ensures
        request_of(buf, n) == (RequestView::Ipv6 { octets: address, port }),
{
    let head = buf.take(22);
    assert(head[0] == buf[0] && head[1] == buf[1] && head[3] == buf[3]);
    assert forall|j: int| 0 <= j < 16 implies buf[4 + j] == address[j] by {
        assert(head[4 + j] == buf[4 + j]);
    }
    assert(buf.subrange(4, 20) =~= address);
    assert(head[20] == buf[20] && head[21] == buf[21]);
    law_port(buf, 20, port);
}

/// Nothing is asked for by fewer than seven bytes, by another version than five, by another
/// command than CONNECT, or with another type of address than the three.
pub proof fn law_invalid_request(buf: Seq<u8>, n: nat)
    ensures
        request_of(buf, n) is Invalid <==> n < 7 || buf[0] != 5 || buf[1] != 1 || (buf[3] != 1
            && buf[3] != 3 && buf[3] != 4),
{
}

/// What was read of a request is what the sequences say.
pub proof fn law_request_view(request: Request)
    ensures
        match request {
            Request::Invalid => request@ is Invalid,
            Request::Target(target) => request@ == RequestView::Target(target@),
            Request::Ipv6 { octets, port } => request@ == (RequestView::Ipv6 {
                octets: octets@,
                port,
            }),
        },
        READ_LEN == 300,
{
}

} // verus!
