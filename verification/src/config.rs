//! What the tunnel's two ends are told at start: on the command line, in the environment
//! and by default.
use crate::socks5::host_port;
use crate::text::{
    decimal, law_decimal_round_trip, law_rsplit_joined, lemma_decimal_without, number_up_to,
    parse_number, rsplit_once, split_last, texts,
};
use vstd::prelude::*;
use vstd::string::*;

verus! {

/// Where the client end gets its ECH configuration from.
pub enum EchSource {
    /// From this file.
    File(String),
    /// By asking these DNS-over-HTTPS endpoints.
    Doh(Vec<String>),
    /// It uses none.
    Off,
}

/// Why there is no server to connect to.
pub enum ConnectError {
    /// No server was named.
    Missing,
    /// The server's port is no port number.
    BadPort,
}

/// The text of an optional argument.
pub open spec fn argument_text(argument: Option<&str>) -> Option<Seq<char>> {
    match argument {
        Some(s) => Some(s@),
        None => None,
    }
}

/// The text of an optional environment variable.
pub open spec fn variable_text(variable: Option<String>) -> Option<Seq<char>> {
    match variable {
        Some(s) => Some(s@),
        None => None,
    }
}

/// The first of two texts that is there, and `default` where neither is.
pub open spec fn first_given(
    first: Option<Seq<char>>,
    second: Option<Seq<char>>,
    default: Seq<char>,
) -> Seq<char> {
    match first {
        Some(s) => s,
        None => match second {
            Some(s) => s,
            None => default,
        },
    }
}

/// The server that a text names: what stands before and after its last colon; without a
/// colon all of it is the host, and the port is 2087.
pub open spec fn server_of(connect: Seq<char>) -> (Seq<char>, Seq<char>) {
    match rsplit_once(connect, ':') {
        Some(parts) => parts,
        None => (connect, "2087"@),
    }
}

/// The protocol that the client end asks for in the TLS handshake: `h3`.
pub fn alpn() -> (protocol: Vec<u8>)
    ensures
        protocol@ == seq![0x68u8, 0x33],
{
    vec![0x68, 0x33]
}

/// The password: that of the command line, else that of the environment variable
/// `RUST_FORWARD_PASSWORD`, else none.
pub fn resolve_password(cli: Option<&str>, variable: Option<String>) -> (password: String)
    ensures
        password@ == first_given(argument_text(cli), variable_text(variable), seq![]),
{
    given_or_empty(cli, variable)
}

/// The server to connect to: that of the command line, else that of the environment
/// variable `RUST_FORWARD_CONNECT`, else none.
pub fn resolve_connect(cli: Option<&str>, variable: Option<String>) -> (connect: String)
    ensures
        connect@ == first_given(argument_text(cli), variable_text(variable), seq![]),
{
    given_or_empty(cli, variable)
}

fn given_or_empty(cli: Option<&str>, variable: Option<String>) -> (text: String)
    ensures
        text@ == first_given(argument_text(cli), variable_text(variable), seq![]),
{
    match cli {
        Some(s) => s.to_string(),
        None => match variable {
            Some(s) => s,
            None => {
                let text = String::new();
                assert(text@ =~= seq![]);
                text
            },
        },
    }
}

/// The host and the port of the server to connect to.
pub fn connect_address(connect: &str) -> (r: Result<(String, u16), ConnectError>)
    ensures
        ({
            let (host, port) = server_of(connect@);
            match r {
                Ok((h, p)) => {
                    &&& connect@.len() > 0
                    &&& h@ == host
                    &&& number_up_to(port, u16::MAX as nat) == Some(p as nat)
                },
                Err(ConnectError::Missing) => connect@.len() == 0,
                Err(ConnectError::BadPort) => connect@.len() > 0 && number_up_to(
                    port,
                    u16::MAX as nat,
                ) is None,
            }
        }),
{
    if connect.is_empty() {
        return Err(ConnectError::Missing);
    }
    let (host, port) = match split_last(connect, ':') {
        Some(parts) => parts,
        None => (connect.to_string(), "2087".to_string()),
    };
    match parse_number(port.as_str(), u16::MAX as u64) {
        Some(n) => Ok((host, n as u16)),
        None => Err(ConnectError::BadPort),
    }
}

/// The DNS-over-HTTPS endpoints that are asked where none are given.
pub open spec fn default_endpoints_text() -> Seq<Seq<char>> {
    seq![
        "https://odvr.nic.cz/dns-query"@,
        "https://dns.hetzner.com/dns-query"@,
        "https://dns.digitale-gesellschaft.ch/dns-query"@,
        "https://dns.aa.net.uk/dns-query"@,
    ]
}

/// The DNS-over-HTTPS endpoints that are asked where none are given.
pub fn default_endpoints() -> (urls: Vec<String>)
    ensures
        texts(urls@) == default_endpoints_text(),
{
    let mut urls: Vec<String> = Vec::new();
    urls.push("https://odvr.nic.cz/dns-query".to_string());
    urls.push("https://dns.hetzner.com/dns-query".to_string());
    urls.push("https://dns.digitale-gesellschaft.ch/dns-query".to_string());
    urls.push("https://dns.aa.net.uk/dns-query".to_string());
    assert(texts(urls@) =~= default_endpoints_text());
    urls
}

/// Decides where the ECH configuration comes from: a file that is named comes before all
/// else, and without the switch `ech` nothing else is used.
pub fn ech_source(file: Option<String>, ech: bool, doh: Option<Vec<String>>) -> (source: EchSource)
    ensures
        match file {
            Some(path) => source == EchSource::File(path),
            None => if ech {
                &&& source matches EchSource::Doh(urls)
                &&& match doh {
                    Some(given) => urls == given,
                    None => texts(urls@) == default_endpoints_text(),
                }
            } else {
                source is Off
            },
        },
{
    match file {
        Some(path) => EchSource::File(path),
        None => if ech {
            match doh {
                Some(given) => EchSource::Doh(given),
                None => EchSource::Doh(default_endpoints()),
            }
        } else {
            EchSource::Off
        },
    }
}

/// The server that a `host:port` spells out is taken apart again, whatever the host is.
pub proof fn law_server_round_trip(host: Seq<char>, port: u16)
    ensures
        server_of(host_port(host, port)) == (host, decimal(port as nat)),
        number_up_to(decimal(port as nat), u16::MAX as nat) == Some(port as nat),
{
    lemma_decimal_without(port as nat, ':');
    law_rsplit_joined(host, ':', decimal(port as nat));
    law_decimal_round_trip(port as nat);
}

/// The first text is taken where it is there, then the second, and then the default.
pub proof fn law_first_given(
    a: Seq<char>,
    second: Option<Seq<char>>,
    b: Seq<char>,
    default: Seq<char>,
)
    ensures
        first_given(Some(a), second, default) == a,
        first_given(None, Some(b), default) == b,
        first_given(None, None, default) == default,
{
}

/// The text of an argument is its text, and that of a variable too; one that is absent has none.
pub proof fn law_given_texts(argument: &str, variable: String)
    ensures
        argument_text(Some(argument)) == Some(argument@),
        argument_text(None) is None,
        variable_text(Some(variable)) == Some(variable@),
        variable_text(None) is None,
{
}

/// A server without a colon is of port 2087; otherwise its port is what follows the last colon.
pub proof fn law_server(connect: Seq<char>)
    ensures
        !connect.contains(':') ==> server_of(connect) == (connect, "2087"@),
        connect.contains(':') ==> {
            &&& connect == server_of(connect).0.push(':') + server_of(connect).1
            &&& !server_of(connect).1.contains(':')
        },
        number_up_to("2087"@, u16::MAX as nat) == Some(2087nat),
{
    crate::text::law_rsplit_once(connect, ':');
    reveal_strlit("2087");
    assert(decimal(2087) =~= "2087"@) by {
        crate::text::law_decimal(2087);
        crate::text::law_decimal(208);
        crate::text::law_decimal(20);
        crate::text::law_decimal(2);
        assert(decimal(2) =~= seq!['2']);
        assert(decimal(20) =~= seq!['2', '0']);
        assert(decimal(208) =~= seq!['2', '0', '8']);
        assert(decimal(2087) =~= seq!['2', '0', '8', '7']);
    }
    law_decimal_round_trip(2087);
}

/// The endpoints that are asked where none are given, in their order.
pub proof fn law_default_endpoints()
    ensures
        default_endpoints_text().len() == 4,
        default_endpoints_text()[0] == "https://odvr.nic.cz/dns-query"@,
        default_endpoints_text()[1] == "https://dns.hetzner.com/dns-query"@,
        default_endpoints_text()[2] == "https://dns.digitale-gesellschaft.ch/dns-query"@,
        default_endpoints_text()[3] == "https://dns.aa.net.uk/dns-query"@,
{
}

} // verus!
