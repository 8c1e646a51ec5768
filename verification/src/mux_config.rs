//! What the WebSocket multiplexer is told at start: on the command line, when it was built
//! and by default.
use crate::config::{argument_text, first_given};
use crate::text::same_text;
use crate::noop_verifier::SignatureScheme;
use vstd::prelude::*;
use vstd::string::*;

verus! {

/// Which end of the multiplexer to run.
#[derive(Clone, Copy, Debug, PartialEq, Eq, Structural)]
pub enum Mode {
    /// The server end.
    WsServer,
    /// The client end, a SOCKS5 server for its clients.
    Socks5Ws,
}

/// The mode that a text names.
pub open spec fn mode_of(text: Seq<char>) -> Option<Mode> {
    if text == "ws-server"@ {
        Some(Mode::WsServer)
    } else if text == "socks5-ws"@ {
        Some(Mode::Socks5Ws)
    } else {
        None
    }
}

/// The password: that of the command line, else the one that was built in, else `123456`.
pub fn resolve_password(cli: Option<&str>, built_in: Option<&str>) -> (password: String)
    ensures
        password@ == first_given(argument_text(cli), argument_text(built_in), "123456"@),
{
    given_or(cli, built_in, "123456")
}

/// The URL of the server: that of the command line, else the one that was built in, else
/// none.
pub fn resolve_ws_url(cli: Option<&str>, built_in: Option<&str>) -> (url: String)
    ensures
        url@ == first_given(argument_text(cli), argument_text(built_in), seq![]),
{
    proof {
        reveal_strlit("");
        assert(""@ =~= seq![]);
    }
    given_or(cli, built_in, "")
}

fn given_or(cli: Option<&str>, built_in: Option<&str>, default: &str) -> (text: String)
    ensures
        text@ == first_given(argument_text(cli), argument_text(built_in), default@),
{
    match cli {
        Some(s) => s.to_string(),
        None => match built_in {
            Some(s) => s.to_string(),
            None => default.to_string(),
        },
    }
}

/// The mode that a text names.
pub fn parse_mode(text: &str) -> (mode: Option<Mode>)
    ensures
        mode == mode_of(text@),
{
    if same_text(text, "ws-server") {
        Some(Mode::WsServer)
    } else if same_text(text, "socks5-ws") {
        Some(Mode::Socks5Ws)
    } else {
        None
    }
}

/// The signature schemes that the client end offers where it does not verify the server.
pub fn unverified_schemes() -> (schemes: Vec<SignatureScheme>)
    ensures
        schemes@ == seq![SignatureScheme::RsaPkcs1Sha256, SignatureScheme::EcdsaNistp256Sha256],
{
    vec![SignatureScheme::RsaPkcs1Sha256, SignatureScheme::EcdsaNistp256Sha256]
}

/// Two texts name a mode, and no others do.
pub proof fn law_mode(text: Seq<char>)
    ensures
        mode_of(text) == Some(Mode::WsServer) <==> text == "ws-server"@,
        mode_of(text) == Some(Mode::Socks5Ws) <==> text == "socks5-ws"@,
{
    reveal_strlit("ws-server");
    reveal_strlit("socks5-ws");
    assert("ws-server"@[0] != "socks5-ws"@[0]);
}

} // verus!
