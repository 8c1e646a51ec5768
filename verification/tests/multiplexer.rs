use rust_forward::mux::{
    close_text, connect_text, frame, parse_command, parse_frame, parse_reply, ready_text,
    refused_text, Command, Reply,
};
use rust_forward::mux_bridge::{
    answer_client, decide_request, Answer, Bridge, Decision, LinkEvent, LinkStep, Notice,
};
use rust_forward::mux_config::{
    parse_mode, resolve_password, resolve_ws_url, unverified_schemes, Mode,
};
use rust_forward::mux_server::{carry, Action, Dialed, Incoming, MuxServer};
use rust_forward::noop_verifier::{NoopVerifier, SignatureScheme};
use rust_forward::socks5::Request;

fn text(s: &str) -> Incoming {
    Incoming::Text(s.to_string())
}

#[test]
fn messages_have_their_form() {
    assert_eq!(connect_text(7, "h:1", "a b"), "CONNECT 7 h:1 a b");
    assert_eq!(close_text(65535), "CLOSE 65535");
    assert_eq!(ready_text(0), "200 0 Connected");
    assert_eq!(refused_text(3, "Timeout"), "502 3 Timeout");
    assert_eq!(frame(0x1234, &[9]), [0x12, 0x34, 9]);
}

#[test]
fn the_server_reads_what_the_bridge_writes() {
    for password in ["pw", "a b c", " x"] {
        match parse_command(&connect_text(7, "h:1", password)) {
            Command::Connect { sid, target, password: p } => {
                assert_eq!((sid, target.as_str(), p.as_str()), (7, "h:1", password));
            }
            _ => panic!("a connect message"),
        }
    }
    assert!(matches!(parse_command(&close_text(9)), Command::Close { sid: 9 }));
    assert!(matches!(parse_command("CLOSE x"), Command::Close { sid: 0 }));
    assert!(matches!(parse_command(" CLOSE 5 more "), Command::Close { sid: 5 }));
    assert!(matches!(parse_command("CLOSE"), Command::Other));
    assert!(matches!(parse_command("CONNECT 1 h:1"), Command::Other));
    assert!(matches!(parse_command("connect 1 h:1 p"), Command::Other));
    assert!(matches!(parse_command(""), Command::Other));
    assert!(matches!(parse_command(&connect_text(1, "h:1", "")), Command::Other));
}

#[test]
fn the_bridge_reads_what_the_server_writes() {
    assert!(matches!(parse_reply(&ready_text(8)), Reply::Ready { sid: 8 }));
    match parse_reply(&refused_text(8, "no route ")) {
        Reply::Refused { sid, message } => {
            assert_eq!((sid, message.as_str()), (8, "502 8 no route"));
        }
        _ => panic!("a refusal"),
    }
    assert!(matches!(parse_reply(&close_text(8)), Reply::Other));
    assert!(matches!(parse_reply("200"), Reply::Other));
    assert!(matches!(parse_reply("200 99999"), Reply::Ready { sid: 0 }));
}

#[test]
fn frames_round_trip() {
    for sid in [0u16, 1, 255, 256, 65535] {
        for payload in [vec![], vec![1], vec![0, 255, 7]] {
            assert_eq!(parse_frame(&frame(sid, &payload)), Some((sid, payload)));
        }
    }
    assert_eq!(parse_frame(&[]), None);
    assert_eq!(parse_frame(&[1]), None);
    assert_eq!(carry(5, &[]), None);
    assert_eq!(carry(5, &[8]), Some(vec![0, 5, 8]));
}

#[test]
fn the_server_dials_with_the_password_only() {
    let mut server: MuxServer<char> = MuxServer::new("pw");
    match server.on_message(text("CONNECT 4 h:1 pw")) {
        Action::Dial { sid, target } => assert_eq!((sid, target.as_str()), (4, "h:1")),
        _ => panic!("the password is right"),
    }
    match server.on_message(text("CONNECT 4 h:1 no")) {
        Action::Send(reply) => assert_eq!(reply, "502 4 Auth Failed"),
        _ => panic!("the password is wrong"),
    }
    assert!(matches!(server.on_message(text("HELLO")), Action::Nothing));
}

#[test]
fn a_server_with_an_unusable_password_dials_for_nobody() {
    for password in ["", " ", "pw ", "pw\t"] {
        let mut server: MuxServer<char> = MuxServer::new(password);
        let asked = server.on_message(Incoming::Text(connect_text(1, "h:1", password)));
        assert!(!matches!(asked, Action::Dial { .. }));
    }
}

#[test]
fn the_server_tells_what_came_of_a_dial() {
    let mut server: MuxServer<char> = MuxServer::new("pw");
    assert_eq!(server.dialed(4, Dialed::Failed("refused".to_string())), "502 4 refused");
    assert_eq!(server.dialed(4, Dialed::TimedOut), "502 4 Timeout");
    assert!(matches!(server.on_message(text("CLOSE 4")), Action::Nothing));
    assert_eq!(server.dialed(4, Dialed::Connected('w')), "200 4 Connected");
    assert!(matches!(server.on_message(text("CLOSE 4")), Action::Shutdown('w')));
    assert!(matches!(server.on_message(text("CLOSE 4")), Action::Nothing));
}

#[test]
fn data_goes_to_the_target_of_its_stream() {
    let mut server: MuxServer<char> = MuxServer::new("pw");
    server.dialed(4, Dialed::Connected('a'));
    server.dialed(5, Dialed::Connected('b'));
    for _ in 0..2 {
        match server.on_message(Incoming::Binary(frame(5, &[1, 2]))) {
            Action::Write { sid, payload, stream } => {
                assert_eq!((sid, payload, stream), (5, vec![1, 2], 'b'));
                server.written(5, stream, true);
            }
            _ => panic!("stream 5 is open"),
        }
    }
    match server.on_message(Incoming::Binary(frame(5, &[]))) {
        Action::Write { sid, stream, .. } => server.written(sid, stream, false),
        _ => panic!("stream 5 is open"),
    }
    assert!(matches!(server.on_message(Incoming::Binary(frame(5, &[1]))), Action::Nothing));
    assert!(matches!(server.on_message(Incoming::Binary(vec![0])), Action::Nothing));
    let (stream, message) = server.target_ended(4);
    assert_eq!((stream, message.as_str()), (Some('a'), "CLOSE 4"));
    assert_eq!(server.target_ended(4).0, None);
}

#[test]
fn the_server_ends_with_its_connection() {
    let mut server: MuxServer<char> = MuxServer::new("pw");
    server.dialed(4, Dialed::Connected('a'));
    server.dialed(5, Dialed::Connected('b'));
    assert!(matches!(server.on_message(Incoming::Other), Action::Nothing));
    assert!(matches!(server.on_message(Incoming::Failed), Action::Abort));
    assert!(matches!(server.on_message(Incoming::Close), Action::End));
    let mut all = server.finish();
    all.sort();
    assert_eq!(all, [(4, 'a'), (5, 'b')]);
    assert_eq!(server.finish().len(), 0);
}

fn online() -> Bridge<&'static str, char, u8> {
    let mut bridge = Bridge::new();
    bridge.connected("w");
    bridge
}

#[test]
fn streams_need_a_connection() {
    let mut bridge: Bridge<&str, char, u8> = Bridge::new();
    assert!(bridge.writer().is_none());
    assert_eq!(bridge.open(1, "h:1", "pw", 'r', 10), None);
    assert_eq!(bridge.data(1), None);
    bridge.connected("w");
    assert_eq!(bridge.writer(), Some(&"w"));
    let message = bridge.open(1, "h:1", "pw", 'r', 10);
    assert_eq!(message.as_deref(), Some("CONNECT 1 h:1 pw"));
    assert_eq!(bridge.data(1), Some(&10));
    bridge.forget(1);
    assert_eq!(bridge.data(1), None);
}

#[test]
fn stream_numbers_begin_with_one_and_wrap() {
    let mut bridge: Bridge<(), (), ()> = Bridge::new();
    for expected in 1..=65535u16 {
        assert_eq!(bridge.take_sid(), expected);
    }
    assert_eq!(bridge.take_sid(), 0);
    assert_eq!(bridge.take_sid(), 1);
}

#[test]
fn a_client_is_told_once_that_its_stream_is_connected() {
    let mut bridge = online();
    bridge.open(1, "h:1", "pw", 'r', 10);
    assert!(matches!(bridge.on_message(text("200 2 Connected")), Notice::Nothing));
    assert!(matches!(bridge.on_message(text("200 1 Connected")), Notice::Ready('r')));
    assert!(matches!(bridge.on_message(text("200 1 Connected")), Notice::Nothing));
    assert_eq!(bridge.data(1), Some(&10));
    assert!(matches!(bridge.on_message(text("502 1 late")), Notice::Nothing));
    assert_eq!(bridge.data(1), None);
}

#[test]
fn a_client_is_told_why_its_stream_is_refused() {
    let mut bridge = online();
    bridge.open(1, "h:1", "pw", 'r', 10);
    match bridge.on_message(text("502 1 Auth Failed")) {
        Notice::Refused(client, message) => {
            assert_eq!((client, message.as_str()), ('r', "502 1 Auth Failed"));
        }
        _ => panic!("a refusal"),
    }
    assert_eq!(bridge.data(1), None);
    assert!(matches!(bridge.on_message(text("502 1 Auth Failed")), Notice::Nothing));
}

#[test]
fn data_goes_to_the_client_of_its_stream() {
    let mut bridge = online();
    bridge.open(1, "h:1", "pw", 'r', 10);
    match bridge.on_message(Incoming::Binary(frame(1, &[7]))) {
        Notice::Deliver { sid, payload } => assert_eq!((sid, payload), (1, vec![7])),
        _ => panic!("stream 1 is open"),
    }
    assert!(matches!(bridge.on_message(Incoming::Binary(frame(2, &[7]))), Notice::Nothing));
    assert!(matches!(bridge.on_message(Incoming::Binary(vec![0])), Notice::Nothing));
    assert!(matches!(bridge.on_message(Incoming::Other), Notice::Nothing));
    assert!(matches!(bridge.on_message(text("CLOSE 1")), Notice::Nothing));
    assert_eq!(bridge.data(1), Some(&10));
}

#[test]
fn the_streams_of_a_bridge_end_with_its_connection() {
    for end in [Incoming::Close, Incoming::Failed] {
        let mut bridge = online();
        bridge.open(1, "h:1", "pw", 'r', 10);
        assert!(matches!(bridge.on_message(end), Notice::Ended));
        assert!(bridge.writer().is_none());
        assert_eq!(bridge.data(1), None);
    }
    let mut bridge = online();
    bridge.open(1, "h:1", "pw", 'r', 10);
    bridge.connected("v");
    assert_eq!(bridge.writer(), Some(&"v"));
    assert_eq!(bridge.data(1), None);
    bridge.open(2, "h:1", "pw", 'r', 10);
    assert_eq!(bridge.lost(), 3);
    assert!(bridge.writer().is_none());
    assert_eq!(bridge.data(2), None);
}

#[test]
fn a_lost_connection_is_made_again_after_three_seconds() {
    for end in [
        LinkEvent::NotConnected,
        LinkEvent::Message(Incoming::Close),
        LinkEvent::Message(Incoming::Failed),
        LinkEvent::NoMore,
    ] {
        let mut bridge = online();
        bridge.open(1, "h:1", "pw", 'r', 10);
        assert!(matches!(bridge.on_event(end), LinkStep::Reconnect(3)));
        assert!(bridge.writer().is_none());
        assert_eq!(bridge.data(1), None);
        let step = bridge.on_event(LinkEvent::NotConnected);
        assert!(matches!(step, LinkStep::Reconnect(3)));
        let step = bridge.on_event(LinkEvent::Connected("v"));
        assert!(matches!(step, LinkStep::Read(Notice::Nothing)));
        assert_eq!(bridge.writer(), Some(&"v"));
        assert_eq!(bridge.data(1), None);
        bridge.open(1, "h:1", "pw", 'r', 10);
        let step = bridge.on_event(LinkEvent::Message(text("200 1 Connected")));
        assert!(matches!(step, LinkStep::Read(Notice::Ready('r'))));
    }
}

#[test]
fn both_ends_agree_on_a_whole_stream() {
    let mut bridge = online();
    let mut server: MuxServer<char> = MuxServer::new("pw");
    let sid = bridge.take_sid();
    let open = bridge.open(sid, "h:1", "pw", 'r', 10).unwrap();
    match server.on_message(Incoming::Text(open)) {
        Action::Dial { sid: s, target } => assert_eq!((s, target.as_str()), (sid, "h:1")),
        _ => panic!("the password is right"),
    }
    let ready = server.dialed(sid, Dialed::Connected('w'));
    assert!(matches!(bridge.on_message(Incoming::Text(ready)), Notice::Ready('r')));
    let up = carry(sid, b"ping").unwrap();
    assert!(matches!(
        server.on_message(Incoming::Binary(up)),
        Action::Write { payload, .. } if payload == b"ping"
    ));
    let down = carry(sid, b"pong").unwrap();
    assert!(matches!(
        bridge.on_message(Incoming::Binary(down)),
        Notice::Deliver { payload, .. } if payload == b"pong"
    ));
    let other = bridge.open(9, "h:1", "guess", 's', 11).unwrap();
    let refusal = match server.on_message(Incoming::Text(other)) {
        Action::Send(reply) => reply,
        _ => panic!("the password is wrong"),
    };
    assert!(matches!(bridge.on_message(Incoming::Text(refusal)), Notice::Refused('s', _)));
}

#[test]
fn clients_of_the_bridge_are_answered_or_dropped() {
    assert!(matches!(decide_request(Request::Invalid), Decision::Drop));
    let open = decide_request(Request::Target("h:1".to_string()));
    assert!(matches!(open, Decision::Open(t) if t == "h:1"));
    let open = decide_request(Request::Ipv6 { octets: vec![7; 16], port: 8 });
    assert!(matches!(open, Decision::OpenIpv6 { octets, port: 8 } if octets == [7; 16]));
    let reply = answer_client(&Answer::Connected);
    assert_eq!(reply, Some(vec![5, 0, 0, 1, 0, 0, 0, 0, 0, 0]));
    assert_eq!(answer_client(&Answer::Refused("502".to_string())), None);
    assert_eq!(answer_client(&Answer::Lost), None);
}

#[test]
fn the_multiplexer_has_built_in_defaults() {
    assert_eq!(resolve_password(Some("cli"), Some("built")), "cli");
    assert_eq!(resolve_password(None, Some("built")), "built");
    assert_eq!(resolve_password(None, None), "123456");
    assert_eq!(resolve_ws_url(Some("cli"), Some("built")), "cli");
    assert_eq!(resolve_ws_url(None, Some("built")), "built");
    assert_eq!(resolve_ws_url(None, None), "");
    assert_eq!(parse_mode("ws-server"), Some(Mode::WsServer));
    assert_eq!(parse_mode("socks5-ws"), Some(Mode::Socks5Ws));
    assert_eq!(parse_mode("ws-server "), None);
    assert_eq!(parse_mode(""), None);
}

#[test]
fn the_noop_verifier_accepts_everything() {
    let v = NoopVerifier;
    assert!(v.verify_server_cert(&[], &[], "", &[], 0));
    assert!(v.verify_tls12_signature(&[1], &[2], &[3]));
    assert!(v.verify_tls13_signature(&[], &[], &[]));
    let schemes = v.supported_verify_schemes();
    assert_eq!(schemes.len(), 12);
    assert_eq!(schemes[0], SignatureScheme::RsaPkcs1Sha1);
    assert_eq!(schemes[11], SignatureScheme::Ed25519);
    for i in 0..schemes.len() {
        assert!(!schemes[..i].contains(&schemes[i]));
    }
    assert_eq!(
        unverified_schemes(),
        [SignatureScheme::RsaPkcs1Sha256, SignatureScheme::EcdsaNistp256Sha256]
    );
}
