use rust_forward::h3_client::{
    client_reply, connect_request, connected, decide_request, first_data, gate, on_link,
    open_tunnel, upload_data, upload_failed, ClientRead, Decision, Gate, Link, LinkEvent, Upload,
};
use rust_forward::header::text_or_empty;
use rust_forward::inbox::{Inbox, Receipt, MAX_PENDING};
use rust_forward::sessions::SessionTable;
use rust_forward::socks5::{ipv6_target, method_reply, success_reply, Handshake, Request};
use rust_forward::tunnel::{
    close_session, decide_connect, end_data, find_data, first_answer, initial_bytes, parse_seq,
    parse_session, pipe_step, route, take_data, unknown_path, PipeRead, PipeStep, RequestHead,
    Route,
};

fn head(path: &str) -> RequestHead {
    RequestHead {
        path: path.to_string(),
        query: path.split_once('?').map(|(_, q)| q.to_string()),
        target: None,
        auth: None,
        session_id: None,
    }
}

fn bytes(s: &str) -> Option<Vec<u8>> {
    Some(s.as_bytes().to_vec())
}

#[test]
fn headers_that_are_no_text_count_as_empty() {
    assert_eq!(text_or_empty(&bytes("a b\tc~")), "a b\tc~");
    assert_eq!(text_or_empty(&None), "");
    assert_eq!(text_or_empty(&Some(vec![b'a', 0x80])), "");
    assert_eq!(text_or_empty(&Some(vec![b'a', 0x7f])), "");
    assert_eq!(text_or_empty(&Some(vec![b'a', b'\n'])), "");
    assert_eq!(text_or_empty(&Some(vec![])), "");
    for b in 0..=255u8 {
        let expected = match http::HeaderValue::from_bytes(&[b]) {
            Ok(v) => v.to_str().unwrap_or("").to_string(),
            Err(_) => String::new(),
        };
        assert_eq!(text_or_empty(&Some(vec![b])), expected);
    }
}

#[test]
fn routes_by_the_beginning_of_the_path() {
    assert!(matches!(route("/tunnel/connect"), Route::Connect));
    assert!(matches!(route("/tunnel/connected"), Route::Connect));
    assert!(matches!(route("/tunnel/data?seq=1"), Route::Data));
    assert!(matches!(route("/tunnel/close"), Route::Close));
    assert!(matches!(route("/tunnel"), Route::Unknown));
    assert!(matches!(route(""), Route::Unknown));
    let reply = unknown_path();
    assert_eq!((reply.status, reply.body.as_str()), (404, "unknown path"));
}

#[test]
fn a_connect_request_needs_a_target() {
    let reply = decide_connect(&head("/tunnel/connect"), "", "").err().unwrap();
    assert_eq!((reply.status, reply.body.as_str()), (400, "no target"));
    let mut h = head("/tunnel/connect");
    h.target = Some(vec![0xff]);
    h.auth = bytes("wrong");
    let reply = decide_connect(&h, "pw", "").err().unwrap();
    assert_eq!(reply.status, 400);
}

#[test]
fn a_connect_request_needs_the_password() {
    let mut h = head("/tunnel/connect");
    h.target = bytes("h:1");
    let reply = decide_connect(&h, "pw", "").err().unwrap();
    assert_eq!((reply.status, reply.body.as_str()), (403, "bad auth"));
    h.auth = bytes("other");
    assert_eq!(decide_connect(&h, "pw", "").err().unwrap().status, 403);
    h.auth = bytes("pw");
    let dial = decide_connect(&h, "pw", "").ok().unwrap();
    assert_eq!(dial.target, "h:1");
    assert_eq!(dial.proxy, None);
    assert!(decide_connect(&h, "", "").is_ok());
}

#[test]
fn a_failed_dial_says_how_it_was_made() {
    let mut h = head("/tunnel/connect");
    h.target = bytes("h:1");
    let direct = decide_connect(&h, "", "").ok().unwrap();
    let reply = direct.failed("refused");
    assert_eq!((reply.status, reply.body.as_str()), (502, "connect: refused"));
    let proxied = decide_connect(&h, "", "127.0.0.1:1070").ok().unwrap();
    assert_eq!(proxied.proxy.as_deref(), Some("127.0.0.1:1070"));
    let reply = proxied.failed("refused");
    assert_eq!((reply.status, reply.body.as_str()), (502, "socks5: refused"));
}

#[test]
fn a_session_is_opened_by_the_first_answer() {
    assert_eq!(initial_bytes(vec![]), None);
    assert_eq!(initial_bytes(vec![1]), Some(vec![1]));
    let mut table: SessionTable<&str> = SessionTable::new();
    let reply = first_answer(&mut table, vec![], "a").err().unwrap();
    assert_eq!((reply.status, reply.body.as_str()), (504, "no response"));
    assert!(table.get(1).is_none());
    let opened = first_answer(&mut table, vec![9], "b").ok().unwrap();
    assert_eq!((opened.id, opened.data.clone()), (1, vec![9]));
    assert_eq!(opened.session_header(), "1");
    assert_eq!(table.get(1), Some(&"b"));
    let opened = first_answer(&mut table, vec![9], "c").ok().unwrap();
    assert_eq!(opened.id, 2);
    assert_eq!(parse_session(&bytes(&opened.session_header())), 2);
}

#[test]
fn a_session_ends_with_its_target() {
    assert!(matches!(pipe_step(PipeRead::Data(vec![1])), PipeStep::Forward(d) if d == [1]));
    assert!(matches!(pipe_step(PipeRead::Data(vec![])), PipeStep::End));
    assert!(matches!(pipe_step(PipeRead::Failed), PipeStep::End));
    assert!(matches!(pipe_step(PipeRead::TimedOut), PipeStep::End));
}

#[test]
fn the_chunk_number_stands_in_the_query() {
    let seq = |q: &str| parse_seq(&Some(q.to_string()));
    assert_eq!(seq("sid=3&seq=17"), 17);
    assert_eq!(seq("seq=17&seq=18"), 17);
    assert_eq!(seq("seq=x&seq=18"), 0);
    assert_eq!(seq("xseq=17"), 0);
    assert_eq!(seq(""), 0);
    assert_eq!(seq("seq="), 0);
    assert_eq!(seq("seq=18446744073709551615"), u64::MAX);
    assert_eq!(seq("seq=18446744073709551616"), 0);
    assert_eq!(parse_seq(&None), 0);
}

#[test]
fn a_data_request_needs_a_session() {
    let mut table: SessionTable<char> = SessionTable::new();
    table.open('a');
    let mut h = head("/tunnel/data?sid=1&seq=4");
    let reply = find_data(&table, &h).err().unwrap();
    assert_eq!((reply.status, reply.body.as_str()), (404, "session not found"));
    h.session_id = bytes("1");
    let (session, seq) = find_data(&table, &h).ok().unwrap();
    assert_eq!((*session, seq), ('a', 4));
}

#[test]
fn a_data_request_is_answered_unless_there_is_no_room() {
    let mut inbox = Inbox::new();
    let none = take_data(&mut inbox, 0, vec![]);
    assert!(none.is_none());
    assert_eq!(inbox.next_seq(), 0);
    let end = end_data(&none);
    let reply = end.reply.unwrap();
    assert!(!end.touch);
    assert_eq!((reply.status, reply.body.as_str()), (200, "ok"));
    let some = take_data(&mut inbox, 0, vec![1]);
    assert!(matches!(&some, Some(Receipt::Write(d)) if *d == [vec![1]]));
    let end = end_data(&some);
    assert!(end.touch && end.reply.unwrap().status == 200);
    for receipt in [Receipt::Buffered, Receipt::Stale] {
        let end = end_data(&Some(receipt));
        assert!(end.touch && end.reply.unwrap().status == 200);
    }
    let end = end_data(&Some(Receipt::Overflow));
    assert!(!end.touch && end.reply.is_none());
}

#[test]
fn closing_is_answered_alike_with_and_without_a_session() {
    let mut table: SessionTable<char> = SessionTable::new();
    table.open('a');
    let mut h = head("/tunnel/close");
    h.session_id = bytes("1");
    let (session, reply) = close_session(&mut table, &h);
    assert_eq!((session, reply.status, reply.body.as_str()), (Some('a'), 200, "ok"));
    let (session, reply) = close_session(&mut table, &h);
    assert_eq!((session, reply.status, reply.body.as_str()), (None, 200, "ok"));
}

#[test]
fn session_numbers_begin_with_one_and_are_not_reused() {
    let mut table: SessionTable<u8> = SessionTable::new();
    assert_eq!(table.open(10), 1);
    assert_eq!(table.open(11), 2);
    assert_eq!(table.close(2), Some(11));
    assert_eq!(table.close(2), None);
    assert_eq!(table.open(12), 3);
    assert_eq!(table.get(1), Some(&10));
    assert_eq!(table.get(2), None);
    for expected in 4..1000u64 {
        let id = table.open(0);
        assert_eq!(id, expected);
        table.close(id);
    }
}

fn feed(order: &[u64], stream: &[Vec<u8>]) -> Vec<Vec<u8>> {
    let mut inbox = Inbox::new();
    let mut out = Vec::new();
    for &k in order {
        assert!(!inbox.exhausted_by(k));
        if let Receipt::Write(chunks) = inbox.accept(k, stream[k as usize].clone()) {
            out.extend(chunks);
        }
        assert_eq!(out.len() as u64, inbox.next_seq());
        assert_eq!(out, stream[..out.len()]);
    }
    out
}

#[test]
fn chunks_are_written_in_order_whatever_order_they_come_in() {
    let stream: Vec<Vec<u8>> = (0..5u8).map(|k| vec![k, k]).collect();
    for order in [
        vec![0u64, 1, 2, 3, 4],
        vec![4, 3, 2, 1, 0],
        vec![2, 0, 2, 4, 1, 1, 3, 0],
    ] {
        assert_eq!(feed(&order, &stream), stream);
    }
    let mut inbox = Inbox::new();
    for k in [2u64, 1, 0] {
        inbox.accept(k, vec![1]);
    }
    assert_eq!((inbox.next_seq(), inbox.pending_len()), (3, 0));
    assert_eq!(feed(&[1, 2, 4], &stream).len(), 0);
    assert_eq!(feed(&[1, 2, 4, 0], &stream), stream[..3]);
}

#[test]
fn a_stale_chunk_is_dropped() {
    let mut inbox = Inbox::new();
    inbox.accept(0, vec![1]);
    assert!(matches!(inbox.accept(0, vec![2]), Receipt::Stale));
    assert_eq!(inbox.next_seq(), 1);
}

#[test]
fn a_later_copy_of_a_kept_chunk_replaces_it() {
    let mut inbox = Inbox::new();
    assert!(matches!(inbox.accept(1, vec![1]), Receipt::Buffered));
    assert!(matches!(inbox.accept(1, vec![2]), Receipt::Buffered));
    assert_eq!(inbox.pending_len(), 1);
    assert!(matches!(inbox.accept(0, vec![0]), Receipt::Write(d) if d == [vec![0], vec![2]]));
}

#[test]
fn an_inbox_keeps_no_more_than_it_has_room_for() {
    let mut inbox = Inbox::new();
    for k in 1..=MAX_PENDING as u64 {
        assert!(matches!(inbox.accept(k, vec![0]), Receipt::Buffered));
    }
    assert!(matches!(inbox.accept(5000, vec![0]), Receipt::Overflow));
    assert!(matches!(inbox.accept(1, vec![0]), Receipt::Overflow));
    assert_eq!(inbox.pending_len(), MAX_PENDING);
    match inbox.accept(0, vec![0]) {
        Receipt::Write(chunks) => assert_eq!(chunks.len(), MAX_PENDING + 1),
        _ => panic!("chunk 0 is waited for"),
    }
    assert_eq!(inbox.pending_len(), 0);
}

#[test]
fn a_stream_as_long_as_the_room_always_fits() {
    let stream: Vec<Vec<u8>> = (0..MAX_PENDING).map(|k| vec![k as u8]).collect();
    let order: Vec<u64> = (0..MAX_PENDING as u64).rev().collect();
    assert_eq!(feed(&order, &stream), stream);
}

#[test]
fn a_long_stream_fits_while_its_sender_does_not_run_ahead() {
    let stream: Vec<Vec<u8>> = (0..5000u32).map(|k| k.to_be_bytes().to_vec()).collect();
    let mut order: Vec<u64> = (0..5000).collect();
    for block in order.chunks_mut(MAX_PENDING) {
        block.reverse();
    }
    assert_eq!(feed(&order, &stream), stream);
}

fn greeted() -> Handshake {
    let mut h = Handshake::new();
    assert!(h.greet(&[5, 1, 0]));
    h
}

#[test]
fn a_greeting_is_three_bytes_and_version_five() {
    assert!(!Handshake::new().greet(&[5, 1]));
    assert!(!Handshake::new().greet(&[4, 1, 0]));
    assert!(!Handshake::new().greet(&[]));
    assert!(Handshake::new().greet(&[5, 2, 0, 2]));
    assert_eq!(method_reply(), [5, 0]);
    assert_eq!(success_reply(), [5, 0, 0, 1, 0, 0, 0, 0, 0, 0]);
}

#[test]
fn requests_that_are_not_supported() {
    assert!(matches!(greeted().request(&[5, 1, 0, 1, 1, 2]), Request::Invalid));
    assert!(matches!(greeted().request(&[4, 1, 0, 1, 1, 2, 3, 4, 0, 80]), Request::Invalid));
    assert!(matches!(greeted().request(&[5, 2, 0, 1, 1, 2, 3, 4, 0, 80]), Request::Invalid));
    assert!(matches!(greeted().request(&[5, 1, 0, 2, 1, 2, 3, 4, 0, 80]), Request::Invalid));
}

#[test]
fn an_ipv4_request() {
    let r = greeted().request(&[5, 1, 0, 1, 192, 168, 0, 7, 0x1f, 0x90]);
    assert!(matches!(r, Request::Target(t) if t == "192.168.0.7:8080"));
    let r = greeted().request(&[5, 1, 0, 1, 1, 2, 3]);
    assert!(matches!(r, Request::Target(t) if t == "1.2.3.0:0"));
}

#[test]
fn a_request_with_a_domain() {
    let mut m = vec![5, 1, 0, 3, 11];
    m.extend_from_slice(b"example.org");
    m.extend_from_slice(&[0x01, 0xbb]);
    assert!(matches!(greeted().request(&m), Request::Target(t) if t == "example.org:443"));
    let mut m = vec![5, 1, 0, 3, 3, b'a', 0xff, b'b'];
    m.extend_from_slice(&[0, 80]);
    assert!(matches!(greeted().request(&m), Request::Target(t) if t == "a\u{fffd}b:80"));
    let mut m = vec![5, 1, 0, 3, 255];
    m.extend_from_slice(&[b'x'; 255]);
    m.extend_from_slice(&[0, 1]);
    let name = "x".repeat(255);
    assert!(matches!(greeted().request(&m), Request::Target(t) if t == format!("{name}:1")));
}

#[test]
fn what_a_request_leaves_out_is_taken_from_the_greeting() {
    let mut h = Handshake::new();
    let mut greeting = vec![5, 8];
    greeting.extend_from_slice(&[9; 8]);
    assert!(h.greet(&greeting));
    let r = h.request(&[5, 1, 0, 1, 1, 2, 3]);
    assert!(matches!(r, Request::Target(t) if t == "1.2.3.9:2313"));
}

#[test]
fn an_ipv6_request() {
    let mut m = vec![5, 1, 0, 4];
    m.extend_from_slice(&[0; 15]);
    m.extend_from_slice(&[1, 0, 80]);
    match greeted().request(&m) {
        Request::Ipv6 { octets, port } => {
            assert_eq!(octets[15], 1);
            assert_eq!(octets.len(), 16);
            assert_eq!(port, 80);
            assert_eq!(ipv6_target("::1", port), "[::1]:80");
        }
        _ => panic!("an IPv6 address"),
    }
    match decide_request(greeted().request(&m)) {
        Decision::Refuse(reply) => assert_eq!(reply, [5, 8, 0, 1, 0, 0, 0, 0, 0, 0]),
        _ => panic!("IPv6 is refused"),
    }
}

#[test]
fn the_bridge_opens_tunnels_to_names_and_ipv4_addresses() {
    assert!(matches!(decide_request(Request::Invalid), Decision::Drop));
    let open = decide_request(Request::Target("h:1".to_string()));
    assert!(matches!(open, Decision::Open(t) if t == "h:1"));
    assert_eq!(first_data(ClientRead::Data(vec![1])), [1]);
    assert_eq!(first_data(ClientRead::Failed).len(), 0);
    assert_eq!(first_data(ClientRead::TimedOut).len(), 0);
}

#[test]
fn a_tunnel_needs_a_connection() {
    let open = || Decision::Open("h:1".to_string());
    assert!(matches!(open_tunnel(open(), true), Decision::Open(t) if t == "h:1"));
    assert!(matches!(open_tunnel(open(), false), Decision::Drop));
    for connected in [true, false] {
        let refused = open_tunnel(Decision::Refuse(vec![5, 8]), connected);
        assert!(matches!(refused, Decision::Refuse(r) if r == [5, 8]));
        assert!(matches!(open_tunnel(Decision::Drop, connected), Decision::Drop));
    }
    assert_eq!(client_reply(&open()), Some(success_reply()));
    assert_eq!(client_reply(&Decision::Refuse(vec![5, 8])), Some(vec![5, 8]));
    assert_eq!(client_reply(&Decision::Drop), None);
}

#[test]
fn the_connection_to_the_server_is_made_again_after_three_seconds() {
    assert_eq!(on_link(true), None);
    assert_eq!(on_link(false), Some(3));
    let mut link: Link<char> = Link::new();
    assert_eq!(link.client(), None);
    assert_eq!(link.on_event(LinkEvent::NotConnected), Some(3));
    assert_eq!(link.client(), None);
    assert_eq!(link.on_event(LinkEvent::Connected('a')), None);
    assert_eq!(link.client(), Some(&'a'));
    assert_eq!(link.on_event(LinkEvent::Closed), Some(3));
    assert_eq!(link.client(), None);
    assert_eq!(link.on_event(LinkEvent::Connected('b')), None);
    assert_eq!(link.client(), Some(&'b'));
    assert_eq!(link.on_event(LinkEvent::NotConnected), Some(3));
    assert_eq!(link.client(), None);
}

#[test]
fn the_connect_request_is_understood_by_the_server() {
    let r = connect_request("forward.local", "h:1", "pw", 5);
    assert_eq!(r.method, "POST");
    assert_eq!(r.uri, "https://forward.local/tunnel/connect");
    let expected = [("x-target", "h:1"), ("x-auth", "pw"), ("content-length", "5")];
    let headers: Vec<(&str, &str)> =
        r.headers.iter().map(|(n, v)| (n.as_str(), v.as_str())).collect();
    assert_eq!(headers, expected);
    let mut h = head("/tunnel/connect");
    h.target = bytes(&r.headers[0].1);
    h.auth = bytes(&r.headers[1].1);
    assert_eq!(decide_connect(&h, "pw", "").ok().unwrap().target, "h:1");
}

#[test]
fn data_requests_are_numbered_from_zero() {
    assert!(connected(404, &bytes("1")).is_none());
    let mut up = connected(200, &bytes("12")).unwrap();
    for k in 0..3u64 {
        assert!(up.has_next());
        let r = up.next_request("forward.local", 7);
        assert_eq!(r.method, "POST");
        assert_eq!(r.uri, format!("https://forward.local/tunnel/data?sid=12&seq={k}"));
        assert_eq!(r.headers[0], ("x-session-id".to_string(), "12".to_string()));
        assert_eq!(r.headers[1], ("content-length".to_string(), "7".to_string()));
        let query = r.uri.split_once('?').map(|(_, q)| q.to_string());
        assert_eq!(parse_seq(&query), k);
        assert_eq!(parse_session(&bytes(&r.headers[0].1)), 12);
    }
    let mut unnamed = connected(200, &None).unwrap();
    let r = unnamed.next_request("s", 0);
    assert_eq!(r.uri, "https://s/tunnel/data?sid=&seq=0");
}

#[test]
fn an_upload_ends_with_the_client_and_with_a_refusal() {
    assert_eq!(upload_data(ClientRead::Data(vec![1])), Some(vec![1]));
    assert_eq!(upload_data(ClientRead::Data(vec![])), None);
    assert_eq!(upload_data(ClientRead::Failed), None);
    assert_eq!(upload_data(ClientRead::TimedOut), None);
    assert!(upload_failed(&Upload::NotSent));
    assert!(!upload_failed(&Upload::NoAnswer));
    assert!(!upload_failed(&Upload::Answered(200)));
    assert!(upload_failed(&Upload::Answered(404)));
    assert!(matches!(gate(false, 15), Gate::Go));
    assert!(matches!(gate(false, 16), Gate::Wait));
    assert!(matches!(gate(true, 0), Gate::Stop));
    assert!(matches!(gate(true, 16), Gate::Stop));
}
