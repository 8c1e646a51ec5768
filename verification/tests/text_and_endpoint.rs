use rust_forward::config::{
    alpn, connect_address, default_endpoints, ech_source, resolve_connect, resolve_password,
    ConnectError, EchSource,
};
use rust_forward::endpoint::{
    dial_address, ipv4_positions, pick_ipv4, plan_dial, target_host, timeout_text, DialError,
};
use rust_forward::socks5::host_and_port;
use rust_forward::text::{
    char_is_white, decimal_of, parse_number, parse_or_zero, split_all, split_last, split_pieces,
    string_of, trimmed,
};

fn chars(s: &str) -> Vec<char> {
    s.chars().collect()
}

#[test]
fn white_space_is_that_of_std() {
    for code in 0..=0x10FFFFu32 {
        if let Some(c) = char::from_u32(code) {
            assert_eq!(char_is_white(c), c.is_whitespace(), "{code:x}");
        }
    }
}

#[test]
fn numbers_are_read_as_std_reads_them() {
    for s in [
        "", "+", "-", "-0", "0", "00", "+0", "7", "+7", "65535", "65536", "0065535", " 1", "1 ",
        "1a", "a", "٣", "++1", "18446744073709551615", "18446744073709551616",
        "99999999999999999999",
    ] {
        assert_eq!(parse_number(s, u64::MAX), s.parse::<u64>().ok(), "{s:?}");
        assert_eq!(
            parse_number(s, u16::MAX as u64),
            s.parse::<u16>().ok().map(|n| n as u64),
            "{s:?}"
        );
        assert_eq!(parse_or_zero(s, u64::MAX), s.parse::<u64>().unwrap_or(0), "{s:?}");
    }
}

#[test]
fn decimal_notation_round_trips() {
    for n in [0u64, 1, 9, 10, 255, 65535, 1000000, u64::MAX] {
        assert_eq!(decimal_of(n), n.to_string());
        assert_eq!(parse_number(&decimal_of(n), u64::MAX), Some(n));
    }
}

#[test]
fn trims_as_std_does() {
    for s in ["", " ", " a ", "\t\n a b \u{3000}", "a", "\u{a0}x"] {
        assert_eq!(string_of(&trimmed(s)), s.trim());
    }
}

#[test]
fn splits_as_std_does() {
    for s in ["", "a", "a b", " a", "a ", "a b c d e", "  ", "a  b"] {
        for n in 1..6usize {
            let std: Vec<&str> = s.splitn(n, ' ').collect();
            assert_eq!(split_pieces(&chars(s), n, ' '), std);
        }
        let std: Vec<&str> = s.split(' ').collect();
        assert_eq!(split_all(&chars(s), ' '), std);
    }
    assert_eq!(split_last("a:b:c", ':'), Some(("a:b".to_string(), "c".to_string())));
    assert_eq!(split_last("abc", ':'), None);
}

#[test]
fn target_host_is_what_stands_before_the_last_colon() {
    assert_eq!(target_host("example.org:443"), "example.org");
    assert_eq!(target_host("[::1]:80"), "[::1]");
    assert_eq!(target_host("::1"), ":");
    assert_eq!(target_host("example.org"), "example.org");
    assert_eq!(target_host("bücher.de:1"), "bücher.de");
    assert_eq!(target_host(":"), "");
    assert_eq!(target_host(""), "");
}

#[test]
fn host_of_host_and_port_is_the_host() {
    for host in ["a", "", "a:b", "1.2.3.4"] {
        let joined = host_and_port(host, 8080);
        assert_eq!(joined, format!("{host}:8080"));
        assert_eq!(target_host(&joined), host);
    }
}

#[test]
fn dial_address_takes_a_literal_as_it_is() {
    let r = dial_address("1.2.3.4:5", Some(("1.2.3.4".to_string(), 5)));
    assert!(matches!(r, Ok((h, 5)) if h == "1.2.3.4"));
}

#[test]
fn dial_address_splits_at_the_last_colon() {
    assert!(matches!(dial_address("a:b:80", None), Ok((h, 80)) if h == "a:b"));
    assert!(matches!(dial_address("a:+80", None), Ok((h, 80)) if h == "a"));
}

#[test]
fn dial_address_without_a_port() {
    match dial_address("example.org", None) {
        Err(e) => {
            assert!(matches!(e, DialError::NoPort(_)));
            assert_eq!(e.message(), "invalid target: example.org");
        }
        Ok(_) => panic!("no error"),
    }
}

#[test]
fn dial_address_with_a_bad_port() {
    for port in ["", "x", "65536", "-1"] {
        match dial_address(&format!("h:{port}"), None) {
            Err(e) => {
                assert!(matches!(e, DialError::BadPort(_)));
                assert_eq!(e.message(), port.parse::<u16>().unwrap_err().to_string());
            }
            Ok(_) => panic!("no error"),
        }
    }
}

#[test]
fn picks_the_first_ipv4_address() {
    assert!(matches!(pick_ipv4("t", &[false, true, true]), Ok(1)));
    for v4 in [vec![], vec![false, false]] {
        match pick_ipv4("t:1", &v4) {
            Err(e) => {
                assert!(matches!(e, DialError::NoIpv4(_)));
                assert_eq!(e.message(), "no IPv4 address for t:1");
            }
            Ok(_) => panic!("no error"),
        }
    }
}

#[test]
fn tries_the_ipv4_addresses_in_order() {
    assert_eq!(ipv4_positions(&[false, true, false, true]), vec![1, 3]);
    let mut attempts = plan_dial("t:1", &[false, true, false, true]).ok().unwrap();
    assert_eq!(attempts.next(), Some(1));
    attempts.failed("first".to_string());
    assert_eq!(attempts.next(), Some(3));
    attempts.failed("second".to_string());
    assert_eq!(attempts.next(), None);
    assert_eq!(attempts.give_up(), "second");
    let attempts = plan_dial("t:1", &[true]).ok().unwrap();
    assert_eq!(attempts.give_up(), "No address available");
    assert_eq!(timeout_text(), "Connection timeout");
}

fn dial(v4: &[bool], outcome: &[Option<&str>]) -> Result<usize, String> {
    let mut attempts = plan_dial("t:1", v4).ok().unwrap();
    while let Some(i) = attempts.next() {
        match outcome[i] {
            Some(error) => attempts.failed(error.to_string()),
            None => return Ok(i),
        }
    }
    Err(attempts.give_up())
}

#[test]
fn the_first_ipv4_address_that_answers_is_taken() {
    let v4 = [false, true, true, false, true];
    assert_eq!(dial(&v4, &[None, Some("a"), None, None, None]), Ok(2));
    assert_eq!(dial(&v4, &[None, Some("a"), Some("b"), None, None]), Ok(4));
    let failing = [None, Some("a"), Some("b"), None, Some("c")];
    assert_eq!(dial(&v4, &failing), Err("c".to_string()));
}

#[test]
fn a_target_without_an_ipv4_address_is_not_dialled() {
    for (target, v4) in [("[::1]:80", vec![false]), ("t:1", vec![false, false]), ("t:1", vec![])] {
        match plan_dial(target, &v4) {
            Err(e) => {
                assert!(matches!(e, DialError::NoIpv4(_)));
                assert_eq!(e.message(), format!("no IPv4 address for {target}"));
            }
            Ok(_) => panic!("there is no IPv4 address"),
        }
    }
}

#[test]
fn the_command_line_comes_before_the_environment() {
    let env = || Some("env".to_string());
    assert_eq!(resolve_password(Some("cli"), env()), "cli");
    assert_eq!(resolve_password(Some(""), env()), "");
    assert_eq!(resolve_password(None, env()), "env");
    assert_eq!(resolve_password(None, None), "");
    assert_eq!(resolve_connect(Some("cli"), env()), "cli");
    assert_eq!(resolve_connect(None, env()), "env");
    assert_eq!(resolve_connect(None, None), "");
}

#[test]
fn the_server_has_a_default_port() {
    assert!(matches!(connect_address("h"), Ok((h, 2087)) if h == "h"));
    assert!(matches!(connect_address("h:443"), Ok((h, 443)) if h == "h"));
    assert!(matches!(connect_address("a:b:1"), Ok((h, 1)) if h == "a:b"));
    assert!(matches!(connect_address(""), Err(ConnectError::Missing)));
    assert!(matches!(connect_address("h:"), Err(ConnectError::BadPort)));
    assert!(matches!(connect_address("h:65536"), Err(ConnectError::BadPort)));
}

#[test]
fn ech_comes_from_a_file_or_from_doh() {
    let file = ech_source(Some("f".to_string()), true, None);
    assert!(matches!(file, EchSource::File(f) if f == "f"));
    let file = ech_source(Some("f".to_string()), false, None);
    assert!(matches!(file, EchSource::File(f) if f == "f"));
    let given = ech_source(None, true, Some(vec!["u".to_string()]));
    assert!(matches!(given, EchSource::Doh(urls) if urls == ["u"]));
    let default = ech_source(None, true, None);
    assert!(matches!(default, EchSource::Doh(urls) if urls == default_endpoints()));
    assert!(matches!(ech_source(None, false, Some(vec![])), EchSource::Off));
    assert_eq!(
        default_endpoints(),
        [
            "https://odvr.nic.cz/dns-query",
            "https://dns.hetzner.com/dns-query",
            "https://dns.digitale-gesellschaft.ch/dns-query",
            "https://dns.aa.net.uk/dns-query",
        ]
    );
    assert_eq!(alpn(), b"h3");
}
