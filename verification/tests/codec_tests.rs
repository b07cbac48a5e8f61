use genie::codec::GenieCookie;
use genie::codec::ParseOutcome;
use genie::codec::Request;
use genie::codec::exit_message;
use genie::codec::get_message;
use genie::codec::poll_message;
use genie::codec::request;

fn cookie_bytes(r: &Request) -> Vec<u8> {
    match r {
        Request::Poll(c) => c.0.clone(),
        Request::Get(c) => c.0.clone(),
        Request::Exit => Vec::new(),
    }
}

#[test]
fn parses_poll_request() {
    match request(b"poll\nabc\n") {
        ParseOutcome::Parsed(req, n) => {
            assert!(matches!(req, Request::Poll(_)));
            assert_eq!(cookie_bytes(&req), b"abc".to_vec());
            assert_eq!(n, 9);
        }
        _ => panic!("expected a parsed poll"),
    }
}

#[test]
fn parses_get_request() {
    match request(b"get\nxyz9\n") {
        ParseOutcome::Parsed(req, n) => {
            assert!(matches!(req, Request::Get(_)));
            assert_eq!(cookie_bytes(&req), b"xyz9".to_vec());
            assert_eq!(n, 9);
        }
        _ => panic!("expected a parsed get"),
    }
}

#[test]
fn parses_exit_request() {
    match request(b"exit\n") {
        ParseOutcome::Parsed(req, n) => {
            assert!(matches!(req, Request::Exit));
            assert_eq!(n, 5);
        }
        _ => panic!("expected a parsed exit"),
    }
}

#[test]
fn bytes_after_the_request_are_not_consumed() {
    match request(b"poll\nabc\nget\n") {
        ParseOutcome::Parsed(req, n) => {
            assert!(matches!(req, Request::Poll(_)));
            assert_eq!(n, 9);
        }
        _ => panic!("expected a parsed poll"),
    }
}

#[test]
fn short_prefixes_need_more_bytes() {
    assert!(matches!(request(b""), ParseOutcome::NeedMoreBytes));
    assert!(matches!(request(b"po"), ParseOutcome::NeedMoreBytes));
    assert!(matches!(request(b"poll\n"), ParseOutcome::NeedMoreBytes));
    assert!(matches!(request(b"poll\nabc"), ParseOutcome::NeedMoreBytes));
    assert!(matches!(request(b"ge"), ParseOutcome::NeedMoreBytes));
    assert!(matches!(request(b"get\nc"), ParseOutcome::NeedMoreBytes));
    assert!(matches!(request(b"exi"), ParseOutcome::NeedMoreBytes));
}

#[test]
fn junk_is_malformed() {
    assert!(matches!(request(b"bogus\n"), ParseOutcome::Malformed));
    assert!(matches!(request(b"x"), ParseOutcome::Malformed));
    assert!(matches!(request(b"POLL\nabc\n"), ParseOutcome::Malformed));
}

#[test]
fn empty_cookie_is_malformed() {
    assert!(matches!(request(b"poll\n\n"), ParseOutcome::Malformed));
    assert!(matches!(request(b"get\n\n"), ParseOutcome::Malformed));
}

#[test]
fn cookie_stops_at_first_non_alphanumeric() {
    assert!(matches!(request(b"poll\nab c\n"), ParseOutcome::Malformed));
}

#[test]
fn messages_round_trip_through_the_parser() {
    let cookie = GenieCookie(b"secret1".to_vec());
    let poll = poll_message(&cookie);
    assert_eq!(poll, b"poll\nsecret1\n".to_vec());
    match request(&poll) {
        ParseOutcome::Parsed(req, n) => {
            assert_eq!(cookie_bytes(&req), b"secret1".to_vec());
            assert!(matches!(req, Request::Poll(_)));
            assert_eq!(n, poll.len());
        }
        _ => panic!("poll message did not parse"),
    }

    let get = get_message(&cookie);
    assert_eq!(get, b"get\nsecret1\n".to_vec());
    match request(&get) {
        ParseOutcome::Parsed(req, _) => assert!(matches!(req, Request::Get(_))),
        _ => panic!("get message did not parse"),
    }

    let exit = exit_message();
    assert_eq!(exit, b"exit\n".to_vec());
    match request(&exit) {
        ParseOutcome::Parsed(req, _) => assert!(matches!(req, Request::Exit)),
        _ => panic!("exit message did not parse"),
    }
}
