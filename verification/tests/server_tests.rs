use genie::cache::TscState;
use genie::cache::WatchState;
use genie::cache::CompileResult;
use genie::cache::RunOutput;
use genie::codec::GenieCookie;
use genie::codec::Request;
use genie::server::ConnStep;
use genie::server::Connection;
use genie::server::DaemonAction;
use genie::server::dispatch_tsc;
use genie::server::dispatch_watch;

fn cookie(s: &[u8]) -> GenieCookie {
    GenieCookie(s.to_vec())
}

fn respond_bytes(action: DaemonAction) -> Vec<u8> {
    match action {
        DaemonAction::Respond(b) => b,
        DaemonAction::Shutdown => panic!("expected a response, got a shutdown"),
    }
}

#[test]
fn a_malformed_request_drops_the_connection_with_no_reply() {
    let mut conn = Connection::new();
    assert!(matches!(conn.on_bytes(b"bogus\n"), ConnStep::Drop));
}

#[test]
fn a_request_can_arrive_in_pieces() {
    let mut conn = Connection::new();
    assert!(matches!(conn.on_bytes(b"po"), ConnStep::KeepReading));
    assert!(matches!(conn.on_bytes(b"ll\nab"), ConnStep::KeepReading));
    match conn.on_bytes(b"c\n") {
        ConnStep::HandleRequest(Request::Poll(c)) => assert_eq!(c.0, b"abc".to_vec()),
        _ => panic!("expected the completed poll request"),
    }
}

#[test]
fn overrunning_the_buffer_is_fatal_to_the_connection() {
    let mut conn = Connection::new();
    assert!(matches!(conn.on_bytes(b"poll\n"), ConnStep::KeepReading));
    let cookie_bytes = vec![b'a'; 8187];
    assert!(matches!(conn.on_bytes(&cookie_bytes), ConnStep::KeepReading));
    assert!(matches!(conn.on_bytes(b"b"), ConnStep::BufferFull));
}

#[test]
fn tsc_poll_answers_with_the_error_count() {
    let mut state: TscState = TscState::new();
    state.update(0, Some(CompileResult { error_count: 2, text: b"boom".to_vec() }));
    let out = respond_bytes(dispatch_tsc(&mut state, Request::Poll(cookie(b"c"))));
    assert_eq!(out, b"2 errors".to_vec());
    let again = respond_bytes(dispatch_tsc(&mut state, Request::Poll(cookie(b"c"))));
    assert_eq!(again, Vec::<u8>::new());
}

#[test]
fn tsc_poll_answers_silence_before_any_snapshot() {
    let mut state: TscState = TscState::new();
    let out = respond_bytes(dispatch_tsc(&mut state, Request::Poll(cookie(b"c"))));
    assert_eq!(out, Vec::<u8>::new());
}

#[test]
fn tsc_get_answers_the_text_or_its_stand_ins() {
    let mut state: TscState = TscState::new();
    state.update(0, None);
    let compiling = respond_bytes(dispatch_tsc(&mut state, Request::Get(cookie(b"c"))));
    assert_eq!(compiling, b"compiling...".to_vec());

    state.update(1, Some(CompileResult { error_count: 0, text: Vec::new() }));
    let empty = respond_bytes(dispatch_tsc(&mut state, Request::Get(cookie(b"c"))));
    assert_eq!(empty, b"... no output ...".to_vec());

    state.update(2, Some(CompileResult { error_count: 1, text: b"full text".to_vec() }));
    let text = respond_bytes(dispatch_tsc(&mut state, Request::Get(cookie(b"c"))));
    assert_eq!(text, b"full text".to_vec());
}

#[test]
fn tsc_large_counts_serialize_exactly() {
    let mut state: TscState = TscState::new();
    state.update(0, Some(CompileResult { error_count: 65535, text: Vec::new() }));
    let out = respond_bytes(dispatch_tsc(&mut state, Request::Poll(cookie(b"c"))));
    assert_eq!(out, b"65535 errors".to_vec());

    state.update(1, Some(CompileResult { error_count: 0, text: Vec::new() }));
    let zero = respond_bytes(dispatch_tsc(&mut state, Request::Poll(cookie(b"c"))));
    assert_eq!(zero, b"0 errors".to_vec());
}

#[test]
fn exit_requests_shut_the_daemon_down() {
    let mut tsc: TscState = TscState::new();
    assert!(matches!(dispatch_tsc(&mut tsc, Request::Exit), DaemonAction::Shutdown));
    let mut watch: WatchState = WatchState::new();
    assert!(matches!(
        dispatch_watch(&mut watch, Request::Exit, true),
        DaemonAction::Shutdown
    ));
}

#[test]
fn watch_poll_sends_stderr_then_stdout() {
    let mut state: WatchState = WatchState::new();
    state.update(
        0,
        RunOutput { status: Some(0), stdout: b"out".to_vec(), stderr: b"err".to_vec() },
    );
    let out = respond_bytes(dispatch_watch(&mut state, Request::Poll(cookie(b"c")), false));
    assert_eq!(out, b"errout".to_vec());
}

#[test]
fn the_bell_rings_only_on_failing_polls() {
    let mut state: WatchState = WatchState::new();
    state.update(
        0,
        RunOutput { status: Some(1), stdout: b"out".to_vec(), stderr: Vec::new() },
    );
    let polled = respond_bytes(dispatch_watch(&mut state, Request::Poll(cookie(b"a")), true));
    assert_eq!(polled, b"\x07out".to_vec());

    let got = respond_bytes(dispatch_watch(&mut state, Request::Get(cookie(b"a")), true));
    assert_eq!(got, b"out".to_vec());

    state.update(1, RunOutput { status: Some(0), stdout: b"ok".to_vec(), stderr: Vec::new() });
    let clean = respond_bytes(dispatch_watch(&mut state, Request::Poll(cookie(b"b")), true));
    assert_eq!(clean, b"ok".to_vec());
}

#[test]
fn a_killed_run_also_rings_the_bell() {
    let mut state: WatchState = WatchState::new();
    state.update(
        0,
        RunOutput { status: None, stdout: Vec::new(), stderr: b"signal".to_vec() },
    );
    let out = respond_bytes(dispatch_watch(&mut state, Request::Poll(cookie(b"c")), true));
    assert_eq!(out, b"\x07signal".to_vec());
}
