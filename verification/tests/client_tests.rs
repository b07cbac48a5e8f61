use genie::cache::WatchState;
use genie::cache::RunOutput;
use genie::client::ConnectFailure;
use genie::client::attribution_prefix;
use genie::client::response_lines;
use genie::client::stale_socket_cleanup;
use genie::codec::GenieCookie;
use genie::codec::Request;
use genie::server::DaemonAction;
use genie::server::dispatch_watch;

#[test]
fn responses_split_into_display_lines() {
    assert_eq!(response_lines(&b"hello".to_vec()), vec![b"hello".to_vec()]);
    assert_eq!(
        response_lines(&b"a\nb\n".to_vec()),
        vec![b"a".to_vec(), b"b".to_vec()]
    );
    assert_eq!(
        response_lines(&b"a\n\nb".to_vec()),
        vec![b"a".to_vec(), b"".to_vec(), b"b".to_vec()]
    );
    assert_eq!(response_lines(&b"".to_vec()), Vec::<Vec<u8>>::new());
    assert_eq!(
        response_lines(&b"a\r\nb".to_vec()),
        vec![b"a".to_vec(), b"b".to_vec()]
    );
}

#[test]
fn attribution_prefixes_name_and_number() {
    let prefix = attribution_prefix(&"watch".to_string(), &"123".to_string());
    assert_eq!(prefix, b"watch(123): ".to_vec());
}

#[test]
fn only_refused_connections_mean_a_stale_socket() {
    assert!(stale_socket_cleanup(&ConnectFailure::Refused));
    assert!(!stale_socket_cleanup(&ConnectFailure::Other));
}

#[test]
fn broadcast_poll_prints_one_line_for_the_answering_genie() {
    // Two registered daemons: `a` has produced one snapshot with payload
    // "hello"; `b` has produced nothing yet.  A fresh-cookie poll against
    // both yields exactly one attributed line, for `a`.
    let mut a: WatchState = WatchState::new();
    a.update(
        0,
        RunOutput { status: Some(0), stdout: b"hello".to_vec(), stderr: Vec::new() },
    );
    let mut b: WatchState = WatchState::new();

    let mut printed: Vec<Vec<u8>> = Vec::new();
    let daemons: [(&str, &str, &mut WatchState); 2] =
        [("a", "1", &mut a), ("b", "2", &mut b)];
    for (name, num, state) in daemons {
        let response = match dispatch_watch(
            state,
            Request::Poll(GenieCookie(b"fresh".to_vec())),
            false,
        ) {
            DaemonAction::Respond(bytes) => bytes,
            DaemonAction::Shutdown => panic!("a poll never shuts the daemon down"),
        };
        if !response.is_empty() {
            for line in response_lines(&response) {
                let mut shown = attribution_prefix(&name.to_string(), &num.to_string());
                shown.extend_from_slice(&line);
                printed.push(shown);
            }
        }
    }

    assert_eq!(printed.len(), 1);
    assert_eq!(printed[0], b"a(1): hello".to_vec());
}
