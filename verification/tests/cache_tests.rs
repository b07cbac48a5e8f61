use genie::cache::WatchState;
use genie::cache::PollOutcome;
use genie::cache::RunOutput;
use genie::codec::GenieCookie;

fn run(stdout: &[u8]) -> RunOutput {
    RunOutput { status: Some(0), stdout: stdout.to_vec(), stderr: Vec::new() }
}

fn cookie(s: &[u8]) -> GenieCookie {
    GenieCookie(s.to_vec())
}

#[test]
fn poll_before_any_update_is_not_available() {
    let mut cache: WatchState = WatchState::new();
    assert!(matches!(cache.poll(&cookie(b"c1")), PollOutcome::NotAvailable));
}

#[test]
fn get_before_any_update_is_none() {
    let cache: WatchState = WatchState::new();
    assert!(cache.get(&cookie(b"c1")).is_none());
}

#[test]
fn consecutive_polls_deduplicate() {
    let mut cache: WatchState = WatchState::new();
    cache.update(0, run(b"hello"));
    match cache.poll(&cookie(b"c1")) {
        PollOutcome::Available(o) => assert_eq!(o.stdout, b"hello".to_vec()),
        _ => panic!("first poll must show the snapshot"),
    }
    assert!(matches!(cache.poll(&cookie(b"c1")), PollOutcome::NoChange));
    assert!(matches!(cache.poll(&cookie(b"c1")), PollOutcome::NoChange));
}

#[test]
fn first_poll_after_update_is_available() {
    let mut cache: WatchState = WatchState::new();
    cache.update(0, run(b"one"));
    assert!(matches!(cache.poll(&cookie(b"c1")), PollOutcome::Available(_)));
    assert!(matches!(cache.poll(&cookie(b"c1")), PollOutcome::NoChange));
    cache.update(1, run(b"two"));
    match cache.poll(&cookie(b"c1")) {
        PollOutcome::Available(o) => assert_eq!(o.stdout, b"two".to_vec()),
        _ => panic!("first poll after an update must show the new snapshot"),
    }
}

#[test]
fn distinct_cookies_are_tracked_independently() {
    let mut cache: WatchState = WatchState::new();
    cache.update(0, run(b"x"));
    assert!(matches!(cache.poll(&cookie(b"a")), PollOutcome::Available(_)));
    assert!(matches!(cache.poll(&cookie(b"b")), PollOutcome::Available(_)));
    assert!(matches!(cache.poll(&cookie(b"a")), PollOutcome::NoChange));
    assert!(matches!(cache.poll(&cookie(b"b")), PollOutcome::NoChange));
}

#[test]
fn get_returns_the_last_polled_snapshot() {
    let mut cache: WatchState = WatchState::new();
    cache.update(0, run(b"old"));
    assert!(matches!(cache.poll(&cookie(b"c1")), PollOutcome::Available(_)));
    cache.update(1, run(b"new"));
    let got = cache.get(&cookie(b"c1")).expect("a polled cookie has a snapshot");
    assert_eq!(got.stdout, b"old".to_vec());
}

#[test]
fn get_falls_back_to_latest_for_an_unknown_cookie() {
    let mut cache: WatchState = WatchState::new();
    cache.update(0, run(b"latest"));
    let got = cache.get(&cookie(b"fresh")).expect("latest exists");
    assert_eq!(got.stdout, b"latest".to_vec());
}

#[test]
fn get_never_mutates_cookie_state() {
    let mut cache: WatchState = WatchState::new();
    cache.update(0, run(b"x"));
    let _ = cache.get(&cookie(b"c1"));
    let _ = cache.get(&cookie(b"c1"));
    match cache.poll(&cookie(b"c1")) {
        PollOutcome::Available(_) => {}
        _ => panic!("gets must not have recorded the cookie"),
    }
    assert!(matches!(cache.poll(&cookie(b"c1")), PollOutcome::NoChange));
    let _ = cache.get(&cookie(b"c1"));
    assert!(matches!(cache.poll(&cookie(b"c1")), PollOutcome::NoChange));
}
