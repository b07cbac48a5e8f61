use genie::cache::TscState;
use genie::cache::WatchState;
use genie::cache::PollOutcome;
use genie::codec::GenieCookie;
use genie::runner::FeedOutcome;
use genie::runner::MergeRunner;
use genie::runner::PeriodicRunner;
use genie::cache::RunOutput;

const START: &[u8] = b"File change detected. Starting incremental compilation...";
const START_FRESH: &[u8] = b"Starting compilation in watch mode...";

fn end_line(count: &str) -> Vec<u8> {
    format!("Found {} errors. Watching for file changes.", count).into_bytes()
}

fn cookie(s: &[u8]) -> GenieCookie {
    GenieCookie(s.to_vec())
}

#[test]
fn one_cycle_counts_errors_and_joins_all_lines() {
    let mut state: TscState = TscState::new();
    let mut runner = MergeRunner::new();

    let middle: [&[u8]; 5] = [b"alpha", b"beta", b"gamma", b"delta", b"epsilon"];
    assert!(matches!(
        runner.feed_line(&mut state, false, START),
        FeedOutcome::CycleStarted
    ));
    for line in middle.iter() {
        assert!(matches!(
            runner.feed_line(&mut state, false, line),
            FeedOutcome::Accumulated
        ));
    }
    match runner.feed_line(&mut state, false, &end_line("3")) {
        FeedOutcome::CycleCompleted(n) => assert_eq!(n, 3),
        _ => panic!("the end line must complete the cycle"),
    }

    let result = state
        .get(&cookie(b"t"))
        .expect("a snapshot exists")
        .expect("the cycle completed");
    assert_eq!(result.error_count, 3);

    let mut expected: Vec<u8> = Vec::new();
    expected.extend_from_slice(START);
    for line in middle.iter() {
        expected.push(b'\n');
        expected.extend_from_slice(line);
    }
    expected.push(b'\n');
    expected.extend_from_slice(&end_line("3"));
    assert_eq!(result.text, expected);
}

#[test]
fn idle_signaling_between_start_and_end() {
    let mut state: TscState = TscState::new();
    let mut runner = MergeRunner::new();

    assert!(matches!(
        runner.feed_line(&mut state, false, START_FRESH),
        FeedOutcome::CycleStarted
    ));
    match state.poll(&cookie(b"c")) {
        PollOutcome::Available(p) => assert!(p.is_none()),
        _ => panic!("a poll right after the start must see the sentinel"),
    }
    assert!(state.get(&cookie(b"fresh")).expect("latest exists").is_none());

    assert!(matches!(
        runner.feed_line(&mut state, false, b"building..."),
        FeedOutcome::Accumulated
    ));
    assert!(matches!(state.poll(&cookie(b"c")), PollOutcome::NoChange));
    assert!(state.get(&cookie(b"fresh2")).expect("latest exists").is_none());

    match runner.feed_line(&mut state, false, &end_line("0")) {
        FeedOutcome::CycleCompleted(n) => assert_eq!(n, 0),
        _ => panic!("the end line must complete the cycle"),
    }
    match state.poll(&cookie(b"c")) {
        PollOutcome::Available(p) => assert_eq!(p.expect("completed").error_count, 0),
        _ => panic!("a poll after the cycle end must see the result"),
    }
}

#[test]
fn secondary_lines_are_tagged_and_never_control_cycles() {
    let mut state: TscState = TscState::new();
    let mut runner = MergeRunner::new();

    assert!(matches!(
        runner.feed_line(&mut state, false, START),
        FeedOutcome::CycleStarted
    ));
    assert!(matches!(
        runner.feed_line(&mut state, true, b"oops"),
        FeedOutcome::Accumulated
    ));
    assert!(matches!(
        runner.feed_line(&mut state, true, &end_line("9")),
        FeedOutcome::Accumulated
    ));
    match runner.feed_line(&mut state, false, &end_line("1")) {
        FeedOutcome::CycleCompleted(n) => assert_eq!(n, 1),
        _ => panic!("the primary end line must complete the cycle"),
    }

    let result = state
        .get(&cookie(b"t"))
        .expect("a snapshot exists")
        .expect("the cycle completed");
    let mut expected: Vec<u8> = Vec::new();
    expected.extend_from_slice(START);
    expected.extend_from_slice(b"\nerr: oops\nerr: ");
    expected.extend_from_slice(&end_line("9"));
    expected.push(b'\n');
    expected.extend_from_slice(&end_line("1"));
    assert_eq!(result.text, expected);
}

#[test]
fn a_start_line_clears_the_buffer() {
    let mut state: TscState = TscState::new();
    let mut runner = MergeRunner::new();

    let _ = runner.feed_line(&mut state, false, b"stale noise");
    let _ = runner.feed_line(&mut state, false, START);
    match runner.feed_line(&mut state, false, &end_line("2")) {
        FeedOutcome::CycleCompleted(n) => assert_eq!(n, 2),
        _ => panic!("the end line must complete the cycle"),
    }
    let result = state
        .get(&cookie(b"t"))
        .expect("a snapshot exists")
        .expect("the cycle completed");
    let mut expected: Vec<u8> = Vec::new();
    expected.extend_from_slice(START);
    expected.push(b'\n');
    expected.extend_from_slice(&end_line("2"));
    assert_eq!(result.text, expected);
}

#[test]
fn an_oversized_count_is_reported_not_published() {
    let mut state: TscState = TscState::new();
    let mut runner = MergeRunner::new();

    assert!(matches!(
        runner.feed_line(&mut state, false, &end_line("70000")),
        FeedOutcome::CountTooLarge
    ));
    assert!(state.get(&cookie(b"t")).is_none());
}

#[test]
fn a_plain_line_without_a_start_only_accumulates() {
    let mut state: TscState = TscState::new();
    let mut runner = MergeRunner::new();
    assert!(matches!(
        runner.feed_line(&mut state, false, b"hello"),
        FeedOutcome::Accumulated
    ));
    assert!(matches!(state.poll(&cookie(b"c")), PollOutcome::NotAvailable));
}

#[test]
fn periodic_runner_publishes_with_increasing_iterations() {
    let mut state: WatchState = WatchState::new();
    let mut runner = PeriodicRunner::new();
    assert_eq!(runner.iteration(), 0);

    runner.record_run(
        &mut state,
        RunOutput { status: Some(0), stdout: b"one".to_vec(), stderr: Vec::new() },
    );
    assert_eq!(runner.iteration(), 1);
    match state.poll(&cookie(b"c")) {
        PollOutcome::Available(o) => assert_eq!(o.stdout, b"one".to_vec()),
        _ => panic!("the first run must be shown"),
    }
    assert!(matches!(state.poll(&cookie(b"c")), PollOutcome::NoChange));

    runner.record_run(
        &mut state,
        RunOutput { status: Some(2), stdout: b"two".to_vec(), stderr: Vec::new() },
    );
    assert_eq!(runner.iteration(), 2);
    match state.poll(&cookie(b"c")) {
        PollOutcome::Available(o) => assert_eq!(o.stdout, b"two".to_vec()),
        _ => panic!("the second run must be shown"),
    }
}
