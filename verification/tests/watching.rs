//! Changed paths, batches of them, and what the threads do next.

use std::time::Duration;

use snapback::store::{is_session_path, store_depth, StoreDepth};
use snapback::threads::{
    input_action, poller_action, tick_action, InputAction, InputTurn, PollerAction, PollerTurn,
    TickAction, TickTurn,
};
use snapback::watch::{
    active_within, agents_poll_due, batch_needs_reload, batch_reloads, batch_settled,
    classify_watch_path, classify_with_metadata, ChangeKind, WatchPathClass,
    AGENTS_IDLE_AFTER_MS,
};

#[test]
fn class_matrix_depth_two_jsonl_is_session() {
    assert_eq!(
        classify_with_metadata(StoreDepth::SessionLevel, true, false, false),
        WatchPathClass::Session
    );
}

#[test]
fn class_matrix_depth_three_any_name_is_ignorable() {
    assert_eq!(
        classify_with_metadata(StoreDepth::BelowSession, false, true, false),
        WatchPathClass::Ignorable
    );
    assert_eq!(
        classify_with_metadata(StoreDepth::BelowSession, false, false, true),
        WatchPathClass::Ignorable
    );
    assert_eq!(
        classify_with_metadata(StoreDepth::BelowSession, false, false, false),
        WatchPathClass::Ignorable
    );
}

#[test]
fn class_matrix_depth_two_non_jsonl_proven_is_ignorable() {
    assert_eq!(
        classify_with_metadata(StoreDepth::SessionLevel, false, true, false),
        WatchPathClass::Ignorable
    );
    assert_eq!(
        classify_with_metadata(StoreDepth::SessionLevel, false, false, true),
        WatchPathClass::Ignorable
    );
}

#[test]
fn class_matrix_depth_two_non_jsonl_missing_meta_is_ambiguous() {
    assert_eq!(
        classify_with_metadata(StoreDepth::SessionLevel, false, false, false),
        WatchPathClass::Ambiguous
    );
}

#[test]
fn class_matrix_depth_one_file_is_ignorable() {
    assert_eq!(
        classify_with_metadata(StoreDepth::CwdLevel, false, true, false),
        WatchPathClass::Ignorable
    );
}

#[test]
fn class_matrix_depth_one_dir_or_missing_meta_is_ambiguous() {
    assert_eq!(
        classify_with_metadata(StoreDepth::CwdLevel, false, false, true),
        WatchPathClass::Ambiguous
    );
    assert_eq!(
        classify_with_metadata(StoreDepth::CwdLevel, false, false, false),
        WatchPathClass::Ambiguous
    );
}

#[test]
fn class_matrix_depth_zero_is_ambiguous() {
    assert_eq!(
        classify_with_metadata(StoreDepth::Root, false, false, true),
        WatchPathClass::Ambiguous
    );
}

#[test]
fn class_matrix_outside_the_root_is_ambiguous() {
    assert_eq!(
        classify_with_metadata(StoreDepth::Outside, false, true, false),
        WatchPathClass::Ambiguous
    );
    assert_eq!(
        classify_with_metadata(StoreDepth::Outside, false, false, true),
        WatchPathClass::Ambiguous
    );
    assert_eq!(
        classify_with_metadata(StoreDepth::Outside, false, false, false),
        WatchPathClass::Ambiguous
    );
}

const ROOT: &[u8] = b"/tmp/snapback-watch";

fn under(path: &str) -> Vec<u8> {
    format!("/tmp/snapback-watch/{path}").into_bytes()
}

#[test]
fn classify_watch_path_session_file() {
    assert_eq!(
        classify_watch_path(ROOT, &under("project-cwd/sess.jsonl"), true, false),
        WatchPathClass::Session
    );
}

#[test]
fn classify_watch_path_subagent_depth_three_ignorable() {
    assert_eq!(
        classify_watch_path(ROOT, &under("project-cwd/sess/subagents/agent-1.jsonl"), true, false),
        WatchPathClass::Ignorable
    );
}

#[test]
fn classify_watch_path_depth_two_txt_ignorable() {
    assert_eq!(
        classify_watch_path(ROOT, &under("project-cwd/notes.txt"), true, false),
        WatchPathClass::Ignorable
    );
}

#[test]
fn classify_watch_path_pins_the_two_end_to_end_ignorable_shapes() {
    assert_eq!(
        classify_watch_path(ROOT, &under("encoded-cwd/notes.txt"), true, false),
        WatchPathClass::Ignorable
    );
    assert_eq!(
        classify_watch_path(ROOT, &under("encoded-cwd/sess/subagents/agent-1.jsonl"), true, false),
        WatchPathClass::Ignorable
    );
    assert_eq!(
        classify_watch_path(ROOT, &under("encoded-cwd/sess"), false, true),
        WatchPathClass::Ignorable
    );
    assert_eq!(
        classify_watch_path(ROOT, &under("encoded-cwd/sess/subagents"), false, true),
        WatchPathClass::Ignorable
    );
    assert_eq!(
        classify_watch_path(ROOT, &under("encoded-cwd"), false, true),
        WatchPathClass::Ambiguous,
        "a directory that can hold sessions must reload, coalesced or not"
    );
}

#[test]
fn classify_watch_path_depth_one_dir_ambiguous() {
    assert_eq!(
        classify_watch_path(ROOT, &under("project-cwd"), false, true),
        WatchPathClass::Ambiguous
    );
}

#[test]
fn classify_watch_path_removed_depth_two_ambiguous() {
    assert_eq!(
        classify_watch_path(ROOT, &under("project-cwd/notes.txt"), false, false),
        WatchPathClass::Ambiguous
    );
}

#[test]
fn classify_watch_path_outside_root_ambiguous() {
    assert_eq!(
        classify_watch_path(ROOT, b"/tmp/something.jsonl", false, false),
        WatchPathClass::Ambiguous
    );
}

#[test]
fn depth_counts_components_and_not_bytes() {
    assert_eq!(store_depth(ROOT, b"/tmp/snapback-watch/"), StoreDepth::Root);
    assert_eq!(store_depth(ROOT, b"/tmp//snapback-watch/./a"), StoreDepth::CwdLevel);
    assert_eq!(store_depth(b"/tmp/store/", b"/tmp/store/a/b"), StoreDepth::SessionLevel);
    assert_eq!(store_depth(ROOT, b"/tmp/snapback-watching/a"), StoreDepth::Outside);
    assert_eq!(store_depth(b"store", b"/store/a"), StoreDepth::Outside);
    assert_eq!(store_depth(b"/", b"/a/b/c"), StoreDepth::BelowSession);
    assert!(is_session_path(ROOT, &under("a/b.jsonl")));
    assert!(!is_session_path(ROOT, &under("a/.jsonl")));
    assert!(!is_session_path(ROOT, &under("b.jsonl")));
}

#[test]
fn batch_needs_reload_empty_false() {
    assert!(!batch_needs_reload(vec![]));
}

#[test]
fn batch_needs_reload_all_ignorable_false() {
    assert!(!batch_needs_reload(vec![WatchPathClass::Ignorable, WatchPathClass::Ignorable]));
}

#[test]
fn batch_needs_reload_single_ambiguous_true() {
    assert!(batch_needs_reload(vec![WatchPathClass::Ambiguous]));
}

#[test]
fn batch_needs_reload_single_session_true() {
    assert!(batch_needs_reload(vec![WatchPathClass::Session]));
}

#[test]
fn batch_needs_reload_mixed_session_and_ignorable_true() {
    assert!(batch_needs_reload(vec![
        WatchPathClass::Ignorable,
        WatchPathClass::Session,
        WatchPathClass::Ignorable,
    ]));
}

#[test]
fn a_batch_settles_with_its_first_settled_change() {
    assert!(!batch_settled(None), "a batch that could not be read");
    assert!(!batch_settled(Some(&vec![])));
    assert!(!batch_settled(Some(&vec![ChangeKind::Continuous])), "a write that goes on");
    assert!(batch_settled(Some(&vec![ChangeKind::Continuous, ChangeKind::Settled])));
}

#[test]
fn agents_poll_due_fresh_activity_is_due() {
    let now = 100_000;
    let idle = Duration::from_secs(60);
    assert!(agents_poll_due(now, now, idle), "exactly now is active");
    assert!(agents_poll_due(now - 1, now, idle), "1 ms ago is active");
}

#[test]
fn agents_poll_due_exactly_idle_after_is_not_due() {
    let now = 100_000;
    let idle = Duration::from_secs(60);
    let idle_ms = idle.as_millis() as u64;
    assert!(
        !agents_poll_due(now - idle_ms, now, idle),
        "idle for exactly idle_after is not due"
    );
}

#[test]
fn agents_poll_due_past_idle_after_is_not_due() {
    let now = 100_000;
    let idle = Duration::from_secs(60);
    let idle_ms = idle.as_millis() as u64;
    assert!(
        !agents_poll_due(now - idle_ms - 1, now, idle),
        "idle past idle_after is not due"
    );
}

#[test]
fn agents_poll_due_zero_seed_at_zero_now_is_due() {
    let idle = Duration::from_secs(60);
    assert!(
        agents_poll_due(0, 0, idle),
        "a last_activity_ms of 0 paired with a now_ms of 0 is an ordinary \
         fresh reading (EPOCH's first now_ms() call), not a sentinel"
    );
}

#[test]
fn activity_is_measured_in_milliseconds() {
    assert!(active_within(10, 19, 10));
    assert!(!active_within(10, 20, 10));
    assert!(active_within(30, 20, 1), "a stamp from the future counts as now");
    assert!(!agents_poll_due(0, 1, Duration::from_micros(1_999)), "whole milliseconds only");
    assert!(agents_poll_due(0, 1, Duration::from_micros(2_000)));
}

#[test]
fn a_window_of_any_length_is_compared_whole() {
    let window = Duration::from_secs(18_446_744_073_709_552);
    assert!(agents_poll_due(0, 1000, window), "more milliseconds than a u64 holds");
    assert!(agents_poll_due(0, u64::MAX, window));
    assert!(!agents_poll_due(0, 0, Duration::ZERO));
}

#[test]
fn a_batch_reloads_where_it_settled_and_matters() {
    let settled = vec![ChangeKind::Continuous, ChangeKind::Settled];
    let going_on = vec![ChangeKind::Continuous];
    let matters = || vec![WatchPathClass::Ignorable, WatchPathClass::Session];
    let ignored = || vec![WatchPathClass::Ignorable, WatchPathClass::Ignorable];
    assert!(batch_reloads(Some(&settled), matters()));
    assert!(!batch_reloads(Some(&settled), ignored()));
    assert!(!batch_reloads(Some(&settled), vec![]));
    assert!(!batch_reloads(Some(&going_on), matters()));
    assert!(!batch_reloads(None, matters()), "a batch that could not be read");
}

#[test]
fn input_thread_stamps_board_activity_only_for_real_events() {
    assert_eq!(input_action(InputTurn::<u32>::Flag(false)), InputAction::Read(50));
    assert_eq!(input_action(InputTurn::Arrived(7)), InputAction::StampAndSend(7));
    assert_eq!(
        input_action(InputTurn::<u32>::TimedOut),
        InputAction::CheckFlag,
        "a wake-up with nothing to read is no activity"
    );
    assert_eq!(input_action(InputTurn::<u32>::Sent), InputAction::CheckFlag);
    for end in [InputTurn::<u32>::Flag(true), InputTurn::Failed, InputTurn::ReceiverGone] {
        assert_eq!(input_action(end), InputAction::Stop);
    }
}

#[test]
fn input_is_handed_on_once_and_in_order() {
    let mut reads = vec![Some(3), None, Some(1), Some(2)].into_iter();
    let mut stamps = 0;
    let mut handed_on: Vec<u32> = Vec::new();
    let mut shutdown = false;
    let mut turn = InputTurn::Flag(shutdown);
    loop {
        turn = match input_action(turn) {
            InputAction::Stop => break,
            InputAction::CheckFlag => InputTurn::Flag(shutdown),
            InputAction::Read(wait_ms) => {
                assert_eq!(wait_ms, 50);
                match reads.next() {
                    Some(Some(event)) => InputTurn::Arrived(event),
                    Some(None) => InputTurn::TimedOut,
                    None => {
                        shutdown = true;
                        InputTurn::TimedOut
                    }
                }
            }
            InputAction::StampAndSend(event) => {
                stamps += 1;
                handed_on.push(event);
                InputTurn::Sent
            }
        };
    }
    assert_eq!(handed_on, vec![3, 1, 2]);
    assert_eq!(stamps, 3);
}

const IDLE: Duration = Duration::from_millis(AGENTS_IDLE_AFTER_MS);

#[test]
fn agents_poller_skips_the_poll_while_the_board_is_idle() {
    let idle = PollerTurn::<u32>::Clock { last_activity_ms: 0, now_ms: AGENTS_IDLE_AFTER_MS };
    assert_eq!(poller_action(idle, IDLE), PollerAction::Sleep);
    assert_eq!(poller_action(PollerTurn::<u32>::Slept, IDLE), PollerAction::CheckFlag);
}

#[test]
fn agents_poller_polls_immediately_while_the_board_is_active() {
    assert_eq!(
        poller_action(PollerTurn::<u32>::Flag(false), IDLE),
        PollerAction::ReadClock,
        "the first turn reads the clock before any sleep"
    );
    let active = PollerTurn::<u32>::Clock { last_activity_ms: 7, now_ms: 7 };
    assert_eq!(poller_action(active, IDLE), PollerAction::Poll);
    assert_eq!(poller_action(PollerTurn::Polled(9), IDLE), PollerAction::Send(9));
    assert_eq!(poller_action(PollerTurn::<u32>::Sent, IDLE), PollerAction::Sleep);
}

#[test]
fn agents_poller_exits_on_shutdown_even_while_idle() {
    assert_eq!(poller_action(PollerTurn::<u32>::Flag(true), IDLE), PollerAction::Stop);
    assert_eq!(poller_action(PollerTurn::<u32>::ReceiverGone, IDLE), PollerAction::Stop);
}

/// The steps of a poller whose clock reads `clock`, one pair of last activity and
/// time now for each interval, and whose flag is set once it has run out.
fn poller_steps(clock: &[(u64, u64)]) -> Vec<String> {
    let mut steps: Vec<String> = Vec::new();
    let mut next = 0;
    let mut polls = 0;
    let mut turn = PollerTurn::Flag(clock.is_empty());
    loop {
        turn = match poller_action(turn, IDLE) {
            PollerAction::Stop => break,
            PollerAction::CheckFlag => PollerTurn::Flag(next == clock.len()),
            PollerAction::ReadClock => {
                let (last_activity_ms, now_ms) = clock[next];
                next += 1;
                PollerTurn::Clock { last_activity_ms, now_ms }
            }
            PollerAction::Poll => {
                polls += 1;
                steps.push(format!("poll {polls}"));
                PollerTurn::Polled(polls)
            }
            PollerAction::Send(result) => {
                steps.push(format!("send {result}"));
                PollerTurn::Sent
            }
            PollerAction::Sleep => {
                steps.push("sleep".to_string());
                PollerTurn::Slept
            }
        };
    }
    steps
}

#[test]
fn polls_are_made_where_due_and_a_set_flag_ends_them() {
    assert_eq!(
        poller_steps(&[(0, 10), (0, 70_000), (69_000, 75_000)]),
        vec!["poll 1", "send 1", "sleep", "sleep", "poll 2", "send 2", "sleep"]
    );
    assert!(poller_steps(&[]).is_empty(), "a flag that is set from the start");
}

#[test]
fn the_tick_thread_sleeps_before_each_tick() {
    assert_eq!(tick_action(TickTurn::Started), TickAction::Sleep);
    assert_eq!(tick_action(TickTurn::Woke), TickAction::Send);
    assert_eq!(tick_action(TickTurn::Sent), TickAction::Sleep);
    assert_eq!(tick_action(TickTurn::ReceiverGone), TickAction::Stop);
}
