use transcode_orchestrator::progress::{WatchAction, WatchPhase, WatchSession};

#[test]
fn numeric_lines_update_the_snapshot_monotonically() {
    let mut s = WatchSession::new();
    assert_eq!(s.apply_line("frame=10"), WatchAction::Nothing);
    assert_eq!(s.stats.frame, 10);
    // A lower report is discarded, not applied.
    assert_eq!(s.apply_line("frame=5"), WatchAction::Nothing);
    assert_eq!(s.stats.frame, 10);
    assert_eq!(s.apply_line("fps=25.5"), WatchAction::Nothing);
    assert_eq!(s.stats.fps_micro, 25_500_000);
    assert_eq!(s.apply_line("fps=24.9"), WatchAction::Nothing);
    assert_eq!(s.stats.fps_micro, 25_500_000);
    assert_eq!(s.apply_line("out_time_ms=1000000"), WatchAction::Nothing);
    assert_eq!(s.stats.out_time_micro, 1_000_000_000_000);
    assert_eq!(s.phase, WatchPhase::Reading);
}

#[test]
fn negative_values_never_pass_the_monotonic_rule() {
    let mut s = WatchSession::new();
    assert_eq!(s.apply_line("fps=-3.5"), WatchAction::Nothing);
    assert_eq!(s.stats.fps_micro, 0);
    assert_eq!(s.apply_line("frame=-7"), WatchAction::Nothing);
    assert_eq!(s.stats.frame, 0);
    assert_eq!(s.phase, WatchPhase::Reading);
}

#[test]
fn pause_emits_stats_only_after_a_change() {
    let mut s = WatchSession::new();
    assert_eq!(s.poll_pause(), WatchAction::Nothing);
    s.apply_line("frame=3");
    assert_eq!(s.poll_pause(), WatchAction::EmitStats);
    // Nothing changed since the last pause.
    assert_eq!(s.poll_pause(), WatchAction::Nothing);
    // A discarded update leaves the snapshot clean.
    s.apply_line("frame=2");
    assert_eq!(s.poll_pause(), WatchAction::Nothing);
}

#[test]
fn end_continue_end_does_not_terminate() {
    let mut s = WatchSession::new();
    assert_eq!(s.apply_line("progress=end"), WatchAction::EmitCompletion);
    assert_eq!(s.phase, WatchPhase::Reading);
    assert_eq!(s.apply_line("progress=continue"), WatchAction::Nothing);
    assert_eq!(s.phase, WatchPhase::Reading);
    assert_eq!(s.apply_line("progress=end"), WatchAction::EmitCompletion);
    assert_eq!(s.phase, WatchPhase::Reading);
}

#[test]
fn two_consecutive_ends_terminate() {
    let mut s = WatchSession::new();
    s.apply_line("frame=99");
    assert_eq!(s.apply_line("progress=end"), WatchAction::EmitCompletion);
    assert_eq!(s.phase, WatchPhase::Reading);
    assert_eq!(s.apply_line("progress=end"), WatchAction::EmitCompletion);
    assert_eq!(s.phase, WatchPhase::Completed);
    assert_eq!(s.stats.frame, 99);
}

#[test]
fn stats_lines_between_ends_do_not_break_the_pair() {
    let mut s = WatchSession::new();
    assert_eq!(s.apply_line("progress=end"), WatchAction::EmitCompletion);
    assert_eq!(s.apply_line("frame=12"), WatchAction::Nothing);
    assert_eq!(s.apply_line("fps=30.0"), WatchAction::Nothing);
    assert_eq!(s.apply_line("progress=end"), WatchAction::EmitCompletion);
    assert_eq!(s.phase, WatchPhase::Completed);
}

#[test]
fn other_progress_values_are_ignored() {
    let mut s = WatchSession::new();
    assert_eq!(s.apply_line("progress=running"), WatchAction::Nothing);
    assert_eq!(s.phase, WatchPhase::Reading);
    assert!(!s.end_seen);
}

#[test]
fn unknown_keys_are_ignored() {
    let mut s = WatchSession::new();
    assert_eq!(s.apply_line("speed=1.02x"), WatchAction::Nothing);
    assert_eq!(s.apply_line("bitrate= 128.0kbits/s"), WatchAction::Nothing);
    assert_eq!(s.apply_line(""), WatchAction::Nothing);
    let zero = WatchSession::new();
    assert_eq!(s.stats, zero.stats);
    assert_eq!(s.phase, WatchPhase::Reading);
}

#[test]
fn malformed_numeric_payload_fails_the_session() {
    let mut s = WatchSession::new();
    s.apply_line("frame=abc");
    assert_eq!(s.phase, WatchPhase::Failed);
    let mut s2 = WatchSession::new();
    s2.apply_line("fps=1.2.3");
    assert_eq!(s2.phase, WatchPhase::Failed);
}

#[test]
fn every_key_occurrence_is_removed_from_the_payload() {
    // The payload is the line with every occurrence of the key removed, as
    // the original tail loop extracts it.
    let mut s = WatchSession::new();
    s.apply_line("frame=frame=7");
    assert_eq!(s.stats.frame, 7);
}

#[test]
fn silent_producer_keeps_the_watcher_polling() {
    // No end marker ever arrives: the watcher pauses indefinitely without
    // erring or leaving the reading phase.
    let mut s = WatchSession::new();
    s.apply_line("frame=1");
    for _ in 0..1000 {
        let _ = s.poll_pause();
        assert_eq!(s.phase, WatchPhase::Reading);
    }
    assert_eq!(s.stats.frame, 1);
}
