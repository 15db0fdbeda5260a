use crate::numbers::{spec_parse_fixed_micro, spec_parse_i32, parse_fixed_micro, parse_i32};
use crate::text::{match_at, matches_at, replace_all, spec_replace_all, str_eq};
use vstd::prelude::*;

verus! {

/// The running statistics snapshot of one watch session. The two rate and
/// time fields hold the reported decimal exactly, in units of one millionth,
/// so that the monotonic-update comparison orders them as the reported
/// decimals order.
#[derive(Clone, Copy, Debug, PartialEq, Eq, Structural)]
pub struct VideoProcessingStats {
    /// The last frame count retained.
    pub frame: i32,
    /// Frames per second, millionths.
    pub fps_micro: u64,
    /// The value of the `out_time_ms` key (the tool reports microseconds
    /// there), millionths.
    pub out_time_micro: u64,
}

/// Where one watch session stands.
#[derive(Clone, Copy, Debug, PartialEq, Eq, Structural)]
pub enum WatchPhase {
    /// Tailing the progress file.
    Reading,
    /// Two end markers arrived with no intervening continue: the session is
    /// over and no further line is read.
    Completed,
    /// A numeric field of a report line did not parse; the session is
    /// abandoned.
    Failed,
}

/// What the caller owes the listener after one step.
#[derive(Clone, Copy, Debug, PartialEq, Eq, Structural)]
pub enum WatchAction {
    Nothing,
    /// Deliver a statistics notification carrying the current snapshot.
    EmitStats,
    /// Deliver a completion-shaped notification carrying the current
    /// snapshot.
    EmitCompletion,
}

/// One watch session: the retained snapshot, the end-marker flag, whether
/// the snapshot changed since the last pause, and the phase.
#[derive(Clone, Copy, Debug, PartialEq, Eq, Structural)]
pub struct WatchSession {
    pub stats: VideoProcessingStats,
    pub end_seen: bool,
    pub dirty: bool,
    pub phase: WatchPhase,
}

/// `line` opens with `key`.
pub open spec fn has_key(line: Seq<char>, key: Seq<char>) -> bool {
    match_at(line, key, 0)
}

/// The payload of a report line: the line with every occurrence of the key
/// removed, exactly as the original tail loop extracts it.
pub open spec fn key_val(line: Seq<char>, key: Seq<char>) -> Seq<char> {
    spec_replace_all(line, key, Seq::<char>::empty())
}

/// A control line that signals one flush boundary.
pub open spec fn is_end_line(line: Seq<char>) -> bool {
    &&& !has_key(line, "frame="@)
    &&& !has_key(line, "fps="@)
    &&& !has_key(line, "out_time_ms="@)
    &&& has_key(line, "progress="@)
    &&& key_val(line, "progress="@) == "end"@
}

/// A control line that reopens the current flush segment.
pub open spec fn is_continue_line(line: Seq<char>) -> bool {
    &&& !has_key(line, "frame="@)
    &&& !has_key(line, "fps="@)
    &&& !has_key(line, "out_time_ms="@)
    &&& has_key(line, "progress="@)
    &&& key_val(line, "progress="@) == "continue"@
}

/// A session as it starts: zero statistics, no end marker seen.
pub open spec fn initial_session() -> WatchSession {
    WatchSession {
        stats: VideoProcessingStats { frame: 0, fps_micro: 0, out_time_micro: 0 },
        end_seen: false,
        dirty: false,
        phase: WatchPhase::Reading,
    }
}

/// The transition one report line makes on a reading session: numeric keys
/// update their field under the monotonic rule and mark the snapshot dirty,
/// a malformed numeric payload fails the session, the first end marker of a
/// segment emits a completion notification and arms the flag, a second end
/// marker with the flag armed completes the session, a continue marker
/// disarms the flag, and anything else is ignored.
pub open spec fn spec_apply_line(st: WatchSession, line: Seq<char>) -> (WatchSession, WatchAction) {
    if has_key(line, "frame="@) {
        match spec_parse_i32(key_val(line, "frame="@)) {
            Some(v) => if v > st.stats.frame {
                (
                    WatchSession {
                        stats: VideoProcessingStats { frame: v, ..st.stats },
                        dirty: true,
                        ..st
                    },
                    WatchAction::Nothing,
                )
            } else {
                (st, WatchAction::Nothing)
            },
            None => (WatchSession { phase: WatchPhase::Failed, ..st }, WatchAction::Nothing),
        }
    } else if has_key(line, "fps="@) {
        match spec_parse_fixed_micro(key_val(line, "fps="@)) {
            Some(v) => if !v.negative && v.micro > st.stats.fps_micro {
                (
                    WatchSession {
                        stats: VideoProcessingStats { fps_micro: v.micro, ..st.stats },
                        dirty: true,
                        ..st
                    },
                    WatchAction::Nothing,
                )
            } else {
                (st, WatchAction::Nothing)
            },
            None => (WatchSession { phase: WatchPhase::Failed, ..st }, WatchAction::Nothing),
        }
    } else if has_key(line, "out_time_ms="@) {
        match spec_parse_fixed_micro(key_val(line, "out_time_ms="@)) {
            Some(v) => if !v.negative && v.micro > st.stats.out_time_micro {
                (
                    WatchSession {
                        stats: VideoProcessingStats { out_time_micro: v.micro, ..st.stats },
                        dirty: true,
                        ..st
                    },
                    WatchAction::Nothing,
                )
            } else {
                (st, WatchAction::Nothing)
            },
            None => (WatchSession { phase: WatchPhase::Failed, ..st }, WatchAction::Nothing),
        }
    } else if has_key(line, "progress="@) {
        let p = key_val(line, "progress="@);
        if p == "end"@ {
            if st.end_seen {
                (WatchSession { phase: WatchPhase::Completed, ..st }, WatchAction::EmitCompletion)
            } else {
                (WatchSession { end_seen: true, ..st }, WatchAction::EmitCompletion)
            }
        } else if p == "continue"@ {
            (WatchSession { end_seen: false, ..st }, WatchAction::Nothing)
        } else {
            (st, WatchAction::Nothing)
        }
    } else {
        (st, WatchAction::Nothing)
    }
}

/// The transition made when the tail of the file is reached and no further
/// line is available yet: a statistics notification is owed exactly when the
/// snapshot changed since the last pause.
pub open spec fn spec_poll_pause(st: WatchSession) -> (WatchSession, WatchAction) {
    if st.dirty {
        (WatchSession { dirty: false, ..st }, WatchAction::EmitStats)
    } else {
        (st, WatchAction::Nothing)
    }
}

impl WatchSession {
    /// A fresh session over a newly opened progress file.
    pub fn new() -> (s: WatchSession)
        ensures
            s == initial_session(),
    {
        WatchSession {
            stats: VideoProcessingStats { frame: 0, fps_micro: 0, out_time_micro: 0 },
            end_seen: false,
            dirty: false,
            phase: WatchPhase::Reading,
        }
    }

    /// Consumes one line of the progress file.
    pub fn apply_line(&mut self, line: &str) -> (a: WatchAction)
        requires
            old(self).phase == WatchPhase::Reading,
        ensures
            (*final(self), a) == spec_apply_line(*old(self), line@),
            // Every retained field is monotonically non-decreasing.
            final(self).stats.frame >= old(self).stats.frame,
            final(self).stats.fps_micro >= old(self).stats.fps_micro,
            final(self).stats.out_time_micro >= old(self).stats.out_time_micro,
            // The session completes exactly on an end marker that follows an
            // earlier end marker with no intervening continue marker.
            final(self).phase == WatchPhase::Completed <==> (old(self).end_seen && is_end_line(
                line@,
            )),
            // Every end marker, first or second, emits one completion-shaped
            // notification.
            a == WatchAction::EmitCompletion <==> is_end_line(line@),
    {
        proof {
            reveal_strlit("frame=");
            reveal_strlit("fps=");
            reveal_strlit("out_time_ms=");
            reveal_strlit("progress=");
            reveal_strlit("end");
            reveal_strlit("continue");
            reveal_strlit("");
            assert(""@ =~= Seq::<char>::empty());
        }
        if matches_at(line, 0, "frame=") {
            let val = replace_all(line, "frame=", "");
            match parse_i32(val.as_str()) {
                Some(v) => {
                    if v > self.stats.frame {
                        self.stats.frame = v;
                        self.dirty = true;
                    }
                    WatchAction::Nothing
                },
                None => {
                    self.phase = WatchPhase::Failed;
                    WatchAction::Nothing
                },
            }
        } else if matches_at(line, 0, "fps=") {
            let val = replace_all(line, "fps=", "");
            match parse_fixed_micro(val.as_str()) {
                Some(v) => {
                    if !v.negative && v.micro > self.stats.fps_micro {
                        self.stats.fps_micro = v.micro;
                        self.dirty = true;
                    }
                    WatchAction::Nothing
                },
                None => {
                    self.phase = WatchPhase::Failed;
                    WatchAction::Nothing
                },
            }
        } else if matches_at(line, 0, "out_time_ms=") {
            let val = replace_all(line, "out_time_ms=", "");
            match parse_fixed_micro(val.as_str()) {
                Some(v) => {
                    if !v.negative && v.micro > self.stats.out_time_micro {
                        self.stats.out_time_micro = v.micro;
                        self.dirty = true;
                    }
                    WatchAction::Nothing
                },
                None => {
                    self.phase = WatchPhase::Failed;
                    WatchAction::Nothing
                },
            }
        } else if matches_at(line, 0, "progress=") {
            let val = replace_all(line, "progress=", "");
            if str_eq(val.as_str(), "end") {
                if self.end_seen {
                    self.phase = WatchPhase::Completed;
                } else {
                    self.end_seen = true;
                }
                WatchAction::EmitCompletion
            } else if str_eq(val.as_str(), "continue") {
                self.end_seen = false;
                WatchAction::Nothing
            } else {
                WatchAction::Nothing
            }
        } else {
            WatchAction::Nothing
        }
    }

    /// Reached the current tail of the file with nothing more to read:
    /// reports whether a statistics notification is owed, then waits out the
    /// polling pause.
    pub fn poll_pause(&mut self) -> (a: WatchAction)
        requires
            old(self).phase == WatchPhase::Reading,
        ensures
            (*final(self), a) == spec_poll_pause(*old(self)),
            final(self).phase == old(self).phase,
            final(self).stats == old(self).stats,
            final(self).end_seen == old(self).end_seen,
            a == WatchAction::EmitStats <==> old(self).dirty,
    {
        if self.dirty {
            self.dirty = false;
            WatchAction::EmitStats
        } else {
            WatchAction::Nothing
        }
    }
}

/// A session run over a sequence of lines, stopping once the session is no
/// longer reading, as the watch loop does.
pub open spec fn spec_run_lines(st: WatchSession, lines: Seq<Seq<char>>) -> WatchSession
    decreases lines.len(),
{
    if lines.len() == 0 || st.phase != WatchPhase::Reading {
        st
    } else {
        spec_run_lines(spec_apply_line(st, lines[0]).0, lines.skip(1))
    }
}

/// Across the lifetime of one watch session, every retained field is
/// monotonically non-decreasing, whatever lines arrive.
pub proof fn lemma_run_stats_monotonic(st: WatchSession, lines: Seq<Seq<char>>)
    ensures
        spec_run_lines(st, lines).stats.frame >= st.stats.frame,
        spec_run_lines(st, lines).stats.fps_micro >= st.stats.fps_micro,
        spec_run_lines(st, lines).stats.out_time_micro >= st.stats.out_time_micro,
    decreases lines.len(),
{
    if lines.len() == 0 || st.phase != WatchPhase::Reading {
    } else {
        lemma_run_stats_monotonic(spec_apply_line(st, lines[0]).0, lines.skip(1));
    }
}

/// A control line: one that arms or disarms the end-marker flag.
pub open spec fn is_control_line(line: Seq<char>) -> bool {
    is_end_line(line) || is_continue_line(line)
}

/// Somewhere in `lines`, two end markers occur with no control line — in
/// particular no continue marker — between them.
pub open spec fn has_unbroken_double_end(lines: Seq<Seq<char>>) -> bool {
    exists|i: int, j: int|
        0 <= i < j < lines.len() && is_end_line(lines[i]) && is_end_line(lines[j]) && (forall|
            k: int,
        |
            i < k < j ==> !is_control_line(lines[k]))
}

/// Some end marker occurs before any other control line.
pub open spec fn first_control_is_end(lines: Seq<Seq<char>>) -> bool {
    exists|j: int|
        0 <= j < lines.len() && is_end_line(lines[j]) && (forall|k: int|
            0 <= k < j ==> !is_control_line(lines[k]))
}

/// Every numeric report line in `lines` carries a well-formed payload, so
/// no line fails the session.
pub open spec fn line_parses(line: Seq<char>) -> bool {
    if has_key(line, "frame="@) {
        spec_parse_i32(key_val(line, "frame="@)) is Some
    } else if has_key(line, "fps="@) {
        spec_parse_fixed_micro(key_val(line, "fps="@)) is Some
    } else if has_key(line, "out_time_ms="@) {
        spec_parse_fixed_micro(key_val(line, "out_time_ms="@)) is Some
    } else {
        true
    }
}

pub open spec fn all_lines_parse(lines: Seq<Seq<char>>) -> bool {
    forall|i: int| 0 <= i < lines.len() ==> line_parses(#[trigger] lines[i])
}

/// Lifts an unbroken pair found past the first line to the whole
/// sequence.
proof fn lemma_dbl_from_rest(lines: Seq<Seq<char>>)
    requires
        lines.len() > 0,
        has_unbroken_double_end(lines.skip(1)),
    ensures
        has_unbroken_double_end(lines),
{
    let rest = lines.skip(1);
    let (i, j) = choose|i: int, j: int|
        0 <= i < j < rest.len() && is_end_line(rest[i]) && is_end_line(rest[j]) && (forall|k: int|
            i < k < j ==> !is_control_line(#[trigger] rest[k]));
    assert(rest[i] == lines[i + 1]);
    assert(rest[j] == lines[j + 1]);
    assert forall|k: int| i + 1 < k < j + 1 implies !is_control_line(#[trigger] lines[k]) by {
        assert(lines[k] == rest[k - 1]);
    }
    assert(0 <= i + 1 < j + 1 < lines.len() && is_end_line(lines[i + 1]) && is_end_line(
        lines[j + 1],
    ) && (forall|k: int| i + 1 < k < j + 1 ==> !is_control_line(#[trigger] lines[k])));
}

/// Pushes an unbroken pair past a first line that is no end marker.
proof fn lemma_dbl_to_rest(lines: Seq<Seq<char>>)
    requires
        has_unbroken_double_end(lines),
        lines.len() > 0,
        !is_end_line(lines[0]),
    ensures
        has_unbroken_double_end(lines.skip(1)),
{
    let rest = lines.skip(1);
    let (i, j) = choose|i: int, j: int|
        0 <= i < j < lines.len() && is_end_line(lines[i]) && is_end_line(lines[j]) && (forall|
            k: int,
        |
            i < k < j ==> !is_control_line(#[trigger] lines[k]));
    assert(i != 0);
    assert(rest[i - 1] == lines[i]);
    assert(rest[j - 1] == lines[j]);
    assert forall|k: int| i - 1 < k < j - 1 implies !is_control_line(#[trigger] rest[k]) by {
        assert(rest[k] == lines[k + 1]);
    }
    assert(0 <= i - 1 < j - 1 < rest.len() && is_end_line(rest[i - 1]) && is_end_line(rest[j - 1])
        && (forall|k: int| i - 1 < k < j - 1 ==> !is_control_line(#[trigger] rest[k])));
}

/// Splits an unbroken pair around a first line that is an end marker: either
/// the pair starts there, leaving an early end marker in the rest, or it
/// lies wholly in the rest.
proof fn lemma_dbl_split_at_end(lines: Seq<Seq<char>>)
    requires
        has_unbroken_double_end(lines),
        lines.len() > 0,
        is_end_line(lines[0]),
    ensures
        first_control_is_end(lines.skip(1)) || has_unbroken_double_end(lines.skip(1)),
{
    let rest = lines.skip(1);
    let (i, j) = choose|i: int, j: int|
        0 <= i < j < lines.len() && is_end_line(lines[i]) && is_end_line(lines[j]) && (forall|
            k: int,
        |
            i < k < j ==> !is_control_line(#[trigger] lines[k]));
    if i == 0 {
        assert(rest[j - 1] == lines[j]);
        assert forall|k: int| 0 <= k < j - 1 implies !is_control_line(#[trigger] rest[k]) by {
            assert(rest[k] == lines[k + 1]);
        }
        assert(0 <= j - 1 < rest.len() && is_end_line(rest[j - 1]) && (forall|k: int|
            0 <= k < j - 1 ==> !is_control_line(#[trigger] rest[k])));
    } else {
        assert(rest[i - 1] == lines[i]);
        assert(rest[j - 1] == lines[j]);
        assert forall|k: int| i - 1 < k < j - 1 implies !is_control_line(#[trigger] rest[k]) by {
            assert(rest[k] == lines[k + 1]);
        }
        assert(0 <= i - 1 < j - 1 < rest.len() && is_end_line(rest[i - 1]) && is_end_line(
            rest[j - 1],
        ) && (forall|k: int| i - 1 < k < j - 1 ==> !is_control_line(#[trigger] rest[k])));
    }
}

/// Builds an unbroken pair from an end marker at the front and an early end
/// marker in the rest.
proof fn lemma_dbl_join_at_end(lines: Seq<Seq<char>>)
    requires
        lines.len() > 0,
        is_end_line(lines[0]),
        first_control_is_end(lines.skip(1)),
    ensures
        has_unbroken_double_end(lines),
{
    let rest = lines.skip(1);
    let j = choose|j: int|
        0 <= j < rest.len() && is_end_line(rest[j]) && (forall|k: int|
            0 <= k < j ==> !is_control_line(#[trigger] rest[k]));
    assert(rest[j] == lines[j + 1]);
    assert forall|k: int| 0 < k < j + 1 implies !is_control_line(#[trigger] lines[k]) by {
        assert(lines[k] == rest[k - 1]);
    }
    assert(0 <= 0 < j + 1 < lines.len() && is_end_line(lines[0]) && is_end_line(lines[j + 1]) && (
    forall|k: int| 0 < k < j + 1 ==> !is_control_line(#[trigger] lines[k])));
}

/// Moves an early end marker across a first line that is no control line,
/// in either direction.
proof fn lemma_first_end_shift(lines: Seq<Seq<char>>)
    requires
        lines.len() > 0,
        !is_control_line(lines[0]),
    ensures
        first_control_is_end(lines) <==> first_control_is_end(lines.skip(1)),
{
    let rest = lines.skip(1);
    if first_control_is_end(lines) {
        let j = choose|j: int|
            0 <= j < lines.len() && is_end_line(lines[j]) && (forall|k: int|
                0 <= k < j ==> !is_control_line(#[trigger] lines[k]));
        assert(j != 0);
        assert(rest[j - 1] == lines[j]);
        assert forall|k: int| 0 <= k < j - 1 implies !is_control_line(#[trigger] rest[k]) by {
            assert(rest[k] == lines[k + 1]);
        }
        assert(0 <= j - 1 < rest.len() && is_end_line(rest[j - 1]) && (forall|k: int|
            0 <= k < j - 1 ==> !is_control_line(#[trigger] rest[k])));
    }
    if first_control_is_end(rest) {
        let j = choose|j: int|
            0 <= j < rest.len() && is_end_line(rest[j]) && (forall|k: int|
                0 <= k < j ==> !is_control_line(#[trigger] rest[k]));
        assert(rest[j] == lines[j + 1]);
        assert forall|k: int| 0 <= k < j + 1 implies !is_control_line(#[trigger] lines[k]) by {
            if k > 0 {
                assert(lines[k] == rest[k - 1]);
            }
        }
        assert(0 <= j + 1 < lines.len() && is_end_line(lines[j + 1]) && (forall|k: int|
            0 <= k < j + 1 ==> !is_control_line(#[trigger] lines[k])));
    }
}

/// No early end marker exists when the first line is a continue marker.
proof fn lemma_first_end_not_at_continue(lines: Seq<Seq<char>>)
    requires
        lines.len() > 0,
        is_continue_line(lines[0]),
    ensures
        !first_control_is_end(lines),
{
    reveal_strlit("end");
    reveal_strlit("continue");
    if first_control_is_end(lines) {
        let j = choose|j: int|
            0 <= j < lines.len() && is_end_line(lines[j]) && (forall|k: int|
                0 <= k < j ==> !is_control_line(#[trigger] lines[k]));
        assert(j != 0);
        assert(!is_control_line(lines[0]));
    }
}

/// A reading session completes exactly when two end markers arrive with no
/// intervening continue marker — or one end marker, when the flag is
/// already armed from before — provided every numeric line parses.
pub proof fn lemma_run_completes_iff(st: WatchSession, lines: Seq<Seq<char>>)
    requires
        st.phase == WatchPhase::Reading,
        all_lines_parse(lines),
    ensures
        spec_run_lines(st, lines).phase == WatchPhase::Completed <==> ((st.end_seen
            && first_control_is_end(lines)) || has_unbroken_double_end(lines)),
    decreases lines.len(),
{
    reveal_strlit("end");
    reveal_strlit("continue");
    if lines.len() == 0 {
    } else {
        let l = lines[0];
        let rest = lines.skip(1);
        assert(line_parses(l));
        assert(forall|i: int| 0 <= i < rest.len() ==> #[trigger] rest[i] == lines[i + 1]);
        assert(all_lines_parse(rest));
        let st1 = spec_apply_line(st, l).0;
        if st.end_seen && is_end_line(l) {
            assert(st1.phase == WatchPhase::Completed);
            assert(first_control_is_end(lines)) by {
                assert(0 <= 0 < lines.len() && is_end_line(lines[0]) && (forall|k: int|
                    0 <= k < 0 ==> !is_control_line(#[trigger] lines[k])));
            }
        } else {
            assert(st1.phase == WatchPhase::Reading);
            lemma_run_completes_iff(st1, rest);
            let completed = spec_run_lines(st, lines).phase == WatchPhase::Completed;
            assert(spec_run_lines(st, lines) == spec_run_lines(st1, rest));
            if is_end_line(l) {
                assert(st1.end_seen);
                if completed {
                    if first_control_is_end(rest) {
                        lemma_dbl_join_at_end(lines);
                    } else {
                        lemma_dbl_from_rest(lines);
                    }
                }
                if has_unbroken_double_end(lines) {
                    lemma_dbl_split_at_end(lines);
                    assert(completed);
                }
            } else if is_continue_line(l) {
                assert(!st1.end_seen);
                lemma_first_end_not_at_continue(lines);
                if completed {
                    lemma_dbl_from_rest(lines);
                }
                if has_unbroken_double_end(lines) {
                    lemma_dbl_to_rest(lines);
                    assert(completed);
                }
            } else {
                assert(!is_control_line(l));
                assert(st1.end_seen == st.end_seen);
                lemma_first_end_shift(lines);
                if completed {
                    if st1.end_seen && first_control_is_end(rest) {
                    } else {
                        lemma_dbl_from_rest(lines);
                    }
                }
                if has_unbroken_double_end(lines) {
                    lemma_dbl_to_rest(lines);
                    assert(completed);
                }
            }
        }
    }
}

/// A lone end marker does not complete the session: after end, continue,
/// end, the session is still reading, and each of the two end markers emitted
/// exactly one completion-shaped notification.
pub proof fn lemma_end_continue_end_does_not_complete(
    st: WatchSession,
    l1: Seq<char>,
    l2: Seq<char>,
    l3: Seq<char>,
)
    requires
        st.phase == WatchPhase::Reading,
        !st.end_seen,
        is_end_line(l1),
        is_continue_line(l2),
        is_end_line(l3),
    ensures
        ({
            let (s1, a1) = spec_apply_line(st, l1);
            let (s2, a2) = spec_apply_line(s1, l2);
            let (s3, a3) = spec_apply_line(s2, l3);
            &&& a1 == WatchAction::EmitCompletion
            &&& s1.phase == WatchPhase::Reading
            &&& a2 == WatchAction::Nothing
            &&& s2.phase == WatchPhase::Reading
            &&& a3 == WatchAction::EmitCompletion
            &&& s3.phase == WatchPhase::Reading
            &&& s3.end_seen
        }),
{
    reveal_strlit("end");
    reveal_strlit("continue");
}

/// Two end markers with no line between them complete the session, and both
/// emit a completion-shaped notification.
pub proof fn lemma_double_end_completes(st: WatchSession, l1: Seq<char>, l2: Seq<char>)
    requires
        st.phase == WatchPhase::Reading,
        is_end_line(l1),
        is_end_line(l2),
    ensures
        ({
            let (s1, a1) = spec_apply_line(st, l1);
            let (s2, a2) = spec_apply_line(s1, l2);
            &&& a1 == WatchAction::EmitCompletion
            &&& a2 == WatchAction::EmitCompletion
            &&& s2.phase == WatchPhase::Completed
        }),
{
}

/// A producer that stops writing without ever signalling an end marker
/// leaves the watcher polling forever: a pause never changes the phase, the
/// snapshot, or the flag, and after the first pause every further pause is a
/// no-op.
pub proof fn lemma_silent_producer_polls_forever(st: WatchSession)
    requires
        st.phase == WatchPhase::Reading,
    ensures
        ({
            let (s1, a1) = spec_poll_pause(st);
            let (s2, a2) = spec_poll_pause(s1);
            &&& s1.phase == WatchPhase::Reading
            &&& s1.stats == st.stats
            &&& s1.end_seen == st.end_seen
            &&& s2 == s1
            &&& a2 == WatchAction::Nothing
        }),
{
}

} // verus!
