//! The playback scheduler's control logic: a state machine over a
//! monotonic clock with an accumulated pause offset, an undelivered-event
//! cursor, and the transport commands. The worker that owns the audio
//! sinks runs this logic; every decision here is a pure function of the
//! state, the command and the current time, so the loop around it only
//! performs the chosen actions.

use vstd::prelude::*;

use crate::helpers::event::Event;

verus! {

/// The control-channel vocabulary.
#[derive(Debug, Clone, Copy, PartialEq, Eq, Structural)]
pub enum Command {
    Pause,
    Resume,
    ChTrack,
    VolUp,
    VolDown,
    Forward,
    Backward,
    Stop,
    Unknown,
}

/// The command a control string selects; unrecognized strings do nothing.
pub open spec fn spec_command(s: Seq<char>) -> Command {
    if s == "PAUSE"@ {
        Command::Pause
    } else if s == "RESUME"@ {
        Command::Resume
    } else if s == "CH_TRACK"@ {
        Command::ChTrack
    } else if s == "VOL_UP"@ {
        Command::VolUp
    } else if s == "VOL_DOWN"@ {
        Command::VolDown
    } else if s == "FW"@ {
        Command::Forward
    } else if s == "BW"@ {
        Command::Backward
    } else if s == "STOP"@ {
        Command::Stop
    } else {
        Command::Unknown
    }
}

/// Decodes one control-channel string.
pub fn parse_command(s: &str) -> (r: Command)
    ensures
        r == spec_command(s@),
{
    if crate::strutil::str_eq(s, "PAUSE") {
        Command::Pause
    } else if crate::strutil::str_eq(s, "RESUME") {
        Command::Resume
    } else if crate::strutil::str_eq(s, "CH_TRACK") {
        Command::ChTrack
    } else if crate::strutil::str_eq(s, "VOL_UP") {
        Command::VolUp
    } else if crate::strutil::str_eq(s, "VOL_DOWN") {
        Command::VolDown
    } else if crate::strutil::str_eq(s, "FW") {
        Command::Forward
    } else if crate::strutil::str_eq(s, "BW") {
        Command::Backward
    } else if crate::strutil::str_eq(s, "STOP") {
        Command::Stop
    } else {
        Command::Unknown
    }
}

/// One instruction to the audio sinks; gains are in tenths, 0 to 10.
#[derive(Debug, Clone, Copy, PartialEq, Eq, Structural)]
pub enum SinkAction {
    PauseSinks,
    ResumeSinks,
    SetMainVolume(u8),
    SetSecondaryVolume(u8),
    RebuildAt(u64),
}

/// The scheduler's whole mutable state: the clock (a start instant and the
/// accumulated pause offset, both in milliseconds), the undelivered-event
/// cursor, the gain and which track is audible.
#[derive(Debug, Clone, Copy, PartialEq, Eq, Structural)]
pub struct PlayerState {
    pub paused: bool,
    /// The instant playback (re)started, in milliseconds.
    pub start_time: u64,
    /// Accumulated play time from before the last resume, in milliseconds.
    pub offset: u64,
    /// The next undelivered event.
    pub cursor: usize,
    /// The active track's gain in tenths, 0 to 10.
    pub volume_tenths: u8,
    /// Whether the secondary (vocal) track is the audible one.
    pub on_vocal: bool,
    /// Whether the secondary track replaces the main track.
    pub replaces_track: bool,
    /// Whether a secondary track exists at all.
    pub has_secondary: bool,
}

/// The elapsed play time at instant `now`: frozen at the offset while
/// paused, the offset plus the time since the last start otherwise.
pub open spec fn elapsed_ms(s: PlayerState, now: u64) -> int {
    if s.paused {
        s.offset as int
    } else {
        s.offset + now - s.start_time
    }
}

/// Pausing folds the elapsed time into the offset.
pub open spec fn spec_pause(s: PlayerState, now: u64) -> PlayerState {
    PlayerState { paused: true, offset: (s.offset + now - s.start_time) as u64, ..s }
}

/// Resuming restarts the clock at the current instant.
pub open spec fn spec_resume(s: PlayerState, now: u64) -> PlayerState {
    PlayerState { paused: false, start_time: now, ..s }
}

impl PlayerState {
    /// A fresh state at instant `now`, playing from the beginning at full
    /// gain on the main track.
    pub fn new(now: u64, replaces_track: bool, has_secondary: bool) -> (r: PlayerState)
        ensures
            r == (PlayerState {
                paused: false,
                start_time: now,
                offset: 0,
                cursor: 0,
                volume_tenths: 10,
                on_vocal: false,
                replaces_track,
                has_secondary,
            }),
    {
        PlayerState {
            paused: false,
            start_time: now,
            offset: 0,
            cursor: 0,
            volume_tenths: 10,
            on_vocal: false,
            replaces_track,
            has_secondary,
        }
    }

    /// Folds the elapsed time into the offset and freezes the clock.
    pub fn pause(&mut self, now: u64)
        requires
            now >= old(self).start_time,
            old(self).offset + now - old(self).start_time <= u64::MAX,
        ensures
            *final (self) == spec_pause(*old(self), now),
            final (self).offset == elapsed_ms(
                PlayerState { paused: false, ..*old(self) },
                now,
            ),
    {
        self.offset = self.offset + (now - self.start_time);
        self.paused = true;
    }

    /// Restarts the clock at the current instant.
    pub fn resume(&mut self, now: u64)
        ensures
            *final (self) == spec_resume(*old(self), now),
    {
        self.start_time = now;
        self.paused = false;
    }

    /// Executes one transport command at instant `now`: the new state is
    /// exactly what the command prescribes, and the appended actions are
    /// exactly what the sinks must perform for it. `true` continues the
    /// session; the stop command ends it.
    pub fn handle_command(&mut self, cmd: Command, now: u64, actions: &mut Vec<SinkAction>) -> (cont:
        bool)
        requires
            now >= old(self).start_time,
            old(self).offset + now - old(self).start_time <= u64::MAX,
            old(self).offset + 5000 + now - old(self).start_time <= u64::MAX,
            cmd == Command::Backward ==> old(self).offset >= 5000,
        ensures
            cont == (cmd != Command::Stop),
            cmd == Command::Pause ==> *final (self) == spec_pause(*old(self), now) && final (
            actions)@ == old(actions)@.push(SinkAction::PauseSinks),
            cmd == Command::Resume ==> *final (self) == spec_resume(*old(self), now) && final (
            actions)@ == old(actions)@.push(SinkAction::ResumeSinks),
            cmd == Command::VolUp ==> *final (self) == (PlayerState {
                volume_tenths: if old(self).volume_tenths < 10 {
                    (old(self).volume_tenths + 1) as u8
                } else {
                    old(self).volume_tenths
                },
                ..*old(self)
            }) && final (actions)@ == old(actions)@.push(
                if old(self).on_vocal {
                    SinkAction::SetSecondaryVolume(final (self).volume_tenths)
                } else {
                    SinkAction::SetMainVolume(final (self).volume_tenths)
                },
            ),
            cmd == Command::VolDown ==> *final (self) == (PlayerState {
                volume_tenths: if old(self).volume_tenths > 0 {
                    (old(self).volume_tenths - 1) as u8
                } else {
                    old(self).volume_tenths
                },
                ..*old(self)
            }) && final (actions)@ == old(actions)@.push(
                if old(self).on_vocal {
                    SinkAction::SetSecondaryVolume(final (self).volume_tenths)
                } else {
                    SinkAction::SetMainVolume(final (self).volume_tenths)
                },
            ),
            cmd == Command::ChTrack ==> *final (self) == (PlayerState {
                on_vocal: if old(self).has_secondary {
                    !old(self).on_vocal
                } else {
                    old(self).on_vocal
                },
                ..*old(self)
            }) && final (actions)@ == old(actions)@ + (if !old(self).has_secondary {
                Seq::<SinkAction>::empty()
            } else if old(self).on_vocal {
                seq![
                    SinkAction::SetMainVolume(old(self).volume_tenths),
                    SinkAction::SetSecondaryVolume(0),
                ]
            } else if old(self).replaces_track {
                seq![
                    SinkAction::SetMainVolume(0),
                    SinkAction::SetSecondaryVolume(old(self).volume_tenths),
                ]
            } else {
                seq![SinkAction::SetSecondaryVolume(old(self).volume_tenths)]
            }),
            cmd == Command::Forward ==> *final (self) == (PlayerState {
                offset: (old(self).offset + 5000) as u64,
                ..*old(self)
            }) && final (actions)@ == old(actions)@.push(
                SinkAction::RebuildAt(
                    ((now - old(self).start_time) + old(self).offset + 5000) as u64,
                ),
            ),
            cmd == Command::Backward ==> *final (self) == (PlayerState {
                offset: (old(self).offset - 5000) as u64,
                ..*old(self)
            }) && final (actions)@ == old(actions)@.push(
                SinkAction::RebuildAt(
                    ((now - old(self).start_time) + old(self).offset - 5000) as u64,
                ),
            ),
            (cmd == Command::Stop || cmd == Command::Unknown) ==> *final (self) == *old(self)
                && final (actions)@ == old(actions)@,
            final (self).cursor == old(self).cursor,
    {
        match cmd {
            Command::Stop => false,
            Command::Pause => {
                self.pause(now);
                actions.push(SinkAction::PauseSinks);
                true
            },
            Command::Resume => {
                actions.push(SinkAction::ResumeSinks);
                self.resume(now);
                true
            },
            Command::ChTrack => {
                let ghost a0 = actions@;
                if self.has_secondary {
                    if self.on_vocal {
                        actions.push(SinkAction::SetMainVolume(self.volume_tenths));
                        actions.push(SinkAction::SetSecondaryVolume(0));
                        self.on_vocal = false;
                        proof {
                            assert(actions@ =~= a0 + seq![
                                SinkAction::SetMainVolume(old(self).volume_tenths),
                                SinkAction::SetSecondaryVolume(0),
                            ]);
                        }
                    } else {
                        if self.replaces_track {
                            actions.push(SinkAction::SetMainVolume(0));
                        }
                        actions.push(SinkAction::SetSecondaryVolume(self.volume_tenths));
                        self.on_vocal = true;
                        proof {
                            if old(self).replaces_track {
                                assert(actions@ =~= a0 + seq![
                                    SinkAction::SetMainVolume(0),
                                    SinkAction::SetSecondaryVolume(old(self).volume_tenths),
                                ]);
                            } else {
                                assert(actions@ =~= a0 + seq![
                                    SinkAction::SetSecondaryVolume(old(self).volume_tenths),
                                ]);
                            }
                        }
                    }
                } else {
                    proof {
                        assert(actions@ =~= a0 + Seq::<SinkAction>::empty());
                    }
                }
                true
            },
            Command::VolUp => {
                if self.volume_tenths < 10 {
                    self.volume_tenths = self.volume_tenths + 1;
                }
                if self.on_vocal {
                    actions.push(SinkAction::SetSecondaryVolume(self.volume_tenths));
                } else {
                    actions.push(SinkAction::SetMainVolume(self.volume_tenths));
                }
                true
            },
            Command::VolDown => {
                if self.volume_tenths > 0 {
                    self.volume_tenths = self.volume_tenths - 1;
                }
                if self.on_vocal {
                    actions.push(SinkAction::SetSecondaryVolume(self.volume_tenths));
                } else {
                    actions.push(SinkAction::SetMainVolume(self.volume_tenths));
                }
                true
            },
            Command::Forward => {
                self.offset = self.offset + 5000;
                actions.push(SinkAction::RebuildAt((now - self.start_time) + self.offset));
                true
            },
            Command::Backward => {
                self.offset = self.offset - 5000;
                actions.push(SinkAction::RebuildAt((now - self.start_time) + self.offset));
                true
            },
            Command::Unknown => true,
        }
    }

    /// Delivers the next event when it is due: while playing, the event at
    /// the cursor whose centisecond timestamp has been reached (against
    /// the elapsed milliseconds) is returned, and the cursor moves past
    /// it; the cursor never moves otherwise, and never backward.
    pub fn pop_due(&mut self, times: &Vec<usize>, now: u64) -> (r: Option<usize>)
        requires
            now >= old(self).start_time,
            old(self).offset + now - old(self).start_time <= u64::MAX,
            old(self).cursor <= times.len(),
        ensures
            r == spec_emit(times@, *old(self), now),
            *final (self) == (PlayerState {
                cursor: match r {
                    Some(_) => (old(self).cursor + 1) as usize,
                    None => old(self).cursor,
                },
                ..*old(self)
            }),
            r matches Some(i) ==> i == old(self).cursor && i < times.len() && times@[i as int] * 10
                <= elapsed_ms(*old(self), now),
            final (self).cursor >= old(self).cursor,
    {
        if self.paused {
            return None;
        }
        if self.cursor >= times.len() {
            return None;
        }
        let elapsed: u64 = self.offset + (now - self.start_time);
        let t = times[self.cursor] as u64;
        if t <= elapsed / 10 {
            proof {
                assert(t * 10 <= elapsed) by (nonlinear_arith)
                    requires
                        t <= elapsed / 10,
                        elapsed / 10 * 10 <= elapsed,
                        t >= 0,
                ;
            }
            let i = self.cursor;
            self.cursor = self.cursor + 1;
            Some(i)
        } else {
            proof {
                assert(!(t * 10 <= elapsed)) by (nonlinear_arith)
                    requires
                        t > elapsed / 10,
                        elapsed < (elapsed / 10 + 1) * 10,
                        t >= 0,
                        elapsed >= 0,
                ;
            }
            None
        }
    }
}

/// What one poll emits: the cursor's event exactly when playing and due.
pub open spec fn spec_emit(times: Seq<usize>, s: PlayerState, now: u64) -> Option<usize> {
    if !s.paused && s.cursor < times.len() && times[s.cursor as int] * 10 <= elapsed_ms(s, now) {
        Some(s.cursor)
    } else {
        None
    }
}

/// A whole polling run over the event timestamps: at each poll instant the
/// due event at the cursor, if any, is emitted and the cursor advances.
pub open spec fn run_emits(times: Seq<int>, cursor: int, polls: Seq<int>) -> Seq<Option<int>>
    decreases polls.len(),
{
    if polls.len() == 0 {
        Seq::empty()
    } else {
        let emit: Option<int> = if 0 <= cursor < times.len() && times[cursor] * 10
            <= polls.first() {
            Some(cursor)
        } else {
            None
        };
        let c2 = match emit {
            Some(_) => cursor + 1,
            None => cursor,
        };
        seq![emit] + run_emits(times, c2, polls.drop_first())
    }
}


/// A run answers every poll.
pub proof fn lemma_run_emits_len(times: Seq<int>, cursor: int, polls: Seq<int>)
    ensures
        run_emits(times, cursor, polls).len() == polls.len(),
    decreases polls.len(),
{
    if polls.len() > 0 {
        let emit: Option<int> = if 0 <= cursor < times.len() && times[cursor] * 10
            <= polls.first() {
            Some(cursor)
        } else {
            None
        };
        let c2 = match emit {
            Some(_) => cursor + 1,
            None => cursor,
        };
        lemma_run_emits_len(times, c2, polls.drop_first());
    }
}

/// Every emission of a run is at or past the starting cursor.
proof fn lemma_run_emits_lower(times: Seq<int>, cursor: int, polls: Seq<int>, k: int)
    requires
        0 <= k < polls.len(),
        run_emits(times, cursor, polls)[k] is Some,
    ensures
        run_emits(times, cursor, polls)[k]->Some_0 >= cursor,
    decreases polls.len(),
{
    let r = run_emits(times, cursor, polls);
    let emit: Option<int> = if 0 <= cursor < times.len() && times[cursor] * 10 <= polls.first() {
        Some(cursor)
    } else {
        None
    };
    let c2 = match emit {
        Some(_) => cursor + 1,
        None => cursor,
    };
    let rest = run_emits(times, c2, polls.drop_first());
    lemma_run_emits_len(times, c2, polls.drop_first());
    assert(r == seq![emit] + rest);
    if k > 0 {
        assert((seq![emit] + rest)[k] == rest[k - 1]);
        lemma_run_emits_lower(times, c2, polls.drop_first(), k - 1);
    } else {
        assert((seq![emit] + rest)[0] == emit);
    }
}

/// An event is emitted only when its timestamp has been reached: whenever
/// a run emits event `i` at poll `k`, the event was due at that poll.
pub proof fn lemma_emitted_only_when_due(times: Seq<int>, cursor: int, polls: Seq<int>, k: int)
    requires
        0 <= k < polls.len(),
        run_emits(times, cursor, polls)[k] is Some,
    ensures
        ({
            let i = run_emits(times, cursor, polls)[k]->Some_0;
            0 <= i < times.len() && times[i] * 10 <= polls[k]
        }),
    decreases polls.len(),
{
    let r = run_emits(times, cursor, polls);
    let emit: Option<int> = if 0 <= cursor < times.len() && times[cursor] * 10 <= polls.first() {
        Some(cursor)
    } else {
        None
    };
    let c2 = match emit {
        Some(_) => cursor + 1,
        None => cursor,
    };
    let rest = run_emits(times, c2, polls.drop_first());
    lemma_run_emits_len(times, c2, polls.drop_first());
    assert(r == seq![emit] + rest);
    if k > 0 {
        assert((seq![emit] + rest)[k] == rest[k - 1]);
        assert(polls[k] == polls.drop_first()[k - 1]);
        lemma_emitted_only_when_due(times, c2, polls.drop_first(), k - 1);
    } else {
        assert((seq![emit] + rest)[0] == emit);
    }
}

/// An event is emitted at most once: two emissions of one run at
/// different polls deliver different events, in cursor order.
pub proof fn lemma_emitted_exactly_once(
    times: Seq<int>,
    cursor: int,
    polls: Seq<int>,
    k1: int,
    k2: int,
)
    requires
        0 <= k1 < k2 < polls.len(),
        run_emits(times, cursor, polls)[k1] is Some,
        run_emits(times, cursor, polls)[k2] is Some,
    ensures
        run_emits(times, cursor, polls)[k1]->Some_0 < run_emits(times, cursor, polls)[k2]->Some_0,
    decreases polls.len(),
{
    let r = run_emits(times, cursor, polls);
    let emit: Option<int> = if 0 <= cursor < times.len() && times[cursor] * 10 <= polls.first() {
        Some(cursor)
    } else {
        None
    };
    let c2 = match emit {
        Some(_) => cursor + 1,
        None => cursor,
    };
    let rest = run_emits(times, c2, polls.drop_first());
    lemma_run_emits_len(times, c2, polls.drop_first());
    assert(r == seq![emit] + rest);
    if k1 == 0 {
        assert((seq![emit] + rest)[0] == emit);
        assert((seq![emit] + rest)[k2] == rest[k2 - 1]);
        lemma_run_emits_lower(times, c2, polls.drop_first(), k2 - 1);
    } else {
        assert((seq![emit] + rest)[k1] == rest[k1 - 1]);
        assert((seq![emit] + rest)[k2] == rest[k2 - 1]);
        lemma_emitted_exactly_once(times, c2, polls.drop_first(), k1 - 1, k2 - 1);
    }
}

/// Pausing, resuming, then pausing again accumulates exactly the played
/// time: playing `a` milliseconds before the first pause and `b` more
/// between resume and the second pause leaves offset `a + b` (so 3.0
/// seconds and then 2.0 more give 5.0 seconds).
pub proof fn lemma_pause_resume_accumulates(s0: PlayerState, t0: u64, t1: u64, t2: u64, t3: u64)
    requires
        !s0.paused,
        s0.offset == 0,
        s0.start_time == t0,
        t0 <= t1,
        t2 <= t3,
        t1 - t0 + t3 - t2 <= u64::MAX,
    ensures
        spec_pause(spec_resume(spec_pause(s0, t1), t2), t3).offset == (t1 - t0) + (t3 - t2),
{
}

} // verus!
