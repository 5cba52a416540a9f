//! The Pomodoro timer state: two phases (work and break) with fixed
//! durations, a saturating countdown driven by wall-clock timestamps, a pause
//! flag, and the decisions the render loop takes each tick (phase completion,
//! key handling, periodic saving).

use vstd::prelude::*;
use vstd::string::StringExecFns;

use crate::decimal::{dec_chars, dec_string, digit_char, digit_str};

verus! {

/// Length of a work phase, in seconds (25 minutes).
pub const WORK_DURATION_SECS: u32 = 25 * 60;

/// Length of a break phase, in seconds (5 minutes).
pub const BREAK_DURATION_SECS: u32 = 5 * 60;

/// How many seconds of loop time may pass between periodic saves.
pub const SAVE_INTERVAL_SECS: u64 = 5;

#[derive(Clone, Copy, PartialEq, Eq, Structural, Debug)]
pub enum TimerPhase {
    Work,
    Break,
}

/// The whole timer: the active phase, the seconds left in it, whether the
/// countdown is frozen, and the Unix timestamp of the last advance (`None`
/// right after a load or a phase reset, so that the next advance deducts
/// nothing).
#[derive(Clone, Copy)]
pub struct TimerState {
    pub phase: TimerPhase,
    pub remaining_seconds: u32,
    pub is_paused: bool,
    pub last_update: Option<u64>,
}

impl TimerState {
    /// The state a fresh timer starts in: a full, running work phase.
    pub open spec fn initial() -> TimerState {
        TimerState {
            phase: TimerPhase::Work,
            remaining_seconds: WORK_DURATION_SECS,
            is_paused: false,
            last_update: None,
        }
    }

    /// The state every reset to the work phase yields, whatever came before.
    pub open spec fn work_start() -> TimerState {
        TimerState {
            phase: TimerPhase::Work,
            remaining_seconds: WORK_DURATION_SECS,
            is_paused: false,
            last_update: None,
        }
    }

    /// The state every reset to the break phase yields, whatever came before.
    pub open spec fn break_start() -> TimerState {
        TimerState {
            phase: TimerPhase::Break,
            remaining_seconds: BREAK_DURATION_SECS,
            is_paused: false,
            last_update: None,
        }
    }

    /// Wall-clock seconds since the last advance, as `update` counts them:
    /// zero when no advance has been recorded, and zero when the clock reads
    /// earlier than the recorded timestamp.
    pub open spec fn spec_elapsed(self, now: u64) -> int {
        match self.last_update {
            Some(t) => if t <= now {
                now - t
            } else {
                0
            },
            None => 0,
        }
    }

    /// The state after one advance at time `now`: the countdown loses the
    /// elapsed seconds (nothing while paused), floored at zero, and the
    /// timestamp is refreshed unconditionally.
    pub open spec fn spec_updated(self, now: u64) -> TimerState {
        let deducted: int = if self.is_paused {
            0
        } else {
            self.spec_elapsed(now)
        };
        TimerState {
            phase: self.phase,
            remaining_seconds: if deducted >= self.remaining_seconds {
                0
            } else {
                (self.remaining_seconds - deducted) as u32
            },
            is_paused: self.is_paused,
            last_update: Some(now),
        }
    }

    /// The data-model invariant: the countdown never holds more seconds
    /// than the longest phase duration.
    pub open spec fn wf(self) -> bool {
        self.remaining_seconds <= WORK_DURATION_SECS
    }

    /// The state with the pause flag flipped and nothing else touched.
    pub open spec fn spec_toggled(self) -> TimerState {
        TimerState {
            phase: self.phase,
            remaining_seconds: self.remaining_seconds,
            is_paused: !self.is_paused,
            last_update: self.last_update,
        }
    }

    pub fn work_duration() -> (d: u32)
        ensures
            d == WORK_DURATION_SECS,
    {
        WORK_DURATION_SECS
    }

    pub fn break_duration() -> (d: u32)
        ensures
            d == BREAK_DURATION_SECS,
    {
        BREAK_DURATION_SECS
    }

    /// Enter a full work phase: running, and with no recorded timestamp, so
    /// the next advance deducts nothing.
    pub fn reset_to_work(&mut self)
        ensures
            *final(self) == TimerState::work_start(),
    {
        self.phase = TimerPhase::Work;
        self.remaining_seconds = Self::work_duration();
        self.is_paused = false;
        self.last_update = None;
    }

    /// Enter a full break phase: running, and with no recorded timestamp.
    pub fn reset_to_break(&mut self)
        ensures
            *final(self) == TimerState::break_start(),
    {
        self.phase = TimerPhase::Break;
        self.remaining_seconds = Self::break_duration();
        self.is_paused = false;
        self.last_update = None;
    }

    /// The remaining time as `MM:SS`, zero-padded to at least two digits on
    /// each side; minutes above 99 simply take more digits.
    pub fn format_time(&self) -> (r: String)
        ensures
            r@ == spec_format_time(self.remaining_seconds as int),
    {
        let minutes: u32 = self.remaining_seconds / 60;
        let seconds: u32 = self.remaining_seconds % 60;
        let mut r: String = if minutes < 10 {
            proof {
                reveal_strlit("0");
            }
            let mut z = String::from_str("0");
            z.append(digit_str(minutes as u64));
            assert(z@ =~= seq!['0', digit_char(minutes as int)]);
            z
        } else {
            dec_string(minutes as u64)
        };
        proof {
            reveal_strlit(":");
        }
        r.append(":");
        r.append(digit_str((seconds / 10) as u64));
        r.append(digit_str((seconds % 10) as u64));
        assert(r@ =~= spec_format_time(self.remaining_seconds as int));
        r
    }

    /// The glyph shown beside the time for the active phase.
    pub fn emoji(&self) -> (r: &'static str)
        ensures
            self.phase is Work ==> r@ == "ğŸ…"@,
            self.phase is Break ==> r@ == "ğŸŒ´"@,
    {
        match self.phase {
            TimerPhase::Work => "ğŸ…",
            TimerPhase::Break => "ğŸŒ´",
        }
    }

    /// The line the loop renders each tick: the remaining time, a space, and
    /// the phase glyph.
    pub fn status_line(&self) -> (r: String)
        ensures
            self.phase is Work ==> r@ == spec_format_time(self.remaining_seconds as int) + " "@
                + "ğŸ…"@,
            self.phase is Break ==> r@ == spec_format_time(self.remaining_seconds as int) + " "@
                + "ğŸŒ´"@,
    {
        let mut r = self.format_time();
        r.append(" ");
        r.append(self.emoji());
        r
    }

    /// The context-sensitive key hint shown under the time.
    pub fn hint_line(&self) -> (r: &'static str)
        ensures
            self.is_paused ==> r@ == "PAUSED - Press 'r' to resume, 'q' to quit"@,
            !self.is_paused ==> r@ == "Press 'p' to pause, 'q' to quit"@,
    {
        if self.is_paused {
            "PAUSED - Press 'r' to resume, 'q' to quit"
        } else {
            "Press 'p' to pause, 'q' to quit"
        }
    }

    /// Advance the countdown to the clock reading `now`: deduct the seconds
    /// elapsed since the recorded timestamp (none on the first advance after
    /// a load or reset, none while paused, and never past zero), and record
    /// `now` unconditionally.
    pub fn update_at(&mut self, now: u64)
        ensures
            *final(self) == old(self).spec_updated(now),
            final(self).phase == old(self).phase,
            final(self).is_paused == old(self).is_paused,
            final(self).last_update == Some(now),
            final(self).remaining_seconds <= old(self).remaining_seconds,
            old(self).is_paused ==> final(self).remaining_seconds == old(
                self,
            ).remaining_seconds,
            old(self).last_update is None ==> final(self).remaining_seconds == old(
                self,
            ).remaining_seconds,
            old(self).wf() ==> final(self).wf(),
    {
        if let Some(t) = self.last_update {
            if !self.is_paused && now > t {
                let elapsed: u64 = now - t;
                if (self.remaining_seconds as u64) > elapsed {
                    self.remaining_seconds = self.remaining_seconds - (elapsed as u32);
                } else {
                    self.remaining_seconds = 0;
                }
            }
        }
        self.last_update = Some(now);
    }

    /// Advance the countdown to the current wall-clock time. The clock's
    /// reading cannot be pinned down, so the contract states what holds of
    /// every reading: some `now` was read and the state advanced to it.
    pub fn update(&mut self)
        ensures
            exists|now: u64| *final(self) == old(self).spec_updated(now),
            final(self).phase == old(self).phase,
            final(self).is_paused == old(self).is_paused,
            final(self).last_update is Some,
            final(self).remaining_seconds <= old(self).remaining_seconds,
            old(self).is_paused ==> final(self).remaining_seconds == old(
                self,
            ).remaining_seconds,
            old(self).last_update is None ==> final(self).remaining_seconds == old(
                self,
            ).remaining_seconds,
            old(self).wf() ==> final(self).wf(),
    {
        let now = now_seconds();
        self.update_at(now);
        assert(*self == old(self).spec_updated(now));
    }

    /// The countdown has reached zero.
    pub fn is_finished(&self) -> (r: bool)
        ensures
            r == (self.remaining_seconds == 0),
    {
        self.remaining_seconds == 0
    }

    /// Flip the pause flag; nothing else changes.
    pub fn toggle_pause(&mut self)
        ensures
            *final(self) == old(self).spec_toggled(),
            old(self).wf() ==> final(self).wf(),
    {
        self.is_paused = !self.is_paused;
    }

    /// The loop's completion step: when the countdown has reached zero, move
    /// to a full phase of the opposite kind and hand back the notification
    /// text for the phase that just ended; otherwise leave the state alone.
    pub fn finish_phase(&mut self) -> (msg: Option<&'static str>)
        ensures
            msg is Some <==> old(self).remaining_seconds == 0,
            old(self).remaining_seconds != 0 ==> *final(self) == *old(self),
            old(self).remaining_seconds == 0 && old(self).phase is Work ==> *final(self)
                == TimerState::break_start() && (msg->0)@
                == "Work session completed! Time for a break."@,
            old(self).remaining_seconds == 0 && old(self).phase is Break ==> *final(self)
                == TimerState::work_start() && (msg->0)@ == "Break time over! Ready for work?"@,
            old(self).wf() ==> final(self).wf(),
    {
        if self.is_finished() {
            match self.phase {
                TimerPhase::Work => {
                    self.reset_to_break();
                    Some("Work session completed! Time for a break.")
                },
                TimerPhase::Break => {
                    self.reset_to_work();
                    Some("Break time over! Ready for work?")
                },
            }
        } else {
            None
        }
    }

    /// The loop's key step: `'q'`, or `'c'` with the control modifier, asks
    /// to quit; `'p'` pauses a running timer and `'r'` resumes a paused one;
    /// every other key is ignored.
    pub fn handle_key(&mut self, ch: char, ctrl: bool) -> (quit: bool)
        ensures
            quit == (ch == 'q' || (ch == 'c' && ctrl)),
            *final(self) == if (ch == 'p' && !old(self).is_paused) || (ch == 'r' && old(
                self,
            ).is_paused) {
                old(self).spec_toggled()
            } else {
                *old(self)
            },
            old(self).wf() ==> final(self).wf(),
    {
        match ch {
            'q' => true,
            'p' => {
                if !self.is_paused {
                    self.toggle_pause();
                }
                false
            },
            'r' => {
                if self.is_paused {
                    self.toggle_pause();
                }
                false
            },
            'c' => ctrl,
            _ => false,
        }
    }
}

impl Default for TimerState {
    /// A fresh timer: a full, running work phase with no recorded timestamp.
    fn default() -> (s: Self)
        ensures
            s == TimerState::initial(),
    {
        TimerState {
            phase: TimerPhase::Work,
            remaining_seconds: 25 * 60,
            is_paused: false,
            last_update: None,
        }
    }
}

/// The loop saves the state once at least this many seconds of loop time have
/// passed since the previous save.
pub fn save_due(seconds_since_save: u64) -> (r: bool)
    ensures
        r == (seconds_since_save >= SAVE_INTERVAL_SECS),
{
    seconds_since_save >= SAVE_INTERVAL_SECS
}

/// Law: flipping the pause flag twice returns any state to its original
/// value.
pub proof fn lemma_toggle_pause_involution(s: TimerState)
    ensures
        s.spec_toggled().spec_toggled() == s,
{
}

/// Relies on `std::time::SystemTime::now` and `duration_since` for the
/// current Unix time in seconds; reads before the epoch are reported as zero.
#[verifier::external_body]
fn now_seconds() -> u64 {
    match std::time::SystemTime::now().duration_since(std::time::UNIX_EPOCH) {
        Ok(d) => d.as_secs(),
        Err(_) => 0,
    }
}

/// The remaining time written as minutes and seconds, each zero-padded to at
/// least two digits, separated by a colon.
pub open spec fn spec_format_time(n: int) -> Seq<char> {
    spec_pad2(n / 60) + ":"@ + seq![digit_char((n % 60) / 10), digit_char(n % 60 % 10)]
}

/// A number padded with a leading zero to at least two digits.
pub open spec fn spec_pad2(m: int) -> Seq<char> {
    if m < 10 {
        seq!['0', digit_char(m)]
    } else {
        dec_chars(m as nat)
    }
}

} // verus!
