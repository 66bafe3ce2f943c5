use vstd::prelude::*;

verus! {

/// Kind of countdown session the timer runs.
#[derive(Debug, Clone, Copy, PartialEq, Eq, Structural)]
pub enum SessionType {
    Work,
    ShortBreak,
    LongBreak,
}

#[derive(Debug, Clone, Copy, PartialEq, Eq, Structural)]
pub enum TimerState {
    Idle,
    Running,
    Paused,
}

pub const WORK_MS: u64 = 25 * 60 * 1000;
pub const SHORT_BREAK_MS: u64 = 5 * 60 * 1000;
pub const LONG_BREAK_MS: u64 = 15 * 60 * 1000;
pub const MINUTE_MS: u64 = 60 * 1000;

/// Work/break countdown with configurable durations.
///
/// The timer itself never reads a clock: the caller measures elapsed wall
/// time and hands it to [`Timer::tick`] in milliseconds.
#[derive(Debug, Clone)]
pub struct Timer {
    pub state: TimerState,
    pub session_type: SessionType,
    /// Time left in the session, in milliseconds.
    pub remaining_ms: u64,
    /// Completed work sessions.
    pub sessions_completed: u32,
    pub work_ms: u64,
    pub short_break_ms: u64,
    pub long_break_ms: u64,
}

impl Timer {
    /// Configured duration of a session of the given kind.
    pub open spec fn spec_duration_ms(self, session: SessionType) -> u64 {
        match session {
            SessionType::Work => self.work_ms,
            SessionType::ShortBreak => self.short_break_ms,
            SessionType::LongBreak => self.long_break_ms,
        }
    }

    /// The session kind that follows `session` once it completes, given the
    /// new count of completed work sessions.
    pub open spec fn spec_next_session(session: SessionType, completed: u32) -> SessionType {
        match session {
            SessionType::Work => if completed % 4 == 0 {
                SessionType::LongBreak
            } else {
                SessionType::ShortBreak
            },
            SessionType::ShortBreak => SessionType::Work,
            SessionType::LongBreak => SessionType::Work,
        }
    }
}

impl Default for Timer {
    fn default() -> (t: Timer)
        ensures
            t.state == TimerState::Idle,
            t.session_type == SessionType::Work,
            t.remaining_ms == WORK_MS,
            t.sessions_completed == 0,
            t.work_ms == WORK_MS,
            t.short_break_ms == SHORT_BREAK_MS,
            t.long_break_ms == LONG_BREAK_MS,
    {
        Timer {
            state: TimerState::Idle,
            session_type: SessionType::Work,
            remaining_ms: WORK_MS,
            sessions_completed: 0,
            work_ms: WORK_MS,
            short_break_ms: SHORT_BREAK_MS,
            long_break_ms: LONG_BREAK_MS,
        }
    }
}

impl Timer {
    pub fn session_type(&self) -> (s: SessionType)
        ensures
            s == self.session_type,
    {
        self.session_type
    }

    pub fn is_idle(&self) -> (b: bool)
        ensures
            b == (self.state == TimerState::Idle),
    {
        self.state == TimerState::Idle
    }

    pub fn is_running(&self) -> (b: bool)
        ensures
            b == (self.state == TimerState::Running),
    {
        self.state == TimerState::Running
    }

    pub fn start(&mut self)
        ensures
            final(self).state == TimerState::Running,
            *final(self) == (Timer { state: TimerState::Running, ..*old(self) }),
    {
        if self.state != TimerState::Running {
            self.state = TimerState::Running;
        }
    }

    pub fn pause(&mut self)
        ensures
            old(self).state == TimerState::Running ==> *final(self) == (Timer {
                state: TimerState::Paused,
                ..*old(self)
            }),
            old(self).state != TimerState::Running ==> *final(self) == *old(self),
    {
        if self.state == TimerState::Running {
            self.state = TimerState::Paused;
        }
    }

    /// Start when idle or paused, pause when running.
    pub fn toggle(&mut self)
        ensures
            old(self).state == TimerState::Running ==> *final(self) == (Timer {
                state: TimerState::Paused,
                ..*old(self)
            }),
            old(self).state != TimerState::Running ==> *final(self) == (Timer {
                state: TimerState::Running,
                ..*old(self)
            }),
    {
        match self.state {
            TimerState::Idle | TimerState::Paused => self.start(),
            TimerState::Running => self.pause(),
        }
    }

    /// Stop the countdown and restore the full duration of the selected session.
    pub fn reset(&mut self)
        ensures
            *final(self) == (Timer {
                state: TimerState::Idle,
                remaining_ms: old(self).spec_duration_ms(old(self).session_type),
                ..*old(self)
            }),
    {
        self.state = TimerState::Idle;
        self.remaining_ms = self.duration_for_session(self.session_type);
    }

    /// Select a session kind; only allowed while idle.
    pub fn set_session_type(&mut self, session_type: SessionType)
        ensures
            old(self).state == TimerState::Idle ==> *final(self) == (Timer {
                session_type: session_type,
                remaining_ms: old(self).spec_duration_ms(session_type),
                ..*old(self)
            }),
            old(self).state != TimerState::Idle ==> *final(self) == *old(self),
    {
        if self.state == TimerState::Idle {
            self.session_type = session_type;
            self.remaining_ms = self.duration_for_session(session_type);
        }
    }

    /// Cycle to the next session kind (work, short break, long break, work);
    /// only allowed while idle.
    pub fn cycle_session_type(&mut self)
        ensures
            old(self).state != TimerState::Idle ==> *final(self) == *old(self),
            old(self).state == TimerState::Idle ==> {
                let next = match old(self).session_type {
                    SessionType::Work => SessionType::ShortBreak,
                    SessionType::ShortBreak => SessionType::LongBreak,
                    SessionType::LongBreak => SessionType::Work,
                };
                *final(self) == (Timer {
                    session_type: next,
                    remaining_ms: old(self).spec_duration_ms(next),
                    ..*old(self)
                })
            },
    {
        if self.state == TimerState::Idle {
            let next = match self.session_type {
                SessionType::Work => SessionType::ShortBreak,
                SessionType::ShortBreak => SessionType::LongBreak,
                SessionType::LongBreak => SessionType::Work,
            };
            self.session_type = next;
            self.remaining_ms = self.duration_for_session(next);
        }
    }

    /// Add one minute to the remaining time; only allowed while idle.
    pub fn add_minute(&mut self)
        ensures
            old(self).state == TimerState::Idle && old(self).remaining_ms + MINUTE_MS
                <= u64::MAX ==> *final(self) == (Timer {
                remaining_ms: (old(self).remaining_ms + MINUTE_MS) as u64,
                ..*old(self)
            }),
            !(old(self).state == TimerState::Idle && old(self).remaining_ms + MINUTE_MS
                <= u64::MAX) ==> *final(self) == *old(self),
    {
        if self.state == TimerState::Idle && self.remaining_ms <= u64::MAX - MINUTE_MS {
            self.remaining_ms = self.remaining_ms + MINUTE_MS;
        }
    }

    /// Subtract one minute from the remaining time, never going below one
    /// minute; only allowed while idle.
    pub fn subtract_minute(&mut self)
        ensures
            old(self).state == TimerState::Idle && old(self).remaining_ms > MINUTE_MS
                ==> *final(self) == (Timer {
                remaining_ms: (old(self).remaining_ms - MINUTE_MS) as u64,
                ..*old(self)
            }),
            !(old(self).state == TimerState::Idle && old(self).remaining_ms > MINUTE_MS)
                ==> *final(self) == *old(self),
    {
        if self.state == TimerState::Idle && self.remaining_ms > MINUTE_MS {
            self.remaining_ms = self.remaining_ms - MINUTE_MS;
        }
    }

    /// Count down by `elapsed_ms` of wall time; returns true exactly when the
    /// session completed on this tick.  A completed session transitions to the
    /// next session kind and leaves the timer idle.
    pub fn tick(&mut self, elapsed_ms: u64) -> (completed: bool)
        ensures
            old(self).state != TimerState::Running ==> !completed && *final(self) == *old(self),
            old(self).state == TimerState::Running && elapsed_ms < old(self).remaining_ms
                ==> !completed && *final(self) == (Timer {
                remaining_ms: (old(self).remaining_ms - elapsed_ms) as u64,
                ..*old(self)
            }),
            old(self).state == TimerState::Running && elapsed_ms >= old(self).remaining_ms
                ==> {
                let done = if old(self).sessions_completed < u32::MAX
                    && old(self).session_type == SessionType::Work {
                    (old(self).sessions_completed + 1) as u32
                } else {
                    old(self).sessions_completed
                };
                let next = Timer::spec_next_session(old(self).session_type, done);
                completed && *final(self) == (Timer {
                    state: TimerState::Idle,
                    session_type: next,
                    remaining_ms: old(self).spec_duration_ms(next),
                    sessions_completed: done,
                    ..*old(self)
                })
            },
    {
        if self.state != TimerState::Running {
            return false;
        }
        if elapsed_ms >= self.remaining_ms {
            self.remaining_ms = 0;
            self.complete_session();
            true
        } else {
            self.remaining_ms = self.remaining_ms - elapsed_ms;
            false
        }
    }

    /// Record the finished session and line up the next one.
    fn complete_session(&mut self)
        ensures
            ({
                let done = if old(self).sessions_completed < u32::MAX
                    && old(self).session_type == SessionType::Work {
                    (old(self).sessions_completed + 1) as u32
                } else {
                    old(self).sessions_completed
                };
                let next = Timer::spec_next_session(old(self).session_type, done);
                *final(self) == (Timer {
                    state: TimerState::Idle,
                    session_type: next,
                    remaining_ms: old(self).spec_duration_ms(next),
                    sessions_completed: done,
                    ..*old(self)
                })
            }),
    {
        match self.session_type {
            SessionType::Work => {
                if self.sessions_completed < u32::MAX {
                    self.sessions_completed = self.sessions_completed + 1;
                }
                if self.sessions_completed % 4 == 0 {
                    self.session_type = SessionType::LongBreak;
                } else {
                    self.session_type = SessionType::ShortBreak;
                }
            },
            SessionType::ShortBreak | SessionType::LongBreak => {
                self.session_type = SessionType::Work;
            },
        }
        self.remaining_ms = self.duration_for_session(self.session_type);
        self.state = TimerState::Idle;
    }

    fn duration_for_session(&self, session: SessionType) -> (d: u64)
        ensures
            d == self.spec_duration_ms(session),
    {
        match session {
            SessionType::Work => self.work_ms,
            SessionType::ShortBreak => self.short_break_ms,
            SessionType::LongBreak => self.long_break_ms,
        }
    }

    /// Whole minutes left on the display.
    pub fn minutes(&self) -> (m: u64)
        ensures
            m == self.remaining_ms / MINUTE_MS,
    {
        proof {
            vstd::arithmetic::div_mod::lemma_div_denominator(self.remaining_ms as int, 1000, 60);
        }
        (self.remaining_ms / 1000) / 60
    }

    /// Seconds shown next to the minutes.
    pub fn seconds(&self) -> (s: u64)
        ensures
            s == (self.remaining_ms / 1000) % 60,
    {
        (self.remaining_ms / 1000) % 60
    }
}

} // verus!
