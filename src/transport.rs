use vstd::prelude::*;

verus! {

/// The commands that the playback loop takes while it runs.
#[derive(Debug, Clone, Copy, PartialEq, Eq, Structural)]
pub enum PlaybackControl {
    /// Pause, or unpause, the stream.
    Pause,
    /// Shut the stream down.
    Stop,
    /// Move the cursor to a global sample index.
    Seek(usize),
}

/// Whether the playback loop runs, and whether it produces windows.
#[derive(Debug, Clone, Copy, PartialEq, Eq, Structural)]
pub enum TransportState {
    Idle,
    Playing,
    Paused,
}

/// What the playback loop is to do after a step.
#[derive(Debug, Clone, Copy, PartialEq, Eq, Structural)]
pub enum TransportAction {
    /// Nothing to do.
    Nothing,
    /// Mix the global range `[start, end)` and hand it to the sink.
    Mix { start: usize, end: usize },
    /// Leave the loop.
    Halt,
}

/// The playback transport: its state, the global sample index of the next window, and the
/// number of interleaved samples in one window.
#[derive(Debug, Clone, Copy, PartialEq, Eq, Structural)]
pub struct Transport {
    pub state: TransportState,
    pub cursor: usize,
    pub window: usize,
}

/// The window that starts at `cursor`: `window` samples long, cut short at `usize::MAX`.
pub open spec fn window_end(cursor: usize, window: usize) -> usize {
    if cursor + window <= usize::MAX {
        (cursor + window) as usize
    } else {
        usize::MAX
    }
}

/// The transport and action after the loop produces the window at the cursor.
pub open spec fn spec_advance(t: Transport) -> (Transport, TransportAction) {
    let end = window_end(t.cursor, t.window);
    (Transport { cursor: end, ..t }, TransportAction::Mix { start: t.cursor, end })
}

/// The transport and action after `Play`.
pub open spec fn spec_play(t: Transport) -> (Transport, TransportAction) {
    match t.state {
        TransportState::Idle => spec_advance(Transport { state: TransportState::Playing, ..t }),
        _ => (t, TransportAction::Nothing),
    }
}

/// The transport and action after a command.
pub open spec fn spec_command(t: Transport, c: PlaybackControl) -> (Transport, TransportAction) {
    match c {
        PlaybackControl::Pause => match t.state {
            TransportState::Playing => (Transport { state: TransportState::Paused, ..t }, TransportAction::Nothing),
            TransportState::Paused => (Transport { state: TransportState::Playing, ..t }, TransportAction::Nothing),
            TransportState::Idle => (t, TransportAction::Nothing),
        },
        PlaybackControl::Stop => match t.state {
            TransportState::Idle => (t, TransportAction::Nothing),
            _ => (Transport { state: TransportState::Idle, cursor: 0, ..t }, TransportAction::Halt),
        },
        PlaybackControl::Seek(i) => (Transport { cursor: i, ..t }, TransportAction::Nothing),
    }
}

/// The transport and action when the loop's timer fires.
pub open spec fn spec_tick(t: Transport) -> (Transport, TransportAction) {
    match t.state {
        TransportState::Playing => spec_advance(t),
        _ => (t, TransportAction::Nothing),
    }
}

impl Transport {
    /// An idle transport at the start of the timeline.
    pub fn new(window: usize) -> (r: Self)
        ensures
            r == (Transport { state: TransportState::Idle, cursor: 0, window }),
    {
        Transport { state: TransportState::Idle, cursor: 0, window }
    }

    fn advance(&mut self) -> (r: TransportAction)
        ensures
            (*final(self), r) == spec_advance(*old(self)),
    {
        let start = self.cursor;
        let end = if self.window <= usize::MAX - start {
            start + self.window
        } else {
            usize::MAX
        };
        self.cursor = end;
        TransportAction::Mix { start, end }
    }

    /// Starts playback from the cursor (the start, or where the last seek put it), producing
    /// the first window at once. A running transport ignores it.
    pub fn play(&mut self) -> (r: TransportAction)
        ensures
            (*final(self), r) == spec_play(*old(self)),
    {
        match self.state {
            TransportState::Idle => {
                self.state = TransportState::Playing;
                self.advance()
            },
            _ => TransportAction::Nothing,
        }
    }

    /// Applies a command from the transport controls.
    pub fn command(&mut self, control: PlaybackControl) -> (r: TransportAction)
        ensures
            (*final(self), r) == spec_command(*old(self), control),
    {
        match control {
            PlaybackControl::Pause => {
                match self.state {
                    TransportState::Playing => {
                        self.state = TransportState::Paused;
                    },
                    TransportState::Paused => {
                        self.state = TransportState::Playing;
                    },
                    TransportState::Idle => {},
                }
                TransportAction::Nothing
            },
            PlaybackControl::Stop => match self.state {
                TransportState::Idle => TransportAction::Nothing,
                _ => {
                    self.state = TransportState::Idle;
                    self.cursor = 0;
                    TransportAction::Halt
                },
            },
            PlaybackControl::Seek(i) => {
                self.cursor = i;
                TransportAction::Nothing
            },
        }
    }

    /// The loop's timer fired: while playing, produce the next window.
    pub fn tick(&mut self) -> (r: TransportAction)
        ensures
            (*final(self), r) == spec_tick(*old(self)),
    {
        match self.state {
            TransportState::Playing => self.advance(),
            _ => TransportAction::Nothing,
        }
    }
}

/// Consecutive windows of a playing transport meet end to end: each starts where the one
/// before it ended.
pub proof fn lemma_ticks_are_contiguous(t: Transport)
    requires
        t.state == TransportState::Playing,
    ensures
        ({
            let (t1, a1) = spec_tick(t);
            let (t2, a2) = spec_tick(t1);
            a1 matches TransportAction::Mix { start: s1, end: e1 } && a2 matches TransportAction::Mix {
                start: s2,
                end: e2,
            } && s1 == t.cursor && e1 == s2 && s1 <= e1 && s2 <= e2
        }),
{
}

/// Times of a playback, in milliseconds of one monotonic clock, for showing how far it got.
#[derive(Debug, Clone, Copy, PartialEq, Eq, Structural)]
pub struct PlaybackTimer {
    /// When the playback started.
    pub playback_started: u64,
    /// When the current pause started, if paused.
    pub pause_started: Option<u64>,
    /// The sum of the pauses that have ended.
    pub paused_time: u64,
}

/// `a - b`, or zero where `b` is larger.
pub open spec fn sat_sub(a: int, b: int) -> int {
    if a >= b {
        a - b
    } else {
        0
    }
}

impl PlaybackTimer {
    /// A timer of a playback that starts at `now`.
    pub fn new(now: u64) -> (r: Self)
        ensures
            r == (PlaybackTimer { playback_started: now, pause_started: None, paused_time: 0 }),
    {
        PlaybackTimer { playback_started: now, pause_started: None, paused_time: 0 }
    }

    /// Notes that a pause starts at `now`; a timer already paused keeps its pause.
    pub fn pause(&mut self, now: u64)
        ensures
            final(self).playback_started == old(self).playback_started,
            final(self).paused_time == old(self).paused_time,
            final(self).pause_started == match old(self).pause_started {
                Some(p) => Some(p),
                None => Some(now),
            },
    {
        if self.pause_started.is_none() {
            self.pause_started = Some(now);
        }
    }

    /// Notes that the pause ends at `now`, adding its length to the paused time (saturating).
    pub fn unpause(&mut self, now: u64)
        ensures
            final(self).playback_started == old(self).playback_started,
            final(self).pause_started is None,
            final(self).paused_time == match old(self).pause_started {
                Some(p) => if old(self).paused_time + sat_sub(now as int, p as int) <= u64::MAX {
                    (old(self).paused_time + sat_sub(now as int, p as int)) as u64
                } else {
                    u64::MAX
                },
                None => old(self).paused_time,
            },
    {
        if let Some(p) = self.pause_started {
            let length = if now >= p {
                now - p
            } else {
                0
            };
            self.paused_time = if length <= u64::MAX - self.paused_time {
                self.paused_time + length
            } else {
                u64::MAX
            };
        }
        self.pause_started = None;
    }

    /// Time spent playing up to `now`: time since the start less every pause, the current one
    /// included; zero where the pauses add up to more.
    pub fn elapsed(&self, now: u64) -> (r: u64)
        ensures
            r == sat_sub(
                sat_sub(now as int, self.playback_started as int) - self.paused_time,
                match self.pause_started {
                    Some(p) => sat_sub(now as int, p as int),
                    None => 0,
                },
            ),
    {
        let since_start = if now >= self.playback_started {
            now - self.playback_started
        } else {
            0
        };
        let current_pause = match self.pause_started {
            Some(p) => if now >= p {
                now - p
            } else {
                0
            },
            None => 0,
        };
        let played = if since_start >= self.paused_time {
            since_start - self.paused_time
        } else {
            0
        };
        if played >= current_pause {
            played - current_pause
        } else {
            0
        }
    }
}

/// The playback cursor shown over the grid, as a global sample index.
#[derive(Debug, Clone, Copy, PartialEq, Eq, Structural)]
pub struct PlaybackLine {
    pub pos: u64,
}

} // verus!
