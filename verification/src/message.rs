//! The progress-event alphabet and the protocol a run must follow:
//! `Started` precedes every `Progress` and `FileDone`, and `Done` closes
//! the run after all of them.

use vstd::prelude::*;

verus! {

/// One event sent from the hash workers to the reporter sink.
#[derive(Debug)]
pub enum Message {
    /// The walk finished: total byte count and total file count are known.
    Started(u64, u64),
    /// One block of this many bytes was read and fed to a digest.
    Progress(usize),
    /// One file's digest is complete.
    FileDone,
    /// The whole run succeeded.
    Success,
    /// The whole run failed.
    Failure,
    /// No further events follow.
    Done,
}

/// Where a run stands in the protocol.
#[derive(Debug, Clone, Copy, PartialEq, Eq, Structural)]
pub enum Phase {
    /// No `Started` event seen yet.
    Idle,
    /// Between `Started` and `Done`.
    Running,
    /// After `Done`.
    Finished,
}

/// Which events the protocol admits in a given phase: `Started` only first,
/// `Done` only once after `Started`, everything else strictly in between.
pub open spec fn event_allowed(phase: Phase, m: Message) -> bool {
    match m {
        Message::Started(_, _) => phase == Phase::Idle,
        Message::Progress(_) => phase == Phase::Running,
        Message::FileDone => phase == Phase::Running,
        Message::Success => phase == Phase::Running,
        Message::Failure => phase == Phase::Running,
        Message::Done => phase == Phase::Running,
    }
}

/// Saturating sum, as the tracker's byte and file counters use it.
pub open spec fn sat_add(a: u64, b: u64) -> u64 {
    if a + b <= u64::MAX {
        (a + b) as u64
    } else {
        u64::MAX
    }
}

/// Consumes the event stream of one run and checks it against the protocol.
/// An out-of-order event is rejected and leaves the tracker unchanged.
#[derive(Debug, Clone, Copy, PartialEq, Eq, Structural)]
pub struct ProgressTracker {
    /// Protocol phase reached so far.
    pub phase: Phase,
    /// Total byte count announced by `Started`.
    pub total_size: u64,
    /// Total file count announced by `Started`.
    pub total_files: u64,
    /// Bytes reported through `Progress` events, saturating.
    pub bytes_seen: u64,
    /// Files reported through `FileDone` events, saturating.
    pub files_seen: u64,
}

/// The tracker after one event: unchanged if the event is out of order,
/// else phase and counters move as the event says.
pub open spec fn spec_step(t: ProgressTracker, m: Message) -> ProgressTracker {
    if !event_allowed(t.phase, m) {
        t
    } else {
        match m {
            Message::Started(ts, tf) => ProgressTracker {
                phase: Phase::Running,
                total_size: ts,
                total_files: tf,
                ..t
            },
            Message::Progress(n) => ProgressTracker { bytes_seen: sat_add(t.bytes_seen, n as u64), ..t },
            Message::FileDone => ProgressTracker { files_seen: sat_add(t.files_seen, 1), ..t },
            Message::Success => t,
            Message::Failure => t,
            Message::Done => ProgressTracker { phase: Phase::Finished, ..t },
        }
    }
}

impl ProgressTracker {
    /// A fresh tracker: nothing announced, nothing counted.
    pub fn new() -> (t: Self)
        ensures
            t == (ProgressTracker {
                phase: Phase::Idle,
                total_size: 0,
                total_files: 0,
                bytes_seen: 0,
                files_seen: 0,
            }),
    {
        ProgressTracker {
            phase: Phase::Idle,
            total_size: 0,
            total_files: 0,
            bytes_seen: 0,
            files_seen: 0,
        }
    }

    /// Feed one event. Returns whether the protocol admits it here; the
    /// tracker moves exactly as `spec_step` says.
    pub fn record(&mut self, m: &Message) -> (ok: bool)
        ensures
            ok == event_allowed(old(self).phase, *m),
            *final(self) == spec_step(*old(self), *m),
    {
        match m {
            Message::Started(ts, tf) => {
                if matches!(self.phase, Phase::Idle) {
                    self.phase = Phase::Running;
                    self.total_size = *ts;
                    self.total_files = *tf;
                    true
                } else {
                    false
                }
            },
            Message::Progress(n) => {
                if matches!(self.phase, Phase::Running) {
                    let nb: u64 = *n as u64;
                    if self.bytes_seen <= u64::MAX - nb {
                        self.bytes_seen = self.bytes_seen + nb;
                    } else {
                        self.bytes_seen = u64::MAX;
                    }
                    true
                } else {
                    false
                }
            },
            Message::FileDone => {
                if matches!(self.phase, Phase::Running) {
                    if self.files_seen <= u64::MAX - 1 {
                        self.files_seen = self.files_seen + 1;
                    } else {
                        self.files_seen = u64::MAX;
                    }
                    true
                } else {
                    false
                }
            },
            Message::Success => matches!(self.phase, Phase::Running),
            Message::Failure => matches!(self.phase, Phase::Running),
            Message::Done => {
                if matches!(self.phase, Phase::Running) {
                    self.phase = Phase::Finished;
                    true
                } else {
                    false
                }
            },
        }
    }
}

} // verus!
