//! The recovery orchestrator as a state machine.
//!
//! A recovery stops the running server, erases the world directory, extracts
//! a backup into its place and starts the server again, optionally bracketed
//! by two calls of a control-plane hook. The machine decides; its driver
//! performs each directed action and reports what came of it as an event.

use vstd::prelude::*;

verus! {

/// Seconds to wait after the stop hook and after a failed termination pass.
pub const KILL_PAUSE_SECS: u64 = 5;

/// Seconds to wait after a failed removal of the world directory.
pub const ERASE_PAUSE_SECS: u64 = 3;

/// Number of termination passes after which the machine moves on regardless.
pub const MAX_KILL_PASSES: u8 = 3;

/// Where a recovery stands. `Probing` and `Removing` together form the
/// erasing stage: the first awaits the answer whether the world directory
/// exists, the second the outcome of an attempt to remove it.
#[derive(Clone, Copy, Debug, PartialEq, Eq, Structural)]
pub enum Phase {
    Init,
    HookStop,
    Killing,
    Probing,
    Removing,
    Extracting,
    HookStart,
    Spawning,
    Done,
    Failed,
}

/// How one termination pass ended.
#[derive(Clone, Copy, Debug, PartialEq, Eq, Structural)]
pub enum KillOutcome {
    /// The processes were enumerated and every matching one was signalled.
    Completed,
    /// The enumeration itself could not be had: nothing was observed.
    ListingFailed,
    /// A matching process was observed, and signalling it failed.
    SignalFailed,
}

/// What the driver reports back to the machine.
#[derive(Clone, Copy, Debug, PartialEq, Eq, Structural)]
pub enum Event {
    /// The recovery begins.
    Started,
    /// The control-plane hook returned, whatever its status.
    HookReturned,
    /// A termination pass ended.
    KillPass(KillOutcome),
    /// The world directory was looked for; the flag says whether it exists.
    WorldProbed(bool),
    /// Removal of the world directory was attempted; the flag says whether
    /// it succeeded.
    RemoveAttempted(bool),
    /// The archiver exited; the flag says whether its status was zero.
    ArchiverExited(bool),
    /// The server was spawned; the flag says whether a handle was obtained.
    SpawnAttempted(bool),
}

/// What the driver is to do next.
#[derive(Clone, Copy, Debug, PartialEq, Eq, Structural)]
pub enum Action {
    CallStopHook,
    TerminateServer,
    ProbeWorld,
    RemoveWorld,
    Extract,
    CallStartHook,
    SpawnServer,
    Finish,
    Fail,
}

/// An action together with the pause that precedes it.
#[derive(Clone, Copy, Debug, PartialEq, Eq, Structural)]
pub struct Directive {
    pub wait_secs: u64,
    pub action: Action,
}

/// The state of one recovery.
#[derive(Clone, Copy, Debug, PartialEq, Eq, Structural)]
pub struct Recovery {
    /// The current stage.
    pub phase: Phase,
    /// Whether a control URL is configured.
    pub hook: bool,
    /// Whether a bearer token is configured.
    pub token: bool,
    /// Termination passes that have failed so far.
    pub failed_passes: u8,
}

/// A directive without a pause.
pub open spec fn at_once(action: Action) -> Directive {
    Directive { wait_secs: 0, action }
}

/// A directive after a pause.
pub open spec fn after(wait_secs: u64, action: Action) -> Directive {
    Directive { wait_secs, action }
}

impl Recovery {
    /// The state before anything has happened.
    pub open spec fn initial(hook: bool, token: bool) -> Recovery {
        Recovery { phase: Phase::Init, hook, token, failed_passes: 0 }
    }

    /// This state moved to another stage.
    pub open spec fn moved(self, phase: Phase) -> Recovery {
        Recovery { phase, ..self }
    }

    /// Whether the recovery has ended, in success or failure.
    pub open spec fn terminal(self) -> bool {
        self.phase == Phase::Done || self.phase == Phase::Failed
    }

    /// The transition relation: the state and directive that follow `event`,
    /// or `None` where the current stage does not await such an event.
    pub open spec fn transition(self, event: Event) -> Option<(Recovery, Directive)> {
        match (self.phase, event) {
            (Phase::Init, Event::Started) => if self.hook {
                Some((self.moved(Phase::HookStop), at_once(Action::CallStopHook)))
            } else {
                Some((self.moved(Phase::Killing), at_once(Action::TerminateServer)))
            },
            (Phase::HookStop, Event::HookReturned) => Some(
                (self.moved(Phase::Killing), after(KILL_PAUSE_SECS, Action::TerminateServer)),
            ),
            (Phase::Killing, Event::KillPass(outcome)) => if outcome == KillOutcome::Completed {
                Some((self.moved(Phase::Probing), at_once(Action::ProbeWorld)))
            } else if self.failed_passes + 1 >= MAX_KILL_PASSES {
                Some(
                    (
                        Recovery { phase: Phase::Probing, failed_passes: MAX_KILL_PASSES, ..self },
                        after(KILL_PAUSE_SECS, Action::ProbeWorld),
                    ),
                )
            } else {
                Some(
                    (
                        Recovery { failed_passes: (self.failed_passes + 1) as u8, ..self },
                        after(KILL_PAUSE_SECS, Action::TerminateServer),
                    ),
                )
            },
            (Phase::Probing, Event::WorldProbed(exists)) => if exists {
                Some((self.moved(Phase::Removing), at_once(Action::RemoveWorld)))
            } else {
                Some((self.moved(Phase::Extracting), at_once(Action::Extract)))
            },
            (Phase::Removing, Event::RemoveAttempted(removed)) => if removed {
                Some((self.moved(Phase::Extracting), at_once(Action::Extract)))
            } else {
                Some((self.moved(Phase::Probing), after(ERASE_PAUSE_SECS, Action::ProbeWorld)))
            },
            (Phase::Extracting, Event::ArchiverExited(success)) => if !success {
                Some((self.moved(Phase::Failed), at_once(Action::Fail)))
            } else if self.hook {
                Some((self.moved(Phase::HookStart), at_once(Action::CallStartHook)))
            } else {
                Some((self.moved(Phase::Spawning), at_once(Action::SpawnServer)))
            },
            (Phase::HookStart, Event::HookReturned) => if self.token {
                Some((self.moved(Phase::Done), at_once(Action::Finish)))
            } else {
                Some((self.moved(Phase::Spawning), at_once(Action::SpawnServer)))
            },
            (Phase::Spawning, Event::SpawnAttempted(started)) => if started {
                Some((self.moved(Phase::Done), at_once(Action::Finish)))
            } else {
                Some((self.moved(Phase::Failed), at_once(Action::Fail)))
            },
            _ => None,
        }
    }

    /// A fresh recovery. `hook` says whether a control URL is configured,
    /// `token` whether a bearer token is.
    pub fn new(hook: bool, token: bool) -> (r: Recovery)
        ensures
            r == Recovery::initial(hook, token),
    {
        Recovery { phase: Phase::Init, hook, token, failed_passes: 0 }
    }

    /// Whether the recovery has ended.
    pub fn is_terminal(&self) -> (b: bool)
        ensures
            b == self.terminal(),
    {
        self.phase == Phase::Done || self.phase == Phase::Failed
    }

    /// Takes one event. Where the current stage awaits it, the machine moves
    /// as the transition relation says and returns the directive; otherwise
    /// it stays as it is and returns `None`.
    pub fn step(&mut self, event: Event) -> (r: Option<Directive>)
        ensures
            match old(self).transition(event) {
                Some((next, directive)) => r == Some(directive) && *final(self) == next,
                None => r.is_none() && *final(self) == *old(self),
            },
    {
        match (self.phase, event) {
            (Phase::Init, Event::Started) => {
                if self.hook {
                    self.phase = Phase::HookStop;
                    Some(Directive { wait_secs: 0, action: Action::CallStopHook })
                } else {
                    self.phase = Phase::Killing;
                    Some(Directive { wait_secs: 0, action: Action::TerminateServer })
                }
            },
            (Phase::HookStop, Event::HookReturned) => {
                self.phase = Phase::Killing;
                Some(Directive { wait_secs: KILL_PAUSE_SECS, action: Action::TerminateServer })
            },
            (Phase::Killing, Event::KillPass(outcome)) => {
                if outcome == KillOutcome::Completed {
                    self.phase = Phase::Probing;
                    Some(Directive { wait_secs: 0, action: Action::ProbeWorld })
                } else if self.failed_passes >= MAX_KILL_PASSES - 1 {
                    self.phase = Phase::Probing;
                    self.failed_passes = MAX_KILL_PASSES;
                    Some(Directive { wait_secs: KILL_PAUSE_SECS, action: Action::ProbeWorld })
                } else {
                    self.failed_passes = self.failed_passes + 1;
                    Some(Directive { wait_secs: KILL_PAUSE_SECS, action: Action::TerminateServer })
                }
            },
            (Phase::Probing, Event::WorldProbed(exists)) => {
                if exists {
                    self.phase = Phase::Removing;
                    Some(Directive { wait_secs: 0, action: Action::RemoveWorld })
                } else {
                    self.phase = Phase::Extracting;
                    Some(Directive { wait_secs: 0, action: Action::Extract })
                }
            },
            (Phase::Removing, Event::RemoveAttempted(removed)) => {
                if removed {
                    self.phase = Phase::Extracting;
                    Some(Directive { wait_secs: 0, action: Action::Extract })
                } else {
                    self.phase = Phase::Probing;
                    Some(Directive { wait_secs: ERASE_PAUSE_SECS, action: Action::ProbeWorld })
                }
            },
            (Phase::Extracting, Event::ArchiverExited(success)) => {
                if !success {
                    self.phase = Phase::Failed;
                    Some(Directive { wait_secs: 0, action: Action::Fail })
                } else if self.hook {
                    self.phase = Phase::HookStart;
                    Some(Directive { wait_secs: 0, action: Action::CallStartHook })
                } else {
                    self.phase = Phase::Spawning;
                    Some(Directive { wait_secs: 0, action: Action::SpawnServer })
                }
            },
            (Phase::HookStart, Event::HookReturned) => {
                if self.token {
                    self.phase = Phase::Done;
                    Some(Directive { wait_secs: 0, action: Action::Finish })
                } else {
                    self.phase = Phase::Spawning;
                    Some(Directive { wait_secs: 0, action: Action::SpawnServer })
                }
            },
            (Phase::Spawning, Event::SpawnAttempted(started)) => {
                if started {
                    self.phase = Phase::Done;
                    Some(Directive { wait_secs: 0, action: Action::Finish })
                } else {
                    self.phase = Phase::Failed;
                    Some(Directive { wait_secs: 0, action: Action::Fail })
                }
            },
            _ => None,
        }
    }
}

} // verus!
