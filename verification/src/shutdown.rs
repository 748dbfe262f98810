//! The shutdown coordinator: from a termination signal to process exit in a
//! fixed order and within a bounded time.

use vstd::prelude::*;

verus! {

/// The raw number of the interrupt signal, as
/// `tokio::signal::unix::SignalKind::interrupt` gives it: the platform's
/// `SIGINT`, which is 2.
#[verifier::external_body]
fn interrupt_signal() -> (r: i32)
    ensures
        r == 2,
{
    tokio::signal::unix::SignalKind::interrupt().as_raw_value()
}

/// The raw number of the terminate signal, as
/// `tokio::signal::unix::SignalKind::terminate` gives it: the platform's
/// `SIGTERM`, which is 15.
#[verifier::external_body]
fn terminate_signal() -> (r: i32)
    ensures
        r == 15,
{
    tokio::signal::unix::SignalKind::terminate().as_raw_value()
}

/// The raw number of the quit signal, as
/// `tokio::signal::unix::SignalKind::quit` gives it: the platform's
/// `SIGQUIT`, which is 3.
#[verifier::external_body]
fn quit_signal() -> (r: i32)
    ensures
        r == 3,
{
    tokio::signal::unix::SignalKind::quit().as_raw_value()
}

/// Why the process was asked to stop.
#[derive(Clone, Copy, Debug, PartialEq, Eq, Structural)]
pub enum StopReason {
    Interrupt,
    Terminate,
    Quit,
}

impl StopReason {
    /// The stop reason that a raw signal number names, if any.
    pub open spec fn of_signal(sig: i32) -> Option<StopReason> {
        if sig == 2 {
            Some(StopReason::Interrupt)
        } else if sig == 15 {
            Some(StopReason::Terminate)
        } else if sig == 3 {
            Some(StopReason::Quit)
        } else {
            None
        }
    }

    /// Only a terminate request lets busy slots finish their jobs.
    pub open spec fn graceful_spec(self) -> bool {
        self == StopReason::Terminate
    }

    pub fn from_signal(sig: i32) -> (r: Option<StopReason>)
        ensures
            r == Self::of_signal(sig),
    {
        if sig == interrupt_signal() {
            Some(StopReason::Interrupt)
        } else if sig == terminate_signal() {
            Some(StopReason::Terminate)
        } else if sig == quit_signal() {
            Some(StopReason::Quit)
        } else {
            None
        }
    }

    pub fn is_graceful(self) -> (r: bool)
        ensures
            r == self.graceful_spec(),
    {
        match self {
            StopReason::Terminate => true,
            _ => false,
        }
    }
}

/// Whether the signal with this raw number asks for a graceful shutdown. A
/// number that names no stop reason asks for a forceful one.
pub open spec fn signal_graceful(sig: i32) -> bool {
    sig == 15
}

pub fn signal_is_graceful(sig: i32) -> (r: bool)
    ensures
        r == signal_graceful(sig),
{
    match StopReason::from_signal(sig) {
        Some(reason) => reason.is_graceful(),
        None => false,
    }
}

/// Where the coordinator stands.
#[derive(Clone, Copy, Debug, PartialEq, Eq, Structural)]
pub enum ShutdownPhase {
    Running,
    StoppingAcceptance,
    DrainingDeltaGenerator,
    DrainingJobExecutor,
    Terminating,
}

/// How the step that a phase waits on came to its end. None of them holds
/// the coordinator back: a failure is for the log.
#[derive(Clone, Copy, Debug, PartialEq, Eq, Structural)]
pub enum StepOutcome {
    Completed,
    Failed,
    TimedOut,
}

/// What the surrounding program is to do on entering a phase.
#[derive(Clone, Copy, Debug, PartialEq, Eq, Structural)]
pub enum ShutdownCommand {
    /// Stop taking new external work.
    StopAcceptance,
    /// Ask the delta generator to stop and await its drain.
    StopDeltaGenerator,
    /// Ask the job executor to stop and await its drain.
    StopJobExecutor,
    /// Wait for the quiescence interval, then end the process.
    Terminate,
}

/// A command together with the longest time the program may wait for it.
#[derive(Clone, Copy, Debug, PartialEq, Eq, Structural)]
pub struct ShutdownAction {
    pub command: ShutdownCommand,
    pub graceful: bool,
    pub wait_millis: u32,
}

impl ShutdownPhase {
    /// The phase that follows; `Terminating` is the last.
    pub open spec fn successor(self) -> ShutdownPhase {
        match self {
            ShutdownPhase::Running => ShutdownPhase::StoppingAcceptance,
            ShutdownPhase::StoppingAcceptance => ShutdownPhase::DrainingDeltaGenerator,
            ShutdownPhase::DrainingDeltaGenerator => ShutdownPhase::DrainingJobExecutor,
            ShutdownPhase::DrainingJobExecutor => ShutdownPhase::Terminating,
            ShutdownPhase::Terminating => ShutdownPhase::Terminating,
        }
    }

    /// The number of steps from this phase to `Terminating`.
    pub open spec fn steps_left(self) -> nat {
        match self {
            ShutdownPhase::Running => 4,
            ShutdownPhase::StoppingAcceptance => 3,
            ShutdownPhase::DrainingDeltaGenerator => 2,
            ShutdownPhase::DrainingJobExecutor => 1,
            ShutdownPhase::Terminating => 0,
        }
    }

    /// The command given on entering this phase. `Running` is never entered.
    pub open spec fn command(self) -> ShutdownCommand {
        match self {
            ShutdownPhase::Running => ShutdownCommand::StopAcceptance,
            ShutdownPhase::StoppingAcceptance => ShutdownCommand::StopAcceptance,
            ShutdownPhase::DrainingDeltaGenerator => ShutdownCommand::StopDeltaGenerator,
            ShutdownPhase::DrainingJobExecutor => ShutdownCommand::StopJobExecutor,
            ShutdownPhase::Terminating => ShutdownCommand::Terminate,
        }
    }

    /// The longest wait in this phase: the quiescence interval before the
    /// exit; before that the drain bound if the shutdown is graceful, and
    /// nothing if it is forceful.
    pub open spec fn wait(self, graceful: bool, drain_millis: u32, quiescence_millis: u32) -> u32 {
        match self {
            ShutdownPhase::Running => 0,
            ShutdownPhase::Terminating => quiescence_millis,
            _ => if graceful {
                drain_millis
            } else {
                0
            },
        }
    }

    /// The sum of the waits of this phase and of all that follow it.
    pub open spec fn time_left(
        self,
        graceful: bool,
        drain_millis: u32,
        quiescence_millis: u32,
    ) -> int
        decreases self.steps_left(),
    {
        if self == ShutdownPhase::Terminating {
            quiescence_millis as int
        } else {
            self.wait(graceful, drain_millis, quiescence_millis) + self.successor().time_left(
                graceful,
                drain_millis,
                quiescence_millis,
            )
        }
    }
}

/// The longest time a shutdown may take from the signal to the exit: the
/// quiescence interval, and for a graceful one three drain bounds before it.
pub open spec fn shutdown_bound(graceful: bool, drain_millis: u32, quiescence_millis: u32) -> int {
    if graceful {
        3 * drain_millis + quiescence_millis
    } else {
        quiescence_millis as int
    }
}

/// The state machine that takes the process from a termination signal to
/// its exit.
#[derive(Clone, Copy, Debug, PartialEq, Eq)]
pub struct ShutdownCoordinator {
    phase: ShutdownPhase,
    graceful: bool,
    drain_millis: u32,
    quiescence_millis: u32,
}

impl ShutdownCoordinator {
    pub closed spec fn phase_spec(&self) -> ShutdownPhase {
        self.phase
    }

    pub closed spec fn graceful_spec(&self) -> bool {
        self.graceful
    }

    pub closed spec fn drain_spec(&self) -> u32 {
        self.drain_millis
    }

    pub closed spec fn quiescence_spec(&self) -> u32 {
        self.quiescence_millis
    }

    /// The action given on entering `phase` in this shutdown.
    pub open spec fn action_for(&self, phase: ShutdownPhase, graceful: bool) -> ShutdownAction {
        ShutdownAction {
            command: phase.command(),
            graceful,
            wait_millis: phase.wait(graceful, self.drain_spec(), self.quiescence_spec()),
        }
    }

    /// A coordinator of a running process. `drain_millis` bounds each drain
    /// of a graceful shutdown, `quiescence_millis` is the fixed wait before
    /// the exit.
    pub fn new(drain_millis: u32, quiescence_millis: u32) -> (r: Self)
        ensures
            r.phase_spec() == ShutdownPhase::Running,
            !r.graceful_spec(),
            r.drain_spec() == drain_millis,
            r.quiescence_spec() == quiescence_millis,
    {
        ShutdownCoordinator {
            phase: ShutdownPhase::Running,
            graceful: false,
            drain_millis,
            quiescence_millis,
        }
    }

    pub fn phase(&self) -> (r: ShutdownPhase)
        ensures
            r == self.phase_spec(),
    {
        self.phase
    }

    pub fn is_graceful(&self) -> (r: bool)
        ensures
            r == self.graceful_spec(),
    {
        self.graceful
    }

    pub fn is_terminating(&self) -> (r: bool)
        ensures
            r == (self.phase_spec() == ShutdownPhase::Terminating),
    {
        match self.phase {
            ShutdownPhase::Terminating => true,
            _ => false,
        }
    }

    /// Starts the shutdown. Only a running coordinator reacts: it stops the
    /// acceptance of new work first. Once a shutdown is under way a further
    /// request changes nothing.
    pub fn begin(&mut self, graceful: bool) -> (r: Option<ShutdownAction>)
        ensures
            final(self).drain_spec() == old(self).drain_spec(),
            final(self).quiescence_spec() == old(self).quiescence_spec(),
            old(self).phase_spec() == ShutdownPhase::Running ==> {
                &&& final(self).phase_spec() == ShutdownPhase::StoppingAcceptance
                &&& final(self).graceful_spec() == graceful
                &&& r == Some(old(self).action_for(ShutdownPhase::StoppingAcceptance, graceful))
            },
            old(self).phase_spec() != ShutdownPhase::Running ==> {
                &&& *final(self) == *old(self)
                &&& r.is_none()
            },
    {
        match self.phase {
            ShutdownPhase::Running => {
                self.phase = ShutdownPhase::StoppingAcceptance;
                self.graceful = graceful;
                Some(self.entry_action())
            },
            _ => None,
        }
    }

    /// Starts the shutdown for a named stop reason.
    pub fn stop(&mut self, reason: StopReason) -> (r: Option<ShutdownAction>)
        ensures
            final(self).drain_spec() == old(self).drain_spec(),
            final(self).quiescence_spec() == old(self).quiescence_spec(),
            old(self).phase_spec() == ShutdownPhase::Running ==> {
                &&& final(self).phase_spec() == ShutdownPhase::StoppingAcceptance
                &&& final(self).graceful_spec() == reason.graceful_spec()
                &&& r == Some(
                    old(self).action_for(ShutdownPhase::StoppingAcceptance, reason.graceful_spec()),
                )
            },
            old(self).phase_spec() != ShutdownPhase::Running ==> {
                &&& *final(self) == *old(self)
                &&& r.is_none()
            },
    {
        let graceful = reason.is_graceful();
        self.begin(graceful)
    }

    /// Starts the shutdown for the signal with raw number `sig`: graceful
    /// for the terminate signal, forceful for every other.
    pub fn handle_signal(&mut self, sig: i32) -> (r: Option<ShutdownAction>)
        ensures
            final(self).drain_spec() == old(self).drain_spec(),
            final(self).quiescence_spec() == old(self).quiescence_spec(),
            old(self).phase_spec() == ShutdownPhase::Running ==> {
                &&& final(self).phase_spec() == ShutdownPhase::StoppingAcceptance
                &&& final(self).graceful_spec() == signal_graceful(sig)
                &&& r == Some(
                    old(self).action_for(ShutdownPhase::StoppingAcceptance, signal_graceful(sig)),
                )
            },
            old(self).phase_spec() != ShutdownPhase::Running ==> {
                &&& *final(self) == *old(self)
                &&& r.is_none()
            },
    {
        let graceful = signal_is_graceful(sig);
        self.begin(graceful)
    }

    /// Moves on when the step of the current phase has ended, however it
    /// ended. Before the shutdown has begun and once the coordinator is
    /// terminating there is nothing to move on to.
    pub fn advance(&mut self, outcome: StepOutcome) -> (r: Option<ShutdownAction>)
        ensures
            final(self).drain_spec() == old(self).drain_spec(),
            final(self).quiescence_spec() == old(self).quiescence_spec(),
            final(self).graceful_spec() == old(self).graceful_spec(),
            old(self).phase_spec() == ShutdownPhase::Running || old(self).phase_spec()
                == ShutdownPhase::Terminating ==> {
                &&& final(self).phase_spec() == old(self).phase_spec()
                &&& r.is_none()
            },
            old(self).phase_spec() != ShutdownPhase::Running && old(self).phase_spec()
                != ShutdownPhase::Terminating ==> {
                &&& final(self).phase_spec() == old(self).phase_spec().successor()
                &&& r == Some(
                    old(self).action_for(
                        old(self).phase_spec().successor(),
                        old(self).graceful_spec(),
                    ),
                )
            },
    {
        match self.phase {
            ShutdownPhase::Running => None,
            ShutdownPhase::StoppingAcceptance => {
                self.phase = ShutdownPhase::DrainingDeltaGenerator;
                Some(self.entry_action())
            },
            ShutdownPhase::DrainingDeltaGenerator => {
                self.phase = ShutdownPhase::DrainingJobExecutor;
                Some(self.entry_action())
            },
            ShutdownPhase::DrainingJobExecutor => {
                self.phase = ShutdownPhase::Terminating;
                Some(self.entry_action())
            },
            ShutdownPhase::Terminating => None,
        }
    }

    /// The longest time, in milliseconds, that the rest of the shutdown may
    /// still take, counted from the entry into the current phase.
    pub fn remaining_millis(&self) -> (r: u64)
        ensures
            self.phase_spec() == ShutdownPhase::Running ==> r == 0,
            self.phase_spec() != ShutdownPhase::Running ==> r == self.phase_spec().time_left(
                self.graceful_spec(),
                self.drain_spec(),
                self.quiescence_spec(),
            ),
    {
        let drain: u64 = if self.graceful {
            self.drain_millis as u64
        } else {
            0
        };
        let quiescence: u64 = self.quiescence_millis as u64;
        proof {
            reveal_with_fuel(ShutdownPhase::time_left, 5);
        }
        match self.phase {
            ShutdownPhase::Running => 0,
            ShutdownPhase::StoppingAcceptance => 3 * drain + quiescence,
            ShutdownPhase::DrainingDeltaGenerator => 2 * drain + quiescence,
            ShutdownPhase::DrainingJobExecutor => drain + quiescence,
            ShutdownPhase::Terminating => quiescence,
        }
    }

    fn entry_action(&self) -> (r: ShutdownAction)
        ensures
            r == self.action_for(self.phase_spec(), self.graceful_spec()),
    {
        let command = match self.phase {
            ShutdownPhase::Running => ShutdownCommand::StopAcceptance,
            ShutdownPhase::StoppingAcceptance => ShutdownCommand::StopAcceptance,
            ShutdownPhase::DrainingDeltaGenerator => ShutdownCommand::StopDeltaGenerator,
            ShutdownPhase::DrainingJobExecutor => ShutdownCommand::StopJobExecutor,
            ShutdownPhase::Terminating => ShutdownCommand::Terminate,
        };
        let wait_millis = match self.phase {
            ShutdownPhase::Running => 0,
            ShutdownPhase::Terminating => self.quiescence_millis,
            _ => if self.graceful {
                self.drain_millis
            } else {
                0
            },
        };
        ShutdownAction { command, graceful: self.graceful, wait_millis }
    }
}

/// The phase reached from `phase` after `steps` steps have ended.
pub open spec fn phase_after(phase: ShutdownPhase, steps: nat) -> ShutdownPhase
    decreases steps,
{
    if steps == 0 {
        phase
    } else {
        phase_after(phase.successor(), (steps - 1) as nat)
    }
}

/// Once begun, a shutdown reaches `Terminating` after at most three steps
/// have ended, whatever their outcomes, and stays there.
pub proof fn lemma_shutdown_completes(phase: ShutdownPhase, steps: nat)
    requires
        steps >= phase.steps_left(),
    ensures
        phase_after(phase, steps) == ShutdownPhase::Terminating,
    decreases steps,
{
    if steps > 0 {
        lemma_shutdown_completes(phase.successor(), (steps - 1) as nat);
    }
}

/// From the signal to the exit a shutdown waits no longer than its bound:
/// a forceful one the quiescence interval alone, a graceful one three drain
/// bounds more. Each step that ends uses up its own wait and no more.
pub proof fn lemma_shutdown_bounded(
    phase: ShutdownPhase,
    graceful: bool,
    drain_millis: u32,
    quiescence_millis: u32,
)
    ensures
        ShutdownPhase::StoppingAcceptance.time_left(graceful, drain_millis, quiescence_millis)
            == shutdown_bound(graceful, drain_millis, quiescence_millis),
        !graceful ==> phase.time_left(graceful, drain_millis, quiescence_millis)
            == quiescence_millis,
        phase.time_left(graceful, drain_millis, quiescence_millis) <= shutdown_bound(
            graceful,
            drain_millis,
            quiescence_millis,
        ),
        phase != ShutdownPhase::Terminating ==> phase.time_left(
            graceful,
            drain_millis,
            quiescence_millis,
        ) == phase.wait(graceful, drain_millis, quiescence_millis) + phase.successor().time_left(
            graceful,
            drain_millis,
            quiescence_millis,
        ),
{
    reveal_with_fuel(ShutdownPhase::time_left, 6);
}

} // verus!
