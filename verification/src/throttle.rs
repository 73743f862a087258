//! vCPU throttling for the auto-convergence of a live migration.
//!
//! A worker pauses and resumes the vCPUs in turns. It is a state machine: it says what to do
//! and how long to wait, and takes the command that ended the wait, if one did.
use vstd::prelude::*;

verus! {

/// A cycle of pause and run. A small slice keeps the guest responsive.
///
/// | Throttle | Pause duration | Run duration |
/// |----------|----------------|--------------|
/// |      1 % |           1 ms |        99 ms |
/// |     10 % |          10 ms |        90 ms |
/// |     50 % |          50 ms |        50 ms |
/// |     90 % |          90 ms |        10 ms |
/// |     99 % |          99 ms |         1 ms |
pub const TIMESLICE_MS: u64 = 100;

/// A command to the worker.
#[derive(Debug, Copy, Clone, PartialEq, Eq, Structural)]
pub enum ThrottleCommand {
    /// Wait for the next command.
    Waiting,
    /// Throttle by a percentage from 1 to 99.
    Throttling(u8),
    /// Leave.
    Exiting,
}

/// What the worker does next.
#[derive(Debug, Copy, Clone, PartialEq, Eq, Structural)]
pub enum ThrottleAction {
    /// Wait for a command, however long it takes.
    AwaitCommand,
    /// Pause the vCPUs, then wait for a command for some milliseconds.
    Pause(u64),
    /// Resume the vCPUs, then wait for a command for some milliseconds.
    Resume(u64),
    /// Resume the vCPUs, then wait for a command, however long it takes.
    ResumeAndAwait,
    /// Resume the vCPUs and leave.
    ResumeAndExit,
    /// Leave.
    Exit,
}

#[derive(Debug, Copy, Clone, PartialEq, Eq, Structural)]
pub enum WorkerPhase {
    /// No throttling; the vCPUs run.
    Waiting,
    /// The vCPUs are paused.
    Paused,
    /// The vCPUs run in their part of a cycle.
    Running,
    /// The worker has left.
    Exited,
}

/// Whether a command can be sent to the worker.
pub open spec fn valid_command(command: ThrottleCommand) -> bool {
    match command {
        ThrottleCommand::Throttling(percent) => 1 <= percent <= 99,
        _ => true,
    }
}

/// How long the vCPUs are paused in a cycle.
pub open spec fn pause_ms(percent: u8) -> u64 {
    (TIMESLICE_MS * percent / 100) as u64
}

/// How long the vCPUs run in a cycle.
pub open spec fn run_ms(percent: u8) -> u64 {
    (TIMESLICE_MS - pause_ms(percent)) as u64
}

/// The worker: its phase, the percentage of the present cycle, and that of the next one.
#[derive(Debug, Copy, Clone, PartialEq, Eq)]
pub struct ThrottleWorker {
    pub phase: WorkerPhase,
    pub cycle: u8,
    pub next: u8,
}

impl ThrottleWorker {
    pub open spec fn valid(self) -> bool {
        (self.phase == WorkerPhase::Paused || self.phase == WorkerPhase::Running) ==> 1
            <= self.cycle <= 99 && 1 <= self.next <= 99
    }

    /// Whether the vCPUs are paused.
    pub open spec fn pausing(self) -> bool {
        self.phase == WorkerPhase::Paused
    }

    /// The worker at the start of a cycle.
    pub open spec fn cycle_started(percent: u8) -> (ThrottleWorker, ThrottleAction) {
        (
            ThrottleWorker { phase: WorkerPhase::Paused, cycle: percent, next: percent },
            ThrottleAction::Pause(pause_ms(percent)),
        )
    }

    /// The worker after a wait that a command ended, or that ran out. A new percentage holds
    /// from the next cycle on, and cuts the present wait short.
    pub open spec fn stepped(self, command: Option<ThrottleCommand>) -> (
        ThrottleWorker,
        ThrottleAction,
    ) {
        let next = match command {
            Some(ThrottleCommand::Throttling(percent)) => percent,
            _ => self.next,
        };
        match self.phase {
            WorkerPhase::Exited => (self, ThrottleAction::Exit),
            WorkerPhase::Waiting => match command {
                Some(ThrottleCommand::Throttling(percent)) => ThrottleWorker::cycle_started(
                    percent,
                ),
                Some(ThrottleCommand::Exiting) => (
                    ThrottleWorker { phase: WorkerPhase::Exited, ..self },
                    ThrottleAction::Exit,
                ),
                _ => (self, ThrottleAction::AwaitCommand),
            },
            WorkerPhase::Paused => match command {
                Some(ThrottleCommand::Waiting) => (
                    ThrottleWorker { phase: WorkerPhase::Waiting, ..self },
                    ThrottleAction::ResumeAndAwait,
                ),
                Some(ThrottleCommand::Exiting) => (
                    ThrottleWorker { phase: WorkerPhase::Exited, ..self },
                    ThrottleAction::ResumeAndExit,
                ),
                _ => (
                    ThrottleWorker { phase: WorkerPhase::Running, next, ..self },
                    ThrottleAction::Resume(run_ms(self.cycle)),
                ),
            },
            WorkerPhase::Running => match command {
                Some(ThrottleCommand::Waiting) => (
                    ThrottleWorker { phase: WorkerPhase::Waiting, ..self },
                    ThrottleAction::AwaitCommand,
                ),
                Some(ThrottleCommand::Exiting) => (
                    ThrottleWorker { phase: WorkerPhase::Exited, ..self },
                    ThrottleAction::Exit,
                ),
                _ => ThrottleWorker::cycle_started(next),
            },
        }
    }

    pub fn new() -> (r: Self)
        ensures
            r.valid(),
            r == (ThrottleWorker { phase: WorkerPhase::Waiting, cycle: 0, next: 0 }),
    {
        ThrottleWorker { phase: WorkerPhase::Waiting, cycle: 0, next: 0 }
    }

    fn start_cycle(percent: u8) -> (r: (Self, ThrottleAction))
        requires
            1 <= percent <= 99,
        ensures
            r == ThrottleWorker::cycle_started(percent),
    {
        let wait_ms_after_pause: u64 = TIMESLICE_MS * (percent as u64) / 100;
        (
            ThrottleWorker { phase: WorkerPhase::Paused, cycle: percent, next: percent },
            ThrottleAction::Pause(wait_ms_after_pause),
        )
    }

    /// Takes the command that ended the last wait, or none where the wait ran out.
    pub fn throttle_step(&mut self, command: Option<ThrottleCommand>) -> (r: ThrottleAction)
        requires
            old(self).valid(),
            command matches Some(c) ==> valid_command(c),
        ensures
            final(self).valid(),
            (*final(self), r) == old(self).stepped(command),
    {
        match self.phase {
            WorkerPhase::Exited => ThrottleAction::Exit,
            WorkerPhase::Waiting => {
                match command {
                    Some(ThrottleCommand::Throttling(percent)) => {
                        let (worker, action) = Self::start_cycle(percent);
                        *self = worker;
                        action
                    },
                    Some(ThrottleCommand::Exiting) => {
                        self.phase = WorkerPhase::Exited;
                        ThrottleAction::Exit
                    },
                    _ => ThrottleAction::AwaitCommand,
                }
            },
            WorkerPhase::Paused => {
                match command {
                    Some(ThrottleCommand::Waiting) => {
                        self.phase = WorkerPhase::Waiting;
                        ThrottleAction::ResumeAndAwait
                    },
                    Some(ThrottleCommand::Exiting) => {
                        self.phase = WorkerPhase::Exited;
                        ThrottleAction::ResumeAndExit
                    },
                    _ => {
                        if let Some(ThrottleCommand::Throttling(percent)) = command {
                            self.next = percent;
                        }
                        self.phase = WorkerPhase::Running;
                        let wait_ms_after_pause: u64 = TIMESLICE_MS * (self.cycle as u64) / 100;
                        ThrottleAction::Resume(TIMESLICE_MS - wait_ms_after_pause)
                    },
                }
            },
            WorkerPhase::Running => {
                match command {
                    Some(ThrottleCommand::Waiting) => {
                        self.phase = WorkerPhase::Waiting;
                        ThrottleAction::AwaitCommand
                    },
                    Some(ThrottleCommand::Exiting) => {
                        self.phase = WorkerPhase::Exited;
                        ThrottleAction::Exit
                    },
                    _ => {
                        if let Some(ThrottleCommand::Throttling(percent)) = command {
                            self.next = percent;
                        }
                        let (worker, action) = Self::start_cycle(self.next);
                        *self = worker;
                        action
                    },
                }
            },
        }
    }
}

impl Default for ThrottleWorker {
    fn default() -> (r: Self)
        ensures
            r.valid(),
            r == (ThrottleWorker { phase: WorkerPhase::Waiting, cycle: 0, next: 0 }),
    {
        Self::new()
    }
}

/// The side that controls the worker: the percentage that was sent last, and whether the
/// worker is still there.
#[derive(Debug, Copy, Clone, PartialEq, Eq)]
pub struct ThrottleThreadHandle {
    pub current_throttle: u8,
    pub alive: bool,
}

impl ThrottleThreadHandle {
    pub fn new() -> (r: Self)
        ensures
            r == (ThrottleThreadHandle { current_throttle: 0, alive: true }),
    {
        ThrottleThreadHandle { current_throttle: 0, alive: true }
    }

    /// Sets the percentage, and returns the command to send, if it changed. Zero ends the
    /// throttling.
    pub fn set_throttle_percent(&mut self, percent_new: u8) -> (r: Option<ThrottleCommand>)
        requires
            percent_new <= 99,
        ensures
            *final(self) == (ThrottleThreadHandle { current_throttle: percent_new, ..*old(self) }),
            r == (if percent_new == old(self).current_throttle {
                None
            } else if percent_new == 0 {
                Some(ThrottleCommand::Waiting)
            } else {
                Some(ThrottleCommand::Throttling(percent_new))
            }),
            r matches Some(command) ==> valid_command(command),
    {
        let percent_old: u8 = self.throttle_percent();
        if percent_old == percent_new {
            return None;
        }
        self.current_throttle = percent_new;
        if percent_new == 0 {
            Some(ThrottleCommand::Waiting)
        } else {
            Some(ThrottleCommand::Throttling(percent_new))
        }
    }

    pub fn throttle_percent(&self) -> (r: u8)
        ensures
            r == self.current_throttle,
    {
        self.current_throttle
    }

    /// Ends the worker: the command to send before it is waited for, the first time only.
    pub fn shutdown(&mut self) -> (r: Option<ThrottleCommand>)
        ensures
            *final(self) == (ThrottleThreadHandle { alive: false, ..*old(self) }),
            r == (if old(self).alive {
                Some(ThrottleCommand::Exiting)
            } else {
                None
            }),
    {
        if self.alive {
            self.alive = false;
            Some(ThrottleCommand::Exiting)
        } else {
            None
        }
    }
}

impl Default for ThrottleThreadHandle {
    fn default() -> (r: Self)
        ensures
            r == (ThrottleThreadHandle { current_throttle: 0, alive: true }),
    {
        Self::new()
    }
}

/// Pause and run make up a whole slice, and each of them at least a hundredth of it.
pub proof fn a_cycle_fills_the_slice(percent: u8)
    requires
        1 <= percent <= 99,
    ensures
        pause_ms(percent) == percent,
        pause_ms(percent) + run_ms(percent) == TIMESLICE_MS,
        run_ms(percent) >= 1,
{
}

/// The vCPUs are paused only while they run and resumed only while they are paused, and
/// they run whenever the worker waits or has left.
pub proof fn pauses_and_resumes_alternate(worker: ThrottleWorker, command: Option<ThrottleCommand>)
    requires
        worker.valid(),
        command matches Some(c) ==> valid_command(c),
    ensures
        ({
            let (after, action) = worker.stepped(command);
            &&& after.valid()
            &&& action is Pause ==> !worker.pausing() && after.pausing()
            &&& (action is Resume || action is ResumeAndAwait || action is ResumeAndExit)
                ==> worker.pausing() && !after.pausing()
            &&& (action is AwaitCommand || action is Exit) ==> !worker.pausing()
                && !after.pausing()
        }),
{
}

/// A command to wait or to leave is obeyed at once, in every phase.
pub proof fn stopping_is_immediate(worker: ThrottleWorker)
    requires
        worker.valid(),
        worker.phase != WorkerPhase::Exited,
    ensures
        worker.stepped(Some(ThrottleCommand::Waiting)).0.phase == WorkerPhase::Waiting,
        worker.stepped(Some(ThrottleCommand::Exiting)).0.phase == WorkerPhase::Exited,
{
}

/// A new percentage holds from the next cycle on.
pub proof fn a_new_percentage_holds_from_the_next_cycle(worker: ThrottleWorker, percent: u8)
    requires
        worker.valid(),
        worker.pausing(),
        1 <= percent <= 99,
    ensures
        ({
            let (running, resume) = worker.stepped(Some(ThrottleCommand::Throttling(percent)));
            let (next, pause) = running.stepped(None);
            &&& resume == ThrottleAction::Resume(run_ms(worker.cycle))
            &&& pause == ThrottleAction::Pause(pause_ms(percent))
        }),
{
}

/// At `percent` percent the vCPUs are paused for as many of every 100 milliseconds, and run for
/// the rest, cycle after cycle.
pub proof fn each_cycle_pauses_for_its_share(worker: ThrottleWorker, percent: u8)
    requires
        1 <= percent <= 99,
        worker.phase == WorkerPhase::Waiting,
    ensures
        ({
            let (paused, first) = worker.stepped(Some(ThrottleCommand::Throttling(percent)));
            let (running, second) = paused.stepped(None);
            let (again, third) = running.stepped(None);
            &&& first matches ThrottleAction::Pause(ms) && ms == percent
            &&& second matches ThrottleAction::Resume(ms) && ms == 100 - percent
            &&& third == first
            &&& again == paused
        }),
{
}

} // verus!
