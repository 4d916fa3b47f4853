//! Running uninstall jobs one after another: from what the runner reports,
//! the events to announce and what the runner does next.

use vstd::prelude::*;
use crate::command_line::string_seqs;
use crate::uninstaller::{
    CommandLaunchMode, ProcessPlan, UninstallEvent, UninstallTarget, elevated_launching_event,
    elevated_process_plan, elevated_script, elevated_suffix, exited_event, failed_event,
    launched_event, launching_event, process_plan, spec_launch_mode, spec_program_and_args,
};

verus! {

/// What the runner reports after doing what it was asked.
pub enum RunReport {
    /// The run is to begin.
    Begin,
    /// The job's process started.
    Started { pid: u32 },
    /// The job's process could not be started.
    StartFailed { message: String, elevation_required: bool },
    /// The job's process ended.
    Ended { code: Option<i32> },
    /// Waiting for the job's process failed.
    WaitFailed { message: String, elevation_required: bool },
    /// The pause after a job is over.
    Paused,
}

/// What the runner does next.
pub enum RunAction {
    /// Start this process for the current job.
    Start(ProcessPlan),
    /// Wait for the process that was started.
    Wait,
    /// Pause before the next job.
    Pause,
    /// The run is over.
    Stop,
}

#[derive(Clone, Copy, Debug, PartialEq, Eq, Structural)]
pub enum RunStage {
    Ready,
    Starting,
    Waiting,
    Pausing,
    Finished,
}

/// A run of uninstall jobs, one after another; an elevated run has one job,
/// started with administrator rights.
pub struct UninstallRun {
    pub elevated: bool,
    pub total: usize,
    /// The position of the current job, or of the last one.
    pub position: usize,
    pub current: Option<UninstallTarget>,
    /// The jobs still to come, in order.
    pub rest: Vec<UninstallTarget>,
    pub stage: RunStage,
}

impl UninstallRun {
    pub open spec fn wf(&self) -> bool {
        &&& self.elevated ==> self.total == 1
        &&& match self.stage {
            RunStage::Ready => self.current is None && self.position == 0 && self.rest@.len()
                == self.total,
            RunStage::Starting | RunStage::Waiting => self.current is Some && self.position + 1
                + self.rest@.len() == self.total,
            RunStage::Pausing => self.current is None && self.position + 1 + self.rest@.len()
                == self.total,
            RunStage::Finished => self.current is None && self.rest@.len() == 0,
        }
    }

    /// The report the run waits for in its stage.
    pub open spec fn expects(&self, report: RunReport) -> bool {
        match self.stage {
            RunStage::Ready => report is Begin,
            RunStage::Starting => report is Started || report is StartFailed,
            RunStage::Waiting => report is Ended || report is WaitFailed,
            RunStage::Pausing => report is Paused,
            RunStage::Finished => false,
        }
    }
}

/// The announcement that the job at `position` (from zero) is launched.
pub open spec fn launching_of(
    e: UninstallEvent,
    t: UninstallTarget,
    position: nat,
    total: nat,
    elevated: bool,
) -> bool {
    e matches UninstallEvent::Launching { app_id, index, total: n, name } && app_id@ == t.app_id@
        && if elevated {
        index == 1 && n == 1 && name@ == t.name@ + elevated_suffix()
    } else {
        index == position + 1 && n == total && name@ == t.name@
    }
}

pub open spec fn launched_of(e: UninstallEvent, t: UninstallTarget, pid: u32) -> bool {
    e matches UninstallEvent::Launched { app_id, name, pid: p } && app_id@ == t.app_id@ && name@
        == t.name@ && p == pid
}

pub open spec fn exited_of(e: UninstallEvent, t: UninstallTarget, code: Option<i32>) -> bool {
    e matches UninstallEvent::Exited { app_id, name, code: c } && app_id@ == t.app_id@ && name@
        == t.name@ && c == code
}

/// A failure report; the job is handed back when `keep` or when the
/// failure asks for administrator rights.
pub open spec fn failed_of(
    e: UninstallEvent,
    t: UninstallTarget,
    message: Seq<char>,
    elevation_required: bool,
    keep: bool,
) -> bool {
    e matches UninstallEvent::Failed { app_id, name, message: m, elevation_required: er, target }
        && app_id@ == t.app_id@ && name@ == t.name@ && m@ == message && er == elevation_required
        && (target is Some <==> (keep || elevation_required)) && (target matches Some(k) ==> k
        == t)
}

/// The process started for a command: elevated through PowerShell, else
/// through `cmd.exe /C` when it needs the shell, else directly.
pub open spec fn plan_for(p: ProcessPlan, command: Seq<char>, elevated: bool) -> bool {
    if elevated {
        p.program@ == "powershell.exe"@ && string_seqs(p.args@) == seq![
            "-NoProfile"@,
            "-ExecutionPolicy"@,
            "Bypass"@,
            "-Command"@,
            elevated_script(command),
        ]
    } else {
        &&& spec_launch_mode(command) == CommandLaunchMode::Shell ==> p.program@ == "cmd.exe"@
            && string_seqs(p.args@) == seq!["/C"@, command]
        &&& spec_launch_mode(command) == CommandLaunchMode::Direct ==> spec_program_and_args(
            command,
        ) == Some((p.program@, string_seqs(p.args@)))
    }
}

/// Taking up the next job: with none left, the run announces its end and
/// stops; otherwise the first job left becomes the current one, at
/// `position`, is announced, and its process is started.
pub open spec fn takes_next_job(
    rest: Seq<UninstallTarget>,
    position: nat,
    total: nat,
    elevated: bool,
    after: UninstallRun,
    events: Seq<UninstallEvent>,
    action: RunAction,
) -> bool {
    &&& after.position == position
    &&& if rest.len() == 0 {
        &&& after.stage == RunStage::Finished
        &&& events.len() == 1 && events[0] is Done
        &&& action is Stop
    } else {
        &&& after.stage == RunStage::Starting
        &&& after.current == Some(rest[0])
        &&& after.rest@ == rest.skip(1)
        &&& events.len() == 1 && launching_of(events[0], rest[0], position, total, elevated)
        &&& action matches RunAction::Start(p) && plan_for(p, rest[0].command@, elevated)
    }
}

/// After a job's last event: a queue pauses before the next job; an
/// elevated run, whose one job this was, announces its end and stops.
pub open spec fn ends_job(
    before: UninstallRun,
    after: UninstallRun,
    events: Seq<UninstallEvent>,
    action: RunAction,
) -> bool {
    &&& after.current is None
    &&& after.rest@ == before.rest@
    &&& after.position == before.position
    &&& if before.elevated {
        &&& events.len() == 2 && events[1] is Done
        &&& action is Stop
        &&& after.stage == RunStage::Finished
    } else {
        &&& events.len() == 1
        &&& action is Pause
        &&& after.stage == RunStage::Pausing
    }
}

impl UninstallRun {
    /// A queue of jobs, none started yet.
    pub fn new(targets: Vec<UninstallTarget>) -> (r: UninstallRun)
        ensures
            r.wf(),
            r.stage == RunStage::Ready,
            !r.elevated,
            r.rest@ == targets@,
            r.total == targets@.len(),
    {
        let total = targets.len();
        UninstallRun {
            elevated: false,
            total,
            position: 0,
            current: None,
            rest: targets,
            stage: RunStage::Ready,
        }
    }

    /// One job to start again with administrator rights.
    pub fn new_elevated(target: UninstallTarget) -> (r: UninstallRun)
        ensures
            r.wf(),
            r.stage == RunStage::Ready,
            r.elevated,
            r.rest@ == seq![target],
            r.total == 1,
    {
        let mut rest: Vec<UninstallTarget> = Vec::new();
        rest.push(target);
        UninstallRun {
            elevated: true,
            total: 1,
            position: 0,
            current: None,
            rest,
            stage: RunStage::Ready,
        }
    }

    fn next_job(&mut self) -> (r: (Vec<UninstallEvent>, RunAction))
        requires
            old(self).current is None,
            old(self).elevated ==> old(self).total == 1,
            old(self).position + old(self).rest@.len() == old(self).total,
        ensures
            final(self).wf(),
            final(self).elevated == old(self).elevated,
            final(self).total == old(self).total,
            takes_next_job(
                old(self).rest@,
                old(self).position as nat,
                old(self).total as nat,
                old(self).elevated,
                *final(self),
                r.0@,
                r.1,
            ),
    {
        let mut events: Vec<UninstallEvent> = Vec::new();
        if self.rest.len() == 0 {
            events.push(UninstallEvent::Done);
            self.stage = RunStage::Finished;
            return (events, RunAction::Stop);
        }
        let target = self.rest.remove(0);
        let (event, plan) = if self.elevated {
            (elevated_launching_event(&target), elevated_process_plan(target.command.as_str()))
        } else {
            (
                launching_event(&target, self.position, self.total),
                process_plan(target.command.as_str()),
            )
        };
        events.push(event);
        self.current = Some(target);
        self.stage = RunStage::Starting;
        (events, RunAction::Start(plan))
    }

    /// Ends the current job with its last event.
    fn end_job(&mut self, event: UninstallEvent) -> (r: (Vec<UninstallEvent>, RunAction))
        requires
            old(self).current is None,
            old(self).elevated ==> old(self).total == 1,
            old(self).position + 1 + old(self).rest@.len() == old(self).total,
        ensures
            final(self).wf(),
            final(self).elevated == old(self).elevated,
            final(self).total == old(self).total,
            r.0@[0] == event,
            ends_job(*old(self), *final(self), r.0@, r.1),
    {
        let mut events: Vec<UninstallEvent> = Vec::new();
        events.push(event);
        self.current = None;
        if self.elevated {
            events.push(UninstallEvent::Done);
            self.stage = RunStage::Finished;
            (events, RunAction::Stop)
        } else {
            self.stage = RunStage::Pausing;
            (events, RunAction::Pause)
        }
    }

    /// Takes what the runner reports, and gives the events to announce, in
    /// order, and what the runner does next.
    pub fn step(&mut self, report: RunReport) -> (r: (Vec<UninstallEvent>, RunAction))
        requires
            old(self).wf(),
            old(self).expects(report),
        ensures
            final(self).wf(),
            final(self).elevated == old(self).elevated,
            final(self).total == old(self).total,
            match report {
                RunReport::Begin => takes_next_job(
                    old(self).rest@,
                    0,
                    old(self).total as nat,
                    old(self).elevated,
                    *final(self),
                    r.0@,
                    r.1,
                ),
                RunReport::Started { pid } => {
                    &&& final(self).stage == RunStage::Waiting
                    &&& final(self).current == old(self).current
                    &&& final(self).rest@ == old(self).rest@
                    &&& final(self).position == old(self).position
                    &&& r.0@.len() == 1 && launched_of(r.0@[0], old(self).current->0, pid)
                    &&& r.1 is Wait
                },
                RunReport::StartFailed { message, elevation_required } => {
                    &&& failed_of(
                        r.0@[0],
                        old(self).current->0,
                        message@,
                        elevation_required,
                        old(self).elevated,
                    )
                    &&& ends_job(*old(self), *final(self), r.0@, r.1)
                },
                RunReport::Ended { code } => {
                    &&& exited_of(r.0@[0], old(self).current->0, code)
                    &&& ends_job(*old(self), *final(self), r.0@, r.1)
                },
                RunReport::WaitFailed { message, elevation_required } => {
                    &&& failed_of(r.0@[0], old(self).current->0, message@, elevation_required, true)
                    &&& ends_job(*old(self), *final(self), r.0@, r.1)
                },
                RunReport::Paused => takes_next_job(
                    old(self).rest@,
                    (old(self).position + 1) as nat,
                    old(self).total as nat,
                    old(self).elevated,
                    *final(self),
                    r.0@,
                    r.1,
                ),
            },
    {
        match report {
            RunReport::Begin => self.next_job(),
            RunReport::Started { pid } => {
                let event = match &self.current {
                    Some(t) => launched_event(t, pid),
                    None => UninstallEvent::Done,
                };
                let mut events: Vec<UninstallEvent> = Vec::new();
                events.push(event);
                self.stage = RunStage::Waiting;
                (events, RunAction::Wait)
            },
            RunReport::StartFailed { message, elevation_required } => {
                let keep = self.elevated;
                match self.current.take() {
                    Some(t) => {
                        let event = failed_event(t, message, elevation_required, keep);
                        self.end_job(event)
                    },
                    None => (Vec::new(), RunAction::Stop),
                }
            },
            RunReport::Ended { code } => match self.current.take() {
                Some(t) => {
                    let event = exited_event(t, code);
                    self.end_job(event)
                },
                None => (Vec::new(), RunAction::Stop),
            },
            RunReport::WaitFailed { message, elevation_required } => match self.current.take() {
                Some(t) => {
                    let event = failed_event(t, message, elevation_required, true);
                    self.end_job(event)
                },
                None => (Vec::new(), RunAction::Stop),
            },
            RunReport::Paused => {
                self.position = self.position + 1;
                self.next_job()
            },
        }
    }
}

} // verus!
