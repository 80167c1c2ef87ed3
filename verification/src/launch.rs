//! The launch of a core, step by step.

use crate::core_kind::CoreKind;
use crate::error::{AppError, ErrorModel};
use crate::start::{
    controller_failure, exit_failure, next_wait, process_failure, wait_step, with_log, WaitEvent,
    WaitFor, WaitStep,
};
use crate::text::decimal;
use vstd::prelude::*;

verus! {

/// What is launched.
#[derive(Debug, Clone, Copy, PartialEq, Eq, Structural)]
pub enum Launched {
    /// A core with a configuration that was made for it.
    Generated(CoreKind),
    /// A profile of the user, with a controller or without.
    Profile(bool),
}

impl Launched {
    /// What the launch waits for.
    pub open spec fn waits_for(self) -> WaitFor {
        match self {
            Launched::Generated(CoreKind::Xray) => WaitFor::Counters,
            Launched::Generated(_) => WaitFor::Controller,
            Launched::Profile(true) => WaitFor::Controller,
            Launched::Profile(false) => WaitFor::Process,
        }
    }

    pub fn wait_for(self) -> (r: WaitFor)
        ensures
            r == self.waits_for(),
    {
        match self {
            Launched::Generated(kind) => {
                if kind == CoreKind::Xray {
                    WaitFor::Counters
                } else {
                    WaitFor::Controller
                }
            },
            Launched::Profile(api) => {
                if api {
                    WaitFor::Controller
                } else {
                    WaitFor::Process
                }
            },
        }
    }
}

#[derive(Debug, Clone, Copy, PartialEq, Eq, Structural)]
pub enum LaunchState {
    /// The configuration is being made and written.
    Preparing,
    /// The process is being started.
    Starting,
    /// The core is waited for.
    Waiting,
    /// The core failed, and what it said is being read.
    Explaining,
    /// The second core is being started.
    StartingSidecar,
    Over,
}

#[derive(Debug)]
pub enum LaunchEvent {
    Prepared,
    NotPrepared(AppError),
    Started,
    NotStarted(AppError),
    Wait(WaitEvent),
    /// What the core said; empty where it said nothing.
    Said(String),
    SidecarStarted,
    SidecarNotStarted(AppError),
}

#[derive(Debug)]
pub enum LaunchAction {
    Start,
    Wait(WaitStep),
    ReadLog,
    StartSidecar,
    /// The session runs.
    Ready,
    Fail(AppError),
    /// The core is stopped, and the launch fails.
    StopAndFail(AppError),
    /// The event does not belong here.
    Ignore,
}

/// The action, with its error taken by its view.
pub enum LaunchStep {
    Start,
    Wait(WaitStep),
    ReadLog,
    StartSidecar,
    Ready,
    Fail(ErrorModel),
    StopAndFail(ErrorModel),
    Ignore,
}

impl View for LaunchAction {
    type V = LaunchStep;

    open spec fn view(&self) -> LaunchStep {
        match self {
            LaunchAction::Start => LaunchStep::Start,
            LaunchAction::Wait(w) => LaunchStep::Wait(*w),
            LaunchAction::ReadLog => LaunchStep::ReadLog,
            LaunchAction::StartSidecar => LaunchStep::StartSidecar,
            LaunchAction::Ready => LaunchStep::Ready,
            LaunchAction::Fail(e) => LaunchStep::Fail(e@),
            LaunchAction::StopAndFail(e) => LaunchStep::StopAndFail(e@),
            LaunchAction::Ignore => LaunchStep::Ignore,
        }
    }
}

/// A launch.
#[derive(Debug)]
pub struct Launch {
    pub what: Launched,
    /// The core has the rights of an administrator.
    pub elevated: bool,
    /// A second core follows.
    pub sidecar: bool,
    /// The address of the controller.
    pub host: String,
    pub port: u16,
    pub state: LaunchState,
}

/// What is said of a core that failed.
pub open spec fn failure_said(what: Launched, host: Seq<char>, port: u16, hint: Seq<char>) -> ErrorModel {
    match what.waits_for() {
        WaitFor::Counters => ErrorModel::Core(with_log("xray exited during startup"@, hint)),
        WaitFor::Process => ErrorModel::Core(
            if hint.len() == 0 {
                "sing-box failed to stay running"@
            } else {
                "sing-box failed to stay running"@ + ": "@ + hint
            },
        ),
        WaitFor::Controller => ErrorModel::Core(
            with_log(
                (if what == Launched::Generated(CoreKind::Mihomo) {
                    "mihomo started but clash api not responding at "@
                } else {
                    "sing-box started but clash_api not responding at "@
                }) + host + ":"@ + decimal(port as nat),
                hint,
            ),
        ),
    }
}

/// The step that follows a core which answers.
pub open spec fn when_ready(sidecar: bool) -> LaunchStep {
    if sidecar {
        LaunchStep::StartSidecar
    } else {
        LaunchStep::Ready
    }
}

/// What a launch does next. A core whose counters do not answer runs all the same; any other
/// that does not answer, or exits, is stopped, and what it said is told. Where the second
/// core does not start, the first is stopped too.
pub open spec fn next_launch(l: Launch, e: LaunchEvent) -> LaunchStep {
    match (l.state, e) {
        (LaunchState::Preparing, LaunchEvent::Prepared) => LaunchStep::Start,
        (LaunchState::Preparing, LaunchEvent::NotPrepared(x)) => LaunchStep::Fail(x@),
        (LaunchState::Starting, LaunchEvent::Started) => LaunchStep::Wait(WaitStep::Again),
        (LaunchState::Starting, LaunchEvent::NotStarted(x)) => LaunchStep::Fail(x@),
        (LaunchState::Waiting, LaunchEvent::Wait(w)) => match next_wait(
            l.what.waits_for(),
            l.elevated,
            w,
        ) {
            WaitStep::Ready => when_ready(l.sidecar),
            WaitStep::Exited => LaunchStep::ReadLog,
            WaitStep::TimeOver => if l.what.waits_for() == WaitFor::Counters {
                when_ready(l.sidecar)
            } else {
                LaunchStep::ReadLog
            },
            other => LaunchStep::Wait(other),
        },
        (LaunchState::Explaining, LaunchEvent::Said(hint)) => {
            let x = failure_said(l.what, l.host@, l.port, hint@);
            if l.what.waits_for() == WaitFor::Process {
                LaunchStep::Fail(x)
            } else {
                LaunchStep::StopAndFail(x)
            }
        },
        (LaunchState::StartingSidecar, LaunchEvent::SidecarStarted) => LaunchStep::Ready,
        (LaunchState::StartingSidecar, LaunchEvent::SidecarNotStarted(x)) =>
            LaunchStep::StopAndFail(x@),
        _ => LaunchStep::Ignore,
    }
}

/// Where a launch stands after a step.
pub open spec fn after_launch(state: LaunchState, step: LaunchStep) -> LaunchState {
    match step {
        LaunchStep::Start => LaunchState::Starting,
        LaunchStep::Wait(_) => LaunchState::Waiting,
        LaunchStep::ReadLog => LaunchState::Explaining,
        LaunchStep::StartSidecar => LaunchState::StartingSidecar,
        LaunchStep::Ignore => state,
        _ => LaunchState::Over,
    }
}

impl Launch {
    pub fn new(what: Launched, elevated: bool, sidecar: bool, host: String, port: u16) -> (r: Self)
        ensures
            r == (Launch {
                what,
                elevated,
                sidecar,
                host,
                port,
                state: LaunchState::Preparing,
            }),
    {
        Launch { what, elevated, sidecar, host, port, state: LaunchState::Preparing }
    }

    fn failure(&self, hint: &str) -> (r: AppError)
        ensures
            r@ == failure_said(self.what, self.host@, self.port, hint@),
    {
        match self.what.wait_for() {
            WaitFor::Counters => exit_failure(hint),
            WaitFor::Process => process_failure(hint),
            WaitFor::Controller => {
                let kind = if self.what == Launched::Generated(CoreKind::Mihomo) {
                    CoreKind::Mihomo
                } else {
                    CoreKind::SingBox
                };
                controller_failure(kind, self.host.as_str(), self.port, hint)
            },
        }
    }

    fn action_for(&self, event: LaunchEvent) -> (r: LaunchAction)
        ensures
            r@ == next_launch(*self, event),
    {
        match (self.state, event) {
            (LaunchState::Preparing, LaunchEvent::Prepared) => LaunchAction::Start,
            (LaunchState::Preparing, LaunchEvent::NotPrepared(x)) => LaunchAction::Fail(x),
            (LaunchState::Starting, LaunchEvent::Started) => LaunchAction::Wait(WaitStep::Again),
            (LaunchState::Starting, LaunchEvent::NotStarted(x)) => LaunchAction::Fail(x),
            (LaunchState::Waiting, LaunchEvent::Wait(w)) => {
                let step = wait_step(self.what.wait_for(), self.elevated, w);
                let ready = step == WaitStep::Ready || (step == WaitStep::TimeOver
                    && self.what.wait_for() == WaitFor::Counters);
                if ready {
                    if self.sidecar {
                        LaunchAction::StartSidecar
                    } else {
                        LaunchAction::Ready
                    }
                } else if step == WaitStep::Exited || step == WaitStep::TimeOver {
                    LaunchAction::ReadLog
                } else {
                    LaunchAction::Wait(step)
                }
            },
            (LaunchState::Explaining, LaunchEvent::Said(hint)) => {
                let x = self.failure(hint.as_str());
                if self.what.wait_for() == WaitFor::Process {
                    LaunchAction::Fail(x)
                } else {
                    LaunchAction::StopAndFail(x)
                }
            },
            (LaunchState::StartingSidecar, LaunchEvent::SidecarStarted) => LaunchAction::Ready,
            (LaunchState::StartingSidecar, LaunchEvent::SidecarNotStarted(x)) =>
                LaunchAction::StopAndFail(x),
            _ => LaunchAction::Ignore,
        }
    }

    /// What the launch does next.
    pub fn step(&mut self, event: LaunchEvent) -> (r: LaunchAction)
        ensures
            r@ == next_launch(*old(self), event),
            *final(self) == (Launch {
                state: after_launch(old(self).state, next_launch(*old(self), event)),
                ..*old(self)
            }),
    {
        let action = self.action_for(event);
        self.state = match &action {
            LaunchAction::Start => LaunchState::Starting,
            LaunchAction::Wait(_) => LaunchState::Waiting,
            LaunchAction::ReadLog => LaunchState::Explaining,
            LaunchAction::StartSidecar => LaunchState::StartingSidecar,
            LaunchAction::Ignore => self.state,
            _ => LaunchState::Over,
        };
        action
    }
}

/// A session counts as running only once its core answered (or, where only its process
/// counts, ran; or has no counters), and its second core, where one follows, started.
pub proof fn law_session_runs_for_a_reason(l: Launch, e: LaunchEvent)
    requires
        next_launch(l, e) is Ready,
    ensures
        l.sidecar ==> e is SidecarStarted,
        !l.sidecar && !(e is SidecarStarted) ==> e is Wait && (next_wait(
            l.what.waits_for(),
            l.elevated,
            e->Wait_0,
        ) is Ready || l.what.waits_for() == WaitFor::Counters),
{
}

/// No failed launch leaves a core behind: once the process was started, the launch fails
/// only with the core stopped, or with a process that does not run.
pub proof fn law_failed_launch_leaves_no_core(l: Launch, e: LaunchEvent)
    requires
        l.state is Waiting || l.state is Explaining || l.state is StartingSidecar,
        next_launch(l, e) is Fail,
    ensures
        l.what == Launched::Profile(false),
{
}

} // verus!
