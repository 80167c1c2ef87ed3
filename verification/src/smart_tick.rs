//! One look at the selected node, step by step.

use crate::health::PassiveNodeStats;
use crate::services::latency::LatencyResult;
use crate::smart_switch::{
    changed, compared, confirmed, gated, lacking, observed, signal_of, Controller,
    ControllerModel, Signal, Verdict,
};
use vstd::prelude::*;

verus! {

/// What the probe of the selected node came to.
#[derive(Debug, Clone, Copy, PartialEq, Eq, Structural)]
pub struct CurrentProbe {
    pub failed: bool,
    pub latency_ms: Option<u32>,
}

#[derive(Debug, Clone, Copy, PartialEq, Eq, Structural)]
pub enum TickState {
    /// The requests that closed are being looked at.
    Observing,
    /// The selected node is being probed.
    Confirming(Signal),
    /// Candidates are being chosen.
    Choosing(Signal, Verdict, CurrentProbe),
    /// Candidates are being probed.
    Comparing(Signal, Verdict, CurrentProbe),
    /// A node is being selected.
    Selecting(CurrentProbe, Verdict),
    Over,
}

#[derive(Debug)]
pub enum TickEvent {
    Observed { stats: PassiveNodeStats, has_api: bool },
    CurrentProbed { probe: CurrentProbe, peers: Vec<u32> },
    /// So many candidates were chosen.
    Chosen(usize),
    /// What the candidates answered, with their scores.
    Compared { results: Vec<LatencyResult>, scores: Vec<u64> },
    Selected,
    NotSelected,
}

#[derive(Debug, Clone, Copy, PartialEq, Eq, Structural)]
pub enum TickAction {
    /// Look at the requests that closed.
    Observe,
    /// Probe the selected node, through the core and directly.
    ProbeCurrent,
    /// Choose candidates.
    Choose,
    /// Probe the candidates.
    ProbeCandidates,
    /// Select the node of the result at this position; connections are closed where the
    /// selected node failed.
    Select(usize, bool),
    /// The look is over.
    Stop,
    /// The event does not belong here.
    Ignore,
}

/// A look.
#[derive(Debug)]
pub struct Tick {
    pub current_id: String,
    pub state: TickState,
}

/// The controller, the state and the action after an event.
pub struct TickNext {
    pub ctrl: ControllerModel,
    pub state: TickState,
    pub action: TickAction,
}

pub open spec fn over(ctrl: ControllerModel) -> TickNext {
    TickNext { ctrl, state: TickState::Over, action: TickAction::Stop }
}

/// What a look does next.
pub open spec fn next_tick(
    c: ControllerModel,
    current: Seq<char>,
    s: TickState,
    e: TickEvent,
    now_ms: u64,
) -> TickNext {
    match (s, e) {
        (TickState::Observing, TickEvent::Observed { stats, has_api }) => {
            let sig = signal_of(c, stats, now_ms);
            let (d, go) = observed(c, sig, has_api, now_ms);
            if go {
                TickNext {
                    ctrl: d,
                    state: TickState::Confirming(sig),
                    action: TickAction::ProbeCurrent,
                }
            } else {
                over(d)
            }
        },
        (TickState::Confirming(sig), TickEvent::CurrentProbed { probe, peers }) => {
            let (d, v) = confirmed(c, sig, probe.failed, probe.latency_ms, peers@, now_ms);
            match v {
                Some(v) => TickNext {
                    ctrl: d,
                    state: TickState::Choosing(sig, v, probe),
                    action: TickAction::Choose,
                },
                None => over(d),
            }
        },
        (TickState::Choosing(sig, v, probe), TickEvent::Chosen(n)) => if n == 0 {
            over(lacking(c, v, probe.failed, current, now_ms))
        } else {
            TickNext {
                ctrl: c,
                state: TickState::Comparing(sig, v, probe),
                action: TickAction::ProbeCandidates,
            }
        },
        (TickState::Comparing(sig, v, probe), TickEvent::Compared { results, scores }) => {
            let (d, best) = compared(
                c,
                sig,
                v,
                probe.failed,
                probe.latency_ms,
                current,
                results@,
                scores@,
                now_ms,
            );
            match best {
                Some(b) => TickNext {
                    ctrl: d,
                    state: TickState::Selecting(probe, v),
                    action: TickAction::Select(b as usize, v.hard_fail),
                },
                None => over(d),
            }
        },
        (TickState::Selecting(probe, v), TickEvent::Selected) => over(
            changed(c, probe.failed, current, now_ms),
        ),
        (TickState::Selecting(probe, v), TickEvent::NotSelected) => over(c),
        _ => TickNext { ctrl: c, state: s, action: TickAction::Ignore },
    }
}

/// The lists of an event match.
pub open spec fn event_ok(e: TickEvent) -> bool {
    match e {
        TickEvent::Compared { results, scores } => results@.len() == scores@.len(),
        _ => true,
    }
}

impl Tick {
    /// A look begins. It goes on where the change is on, the session is not that of a profile
    /// and runs, and the node was not just selected.
    pub fn begin(
        ctrl: &mut Controller,
        current_id: String,
        enabled: bool,
        custom: bool,
        running: bool,
        now_ms: u64,
    ) -> (r: (Self, TickAction))
        ensures
            ({
                let (c, go) = gated(old(ctrl)@, enabled && !custom && running, now_ms);
                &&& final(ctrl)@ == c
                &&& r.0.current_id == current_id
                &&& r.0.state == if go {
                    TickState::Observing
                } else {
                    TickState::Over
                }
                &&& r.1 == if go {
                    TickAction::Observe
                } else {
                    TickAction::Stop
                }
            }),
    {
        if ctrl.tick_gate(enabled, custom, running, now_ms) {
            (Tick { current_id, state: TickState::Observing }, TickAction::Observe)
        } else {
            (Tick { current_id, state: TickState::Over }, TickAction::Stop)
        }
    }

    /// What the look does next.
    pub fn step(&mut self, ctrl: &mut Controller, event: TickEvent, now_ms: u64) -> (r: TickAction)
        requires
            event_ok(event),
        ensures
            ({
                let n = next_tick(
                    old(ctrl)@,
                    old(self).current_id@,
                    old(self).state,
                    event,
                    now_ms,
                );
                &&& final(ctrl)@ == n.ctrl
                &&& final(self).state == n.state
                &&& r == n.action
                &&& final(self).current_id == old(self).current_id
            }),
    {
        match (self.state, event) {
            (TickState::Observing, TickEvent::Observed { stats, has_api }) => {
                match ctrl.tick_signal(&stats, has_api, now_ms) {
                    Some(sig) => {
                        self.state = TickState::Confirming(sig);
                        TickAction::ProbeCurrent
                    },
                    None => {
                        self.state = TickState::Over;
                        TickAction::Stop
                    },
                }
            },
            (TickState::Confirming(sig), TickEvent::CurrentProbed { probe, peers }) => {
                match ctrl.current_probed(sig, probe.failed, probe.latency_ms, &peers, now_ms) {
                    Some(v) => {
                        self.state = TickState::Choosing(sig, v, probe);
                        TickAction::Choose
                    },
                    None => {
                        self.state = TickState::Over;
                        TickAction::Stop
                    },
                }
            },
            (TickState::Choosing(sig, v, probe), TickEvent::Chosen(n)) => {
                if n == 0 {
                    ctrl.no_candidates(v, probe.failed, self.current_id.as_str(), now_ms);
                    self.state = TickState::Over;
                    TickAction::Stop
                } else {
                    self.state = TickState::Comparing(sig, v, probe);
                    TickAction::ProbeCandidates
                }
            },
            (TickState::Comparing(sig, v, probe), TickEvent::Compared { results, scores }) => {
                match ctrl.candidates_probed(
                    sig,
                    v,
                    probe.failed,
                    probe.latency_ms,
                    self.current_id.as_str(),
                    &results,
                    &scores,
                    now_ms,
                ) {
                    Some(b) => {
                        self.state = TickState::Selecting(probe, v);
                        TickAction::Select(b, v.hard_fail)
                    },
                    None => {
                        self.state = TickState::Over;
                        TickAction::Stop
                    },
                }
            },
            (TickState::Selecting(probe, _), TickEvent::Selected) => {
                ctrl.node_changed(probe.failed, self.current_id.as_str(), now_ms);
                self.state = TickState::Over;
                TickAction::Stop
            },
            (TickState::Selecting(_, _), TickEvent::NotSelected) => {
                self.state = TickState::Over;
                TickAction::Stop
            },
            _ => TickAction::Ignore,
        }
    }
}

/// A node is selected only where it is worth it: the selected one failed, or has no latency,
/// or the best candidate is worth a change from it.
pub proof fn law_select_is_worth_it(
    c: ControllerModel,
    current: Seq<char>,
    s: TickState,
    e: TickEvent,
    now_ms: u64,
)
    requires
        next_tick(c, current, s, e, now_ms).action is Select,
    ensures
        s is Comparing,
        e is Compared,
        ({
            let v = s->Comparing_1;
            let probe = s->Comparing_2;
            let best = crate::smart_switch::best_result(e->results@, e->scores@);
            &&& best is Some
            &&& v.hard_fail || probe.latency_ms is None || crate::smart_switch::is_worth(
                e->results@[best->0].latency_ms->0,
                probe.latency_ms->0,
            )
        }),
{
}

/// Only a node that was selected counts as a change: a selection that failed leaves the
/// controller as it was.
pub proof fn law_failed_selection_changes_nothing(
    c: ControllerModel,
    current: Seq<char>,
    probe: CurrentProbe,
    v: Verdict,
    now_ms: u64,
)
    ensures
        next_tick(c, current, TickState::Selecting(probe, v), TickEvent::NotSelected, now_ms).ctrl
            == c,
{
}

} // verus!
