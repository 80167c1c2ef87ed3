//! The first choice of a node, step by step: batches of nodes are probed, and the one that
//! answers fastest is selected.

use crate::core_kind::CoreKind;
use crate::domain::node::ProxyNode;
use crate::order::index_seq;
use crate::services::latency::LatencyResult;
use crate::smart_bootstrap::{
    best_after, best_view, bootstrap_refusal, choice_refusal, count_added, found, unchanged,
    unchanged_result, BestNode, Bootstrap, ChoiceResult, SmartSwitchNowResult,
};
use crate::smart_switch::{
    best_options, options, over_forgotten, pick_candidates, plain_scores, scores_of_nodes,
    switched_at, Controller, ControllerModel, Phase, BOOTSTRAP_BATCH, BOOTSTRAP_MAX,
};
use crate::text::{opt_view, views};
use vstd::prelude::*;

verus! {

/// The core serves one of the nodes.
pub open spec fn serves_any(nodes: Seq<ProxyNode>, kind: CoreKind) -> bool {
    exists|i: int| 0 <= i < nodes.len() && kind.serves_node(#[trigger] nodes[i])
}

/// The nodes that are probed.
#[derive(Debug)]
pub struct ChoicePool {
    /// The core serves one of the nodes at all.
    pub served: bool,
    /// The positions of the nodes, the best first.
    pub at: Vec<usize>,
}

/// The nodes that are probed: those that the core serves and that are not left out, the best
/// first by the latencies that they last had, up to a limit.
pub fn gather_pool(nodes: &Vec<ProxyNode>, kind: CoreKind, ejected: &Vec<String>) -> (r: ChoicePool)
    ensures
        r.served == serves_any(nodes@, kind),
        index_seq(r.at@) == best_options(
            nodes@,
            options(nodes@, kind, None, views(ejected@)),
            plain_scores(nodes@),
            BOOTSTRAP_MAX as int,
        ),
{
    let mut served = false;
    for i in 0..nodes.len()
        invariant
            served == serves_any(nodes@.take(i as int), kind),
    {
        let ghost before = nodes@.take(i as int);
        let ghost now = nodes@.take(i + 1);
        let serves = kind.supports_node(&nodes[i]);
        proof {
            assert forall|j: int| 0 <= j < before.len() implies before[j] == now[j] by {}
            assert(now[i as int] == nodes@[i as int]);
            if serves_any(before, kind) {
                let j = choose|j: int| 0 <= j < before.len() && kind.serves_node(
                    #[trigger] before[j],
                );
                assert(kind.serves_node(now[j]));
            }
            if serves_any(now, kind) && !serves {
                let j = choose|j: int| 0 <= j < now.len() && kind.serves_node(#[trigger] now[j]);
                assert(kind.serves_node(before[j]));
            }
        }
        if serves {
            served = true;
        }
    }
    proof {
        assert(nodes@.take(nodes@.len() as int) =~= nodes@);
    }
    let scores = scores_of_nodes(nodes);
    let at = pick_candidates(nodes, kind, None, ejected, &scores, BOOTSTRAP_MAX);
    ChoicePool { served, at }
}

/// Where a choice stands.
#[derive(Debug, Clone, Copy, PartialEq, Eq, Structural)]
pub enum ChoiceState {
    /// The nodes are being gathered.
    Gathering,
    /// The user may have turned the change off; so many nodes and batches were probed.
    Asking(usize, usize),
    /// The nodes from one position to another are being probed, after so many batches.
    Probing(usize, usize, usize),
    /// The best node is being selected.
    Selecting,
    Over,
}

#[derive(Debug)]
pub enum ChoiceEvent {
    /// The selected node, whether the core serves any node, whether it has a controller, and
    /// how many nodes are probed.
    Gathered { current_id: Option<String>, served: bool, has_api: bool, pool: usize },
    /// The change is still on, or not.
    StillOn(bool),
    Probed(Vec<LatencyResult>),
    NotProbed(String),
    Selected,
    NotSelected(String),
}

#[derive(Debug)]
pub enum ChoiceAction {
    Gather,
    /// Look whether the change is still on.
    Ask,
    /// Probe the nodes from one position of the pool to another.
    Probe(usize, usize),
    /// Select the node of this id.
    Select(String),
    Finish(SmartSwitchNowResult),
    Fail(String),
    /// The event does not belong here.
    Ignore,
}

/// The action, with its texts taken by their views.
pub enum ChoiceStep {
    Gather,
    Ask,
    Probe(usize, usize),
    Select(Seq<char>),
    Finish(ChoiceResult),
    Fail(Seq<char>),
    Ignore,
}

impl View for ChoiceAction {
    type V = ChoiceStep;

    open spec fn view(&self) -> ChoiceStep {
        match self {
            ChoiceAction::Gather => ChoiceStep::Gather,
            ChoiceAction::Ask => ChoiceStep::Ask,
            ChoiceAction::Probe(a, b) => ChoiceStep::Probe(*a, *b),
            ChoiceAction::Select(id) => ChoiceStep::Select(id@),
            ChoiceAction::Finish(r) => ChoiceStep::Finish(r@),
            ChoiceAction::Fail(e) => ChoiceStep::Fail(e@),
            ChoiceAction::Ignore => ChoiceStep::Ignore,
        }
    }
}

/// A choice.
#[derive(Debug)]
pub struct Choice {
    pub state: ChoiceState,
    pub current_id: Option<String>,
    /// How many nodes there are to probe.
    pub pool: usize,
    pub progress: Bootstrap,
}

pub struct ChoiceModel {
    pub state: ChoiceState,
    pub current: Option<Seq<char>>,
    pub pool: usize,
    pub probed: u32,
    pub best: Option<(Seq<char>, Seq<char>, u32)>,
}

impl View for Choice {
    type V = ChoiceModel;

    open spec fn view(&self) -> ChoiceModel {
        ChoiceModel {
            state: self.state,
            current: opt_view(self.current_id),
            pool: self.pool,
            probed: self.progress.probed,
            best: best_view(self.progress.best),
        }
    }
}

impl ChoiceModel {
    pub open spec fn at(self, state: ChoiceState) -> ChoiceModel {
        ChoiceModel { state, ..self }
    }

    /// The result of what was probed.
    pub open spec fn result(self) -> ChoiceResult {
        match self.best {
            Some(b) => found(self.current, self.probed, b),
            None => unchanged(self.current, self.probed, "all probes failed"@),
        }
    }

    /// Another batch is probed: nodes are left, and none answered yet or only one batch
    /// was probed.
    pub open spec fn goes_on(self, done: usize, batches: usize) -> bool {
        done < self.pool && (self.best is None || batches < 2)
    }
}

/// The controller, the choice and the action after an event.
pub struct ChoiceNext {
    pub ctrl: ControllerModel,
    pub choice: ChoiceModel,
    pub action: ChoiceStep,
}

/// The choice ends with a result, and the controller is at rest.
pub open spec fn finished(c: ControllerModel, s: ChoiceModel, r: ChoiceResult) -> ChoiceNext {
    ChoiceNext {
        ctrl: c.in_phase(Phase::Fine),
        choice: s.at(ChoiceState::Over),
        action: ChoiceStep::Finish(r),
    }
}

/// Where a batch that begins at a position ends.
pub open spec fn batch_end(from: usize, pool: usize) -> usize {
    if pool - from <= BOOTSTRAP_BATCH {
        pool
    } else {
        (from + BOOTSTRAP_BATCH) as usize
    }
}

/// The controller once the selected node was found to be the best.
pub open spec fn kept_best(c: ControllerModel, now_ms: u64) -> ControllerModel {
    ControllerModel {
        last_switch: Some(now_ms),
        fails: 0,
        last_health_probe: Some(now_ms),
        phase: Phase::Fine,
        ..c
    }
}

/// The controller once another node was selected.
pub open spec fn selected_best(c: ControllerModel, now_ms: u64) -> ControllerModel {
    ControllerModel { last_health_probe: Some(now_ms), ..switched_at(c, now_ms) }
}

/// What follows the look whether the change is still on.
pub open spec fn after_ask(
    c: ControllerModel,
    s: ChoiceModel,
    done: usize,
    batches: usize,
    on: bool,
    now_ms: u64,
) -> ChoiceNext {
    if !on {
        finished(c, s, unchanged(s.current, s.probed, "cancelled"@))
    } else if s.goes_on(done, batches) {
        let to = batch_end(done, s.pool);
        ChoiceNext {
            ctrl: c,
            choice: s.at(ChoiceState::Probing(done, to, batches)),
            action: ChoiceStep::Probe(done, to),
        }
    } else if s.best is None {
        finished(c, s, s.result())
    } else if s.current == Some((s.best->0).0) {
        ChoiceNext {
            ctrl: kept_best(c, now_ms),
            choice: s.at(ChoiceState::Over),
            action: ChoiceStep::Finish(s.result()),
        }
    } else {
        ChoiceNext {
            ctrl: c,
            choice: s.at(ChoiceState::Selecting),
            action: ChoiceStep::Select((s.best->0).0),
        }
    }
}

pub open spec fn counted_on(batches: usize) -> usize {
    if batches < usize::MAX {
        (batches + 1) as usize
    } else {
        batches
    }
}

/// What a choice does next.
pub open spec fn next_choice(c: ControllerModel, s: ChoiceModel, e: ChoiceEvent, now_ms: u64) ->
    ChoiceNext {
    match (s.state, e) {
        (
            ChoiceState::Gathering,
            ChoiceEvent::Gathered { current_id, served, has_api, pool },
        ) => {
            let t = ChoiceModel { current: opt_view(current_id), pool, ..s };
            if !served {
                finished(c, t, unchanged(t.current, t.probed, "no nodes"@))
            } else if !has_api {
                finished(c, t, unchanged(t.current, t.probed, "clash api unavailable"@))
            } else {
                ChoiceNext {
                    ctrl: c,
                    choice: t.at(ChoiceState::Asking(0, 0)),
                    action: ChoiceStep::Ask,
                }
            }
        },
        (ChoiceState::Asking(done, batches), ChoiceEvent::StillOn(on)) => after_ask(
            c,
            s,
            done,
            batches,
            on,
            now_ms,
        ),
        (ChoiceState::Probing(_, to, batches), ChoiceEvent::Probed(results)) => ChoiceNext {
            ctrl: c,
            choice: ChoiceModel {
                state: ChoiceState::Asking(to, counted_on(batches)),
                probed: count_added(s.probed, results@.len()),
                best: best_after(s.best, results@),
                ..s
            },
            action: ChoiceStep::Ask,
        },
        (ChoiceState::Probing(_, _, _), ChoiceEvent::NotProbed(error)) => ChoiceNext {
            ctrl: c,
            choice: s.at(ChoiceState::Over),
            action: ChoiceStep::Fail(error@),
        },
        (ChoiceState::Selecting, ChoiceEvent::Selected) => ChoiceNext {
            ctrl: selected_best(c, now_ms),
            choice: s.at(ChoiceState::Over),
            action: ChoiceStep::Finish(s.result()),
        },
        (ChoiceState::Selecting, ChoiceEvent::NotSelected(error)) => ChoiceNext {
            ctrl: c,
            choice: s.at(ChoiceState::Over),
            action: ChoiceStep::Fail(error@),
        },
        _ => ChoiceNext { ctrl: c, choice: s, action: ChoiceStep::Ignore },
    }
}

impl Choice {
    /// A choice begins, where nothing keeps it from being made.
    pub fn begin(ctrl: &mut Controller, running: bool, custom: bool, kind: CoreKind, now_ms: u64) -> (r:
        (Self, ChoiceAction))
        ensures
            r.0@.current is None,
            r.0@.pool == 0,
            r.0@.probed == 0,
            r.0@.best is None,
            match choice_refusal(running, custom, kind) {
                Some(m) => {
                    &&& final(ctrl)@ == old(ctrl)@
                    &&& r.0@.state == ChoiceState::Over
                    &&& r.1@ == ChoiceStep::Finish(unchanged(None, 0, m))
                },
                None => {
                    &&& final(ctrl)@ == over_forgotten(old(ctrl)@, now_ms).in_phase(Phase::Probing)
                    &&& r.0@.state == ChoiceState::Gathering
                    &&& r.1@ == ChoiceStep::Gather
                },
            },
    {
        let mut choice = Choice {
            state: ChoiceState::Gathering,
            current_id: None,
            pool: 0,
            progress: Bootstrap::new(),
        };
        match bootstrap_refusal(running, custom, kind) {
            Some(m) => {
                choice.state = ChoiceState::Over;
                (choice, ChoiceAction::Finish(unchanged_result(None, 0, m)))
            },
            None => {
                ctrl.bootstrap_begins(now_ms);
                (choice, ChoiceAction::Gather)
            },
        }
    }

    fn current(&self) -> (r: Option<String>)
        ensures
            opt_view(r) == self@.current,
    {
        crate::text::clone_opt(&self.current_id)
    }

    fn best(&self) -> (r: Option<BestNode>)
        ensures
            best_view(r) == self@.best,
    {
        match &self.progress.best {
            Some(b) => Some(
                BestNode { id: b.id.clone(), name: b.name.clone(), latency_ms: b.latency_ms },
            ),
            None => None,
        }
    }

    /// The result of what was probed.
    fn result(&self) -> (r: SmartSwitchNowResult)
        ensures
            r@ == self@.result(),
    {
        let progress = Bootstrap { probed: self.progress.probed, best: self.best() };
        progress.conclude(self.current())
    }

    fn finish(&mut self, ctrl: &mut Controller, message: &str) -> (r: ChoiceAction)
        ensures
            ({
                let n = finished(
                    old(ctrl)@,
                    old(self)@,
                    unchanged(old(self)@.current, old(self)@.probed, message@),
                );
                final(ctrl)@ == n.ctrl && final(self)@ == n.choice && r@ == n.action
            }),
    {
        ctrl.set_phase(Phase::Fine);
        self.state = ChoiceState::Over;
        ChoiceAction::Finish(unchanged_result(self.current(), self.progress.probed, message))
    }

    fn asked(&mut self, ctrl: &mut Controller, done: usize, batches: usize, on: bool, now_ms: u64) -> (r:
        ChoiceAction)
        ensures
            ({
                let n = after_ask(old(ctrl)@, old(self)@, done, batches, on, now_ms);
                final(ctrl)@ == n.ctrl && final(self)@ == n.choice && r@ == n.action
            }),
    {
        if !on {
            return self.finish(ctrl, "cancelled");
        }
        if done < self.pool && (self.progress.best.is_none() || batches < 2) {
            let to: usize = if self.pool - done <= BOOTSTRAP_BATCH {
                self.pool
            } else {
                done + BOOTSTRAP_BATCH
            };
            self.state = ChoiceState::Probing(done, to, batches);
            return ChoiceAction::Probe(done, to);
        }
        match self.best() {
            None => self.finish(ctrl, "all probes failed"),
            Some(b) => {
                let known = match &self.current_id {
                    Some(c) => crate::text::same(c.as_str(), b.id.as_str()),
                    None => false,
                };
                if known {
                    ctrl.stays_best(now_ms);
                    let result = self.result();
                    self.state = ChoiceState::Over;
                    ChoiceAction::Finish(result)
                } else {
                    self.state = ChoiceState::Selecting;
                    ChoiceAction::Select(b.id)
                }
            },
        }
    }

    /// What the choice does next.
    pub fn step(&mut self, ctrl: &mut Controller, event: ChoiceEvent, now_ms: u64) -> (r:
        ChoiceAction)
        ensures
            ({
                let n = next_choice(old(ctrl)@, old(self)@, event, now_ms);
                final(ctrl)@ == n.ctrl && final(self)@ == n.choice && r@ == n.action
            }),
    {
        match (self.state, event) {
            (
                ChoiceState::Gathering,
                ChoiceEvent::Gathered { current_id, served, has_api, pool },
            ) => {
                self.current_id = current_id;
                self.pool = pool;
                if !served {
                    return self.finish(ctrl, "no nodes");
                }
                if !has_api {
                    return self.finish(ctrl, "clash api unavailable");
                }
                self.state = ChoiceState::Asking(0, 0);
                ChoiceAction::Ask
            },
            (ChoiceState::Asking(done, batches), ChoiceEvent::StillOn(on)) => {
                self.asked(ctrl, done, batches, on, now_ms)
            },
            (ChoiceState::Probing(_, to, batches), ChoiceEvent::Probed(results)) => {
                self.progress.absorb(&results);
                self.state = ChoiceState::Asking(to, batches.saturating_add(1));
                ChoiceAction::Ask
            },
            (ChoiceState::Probing(_, _, _), ChoiceEvent::NotProbed(error)) => {
                self.state = ChoiceState::Over;
                ChoiceAction::Fail(error)
            },
            (ChoiceState::Selecting, ChoiceEvent::Selected) => {
                ctrl.bootstrap_switched(now_ms);
                let result = self.result();
                self.state = ChoiceState::Over;
                ChoiceAction::Finish(result)
            },
            (ChoiceState::Selecting, ChoiceEvent::NotSelected(error)) => {
                self.state = ChoiceState::Over;
                ChoiceAction::Fail(error)
            },
            _ => ChoiceAction::Ignore,
        }
    }
}

/// A choice that the user turned off selects no node.
pub proof fn law_cancelled_choice_selects_nothing(
    c: ControllerModel,
    s: ChoiceModel,
    now_ms: u64,
)
    requires
        s.state is Asking,
    ensures
        ({
            let n = next_choice(c, s, ChoiceEvent::StillOn(false), now_ms);
            &&& n.action == ChoiceStep::Finish(unchanged(s.current, s.probed, "cancelled"@))
            &&& n.choice.state is Over
            &&& n.ctrl == c.in_phase(Phase::Fine)
        }),
{
}

/// The batches go through the pool one after the other, none larger than the limit, so the
/// probing ends.
pub proof fn law_batches_go_through_the_pool(
    c: ControllerModel,
    s: ChoiceModel,
    results: Vec<LatencyResult>,
    now_ms: u64,
)
    requires
        s.state is Asking,
        next_choice(c, s, ChoiceEvent::StillOn(true), now_ms).action is Probe,
    ensures
        ({
            let n = next_choice(c, s, ChoiceEvent::StillOn(true), now_ms);
            let after = next_choice(n.ctrl, n.choice, ChoiceEvent::Probed(results), now_ms);
            let to = n.action->Probe_1;
            &&& n.action->Probe_0 == s.state->Asking_0
            &&& s.state->Asking_0 < to <= s.pool
            &&& to - s.state->Asking_0 <= BOOTSTRAP_BATCH
            &&& after.choice.state is Asking
            &&& after.choice.state->Asking_0 == to
            &&& after.choice.pool == s.pool
        }),
{
}

/// A node is selected only where it is the best of all that answered and is not selected
/// already, and only after the change was found to be on.
pub proof fn law_choice_selects_the_best(
    c: ControllerModel,
    s: ChoiceModel,
    e: ChoiceEvent,
    now_ms: u64,
)
    requires
        next_choice(c, s, e, now_ms).action is Select,
    ensures
        s.state is Asking,
        e == ChoiceEvent::StillOn(true),
        s.best is Some,
        next_choice(c, s, e, now_ms).action->Select_0 == (s.best->0).0,
        s.current != Some((s.best->0).0),
{
}

} // verus!
