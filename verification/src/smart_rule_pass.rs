//! The care for the pool of one rule, step by step: its nodes are probed, and the best one is
//! selected where that is worth it.

use crate::services::latency::LatencyResult;
use crate::smart_bootstrap::missing_node;
use crate::smart_rules::{
    failed_state, is_rule_due, rule_noted, rule_step, RuleState, RuleStates, RuleStep, States,
};
use crate::smart_switch::{answer_scores, best_result, find_best, is_worth, scores_of_answers};
use vstd::prelude::*;

verus! {

/// Where the care stands.
#[derive(Debug)]
pub enum PassState {
    /// The pool is being probed.
    Probing,
    /// This node, with its latency, is being selected.
    Selecting(String, u32),
    Over,
}

#[derive(Debug)]
pub enum PassEvent {
    /// What the pool answered.
    Probed(Vec<LatencyResult>),
    NotProbed(String),
    Selected,
    /// The node is not in the store any more.
    Missing,
    NotSelected(String),
}

#[derive(Debug)]
pub enum PassAction {
    Probe,
    /// Select the node of this id in the group of the rule.
    Select(String),
    Stop,
    Fail(String),
    /// The event does not belong here.
    Ignore,
}

/// The action, with its texts taken by their views.
pub enum PassStep {
    Probe,
    Select(Seq<char>),
    Stop,
    Fail(Seq<char>),
    Ignore,
}

impl View for PassAction {
    type V = PassStep;

    open spec fn view(&self) -> PassStep {
        match self {
            PassAction::Probe => PassStep::Probe,
            PassAction::Select(id) => PassStep::Select(id@),
            PassAction::Stop => PassStep::Stop,
            PassAction::Fail(e) => PassStep::Fail(e@),
            PassAction::Ignore => PassStep::Ignore,
        }
    }
}

/// The care for one rule.
#[derive(Debug)]
pub struct RulePass {
    pub rule_id: String,
    pub state: PassState,
}

/// The best answer: the id of its node and its latency.
pub open spec fn best_answer(results: Seq<LatencyResult>) -> Option<(Seq<char>, u32)> {
    match best_result(results, answer_scores(results)) {
        Some(i) => Some((results[i].id@, results[i].latency_ms->0)),
        None => None,
    }
}

/// The states of the rules, where the care stands, and the action, after an event.
pub struct PassNext {
    pub states: States,
    pub over: bool,
    pub action: PassStep,
}

pub open spec fn pass_over(states: States, action: PassStep) -> PassNext {
    PassNext { states, over: true, action }
}

/// What the care for a rule does next. A probe that failed, and a selection that did, count
/// as failures of the rule; that a node is missing does not.
pub open spec fn next_pass(m: States, id: Seq<char>, s: PassState, e: PassEvent, now_ms: u64) ->
    PassNext {
    let failed = m.insert(id, failed_state(m, id, now_ms));
    match (s, e) {
        (PassState::Probing, PassEvent::NotProbed(error)) => pass_over(
            failed,
            PassStep::Fail(error@),
        ),
        (PassState::Probing, PassEvent::Probed(results)) => {
            let best = best_answer(results@);
            let noted = rule_noted(m, id, best, now_ms);
            match rule_step(m, id, best) {
                RuleStep::Select => PassNext {
                    states: noted,
                    over: false,
                    action: PassStep::Select((best->0).0),
                },
                _ => pass_over(noted, PassStep::Stop),
            }
        },
        (PassState::Selecting(node, ms), PassEvent::Selected) => pass_over(
            m.insert(
                id,
                RuleState {
                    last_switch: Some(now_ms),
                    last_probe: now_ms,
                    consecutive_probe_fails: 0,
                    last_node_id: Some(node),
                    last_latency_ms: Some(ms),
                },
            ),
            PassStep::Stop,
        ),
        (PassState::Selecting(node, _), PassEvent::Missing) => pass_over(
            m,
            PassStep::Fail("node "@ + node@ + " missing"@),
        ),
        (PassState::Selecting(_, _), PassEvent::NotSelected(error)) => pass_over(
            failed,
            PassStep::Fail(error@),
        ),
        _ => PassNext { states: m, over: s is Over, action: PassStep::Ignore },
    }
}

impl RulePass {
    /// The care begins where the rule is due and its pool has a node.
    pub fn begin(states: &RuleStates, rule_id: String, has_pool: bool, now_ms: u64) -> (r: (
        Self,
        PassAction,
    ))
        ensures
            r.0.rule_id == rule_id,
            is_rule_due(states@, rule_id@, now_ms) && has_pool ==> r.0.state is Probing && r.1@
                == PassStep::Probe,
            !(is_rule_due(states@, rule_id@, now_ms) && has_pool) ==> r.0.state is Over && r.1@
                == PassStep::Stop,
    {
        if states.rule_due(rule_id.as_str(), now_ms) && has_pool {
            (RulePass { rule_id, state: PassState::Probing }, PassAction::Probe)
        } else {
            (RulePass { rule_id, state: PassState::Over }, PassAction::Stop)
        }
    }

    /// What the care does next.
    pub fn step(self, states: &mut RuleStates, event: PassEvent, now_ms: u64) -> (r: (
        Self,
        PassAction,
    ))
        ensures
            ({
                let n = next_pass(old(states)@, self.rule_id@, self.state, event, now_ms);
                &&& final(states)@ == n.states
                &&& r.1@ == n.action
                &&& r.0.rule_id == self.rule_id
                &&& r.0.state is Over <==> n.over
                &&& n.action is Ignore ==> r.0.state == self.state
                &&& n.action is Select ==> {
                    &&& r.0.state is Selecting
                    &&& r.0.state->Selecting_0@ == n.action->Select_0
                    &&& Some((r.0.state->Selecting_0@, r.0.state->Selecting_1)) == best_answer(event->Probed_0@)
                }
            }),
    {
        let RulePass { rule_id, state } = self;
        match (state, event) {
            (PassState::Probing, PassEvent::NotProbed(error)) => {
                states.record_rule_probe_failure(rule_id.as_str(), now_ms);
                (RulePass { rule_id, state: PassState::Over }, PassAction::Fail(error))
            },
            (PassState::Probing, PassEvent::Probed(results)) => {
                let scores = scores_of_answers(&results);
                match find_best(&results, &scores) {
                    None => {
                        let _ = states.rule_probed(rule_id.as_str(), None, now_ms);
                        (RulePass { rule_id, state: PassState::Over }, PassAction::Stop)
                    },
                    Some(i) => {
                        let ms: u32 = match results[i].latency_ms {
                            Some(ms) => ms,
                            None => 0,
                        };
                        let id = results[i].id.clone();
                        match states.rule_probed(
                            rule_id.as_str(),
                            Some((results[i].id.as_str(), ms)),
                            now_ms,
                        ) {
                            RuleStep::Select => {
                                let chosen = id.clone();
                                (
                                    RulePass { rule_id, state: PassState::Selecting(chosen, ms) },
                                    PassAction::Select(id),
                                )
                            },
                            _ => (RulePass { rule_id, state: PassState::Over }, PassAction::Stop),
                        }
                    },
                }
            },
            (PassState::Selecting(node, ms), PassEvent::Selected) => {
                states.rule_selected(rule_id.as_str(), node, ms, now_ms);
                (RulePass { rule_id, state: PassState::Over }, PassAction::Stop)
            },
            (PassState::Selecting(node, _), PassEvent::Missing) => {
                let error = missing_node(node.as_str());
                (RulePass { rule_id, state: PassState::Over }, PassAction::Fail(error))
            },
            (PassState::Selecting(_, _), PassEvent::NotSelected(error)) => {
                states.record_rule_probe_failure(rule_id.as_str(), now_ms);
                (RulePass { rule_id, state: PassState::Over }, PassAction::Fail(error))
            },
            (state, _) => (RulePass { rule_id, state }, PassAction::Ignore),
        }
    }
}

/// A pool that was probed, whatever came of it, is not probed again at once.
pub proof fn law_pool_rests_after_a_probe(
    m: States,
    id: Seq<char>,
    s: PassState,
    e: PassEvent,
    now_ms: u64,
)
    requires
        next_pass(m, id, s, e, now_ms).over,
        !(next_pass(m, id, s, e, now_ms).action is Ignore),
        !(e is Missing),
    ensures
        !is_rule_due(next_pass(m, id, s, e, now_ms).states, id, now_ms),
{
}

/// A node is selected for a rule only where the latency of the node before is not known, or
/// the best answer is worth a change from it.
pub proof fn law_rule_selection_is_worth_it(
    m: States,
    id: Seq<char>,
    s: PassState,
    e: PassEvent,
    now_ms: u64,
)
    requires
        next_pass(m, id, s, e, now_ms).action is Select,
        m.contains_key(id),
        m[id].last_latency_ms is Some,
    ensures
        e is Probed,
        best_answer(e->Probed_0@) is Some,
        is_worth((best_answer(e->Probed_0@)->0).1, m[id].last_latency_ms->0),
{
}

} // verus!
