//! The first choice of a node, when the automatic change is turned on.

use crate::core_kind::CoreKind;
use crate::services::latency::LatencyResult;
use crate::smart_switch::{Controller, ControllerModel, Phase};
use crate::text::{concat3, opt_view, same};
use vstd::prelude::*;

verus! {

/// What the first choice came to.
#[derive(Debug)]
pub struct SmartSwitchNowResult {
    pub switched: bool,
    pub from_id: Option<String>,
    pub to_id: Option<String>,
    pub to_name: Option<String>,
    pub latency_ms: Option<u32>,
    pub probed: u32,
    pub message: String,
}

/// What the first choice came to, over texts.
#[verifier::ext_equal]
pub struct ChoiceResult {
    pub switched: bool,
    pub from: Option<Seq<char>>,
    pub to: Option<Seq<char>>,
    pub to_name: Option<Seq<char>>,
    pub latency_ms: Option<u32>,
    pub probed: u32,
    pub message: Seq<char>,
}

impl View for SmartSwitchNowResult {
    type V = ChoiceResult;

    open spec fn view(&self) -> ChoiceResult {
        ChoiceResult {
            switched: self.switched,
            from: opt_view(self.from_id),
            to: opt_view(self.to_id),
            to_name: opt_view(self.to_name),
            latency_ms: self.latency_ms,
            probed: self.probed,
            message: self.message@,
        }
    }
}

/// A choice that changed nothing.
pub open spec fn unchanged(from: Option<Seq<char>>, probed: u32, message: Seq<char>) -> ChoiceResult {
    ChoiceResult {
        switched: false,
        from,
        to: None,
        to_name: None,
        latency_ms: None,
        probed,
        message,
    }
}

/// A choice that found the best node: its id, its name and its latency.
pub open spec fn found(
    from: Option<Seq<char>>,
    probed: u32,
    best: (Seq<char>, Seq<char>, u32),
) -> ChoiceResult {
    ChoiceResult {
        switched: from != Some(best.0),
        from,
        to: Some(best.0),
        to_name: Some(best.1),
        latency_ms: Some(best.2),
        probed,
        message: if from == Some(best.0) {
            "already best"@
        } else {
            "switched"@
        },
    }
}

/// What keeps the first choice from being made.
pub open spec fn choice_refusal(running: bool, custom: bool, kind: CoreKind) -> Option<Seq<char>> {
    if !running {
        Some("core not running"@)
    } else if custom {
        Some("custom runtime mode"@)
    } else if kind == CoreKind::Xray {
        Some("smart switch requires the sing-box core"@)
    } else {
        None
    }
}

/// Why the first choice is not made; nothing where it is.
pub fn bootstrap_refusal(running: bool, custom: bool, kind: CoreKind) -> (r: Option<&'static str>)
    ensures
        match choice_refusal(running, custom, kind) {
            Some(m) => r is Some && r->0@ == m,
            None => r is None,
        },
{
    if !running {
        return Some("core not running");
    }
    if custom {
        return Some("custom runtime mode");
    }
    if kind == CoreKind::Xray {
        return Some("smart switch requires the sing-box core");
    }
    None
}

/// A choice that changed nothing.
pub fn unchanged_result(from_id: Option<String>, probed: u32, message: &str) -> (r:
    SmartSwitchNowResult)
    ensures
        r@ == unchanged(opt_view(from_id), probed, message@),
{
    SmartSwitchNowResult {
        switched: false,
        from_id,
        to_id: None,
        to_name: None,
        latency_ms: None,
        probed,
        message: message.to_owned(),
    }
}

/// The best node so far.
#[derive(Debug)]
pub struct BestNode {
    pub id: String,
    pub name: String,
    pub latency_ms: u32,
}

/// The progress of the first choice.
#[derive(Debug)]
pub struct Bootstrap {
    pub probed: u32,
    pub best: Option<BestNode>,
}

/// The best node: its id, its name and its latency.
pub open spec fn best_view(b: Option<BestNode>) -> Option<(Seq<char>, Seq<char>, u32)> {
    match b {
        Some(n) => Some((n.id@, n.name@, n.latency_ms)),
        None => None,
    }
}

/// The best node after more results: the first one of the lowest latency.
pub open spec fn best_after(
    best: Option<(Seq<char>, Seq<char>, u32)>,
    results: Seq<LatencyResult>,
) -> Option<(Seq<char>, Seq<char>, u32)>
    decreases results.len(),
{
    if results.len() == 0 {
        best
    } else {
        let before = best_after(best, results.drop_last());
        let r = results.last();
        match r.latency_ms {
            Some(ms) => if before is None || ms < (before->0).2 {
                Some((r.id@, r.name@, ms))
            } else {
                before
            },
            None => before,
        }
    }
}

pub open spec fn count_added(probed: u32, n: nat) -> u32 {
    if probed + (n as u32) > u32::MAX {
        u32::MAX
    } else {
        (probed + (n as u32)) as u32
    }
}

impl Bootstrap {
    pub fn new() -> (r: Self)
        ensures
            r.probed == 0,
            r.best is None,
    {
        Bootstrap { probed: 0, best: None }
    }

    /// Takes the results of a batch over.
    pub fn absorb(&mut self, results: &Vec<LatencyResult>)
        ensures
            best_view(final(self).best) == best_after(best_view(old(self).best), results@),
            final(self).probed == count_added(old(self).probed, results@.len()),
    {
        let ghost start = best_view(self.best);
        self.probed = self.probed.saturating_add(results.len() as u32);
        proof {
            assert(results@.take(0) =~= Seq::empty());
        }
        for i in 0..results.len()
            invariant
                best_view(self.best) == best_after(start, results@.take(i as int)),
                self.probed == count_added(old(self).probed, results@.len()),
        {
            proof {
                assert(results@.take(i + 1).drop_last() =~= results@.take(i as int));
                assert(results@.take(i + 1).last() == results@[i as int]);
            }
            let r = &results[i];
            if let Some(ms) = r.latency_ms {
                let better = match &self.best {
                    Some(b) => ms < b.latency_ms,
                    None => true,
                };
                if better {
                    self.best = Some(
                        BestNode { id: r.id.clone(), name: r.name.clone(), latency_ms: ms },
                    );
                }
            }
        }
        proof {
            assert(results@.take(results@.len() as int) =~= results@);
        }
    }

    /// The result of the probes: the best node, or nothing where none answered.
    pub fn conclude(self, current_id: Option<String>) -> (r: SmartSwitchNowResult)
        ensures
            r@ == match best_view(self.best) {
                Some(b) => found(opt_view(current_id), self.probed, b),
                None => unchanged(opt_view(current_id), self.probed, "all probes failed"@),
            },
    {
        match self.best {
            None => unchanged_result(current_id, self.probed, "all probes failed"),
            Some(b) => {
                let known = match &current_id {
                    Some(c) => same(c.as_str(), b.id.as_str()),
                    None => false,
                };
                let message = if known {
                    "already best"
                } else {
                    "switched"
                };
                SmartSwitchNowResult {
                    switched: !known,
                    from_id: current_id,
                    to_id: Some(b.id),
                    to_name: Some(b.name),
                    latency_ms: Some(b.latency_ms),
                    probed: self.probed,
                    message: message.to_owned(),
                }
            },
        }
    }
}

impl Controller {
    /// The first choice begins.
    pub fn bootstrap_begins(&mut self, now_ms: u64)
        ensures
            final(self)@ == crate::smart_switch::over_forgotten(old(self)@, now_ms).in_phase(
                Phase::Probing,
            ),
    {
        self.clear_eject_if_expired(now_ms);
        self.set_phase(Phase::Probing);
    }

    /// The first choice found the selected node to be the best.
    pub fn stays_best(&mut self, now_ms: u64)
        ensures
            final(self)@ == (ControllerModel {
                last_switch: Some(now_ms),
                fails: 0,
                last_health_probe: Some(now_ms),
                phase: Phase::Fine,
                ..old(self)@
            }),
    {
        self.last_switch = Some(now_ms);
        self.consecutive_probe_fails = 0;
        self.last_health_probe = Some(now_ms);
        self.set_phase(Phase::Fine);
    }

    /// The first choice selected another node.
    pub fn bootstrap_switched(&mut self, now_ms: u64)
        ensures
            final(self)@ == (ControllerModel {
                last_health_probe: Some(now_ms),
                ..crate::smart_switch::switched_at(old(self)@, now_ms)
            }),
    {
        self.mark_switched(now_ms);
        self.last_health_probe = Some(now_ms);
    }
}

/// What is said of a selected node that does not exist.
pub fn missing_node(id: &str) -> (r: String)
    ensures
        r@ == "node "@ + id@ + " missing"@,
{
    concat3("node ", id, " missing")
}

/// The first choice keeps the lowest latency of all that answered.
pub proof fn law_best_is_the_lowest(
    best: Option<(Seq<char>, Seq<char>, u32)>,
    results: Seq<LatencyResult>,
    i: int,
)
    requires
        0 <= i < results.len(),
        results[i].latency_ms is Some,
    ensures
        best_after(best, results) is Some,
        (best_after(best, results)->0).2 <= results[i].latency_ms->0,
        best is Some ==> (best_after(best, results)->0).2 <= (best->0).2,
    decreases results.len(),
{
    let t = results.drop_last();
    lemma_best_falls(best, t);
    if i < t.len() {
        assert(t[i] == results[i]);
        law_best_is_the_lowest(best, t, i);
    }
}

proof fn lemma_best_falls(
    best: Option<(Seq<char>, Seq<char>, u32)>,
    results: Seq<LatencyResult>,
)
    ensures
        best is Some ==> best_after(best, results) is Some && (best_after(best, results)->0).2
            <= (best->0).2,
    decreases results.len(),
{
    if results.len() > 0 {
        lemma_best_falls(best, results.drop_last());
    }
}

} // verus!
