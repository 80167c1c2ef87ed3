//! Rules and rule sets whose traffic goes to the best node of a pool.

use crate::core_kind::CoreKind;
use crate::domain::node::ProxyNode;
use crate::domain::rule::{
    name_allowed, rule_views, Rule, RuleModel, RuleSet, RuleSetStrategy, RuleTarget, RuleType,
};
use crate::order::{index_seq, key_views, KeyModel, SortKey};
use crate::runtime::rise;
use crate::smart_switch::{
    best_options, first_by_keys, is_within, is_worth, one_more, plain_scores, score_keys,
    scores_of_nodes, should_prefer, COOLDOWN_MS, MIN_DWELL_MS,
};
use crate::table::{distinct_keys, has_key, map_of_rows, row_of, Table};
use crate::text::{clone_opt, clone_strings, list_holds, opt_view, same, views};
use vstd::prelude::*;

verus! {

/// Milliseconds between two probes of the pool of a rule.
pub const RULE_PROBE_INTERVAL_MS: u64 = 600000;

/// Milliseconds behind the first failure.
pub const RULE_FAILURE_RETRY_BASE_MS: u64 = 60000;

/// How many nodes of a pool are probed.
pub const RULE_POOL_MAX: usize = 8;

/// What is kept of a rule. Moments are milliseconds of a steady clock.
#[derive(Debug)]
pub struct RuleState {
    pub last_switch: Option<u64>,
    pub last_probe: u64,
    pub consecutive_probe_fails: u32,
    pub last_node_id: Option<String>,
    pub last_latency_ms: Option<u32>,
}

impl Clone for RuleState {
    fn clone(&self) -> (r: Self)
        ensures
            r == *self,
    {
        RuleState {
            last_switch: self.last_switch,
            last_probe: self.last_probe,
            consecutive_probe_fails: self.consecutive_probe_fails,
            last_node_id: clone_opt(&self.last_node_id),
            last_latency_ms: self.last_latency_ms,
        }
    }
}

/// Milliseconds to the next probe: each failure doubles the time, up to the usual one.
pub open spec fn probe_span(fails: u32) -> u64 {
    if fails == 0 {
        RULE_PROBE_INTERVAL_MS
    } else if fails == 1 {
        60000
    } else if fails == 2 {
        120000
    } else if fails == 3 {
        240000
    } else if fails == 4 {
        480000
    } else {
        RULE_PROBE_INTERVAL_MS
    }
}

pub fn rule_probe_interval(consecutive_fails: u32) -> (r: u64)
    ensures
        r == probe_span(consecutive_fails),
{
    if consecutive_fails == 0 {
        return RULE_PROBE_INTERVAL_MS;
    }
    let mut span: u64 = RULE_FAILURE_RETRY_BASE_MS;
    let mut i: u32 = 1;
    while i < consecutive_fails && i < 5
        invariant
            1 <= i <= 5,
            i <= consecutive_fails,
            span == 60000 || i > 1,
            i == 2 ==> span == 120000,
            i == 3 ==> span == 240000,
            i == 4 ==> span == 480000,
            i == 5 ==> span == 960000,
        decreases 5 - i,
    {
        span = span * 2;
        i += 1;
    }
    if span > RULE_PROBE_INTERVAL_MS {
        RULE_PROBE_INTERVAL_MS
    } else {
        span
    }
}

/// The more failures, the longer the wait, but never longer than the usual one.
pub proof fn law_failures_back_off(a: u32, b: u32)
    requires
        1 <= a <= b,
    ensures
        RULE_FAILURE_RETRY_BASE_MS <= probe_span(a) <= probe_span(b) <= RULE_PROBE_INTERVAL_MS,
{
}

/// The states of the rules, by their ids.
#[derive(Debug)]
pub struct RuleStates {
    pub states: Table<RuleState>,
}

pub type States = Map<Seq<char>, RuleState>;

impl View for RuleStates {
    type V = States;

    open spec fn view(&self) -> States {
        self.states@
    }
}

/// The pool of the rule is probed now.
pub open spec fn is_rule_due(m: States, id: Seq<char>, now_ms: u64) -> bool {
    !m.contains_key(id) || {
        let s = m[id];
        &&& !is_within(s.last_switch, MIN_DWELL_MS + COOLDOWN_MS, now_ms)
        &&& rise(s.last_probe, now_ms) >= probe_span(s.consecutive_probe_fails)
    }
}

/// The state after a failure.
pub open spec fn failed_state(m: States, id: Seq<char>, now_ms: u64) -> RuleState {
    if m.contains_key(id) {
        RuleState {
            last_probe: now_ms,
            consecutive_probe_fails: one_more(m[id].consecutive_probe_fails),
            ..m[id]
        }
    } else {
        RuleState {
            last_switch: None,
            last_probe: now_ms,
            consecutive_probe_fails: 1,
            last_node_id: None,
            last_latency_ms: None,
        }
    }
}

/// What follows a probe of a pool.
#[derive(Debug, Clone, Copy, PartialEq, Eq, Structural)]
pub enum RuleStep {
    /// No node answered.
    Failed,
    /// The node of the rule stays.
    Kept,
    /// The best node is selected.
    Select,
}

/// The step after a probe in which `best` was the best node.
pub open spec fn rule_step(m: States, id: Seq<char>, best: Option<(Seq<char>, u32)>) -> RuleStep {
    match best {
        None => RuleStep::Failed,
        Some((node, ms)) => if m.contains_key(id) && opt_view(m[id].last_node_id) == Some(node) {
            RuleStep::Kept
        } else if m.contains_key(id) && m[id].last_latency_ms is Some && !is_worth(
            ms,
            m[id].last_latency_ms->0,
        ) {
            RuleStep::Kept
        } else {
            RuleStep::Select
        },
    }
}

pub open spec fn pair_view(b: Option<(&str, u32)>) -> Option<(Seq<char>, u32)> {
    match b {
        Some((id, ms)) => Some((id@, ms)),
        None => None,
    }
}

/// The states after a probe in which `best` was the best node. A node that stays has its
/// latency noted where it was the best.
pub open spec fn rule_noted(
    m: States,
    id: Seq<char>,
    best: Option<(Seq<char>, u32)>,
    now_ms: u64,
) -> States {
    match rule_step(m, id, best) {
        RuleStep::Failed => m.insert(id, failed_state(m, id, now_ms)),
        RuleStep::Kept => m.insert(
            id,
            RuleState {
                last_probe: now_ms,
                consecutive_probe_fails: 0,
                last_latency_ms: if opt_view(m[id].last_node_id) == Some((best->0).0) {
                    Some((best->0).1)
                } else {
                    m[id].last_latency_ms
                },
                ..m[id]
            },
        ),
        RuleStep::Select => m,
    }
}

impl RuleStates {
    pub fn new() -> (r: Self)
        ensures
            r@ == Map::<Seq<char>, RuleState>::empty(),
    {
        RuleStates { states: Table::new() }
    }

    /// The pool of the rule is probed now.
    pub fn rule_due(&self, rule_id: &str, now_ms: u64) -> (r: bool)
        ensures
            r == is_rule_due(self@, rule_id@, now_ms),
    {
        match self.states.get(rule_id) {
            None => true,
            Some(s) => {
                let recent = match s.last_switch {
                    Some(t) => now_ms.saturating_sub(t) < MIN_DWELL_MS + COOLDOWN_MS,
                    None => false,
                };
                !recent && now_ms.saturating_sub(s.last_probe) >= rule_probe_interval(
                    s.consecutive_probe_fails,
                )
            },
        }
    }

    /// A probe of the pool failed.
    pub fn record_rule_probe_failure(&mut self, rule_id: &str, now_ms: u64)
        ensures
            final(self)@ == old(self)@.insert(rule_id@, failed_state(old(self)@, rule_id@, now_ms)),
    {
        let state = match self.states.get(rule_id) {
            Some(s) => {
                let mut n = s.clone();
                n.last_probe = now_ms;
                n.consecutive_probe_fails = s.consecutive_probe_fails.saturating_add(1);
                n
            },
            None => RuleState {
                last_switch: None,
                last_probe: now_ms,
                consecutive_probe_fails: 1,
                last_node_id: None,
                last_latency_ms: None,
            },
        };
        self.states.insert(rule_id.to_owned(), state);
    }

    /// The pool was probed, and `best` was the best node.
    pub fn rule_probed(&mut self, rule_id: &str, best: Option<(&str, u32)>, now_ms: u64) -> (r:
        RuleStep)
        ensures
            r == rule_step(old(self)@, rule_id@, pair_view(best)),
            final(self)@ == rule_noted(old(self)@, rule_id@, pair_view(best), now_ms),
    {
        let (best_id, best_ms) = match best {
            Some((id, ms)) => (id, ms),
            None => {
                self.record_rule_probe_failure(rule_id, now_ms);
                return RuleStep::Failed;
            },
        };
        let state = match self.states.get(rule_id) {
            None => {
                return RuleStep::Select;
            },
            Some(s) => s.clone(),
        };
        let same_node = match &state.last_node_id {
            Some(n) => same(n.as_str(), best_id),
            None => false,
        };
        let mut n = state;
        if same_node {
            n.last_latency_ms = Some(best_ms);
        } else {
            let stays = match n.last_latency_ms {
                Some(cur) => !should_prefer(best_ms, cur),
                None => false,
            };
            if !stays {
                return RuleStep::Select;
            }
        }
        n.last_probe = now_ms;
        n.consecutive_probe_fails = 0;
        self.states.insert(rule_id.to_owned(), n);
        RuleStep::Kept
    }

    /// The best node of the pool was selected.
    pub fn rule_selected(&mut self, rule_id: &str, node_id: String, latency_ms: u32, now_ms: u64)
        ensures
            final(self)@ == old(self)@.insert(
                rule_id@,
                (RuleState {
                    last_switch: Some(now_ms),
                    last_probe: now_ms,
                    consecutive_probe_fails: 0,
                    last_node_id: Some(node_id),
                    last_latency_ms: Some(latency_ms),
                }),
            ),
    {
        self.states.insert(
            rule_id.to_owned(),
            RuleState {
                last_switch: Some(now_ms),
                last_probe: now_ms,
                consecutive_probe_fails: 0,
                last_node_id: Some(node_id),
                last_latency_ms: Some(latency_ms),
            },
        );
    }

    /// A rule that was just saved is probed at once.
    pub fn forget_rule(&mut self, rule_id: &str)
        ensures
            final(self)@ == old(self)@.remove(rule_id@),
    {
        let _ = self.states.remove(rule_id);
    }

    /// Forgets the rules that are not there any more.
    pub fn retain_rules(&mut self, active: &Vec<String>)
        ensures
            forall|k: Seq<char>| #[trigger]
                final(self)@.contains_key(k) <==> old(self)@.contains_key(k) && views(
                    active@,
                ).contains(k),
            forall|k: Seq<char>|
                final(self)@.contains_key(k) ==> #[trigger] final(self)@[k] == old(self)@[k],
    {
        let ghost m = self@;
        let n: usize = self.states.len();
        let ghost rows = self.states.rows();
        let mut gone: Vec<String> = Vec::new();
        for i in 0..n
            invariant
                n == rows.len(),
                rows == self.states.rows(),
                self@ == m,
                m == map_of_rows(rows),
                distinct_keys(rows),
                forall|a: int|
                    0 <= a < gone@.len() ==> !views(active@).contains((#[trigger] gone@[a])@),
                forall|x: int|
                    0 <= x < i && !views(active@).contains((#[trigger] rows[x]).0@) ==> exists|
                        a: int,
                    |
                        0 <= a < gone@.len() && (#[trigger] gone@[a])@ == rows[x].0@,
        {
            let ghost before = gone@;
            if !list_holds(active, self.states.key_at(i).as_str()) {
                gone.push(self.states.key_at(i).clone());
                proof {
                    assert(gone@[before.len() as int]@ == rows[i as int].0@);
                }
            }
            proof {
                assert forall|x: int|
                    0 <= x < i + 1 && !views(active@).contains(
                        (#[trigger] rows[x]).0@,
                    ) implies exists|a: int|
                    0 <= a < gone@.len() && (#[trigger] gone@[a])@ == rows[x].0@ by {
                    if x < i {
                        let a = choose|a: int|
                            0 <= a < before.len() && (#[trigger] before[a])@ == rows[x].0@;
                        assert(gone@[a] == before[a]);
                    }
                }
            }
        }
        for i in 0..gone.len()
            invariant
                forall|k: Seq<char>| #[trigger]
                    self@.contains_key(k) ==> m.contains_key(k) && self@[k] == m[k],
                forall|k: Seq<char>|
                    m.contains_key(k) && views(active@).contains(k)
                        ==> #[trigger] self@.contains_key(k),
                forall|a: int| 0 <= a < i ==> !self@.contains_key((#[trigger] gone@[a])@),
                forall|a: int|
                    0 <= a < gone@.len() ==> !views(active@).contains((#[trigger] gone@[a])@),
        {
            let ghost before = self@;
            let _ = self.states.remove(gone[i].as_str());
            proof {
                let g = gone@[i as int]@;
                assert(self@ == before.remove(g));
                assert forall|k: Seq<char>| #[trigger] self@.contains_key(k) implies m.contains_key(
                    k,
                ) && self@[k] == m[k] by {
                    assert(before.contains_key(k));
                }
                assert forall|k: Seq<char>|
                    m.contains_key(k) && views(active@).contains(
                        k,
                    ) implies #[trigger] self@.contains_key(k) by {
                    assert(before.contains_key(k));
                    assert(k != g);
                }
                assert forall|a: int| 0 <= a < i + 1 implies !self@.contains_key(
                    (#[trigger] gone@[a])@,
                ) by {
                    if a < i {
                        assert(!before.contains_key(gone@[a]@));
                    }
                }
            }
        }
        proof {
            assert forall|k: Seq<char>| #[trigger]
                self@.contains_key(k) <==> m.contains_key(k) && views(active@).contains(k) by {
                if m.contains_key(k) && !views(active@).contains(k) {
                    assert(has_key(rows, k));
                    let x = row_of(rows, k);
                    assert(rows[x].0@ == k);
                    let a = choose|a: int|
                        0 <= a < gone@.len() && (#[trigger] gone@[a])@ == rows[x].0@;
                    assert(!self@.contains_key(gone@[a]@));
                }
            }
        }
    }
}

// ---------------------------------------------------------------------------
// The rules
// ---------------------------------------------------------------------------
/// The rule that stands for a whole set whose traffic goes to a pool.
pub open spec fn set_rule(s: RuleSet) -> RuleModel {
    RuleModel {
        id: s.id@,
        ord: 0,
        rule_type: RuleType::DomainSuffix,
        payload: "set"@,
        target: RuleTarget::Smart,
        enabled: true,
        node_id: None,
        node_name: None,
        smart_include: views(s.smart_include@),
        smart_exclude: views(s.smart_exclude@),
        chain_id: None,
        chain_name: None,
    }
}

pub open spec fn is_smart_rule() -> spec_fn(RuleModel) -> bool {
    |r: RuleModel| r.enabled && r.target == RuleTarget::Smart
}

/// The rules of one set whose traffic goes to pools.
pub open spec fn rules_of_set(s: RuleSet) -> Seq<RuleModel> {
    if !s.enabled {
        Seq::empty()
    } else {
        match s.strategy {
            RuleSetStrategy::Filter => seq![set_rule(s)],
            RuleSetStrategy::Smart => rule_views(s.rules@).filter(is_smart_rule()),
            _ => Seq::empty(),
        }
    }
}

/// The rules of all sets whose traffic goes to pools.
pub open spec fn smart_rules(sets: Seq<RuleSet>) -> Seq<RuleModel>
    decreases sets.len(),
{
    if sets.len() == 0 {
        Seq::empty()
    } else {
        smart_rules(sets.drop_last()) + rules_of_set(sets.last())
    }
}

/// Adds the rules of one set.
fn add_rules_of_set(out: &mut Vec<Rule>, s: &RuleSet)
    ensures
        rule_views(final(out)@) == rule_views(old(out)@) + rules_of_set(*s),
{
    let ghost start = rule_views(out@);
    if !s.enabled {
        proof {
            assert(start + Seq::<RuleModel>::empty() =~= start);
        }
        return ;
    }
    match s.strategy {
        RuleSetStrategy::Filter => {
            let ghost before = out@;
            let rule = Rule {
                id: s.id.clone(),
                ord: 0,
                rule_type: RuleType::DomainSuffix,
                payload: "set".to_owned(),
                target: RuleTarget::Smart,
                enabled: true,
                node_id: None,
                node_name: None,
                smart_include: clone_strings(&s.smart_include),
                smart_exclude: clone_strings(&s.smart_exclude),
                chain_id: None,
                chain_name: None,
            };
            let ghost m = rule@;
            out.push(rule);
            proof {
                assert(rule_views(out@) =~= start + seq![m]);
            }
        },
        RuleSetStrategy::Smart => {
            let ghost models = rule_views(s.rules@);
            let ghost keep = is_smart_rule();
            proof {
                reveal(Seq::filter);
                assert(models.take(0).filter(keep) =~= Seq::empty());
                assert(start + models.take(0).filter(keep) =~= start);
            }
            for i in 0..s.rules.len()
                invariant
                    models == rule_views(s.rules@),
                    keep == is_smart_rule(),
                    rule_views(out@) == start + models.take(i as int).filter(keep),
            {
                let ghost before = out@;
                proof {
                    reveal(Seq::filter);
                    assert(models.take(i + 1).drop_last() =~= models.take(i as int));
                    assert(models.take(i + 1).last() == s.rules@[i as int]@);
                }
                if s.rules[i].enabled && s.rules[i].target == RuleTarget::Smart {
                    out.push(s.rules[i].clone());
                    proof {
                        assert(rule_views(out@) =~= rule_views(before).push(s.rules@[i as int]@));
                        assert(start + models.take(i + 1).filter(keep) =~= (start + models.take(
                            i as int,
                        ).filter(keep)).push(s.rules@[i as int]@));
                    }
                }
            }
            proof {
                assert(models.take(models.len() as int) =~= models);
            }
        },
        _ => {
            proof {
                assert(start + Seq::<RuleModel>::empty() =~= start);
            }
        },
    }
}

/// The rules whose traffic goes to pools. A whole set that does is one rule, under the id of
/// the set.
pub fn collect_enabled_smart_rules(sets: &Vec<RuleSet>) -> (r: Vec<Rule>)
    ensures
        rule_views(r@) == smart_rules(sets@),
{
    let mut out: Vec<Rule> = Vec::new();
    proof {
        assert(sets@.take(0) =~= Seq::empty());
        assert(rule_views(out@) =~= Seq::empty());
    }
    for i in 0..sets.len()
        invariant
            rule_views(out@) == smart_rules(sets@.take(i as int)),
    {
        proof {
            assert(sets@.take(i + 1).drop_last() =~= sets@.take(i as int));
            assert(sets@.take(i + 1).last() == sets@[i as int]);
        }
        add_rules_of_set(&mut out, &sets[i]);
    }
    proof {
        assert(sets@.take(sets@.len() as int) =~= sets@);
    }
    out
}

/// A rule that was just saved is probed.
pub fn refreshes_now(rule: &Rule, running: bool) -> (r: bool)
    ensures
        r == (rule.target == RuleTarget::Smart && rule.enabled && running),
{
    rule.target == RuleTarget::Smart && rule.enabled && running
}

// ---------------------------------------------------------------------------
// The pool
// ---------------------------------------------------------------------------
/// The core serves the node, and the rule allows its name.
pub open spec fn in_pool(n: ProxyNode, kind: CoreKind, rule: RuleModel) -> bool {
    kind.serves_node(n) && name_allowed(n.name@, rule.smart_include, rule.smart_exclude)
}

/// The positions of the nodes of a rule's pool that are not left out.
pub open spec fn pool_members(
    nodes: Seq<ProxyNode>,
    kind: CoreKind,
    wanted: Seq<Seq<char>>,
    unwanted: Seq<Seq<char>>,
    ejected: Seq<Seq<char>>,
) -> Seq<int>
    decreases nodes.len(),
{
    if nodes.len() == 0 {
        Seq::empty()
    } else {
        let before = pool_members(nodes.drop_last(), kind, wanted, unwanted, ejected);
        let n = nodes.last();
        if kind.serves_node(n) && name_allowed(n.name@, wanted, unwanted) && !ejected.contains(
            n.id@,
        ) {
            before.push(nodes.len() - 1)
        } else {
            before
        }
    }
}

/// The pool of the rule has a node, left out or not.
pub fn has_pool(rule: &Rule, nodes: &Vec<ProxyNode>, kind: CoreKind) -> (r: bool)
    ensures
        r == exists|i: int|
            0 <= i < nodes@.len() && in_pool(#[trigger] nodes@[i], kind, rule@),
{
    for i in 0..nodes.len()
        invariant
            forall|j: int| 0 <= j < i ==> !in_pool(#[trigger] nodes@[j], kind, rule@),
    {
        let n = &nodes[i];
        if kind.supports_node(n) && rule.smart_name_matches(n.name.as_str()) {
            assert(in_pool(nodes@[i as int], kind, rule@));
            return true;
        }
    }
    false
}

/// The nodes of a rule's pool that are probed, by their positions: those that the core
/// serves, whose names the rule allows, and that are not left out, the best first by the
/// latencies that they last had.
pub fn pool_candidates(
    rule: &Rule,
    nodes: &Vec<ProxyNode>,
    kind: CoreKind,
    ejected: &Vec<String>,
) -> (r: Vec<usize>)
    ensures
        index_seq(r@) == best_options(
            nodes@,
            pool_members(
                nodes@,
                kind,
                rule@.smart_include,
                rule@.smart_exclude,
                views(ejected@),
            ),
            plain_scores(nodes@),
            RULE_POOL_MAX as int,
        ),
{
    let scores = scores_of_nodes(nodes);
    let ghost wanted = rule@.smart_include;
    let ghost unwanted = rule@.smart_exclude;
    let ghost out_ids = views(ejected@);
    let mut at: Vec<usize> = Vec::new();
    let mut keys: Vec<SortKey> = Vec::new();
    proof {
        assert(nodes@.take(0) =~= Seq::empty());
        assert(index_seq(at@) =~= Seq::empty());
    }
    for i in 0..nodes.len()
        invariant
            scores@.len() == nodes@.len(),
            wanted == rule@.smart_include,
            unwanted == rule@.smart_exclude,
            out_ids == views(ejected@),
            index_seq(at@) == pool_members(
                nodes@.take(i as int),
                kind,
                wanted,
                unwanted,
                out_ids,
            ),
            keys@.len() == at@.len(),
            forall|j: int|
                0 <= j < at@.len() ==> (#[trigger] at@[j]) < i && keys@[j]@ == (KeyModel {
                    rank: scores@[at@[j] as int] as int,
                    name: nodes@[at@[j] as int].name@,
                }),
    {
        let ghost before = at@;
        proof {
            assert(nodes@.take(i + 1).drop_last() =~= nodes@.take(i as int));
            assert(nodes@.take(i + 1).last() == nodes@[i as int]);
        }
        let n = &nodes[i];
        if kind.supports_node(n) && rule.smart_name_matches(n.name.as_str()) && !list_holds(
            ejected,
            n.id.as_str(),
        ) {
            at.push(i);
            keys.push(SortKey { rank: scores[i] as i128, name: n.name.clone() });
            proof {
                assert(index_seq(at@) =~= index_seq(before).push(i as int));
            }
        }
    }
    let ghost places = index_seq(at@);
    proof {
        assert(nodes@.take(nodes@.len() as int) =~= nodes@);
        assert forall|j: int| 0 <= j < keys@.len() implies key_views(keys@)[j] == score_keys(
            nodes@,
            places,
            scores@,
        )[j] by {
            assert(at@[j] == places[j]);
        }
        assert(key_views(keys@) =~= score_keys(nodes@, places, scores@));
    }
    first_by_keys(&at, &keys, RULE_POOL_MAX)
}

} // verus!
