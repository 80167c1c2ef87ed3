//! The automatic change of the selected node.
//!
//! The requests that closed raise a suspicion, a probe confirms it, the best candidates are
//! probed, and the node changes only where that is worth it. A node that was just selected
//! stays for a while, and one that failed is left out for a while.

use crate::core_kind::CoreKind;
use crate::domain::node::ProxyNode;
use crate::health::PassiveNodeStats;
use crate::order::{
    index_seq, is_stable_order, key_views, lemma_order_of, order_of, stable_order, KeyModel,
    SortKey,
};
use crate::runtime::rise;
use crate::services::latency::LatencyResult;
use crate::table::{distinct_keys, has_key, lemma_row, map_of_rows, row_of, Table};
use crate::text::{list_holds, same, str_view, views};
use vstd::prelude::*;

verus! {

/// Milliseconds between two looks at the selected node.
pub const TICK_MS: u64 = 20000;

/// Milliseconds that a node stays after it was selected.
pub const MIN_DWELL_MS: u64 = 120000;

/// Milliseconds behind that in which only a failure changes the node.
pub const COOLDOWN_MS: u64 = 90000;

/// Milliseconds between two probes of a node that does well.
pub const HEALTH_PROBE_INTERVAL_MS: u64 = 600000;

pub const PROBE_TIMEOUT_MS: u64 = 2500;

/// How many candidates are probed.
pub const TOP_K: usize = 6;

pub const CANDIDATE_CONCURRENCY: usize = 3;

/// How many nodes are probed at a time when the change begins.
pub const BOOTSTRAP_BATCH: usize = 8;

/// How many nodes are probed at most when the change begins.
pub const BOOTSTRAP_MAX: usize = 24;

pub const BOOTSTRAP_CONCURRENCY: usize = 4;

/// A node is left for one that is faster by more than this, in milliseconds.
pub const TOLERANCE_MS: u32 = 50;

/// Milliseconds that the requests which closed are looked back on.
pub const PASSIVE_LOOKBACK_MS: i64 = 20000;

pub const PASSIVE_MIN_SAMPLES: u32 = 5;

/// The share of suspicious requests, of a hundred, that raises a suspicion.
pub const PASSIVE_FAIL_PERCENT: u32 = 15;

/// So many failed probes in a row are a failure.
pub const CONSECUTIVE_PROBE_FAILS: u32 = 2;

#[derive(Debug, Clone, Copy, PartialEq, Eq, Structural)]
pub enum Phase {
    /// Nothing is wrong.
    Fine,
    /// The requests raised a suspicion.
    Suspect,
    /// A probe runs.
    Probing,
    /// The node was just selected.
    Cooldown,
}

impl Phase {
    pub fn as_str(self) -> (r: &'static str)
        ensures
            r@ == self.name(),
    {
        match self {
            Phase::Fine => "ok",
            Phase::Suspect => "suspect",
            Phase::Probing => "probing",
            Phase::Cooldown => "cooldown",
        }
    }

    pub open spec fn name(self) -> Seq<char> {
        match self {
            Phase::Fine => "ok"@,
            Phase::Suspect => "suspect"@,
            Phase::Probing => "probing"@,
            Phase::Cooldown => "cooldown"@,
        }
    }
}

/// Where the change of nodes stands. Moments are milliseconds of a steady clock.
#[derive(Debug)]
pub struct Controller {
    pub phase: Phase,
    pub last_switch: Option<u64>,
    pub last_health_probe: Option<u64>,
    pub consecutive_probe_fails: u32,
    /// Until when nodes are left out, by their ids.
    pub ejected: Table<u64>,
    /// How often nodes were left out, by their ids.
    pub eject_counts: Table<u32>,
}

pub struct ControllerModel {
    pub phase: Phase,
    pub last_switch: Option<u64>,
    pub last_health_probe: Option<u64>,
    pub fails: u32,
    pub ejected: Map<Seq<char>, u64>,
    pub eject_counts: Map<Seq<char>, u32>,
}

impl View for Controller {
    type V = ControllerModel;

    open spec fn view(&self) -> ControllerModel {
        ControllerModel {
            phase: self.phase,
            last_switch: self.last_switch,
            last_health_probe: self.last_health_probe,
            fails: self.consecutive_probe_fails,
            ejected: self.ejected@,
            eject_counts: self.eject_counts@,
        }
    }
}

/// Less than `span` lies behind a moment.
pub open spec fn is_within(moment: Option<u64>, span: int, now_ms: u64) -> bool {
    match moment {
        Some(t) => rise(t, now_ms) < span,
        None => false,
    }
}

impl ControllerModel {
    pub open spec fn in_dwell(self, now_ms: u64) -> bool {
        is_within(self.last_switch, MIN_DWELL_MS as int, now_ms)
    }

    pub open spec fn in_soft_cooldown(self, now_ms: u64) -> bool {
        is_within(self.last_switch, MIN_DWELL_MS + COOLDOWN_MS, now_ms)
    }

    pub open spec fn health_probe_due(self, now_ms: u64) -> bool {
        !is_within(self.last_health_probe, HEALTH_PROBE_INTERVAL_MS as int, now_ms)
    }

    pub open spec fn in_phase(self, phase: Phase) -> ControllerModel {
        ControllerModel { phase, ..self }
    }
}

/// Milliseconds that a node is left out, the more the more often it was.
pub open spec fn eject_span(n: u32) -> u64 {
    if n == 1 {
        30000
    } else if n == 2 {
        120000
    } else if n == 3 {
        600000
    } else {
        1800000
    }
}

pub open spec fn plus_u64(a: u64, b: u64) -> u64 {
    if a + b > u64::MAX {
        u64::MAX
    } else {
        (a + b) as u64
    }
}

pub open spec fn one_more(n: u32) -> u32 {
    if n == u32::MAX {
        n
    } else {
        (n + 1) as u32
    }
}

/// How often the node was left out, once it is left out again.
pub open spec fn next_count(counts: Map<Seq<char>, u32>, id: Seq<char>) -> u32 {
    one_more(
        if counts.contains_key(id) {
            counts[id]
        } else {
            0
        },
    )
}

/// The node is left out.
pub open spec fn node_ejected(c: ControllerModel, id: Seq<char>, now_ms: u64) -> ControllerModel {
    let n = next_count(c.eject_counts, id);
    ControllerModel {
        eject_counts: c.eject_counts.insert(id, n),
        ejected: c.ejected.insert(id, plus_u64(now_ms, eject_span(n))),
        ..c
    }
}

pub open spec fn ejected_if(c: ControllerModel, cond: bool, id: Seq<char>, now_ms: u64) -> ControllerModel {
    if cond {
        node_ejected(c, id, now_ms)
    } else {
        c
    }
}

/// The node's time is over.
pub open spec fn is_over(ejected: Map<Seq<char>, u64>, k: Seq<char>, now_ms: u64) -> bool {
    ejected.contains_key(k) && ejected[k] <= now_ms
}

/// Nodes whose time is over are forgotten, with how often they were left out.
pub open spec fn over_forgotten(c: ControllerModel, now_ms: u64) -> ControllerModel {
    ControllerModel {
        ejected: Map::new(
            |k: Seq<char>| c.ejected.contains_key(k) && !is_over(c.ejected, k, now_ms),
            |k: Seq<char>| c.ejected[k],
        ),
        eject_counts: Map::new(
            |k: Seq<char>| c.eject_counts.contains_key(k) && !is_over(c.ejected, k, now_ms),
            |k: Seq<char>| c.eject_counts[k],
        ),
        ..c
    }
}

/// A node was selected.
pub open spec fn switched_at(c: ControllerModel, now_ms: u64) -> ControllerModel {
    ControllerModel {
        last_switch: Some(now_ms),
        fails: 0,
        phase: Phase::Cooldown,
        ..c
    }
}

impl Default for Controller {
    fn default() -> (r: Self)
        ensures
            r@ == (ControllerModel {
                phase: Phase::Fine,
                last_switch: None,
                last_health_probe: None,
                fails: 0,
                ejected: Map::empty(),
                eject_counts: Map::empty(),
            }),
    {
        Controller {
            phase: Phase::Fine,
            last_switch: None,
            last_health_probe: None,
            consecutive_probe_fails: 0,
            ejected: Table::new(),
            eject_counts: Table::new(),
        }
    }
}

impl Controller {
    pub fn set_phase(&mut self, p: Phase)
        ensures
            final(self)@ == old(self)@.in_phase(p),
    {
        self.phase = p;
    }

    pub fn in_dwell(&self, now_ms: u64) -> (r: bool)
        ensures
            r == self@.in_dwell(now_ms),
    {
        match self.last_switch {
            Some(t) => now_ms.saturating_sub(t) < MIN_DWELL_MS,
            None => false,
        }
    }

    pub fn in_soft_cooldown(&self, now_ms: u64) -> (r: bool)
        ensures
            r == self@.in_soft_cooldown(now_ms),
    {
        match self.last_switch {
            Some(t) => now_ms.saturating_sub(t) < MIN_DWELL_MS + COOLDOWN_MS,
            None => false,
        }
    }

    pub fn health_probe_due(&self, now_ms: u64) -> (r: bool)
        ensures
            r == self@.health_probe_due(now_ms),
    {
        match self.last_health_probe {
            Some(t) => now_ms.saturating_sub(t) >= HEALTH_PROBE_INTERVAL_MS,
            None => true,
        }
    }

    pub fn mark_switched(&mut self, now_ms: u64)
        ensures
            final(self)@ == switched_at(old(self)@, now_ms),
    {
        self.last_switch = Some(now_ms);
        self.consecutive_probe_fails = 0;
        self.phase = Phase::Cooldown;
    }

    /// Leaves a node out, for a time that grows with how often it was left out.
    pub fn eject(&mut self, id: &str, now_ms: u64)
        ensures
            final(self)@ == node_ejected(old(self)@, id@, now_ms),
    {
        let before: u32 = match self.eject_counts.get(id) {
            Some(n) => *n,
            None => 0,
        };
        let n: u32 = before.saturating_add(1);
        let span: u64 = if n == 1 {
            30000
        } else if n == 2 {
            120000
        } else if n == 3 {
            600000
        } else {
            1800000
        };
        self.eject_counts.insert(id.to_owned(), n);
        self.ejected.insert(id.to_owned(), now_ms.saturating_add(span));
    }

    /// The nodes whose time is over.
    fn over_ids(&self, now_ms: u64) -> (r: Vec<String>)
        ensures
            forall|k: Seq<char>| #[trigger]
                views(r@).contains(k) <==> is_over(self@.ejected, k, now_ms),
    {
        let n: usize = self.ejected.len();
        let ghost rows = self.ejected.rows();
        let ghost m = self.ejected@;
        let mut out: Vec<String> = Vec::new();
        for i in 0..n
            invariant
                n == rows.len(),
                rows == self.ejected.rows(),
                m == self.ejected@,
                m == map_of_rows(rows),
                distinct_keys(rows),
                forall|a: int|
                    0 <= a < out@.len() ==> is_over(m, (#[trigger] out@[a])@, now_ms),
                forall|x: int|
                    0 <= x < i && (#[trigger] rows[x]).1 <= now_ms ==> views(out@).contains(
                        rows[x].0@,
                    ),
        {
            let ghost before = out@;
            proof {
                lemma_row(rows, i as int);
            }
            if *self.ejected.value_at(i) <= now_ms {
                out.push(self.ejected.key_at(i).clone());
            }
            proof {
                assert forall|x: int|
                    0 <= x < i + 1 && (#[trigger] rows[x]).1 <= now_ms implies views(
                    out@,
                ).contains(rows[x].0@) by {
                    if x < i {
                        let a = choose|a: int|
                            0 <= a < views(before).len() && views(before)[a] == rows[x].0@;
                        assert(views(out@)[a] == rows[x].0@);
                    } else {
                        assert(views(out@)[before.len() as int] == rows[x].0@);
                    }
                }
            }
        }
        proof {
            assert forall|k: Seq<char>| #[trigger]
                views(out@).contains(k) <==> is_over(m, k, now_ms) by {
                if views(out@).contains(k) {
                    let a = choose|a: int| 0 <= a < views(out@).len() && views(out@)[a] == k;
                    assert(out@[a]@ == k);
                }
                if is_over(m, k, now_ms) {
                    assert(has_key(rows, k));
                    let x = row_of(rows, k);
                    assert(rows[x].0@ == k);
                    lemma_row(rows, x);
                }
            }
        }
        out
    }

    /// Forgets nodes whose time is over, with how often they were left out.
    pub fn clear_eject_if_expired(&mut self, now_ms: u64)
        ensures
            final(self)@ == over_forgotten(old(self)@, now_ms),
    {
        let ghost c = self@;
        let over = self.over_ids(now_ms);
        let ghost ids = views(over@);
        for i in 0..over.len()
            invariant
                ids == views(over@),
                self@ == (ControllerModel {
                    ejected: self@.ejected,
                    eject_counts: self@.eject_counts,
                    ..c
                }),
                forall|k: Seq<char>| #[trigger]
                    self@.ejected.contains_key(k) <==> c.ejected.contains_key(k) && !ids.take(
                        i as int,
                    ).contains(k),
                forall|k: Seq<char>|
                    self@.ejected.contains_key(k) ==> #[trigger] self@.ejected[k] == c.ejected[k],
                forall|k: Seq<char>| #[trigger]
                    self@.eject_counts.contains_key(k) <==> c.eject_counts.contains_key(k)
                        && !ids.take(i as int).contains(k),
                forall|k: Seq<char>|
                    self@.eject_counts.contains_key(k) ==> #[trigger] self@.eject_counts[k]
                        == c.eject_counts[k],
        {
            let _ = self.ejected.remove(over[i].as_str());
            let _ = self.eject_counts.remove(over[i].as_str());
            proof {
                let part = ids.take(i as int);
                let more = ids.take(i + 1);
                assert(more =~= part.push(ids[i as int]));
                assert forall|k: Seq<char>| #[trigger] more.contains(k) == (part.contains(k) || k
                    == ids[i as int]) by {
                    if more.contains(k) {
                        let a = choose|a: int| 0 <= a < more.len() && more[a] == k;
                        if a < i {
                            assert(part[a] == k);
                        }
                    }
                    if part.contains(k) {
                        let a = choose|a: int| 0 <= a < part.len() && part[a] == k;
                        assert(more[a] == k);
                    }
                    assert(more[i as int] == ids[i as int]);
                }
                assert(ids[i as int] == over@[i as int]@);
            }
        }
        proof {
            assert(ids.take(ids.len() as int) =~= ids);
            let want = over_forgotten(c, now_ms);
            assert(self@.ejected =~= want.ejected);
            assert(self@.eject_counts =~= want.eject_counts);
        }
    }

    /// The nodes that are left out.
    pub fn ejected_ids(&self, now_ms: u64) -> (r: Vec<String>)
        ensures
            forall|k: Seq<char>| #[trigger]
                views(r@).contains(k) <==> self@.ejected.contains_key(k) && self@.ejected[k]
                    > now_ms,
    {
        let n: usize = self.ejected.len();
        let ghost rows = self.ejected.rows();
        let ghost m = self.ejected@;
        let mut out: Vec<String> = Vec::new();
        for i in 0..n
            invariant
                n == rows.len(),
                rows == self.ejected.rows(),
                m == self.ejected@,
                m == map_of_rows(rows),
                distinct_keys(rows),
                forall|a: int|
                    0 <= a < out@.len() ==> m.contains_key((#[trigger] out@[a])@) && m[out@[a]@]
                        > now_ms,
                forall|x: int|
                    0 <= x < i && (#[trigger] rows[x]).1 > now_ms ==> views(out@).contains(
                        rows[x].0@,
                    ),
        {
            let ghost before = out@;
            proof {
                lemma_row(rows, i as int);
            }
            if *self.ejected.value_at(i) > now_ms {
                out.push(self.ejected.key_at(i).clone());
            }
            proof {
                assert forall|x: int|
                    0 <= x < i + 1 && (#[trigger] rows[x]).1 > now_ms implies views(out@).contains(
                    rows[x].0@,
                ) by {
                    if x < i {
                        let a = choose|a: int|
                            0 <= a < views(before).len() && views(before)[a] == rows[x].0@;
                        assert(views(out@)[a] == rows[x].0@);
                    } else {
                        assert(views(out@)[before.len() as int] == rows[x].0@);
                    }
                }
            }
        }
        proof {
            assert forall|k: Seq<char>| #[trigger]
                views(out@).contains(k) <==> m.contains_key(k) && m[k] > now_ms by {
                if views(out@).contains(k) {
                    let a = choose|a: int| 0 <= a < views(out@).len() && views(out@)[a] == k;
                    assert(out@[a]@ == k);
                }
                if m.contains_key(k) && m[k] > now_ms {
                    assert(has_key(rows, k));
                    let x = row_of(rows, k);
                    assert(rows[x].0@ == k);
                    lemma_row(rows, x);
                }
            }
        }
        out
    }
}

// ---------------------------------------------------------------------------
// What is worth a change
// ---------------------------------------------------------------------------
/// A node is worth a change where it is faster by more than the tolerance, or by a quarter
/// and no less than the tolerance.
pub open spec fn is_worth(best: u32, current: u32) -> bool {
    ||| best + TOLERANCE_MS < current
    ||| 4 * best <= 3 * current && current - best >= TOLERANCE_MS
}

pub fn should_prefer(best_ms: u32, cur_ms: u32) -> (r: bool)
    ensures
        r == is_worth(best_ms, cur_ms),
{
    if best_ms.saturating_add(TOLERANCE_MS) < cur_ms {
        return true;
    }
    4 * (best_ms as u64) <= 3 * (cur_ms as u64) && cur_ms.saturating_sub(best_ms) >= TOLERANCE_MS
}

pub fn should_switch(cur_ms: Option<u32>, best_ms: u32, hard_fail: bool) -> (r: bool)
    ensures
        r == (hard_fail || match cur_ms {
            None => true,
            Some(c) => is_worth(best_ms, c),
        }),
{
    if hard_fail {
        return true;
    }
    match cur_ms {
        None => true,
        Some(c) => should_prefer(best_ms, c),
    }
}

/// The change settles: after a change to a better node, the node that was left is not worth
/// a change back.
pub proof fn law_changes_do_not_flap(best: u32, current: u32)
    requires
        is_worth(best, current),
    ensures
        best < current,
        !is_worth(current, best),
        !is_worth(best, best),
{
}

// ---------------------------------------------------------------------------
// Candidates
// ---------------------------------------------------------------------------
/// The node can be selected: the core serves it, it is another one than the selected, and it
/// is not left out.
pub open spec fn is_option(
    n: ProxyNode,
    kind: CoreKind,
    current: Option<Seq<char>>,
    ejected: Seq<Seq<char>>,
) -> bool {
    kind.serves_node(n) && Some(n.id@) != current && !ejected.contains(n.id@)
}

/// The positions of the nodes that can be selected.
pub open spec fn options(
    nodes: Seq<ProxyNode>,
    kind: CoreKind,
    current: Option<Seq<char>>,
    ejected: Seq<Seq<char>>,
) -> Seq<int>
    decreases nodes.len(),
{
    if nodes.len() == 0 {
        Seq::empty()
    } else {
        let before = options(nodes.drop_last(), kind, current, ejected);
        if is_option(nodes.last(), kind, current, ejected) {
            before.push(nodes.len() - 1)
        } else {
            before
        }
    }
}

/// The keys by which candidates are ordered: their scores, then their names.
pub open spec fn score_keys(nodes: Seq<ProxyNode>, at: Seq<int>, scores: Seq<u64>) -> Seq<KeyModel> {
    Seq::new(
        at.len(),
        |i: int| KeyModel { rank: scores[at[i]] as int, name: nodes[at[i]].name@ },
    )
}

/// The best candidates, by their positions.
pub open spec fn best_options(
    nodes: Seq<ProxyNode>,
    at: Seq<int>,
    scores: Seq<u64>,
    limit: int,
) -> Seq<int> {
    firsts(at, order_of(score_keys(nodes, at, scores)), limit)
}

/// The first of the positions in the order `p`.
pub open spec fn firsts(at: Seq<int>, p: Seq<int>, limit: int) -> Seq<int> {
    let all = Seq::new(p.len(), |i: int| at[p[i]]);
    if all.len() > limit {
        all.take(limit)
    } else {
        all
    }
}

/// The first of the positions in the order of their keys.
pub fn first_by_keys(at: &Vec<usize>, keys: &Vec<SortKey>, limit: usize) -> (r: Vec<usize>)
    requires
        keys@.len() == at@.len(),
    ensures
        index_seq(r@) == firsts(index_seq(at@), order_of(key_views(keys@)), limit as int),
{
    let ghost places = index_seq(at@);
    let order = stable_order(keys);
    let ghost p = index_seq(order@);
    proof {
        lemma_order_of(key_views(keys@), p);
    }
    let ghost all = Seq::new(p.len(), |i: int| places[p[i]]);
    let mut out: Vec<usize> = Vec::new();
    let mut t: usize = 0;
    while t < order.len() && t < limit
        invariant
            t <= order@.len(),
            t <= limit,
            p == index_seq(order@),
            places == index_seq(at@),
            key_views(keys@).len() == at@.len(),
            is_stable_order(key_views(keys@), p),
            all == Seq::new(p.len(), |i: int| places[p[i]]),
            index_seq(out@) == all.take(t as int),
        decreases order@.len() - t,
    {
        proof {
            assert(0 <= p[t as int] < key_views(keys@).len());
            assert(p[t as int] == order@[t as int]);
        }
        let ghost before = out@;
        out.push(at[order[t]]);
        proof {
            assert(index_seq(out@) =~= index_seq(before).push(places[p[t as int]]));
            assert(all.take(t + 1) =~= all.take(t as int).push(all[t as int]));
        }
        t += 1;
    }
    proof {
        if t == order@.len() {
            assert(all.take(t as int) =~= all);
        }
    }
    out
}

proof fn lemma_options(
    nodes: Seq<ProxyNode>,
    kind: CoreKind,
    current: Option<Seq<char>>,
    ejected: Seq<Seq<char>>,
)
    ensures
        forall|i: int|
            0 <= i < options(nodes, kind, current, ejected).len() ==> {
                let x = #[trigger] options(nodes, kind, current, ejected)[i];
                0 <= x < nodes.len() && is_option(nodes[x], kind, current, ejected)
            },
    decreases nodes.len(),
{
    if nodes.len() > 0 {
        let t = nodes.drop_last();
        lemma_options(t, kind, current, ejected);
        assert forall|i: int| 0 <= i < options(nodes, kind, current, ejected).len() implies {
            let x = #[trigger] options(nodes, kind, current, ejected)[i];
            0 <= x < nodes.len() && is_option(nodes[x], kind, current, ejected)
        } by {
            let before = options(t, kind, current, ejected);
            if i < before.len() {
                let x = before[i];
                assert(t[x] == nodes[x]);
            }
        }
    }
}

/// What a node of unknown latency scores.
pub const SCORE_UNKNOWN_LATENCY: u64 = 8000;

/// What a node scores of which no failures are counted: its latency in milliseconds.
pub open spec fn plain_score(latency_ms: Option<u32>) -> u64 {
    match latency_ms {
        Some(ms) => ms as u64,
        None => SCORE_UNKNOWN_LATENCY,
    }
}

/// What nodes score of which no failures are counted.
pub open spec fn plain_scores(nodes: Seq<ProxyNode>) -> Seq<u64> {
    Seq::new(nodes.len(), |i: int| plain_score(nodes[i].latency_ms))
}

/// What answers score where no failures are counted.
pub open spec fn answer_scores(results: Seq<LatencyResult>) -> Seq<u64> {
    Seq::new(results.len(), |i: int| plain_score(results[i].latency_ms))
}

/// What a node scores of which no failures are counted, the less the better.
pub fn score_node(latency_ms: Option<u32>) -> (r: u64)
    ensures
        r == plain_score(latency_ms),
{
    match latency_ms {
        Some(ms) => ms as u64,
        None => SCORE_UNKNOWN_LATENCY,
    }
}

pub fn scores_of_nodes(nodes: &Vec<ProxyNode>) -> (r: Vec<u64>)
    ensures
        r@ == plain_scores(nodes@),
{
    let mut out: Vec<u64> = Vec::new();
    for i in 0..nodes.len()
        invariant
            out@.len() == i,
            forall|j: int| 0 <= j < i ==> out@[j] == plain_score(nodes@[j].latency_ms),
    {
        out.push(score_node(nodes[i].latency_ms));
    }
    proof {
        assert(out@ =~= plain_scores(nodes@));
    }
    out
}

pub fn scores_of_answers(results: &Vec<LatencyResult>) -> (r: Vec<u64>)
    ensures
        r@ == answer_scores(results@),
{
    let mut out: Vec<u64> = Vec::new();
    for i in 0..results.len()
        invariant
            out@.len() == i,
            forall|j: int| 0 <= j < i ==> out@[j] == plain_score(results@[j].latency_ms),
    {
        out.push(score_node(results[i].latency_ms));
    }
    proof {
        assert(out@ =~= answer_scores(results@));
    }
    out
}

/// The best nodes that can be selected, by their positions. `scores` is what the nodes
/// score, the less the better.
pub fn pick_candidates(
    nodes: &Vec<ProxyNode>,
    kind: CoreKind,
    current: Option<&str>,
    ejected: &Vec<String>,
    scores: &Vec<u64>,
    limit: usize,
) -> (r: Vec<usize>)
    requires
        scores@.len() == nodes@.len(),
    ensures
        index_seq(r@) == best_options(
            nodes@,
            options(nodes@, kind, str_view(current), views(ejected@)),
            scores@,
            limit as int,
        ),
{
    let ghost cur = str_view(current);
    let ghost out_ids = views(ejected@);
    let mut at: Vec<usize> = Vec::new();
    let mut keys: Vec<SortKey> = Vec::new();
    proof {
        assert(nodes@.take(0) =~= Seq::empty());
        assert(index_seq(at@) =~= Seq::empty());
    }
    for i in 0..nodes.len()
        invariant
            scores@.len() == nodes@.len(),
            cur == str_view(current),
            out_ids == views(ejected@),
            index_seq(at@) == options(nodes@.take(i as int), kind, cur, out_ids),
            keys@.len() == at@.len(),
            forall|j: int|
                0 <= j < at@.len() ==> (#[trigger] at@[j]) < i && keys@[j]@ == (KeyModel {
                    rank: scores@[at@[j] as int] as int,
                    name: nodes@[at@[j] as int].name@,
                }),
    {
        let ghost before = at@;
        proof {
            assert(nodes@.take(i + 1).drop_last() =~= nodes@.take(i as int));
            assert(nodes@.take(i + 1).last() == nodes@[i as int]);
        }
        let n = &nodes[i];
        let is_current = match current {
            Some(c) => same(n.id.as_str(), c),
            None => false,
        };
        if kind.supports_node(n) && !is_current && !list_holds(ejected, n.id.as_str()) {
            at.push(i);
            keys.push(SortKey { rank: scores[i] as i128, name: n.name.clone() });
            proof {
                assert(index_seq(at@) =~= index_seq(before).push(i as int));
            }
        }
    }
    let ghost places = index_seq(at@);
    proof {
        assert(nodes@.take(nodes@.len() as int) =~= nodes@);
        assert forall|j: int| 0 <= j < keys@.len() implies key_views(keys@)[j] == score_keys(
            nodes@,
            places,
            scores@,
        )[j] by {
            assert(at@[j] == places[j]);
        }
        assert(key_views(keys@) =~= score_keys(nodes@, places, scores@));
    }
    first_by_keys(&at, &keys, limit)
}

/// A candidate is never the selected node, never left out, and always served by the core.
pub proof fn law_candidates_can_be_selected(
    nodes: Seq<ProxyNode>,
    kind: CoreKind,
    current: Option<Seq<char>>,
    ejected: Seq<Seq<char>>,
    i: int,
)
    requires
        0 <= i < options(nodes, kind, current, ejected).len(),
    ensures
        ({
            let x = options(nodes, kind, current, ejected)[i];
            &&& 0 <= x < nodes.len()
            &&& kind.serves_node(nodes[x])
            &&& Some(nodes[x].id@) != current
            &&& !ejected.contains(nodes[x].id@)
        }),
{
    lemma_options(nodes, kind, current, ejected);
    let x = options(nodes, kind, current, ejected)[i];
}

/// The positions of the results of nodes that answered.
pub open spec fn answered(results: Seq<LatencyResult>) -> Seq<int>
    decreases results.len(),
{
    if results.len() == 0 {
        Seq::empty()
    } else {
        let before = answered(results.drop_last());
        if results.last().latency_ms is Some {
            before.push(results.len() - 1)
        } else {
            before
        }
    }
}

/// The keys by which results are ordered: their scores, then their latencies.
pub open spec fn result_keys(results: Seq<LatencyResult>, at: Seq<int>, scores: Seq<u64>) -> Seq<
    KeyModel,
> {
    Seq::new(
        at.len(),
        |i: int|
            KeyModel {
                rank: scores[at[i]] * 0x1_0000_0000 + results[at[i]].latency_ms->0,
                name: Seq::empty(),
            },
    )
}

/// The best of the results, by its position.
pub open spec fn best_result(results: Seq<LatencyResult>, scores: Seq<u64>) -> Option<int> {
    let at = answered(results);
    if at.len() == 0 {
        None
    } else {
        Some(at[order_of(result_keys(results, at, scores))[0]])
    }
}

/// The best of the results, by its position. `scores` is what the nodes score, the less the
/// better; of equal scores the lower latency counts, then the earlier result.
pub fn find_best(results: &Vec<LatencyResult>, scores: &Vec<u64>) -> (r: Option<usize>)
    requires
        scores@.len() == results@.len(),
    ensures
        match r {
            Some(i) => i < results@.len() && results@[i as int].latency_ms is Some && best_result(
                results@,
                scores@,
            ) == Some(i as int),
            None => best_result(results@, scores@) is None,
        },
{
    let mut at: Vec<usize> = Vec::new();
    let mut keys: Vec<SortKey> = Vec::new();
    proof {
        assert(results@.take(0) =~= Seq::empty());
        assert(index_seq(at@) =~= Seq::empty());
    }
    for i in 0..results.len()
        invariant
            scores@.len() == results@.len(),
            index_seq(at@) == answered(results@.take(i as int)),
            keys@.len() == at@.len(),
            forall|j: int|
                0 <= j < at@.len() ==> (#[trigger] at@[j]) < i && results@[at@[j] as int].latency_ms
                    is Some && keys@[j]@ == (KeyModel {
                    rank: scores@[at@[j] as int] * 0x1_0000_0000
                        + results@[at@[j] as int].latency_ms->0,
                    name: Seq::empty(),
                }),
    {
        let ghost before = at@;
        proof {
            assert(results@.take(i + 1).drop_last() =~= results@.take(i as int));
            assert(results@.take(i + 1).last() == results@[i as int]);
        }
        if let Some(ms) = results[i].latency_ms {
            at.push(i);
            keys.push(
                SortKey {
                    rank: (scores[i] as i128) * 0x1_0000_0000 + (ms as i128),
                    name: String::new(),
                },
            );
            proof {
                assert(index_seq(at@) =~= index_seq(before).push(i as int));
                assert(keys@.last()@.name =~= Seq::empty());
            }
        }
    }
    let ghost places = index_seq(at@);
    proof {
        assert(results@.take(results@.len() as int) =~= results@);
        assert forall|j: int| 0 <= j < keys@.len() implies key_views(keys@)[j] == result_keys(
            results@,
            places,
            scores@,
        )[j] by {
            assert(at@[j] == places[j]);
        }
        assert(key_views(keys@) =~= result_keys(results@, places, scores@));
    }
    if at.len() == 0 {
        return None;
    }
    let order = stable_order(&keys);
    proof {
        lemma_order_of(key_views(keys@), index_seq(order@));
        assert(0 <= index_seq(order@)[0] < key_views(keys@).len());
    }
    Some(at[order[0]])
}

// ---------------------------------------------------------------------------
// A look at the selected node
// ---------------------------------------------------------------------------
/// What the requests that closed say of the selected node.
#[derive(Debug, Clone, Copy, PartialEq, Eq, Structural)]
pub struct Signal {
    pub soft: bool,
    pub hard: bool,
    pub health_due: bool,
}

impl Signal {
    pub open spec fn bad(self) -> bool {
        self.soft || self.hard
    }
}

/// What the probe of the selected node says.
#[derive(Debug, Clone, Copy, PartialEq, Eq, Structural)]
pub struct Verdict {
    /// The node failed.
    pub hard_fail: bool,
    /// The node does well; candidates are probed only because it is time to.
    pub health_only: bool,
}

/// The controller, and whether the look goes on, after its first step.
pub open spec fn gated(c: ControllerModel, active: bool, now_ms: u64) -> (ControllerModel, bool) {
    if !active {
        (c, false)
    } else {
        let d = over_forgotten(c, now_ms);
        if d.in_dwell(now_ms) {
            (d.in_phase(Phase::Cooldown), false)
        } else if d.phase == Phase::Cooldown && !d.in_soft_cooldown(now_ms) {
            (d.in_phase(Phase::Fine), true)
        } else {
            (d, true)
        }
    }
}

pub open spec fn signal_of(c: ControllerModel, stats: PassiveNodeStats, now_ms: u64) -> Signal {
    Signal {
        soft: stats.total >= PASSIVE_MIN_SAMPLES && stats.fails_at_least(
            PASSIVE_FAIL_PERCENT as u64,
        ) && stats.sus_dests >= 2,
        hard: (stats.consecutive_recent_sus >= 3 && stats.sus_dests >= 2)
            || stats.consecutive_recent_sus >= 5,
        health_due: c.health_probe_due(now_ms),
    }
}

/// The controller, and whether the selected node is probed, after the requests were looked
/// at.
pub open spec fn observed(c: ControllerModel, s: Signal, has_api: bool, now_ms: u64) -> (
    ControllerModel,
    bool,
) {
    let follow_up = c.fails > 0;
    if !s.bad() && !follow_up && !s.health_due {
        (c.in_phase(Phase::Fine), false)
    } else if c.in_soft_cooldown(now_ms) && !s.hard && !follow_up {
        (c, false)
    } else if !has_api {
        (
            if s.bad() {
                c.in_phase(Phase::Suspect)
            } else {
                c
            },
            false,
        )
    } else {
        (c.in_phase(Phase::Probing), true)
    }
}

pub open spec fn latency_keys(v: Seq<u32>) -> Seq<KeyModel> {
    Seq::new(v.len(), |i: int| KeyModel { rank: v[i] as int, name: Seq::empty() })
}

/// The value in the middle of the sorted ones.
pub open spec fn median(v: Seq<u32>) -> u32 {
    v[order_of(latency_keys(v))[(v.len() / 2) as int]]
}

/// The node answers about as fast as the others: within twice the middle one and a bit.
pub open spec fn in_peer_band(cur_ms: Option<u32>, peers: Seq<u32>) -> bool {
    cur_ms is Some && peers.len() >= 2 && cur_ms->0 <= 2 * median(peers) + 150
}

pub open spec fn counted_fails(c: ControllerModel, s: Signal, cur_fail: bool) -> ControllerModel {
    ControllerModel {
        fails: if cur_fail {
            one_more(c.fails)
        } else if s.hard {
            c.fails
        } else {
            0
        },
        ..c
    }
}

pub open spec fn verdict_on(c: ControllerModel, s: Signal, cur_fail: bool) -> Verdict {
    let hard_fail = cur_fail && (c.fails >= CONSECUTIVE_PROBE_FAILS || s.hard || (s.soft && c.fails
        >= 1));
    Verdict { hard_fail, health_only: !s.bad() && !hard_fail && !cur_fail && s.health_due }
}

/// The controller, and the verdict where candidates are probed, after the selected node was.
pub open spec fn confirmed(
    c: ControllerModel,
    s: Signal,
    cur_fail: bool,
    cur_ms: Option<u32>,
    peers: Seq<u32>,
    now_ms: u64,
) -> (ControllerModel, Option<Verdict>) {
    let d = counted_fails(c, s, cur_fail);
    let v = verdict_on(d, s, cur_fail);
    if !cur_fail && !s.bad() && !v.health_only {
        (d.in_phase(Phase::Fine), None)
    } else if !cur_fail && s.soft && !s.hard && !v.hard_fail && in_peer_band(cur_ms, peers) {
        (d.in_phase(Phase::Suspect), None)
    } else if !v.hard_fail && d.in_soft_cooldown(now_ms) && !s.hard {
        (d.in_phase(Phase::Cooldown), None)
    } else {
        (d, Some(v))
    }
}

/// The controller once there was no candidate.
pub open spec fn lacking(
    c: ControllerModel,
    v: Verdict,
    cur_fail: bool,
    current: Seq<char>,
    now_ms: u64,
) -> ControllerModel {
    let d = ejected_if(c, cur_fail, current, now_ms);
    if v.health_only {
        ControllerModel { last_health_probe: Some(now_ms), phase: Phase::Fine, ..d }
    } else {
        d
    }
}

/// The phase of a look that changed nothing.
pub open spec fn resting(s: Signal) -> Phase {
    if s.bad() {
        Phase::Suspect
    } else {
        Phase::Fine
    }
}

/// The controller, and the result that is worth a change, after the candidates were probed.
pub open spec fn compared(
    c: ControllerModel,
    s: Signal,
    v: Verdict,
    cur_fail: bool,
    cur_ms: Option<u32>,
    current: Seq<char>,
    results: Seq<LatencyResult>,
    scores: Seq<u64>,
    now_ms: u64,
) -> (ControllerModel, Option<int>) {
    let d = if v.health_only {
        ControllerModel { last_health_probe: Some(now_ms), ..c }
    } else {
        c
    };
    match best_result(results, scores) {
        None => (ejected_if(d, cur_fail, current, now_ms).in_phase(resting(s)), None),
        Some(b) => if v.hard_fail || cur_ms is None || is_worth(
            results[b].latency_ms->0,
            cur_ms->0,
        ) {
            (d, Some(b))
        } else {
            (d.in_phase(resting(s)), None)
        },
    }
}

/// The controller once the node was changed.
pub open spec fn changed(
    c: ControllerModel,
    cur_fail: bool,
    current: Seq<char>,
    now_ms: u64,
) -> ControllerModel {
    let d = switched_at(c, now_ms);
    ejected_if(
        ControllerModel { last_health_probe: Some(now_ms), ..d },
        cur_fail,
        current,
        now_ms,
    )
}

/// The value in the middle of the sorted ones.
fn median_of(v: &Vec<u32>) -> (r: u32)
    requires
        v@.len() >= 2,
    ensures
        r == median(v@),
{
    let mut keys: Vec<SortKey> = Vec::new();
    for i in 0..v.len()
        invariant
            keys@.len() == i,
            forall|j: int|
                0 <= j < i ==> (#[trigger] keys@[j])@ == (KeyModel {
                    rank: v@[j] as int,
                    name: Seq::empty(),
                }),
    {
        keys.push(SortKey { rank: v[i] as i128, name: String::new() });
        proof {
            assert(keys@.last()@.name =~= Seq::empty());
        }
    }
    proof {
        assert(key_views(keys@) =~= latency_keys(v@));
    }
    let order = stable_order(&keys);
    let mid: usize = v.len() / 2;
    proof {
        lemma_order_of(key_views(keys@), index_seq(order@));
        assert(0 <= index_seq(order@)[mid as int] < key_views(keys@).len());
        assert(index_seq(order@)[mid as int] == order@[mid as int]);
    }
    v[order[mid]]
}

impl Controller {
    /// A look begins. It goes on where the change is on, the session is not that of a profile
    /// and runs, and the node was not just selected.
    pub fn tick_gate(&mut self, enabled: bool, custom: bool, running: bool, now_ms: u64) -> (r: bool)
        ensures
            (final(self)@, r) == gated(old(self)@, enabled && !custom && running, now_ms),
    {
        if !enabled || custom || !running {
            return false;
        }
        self.clear_eject_if_expired(now_ms);
        if self.in_dwell(now_ms) {
            self.set_phase(Phase::Cooldown);
            return false;
        }
        if self.phase == Phase::Cooldown && !self.in_soft_cooldown(now_ms) {
            self.set_phase(Phase::Fine);
        }
        true
    }

    /// The requests were looked at. The selected node is probed where they raise a suspicion,
    /// where the last probe failed, or where it is time to.
    pub fn tick_signal(&mut self, stats: &PassiveNodeStats, has_api: bool, now_ms: u64) -> (r: Option<
        Signal,
    >)
        ensures
            ({
                let s = signal_of(old(self)@, *stats, now_ms);
                let (c, go) = observed(old(self)@, s, has_api, now_ms);
                final(self)@ == c && r == if go {
                    Some(s)
                } else {
                    None
                }
            }),
    {
        let s = Signal {
            soft: stats.soft_degraded(PASSIVE_MIN_SAMPLES, PASSIVE_FAIL_PERCENT),
            hard: stats.hard_degraded(),
            health_due: self.health_probe_due(now_ms),
        };
        let bad = s.soft || s.hard;
        let follow_up = self.consecutive_probe_fails > 0;
        if !bad && !follow_up && !s.health_due {
            self.set_phase(Phase::Fine);
            return None;
        }
        if self.in_soft_cooldown(now_ms) && !s.hard && !follow_up {
            return None;
        }
        if !has_api {
            if bad {
                self.set_phase(Phase::Suspect);
            }
            return None;
        }
        self.set_phase(Phase::Probing);
        Some(s)
    }

    /// The selected node was probed. Candidates are probed where it failed, where the
    /// suspicion stands, or where it is time to.
    pub fn current_probed(
        &mut self,
        s: Signal,
        cur_fail: bool,
        cur_ms: Option<u32>,
        peers: &Vec<u32>,
        now_ms: u64,
    ) -> (r: Option<Verdict>)
        ensures
            (final(self)@, r) == confirmed(old(self)@, s, cur_fail, cur_ms, peers@, now_ms),
    {
        if cur_fail {
            self.consecutive_probe_fails = self.consecutive_probe_fails.saturating_add(1);
        } else if !s.hard {
            self.consecutive_probe_fails = 0;
        }
        let bad = s.soft || s.hard;
        let fails: u32 = self.consecutive_probe_fails;
        let hard_fail = cur_fail && (fails >= CONSECUTIVE_PROBE_FAILS || s.hard || (s.soft && fails
            >= 1));
        let health_only = !bad && !hard_fail && !cur_fail && s.health_due;
        if !cur_fail && !bad && !health_only {
            self.set_phase(Phase::Fine);
            return None;
        }
        if !cur_fail && s.soft && !s.hard && !hard_fail {
            if let Some(ms) = cur_ms {
                if peers.len() >= 2 && (ms as u64) <= 2 * (median_of(peers) as u64) + 150 {
                    self.set_phase(Phase::Suspect);
                    return None;
                }
            }
        }
        if !hard_fail && self.in_soft_cooldown(now_ms) && !s.hard {
            self.set_phase(Phase::Cooldown);
            return None;
        }
        Some(Verdict { hard_fail, health_only })
    }

    /// There was no candidate.
    pub fn no_candidates(&mut self, v: Verdict, cur_fail: bool, current_id: &str, now_ms: u64)
        ensures
            final(self)@ == lacking(old(self)@, v, cur_fail, current_id@, now_ms),
    {
        if cur_fail {
            self.eject(current_id, now_ms);
        }
        if v.health_only {
            self.last_health_probe = Some(now_ms);
            self.set_phase(Phase::Fine);
        }
    }

    /// The candidates were probed. The result is the one that is worth a change.
    pub fn candidates_probed(
        &mut self,
        s: Signal,
        v: Verdict,
        cur_fail: bool,
        cur_ms: Option<u32>,
        current_id: &str,
        results: &Vec<LatencyResult>,
        scores: &Vec<u64>,
        now_ms: u64,
    ) -> (r: Option<usize>)
        requires
            scores@.len() == results@.len(),
        ensures
            ({
                let (c, b) = compared(
                    old(self)@,
                    s,
                    v,
                    cur_fail,
                    cur_ms,
                    current_id@,
                    results@,
                    scores@,
                    now_ms,
                );
                final(self)@ == c && b == match r {
                    Some(i) => Some(i as int),
                    None => None,
                }
            }),
    {
        if v.health_only {
            self.last_health_probe = Some(now_ms);
        }
        let phase = if s.soft || s.hard {
            Phase::Suspect
        } else {
            Phase::Fine
        };
        match find_best(results, scores) {
            None => {
                if cur_fail {
                    self.eject(current_id, now_ms);
                }
                self.set_phase(phase);
                None
            },
            Some(b) => {
                let ms: u32 = match results[b].latency_ms {
                    Some(ms) => ms,
                    None => 0,
                };
                if should_switch(cur_ms, ms, v.hard_fail) {
                    Some(b)
                } else {
                    self.set_phase(phase);
                    None
                }
            },
        }
    }

    /// The node was changed.
    pub fn node_changed(&mut self, cur_fail: bool, current_id: &str, now_ms: u64)
        ensures
            final(self)@ == changed(old(self)@, cur_fail, current_id@, now_ms),
    {
        self.mark_switched(now_ms);
        self.last_health_probe = Some(now_ms);
        if cur_fail {
            self.eject(current_id, now_ms);
        }
    }
}

/// The latencies of the other nodes that the core serves.
pub open spec fn peer_latencies(nodes: Seq<ProxyNode>, kind: CoreKind, current: Seq<char>) -> Seq<u32>
    decreases nodes.len(),
{
    if nodes.len() == 0 {
        Seq::empty()
    } else {
        let before = peer_latencies(nodes.drop_last(), kind, current);
        let n = nodes.last();
        if kind.serves_node(n) && n.id@ != current && n.latency_ms is Some {
            before.push(n.latency_ms->0)
        } else {
            before
        }
    }
}

pub fn peers_of(nodes: &Vec<ProxyNode>, kind: CoreKind, current_id: &str) -> (r: Vec<u32>)
    ensures
        r@ == peer_latencies(nodes@, kind, current_id@),
{
    let mut out: Vec<u32> = Vec::new();
    proof {
        assert(nodes@.take(0) =~= Seq::empty());
    }
    for i in 0..nodes.len()
        invariant
            out@ == peer_latencies(nodes@.take(i as int), kind, current_id@),
    {
        proof {
            assert(nodes@.take(i + 1).drop_last() =~= nodes@.take(i as int));
            assert(nodes@.take(i + 1).last() == nodes@[i as int]);
        }
        let n = &nodes[i];
        if kind.supports_node(n) && !same(n.id.as_str(), current_id) {
            if let Some(ms) = n.latency_ms {
                out.push(ms);
            }
        }
    }
    proof {
        assert(nodes@.take(nodes@.len() as int) =~= nodes@);
    }
    out
}

// ---------------------------------------------------------------------------
// Laws
// ---------------------------------------------------------------------------
/// A node that was just selected stays: no look goes past its first step in that time.
pub proof fn law_new_node_stays(c: ControllerModel, cur_fail: bool, current: Seq<char>, at: u64, now: u64)
    requires
        at <= now,
        now - at < MIN_DWELL_MS,
    ensures
        !gated(changed(c, cur_fail, current, at), true, now).1,
{
}

/// A node whose time is over is counted from the start again.
pub proof fn law_recovered_node_starts_over(c: ControllerModel, id: Seq<char>, now_ms: u64)
    requires
        is_over(c.ejected, id, now_ms),
    ensures
        !over_forgotten(c, now_ms).ejected.contains_key(id),
        !over_forgotten(c, now_ms).eject_counts.contains_key(id),
        node_ejected(over_forgotten(c, now_ms), id, now_ms).ejected[id] == plus_u64(now_ms, 30000),
{
}

/// Behind a change, only a failure or a hard suspicion gets past the first probe until the
/// soft pause is over.
pub proof fn law_soft_signals_wait(
    c: ControllerModel,
    s: Signal,
    cur_fail: bool,
    cur_ms: Option<u32>,
    peers: Seq<u32>,
    now_ms: u64,
)
    requires
        c.in_soft_cooldown(now_ms),
        !s.hard,
    ensures
        confirmed(c, s, cur_fail, cur_ms, peers, now_ms).1 is Some ==> confirmed(
            c,
            s,
            cur_fail,
            cur_ms,
            peers,
            now_ms,
        ).1->0.hard_fail,
{
}

/// A node that answered is never taken for one that failed.
pub proof fn law_answering_node_has_not_failed(c: ControllerModel, s: Signal)
    ensures
        !verdict_on(counted_fails(c, s, false), s, false).hard_fail,
{
}

} // verus!
