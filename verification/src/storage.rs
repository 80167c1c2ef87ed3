//! What the client keeps between its runs.

use crate::domain::chain::{NodePool, ProxyChain};
use crate::domain::dns::DnsSettings;
use crate::domain::node::{id_cut_ok, node_tag, outbound_tag, ProxyNode};
use crate::domain::rule::{Rule, RuleSet};
use crate::domain::settings::AppSettings;
use crate::domain::subscription::Subscription;
use crate::order::{
    index_seq, is_stable_order, key_views, lemma_order_of, order_of, stable_order, KeyModel, SortKey,
};
use crate::services::latency::LatencyResult;
use crate::table::Table;
use crate::text::same;
use vstd::prelude::*;

verus! {

/// A node, with the subscription that it came from.
#[derive(Debug)]
pub struct StoredNode {
    pub node: ProxyNode,
    pub subscription_id: String,
}

#[derive(Debug)]
pub struct AppStore {
    pub settings: AppSettings,
    pub subscriptions: Vec<Subscription>,
    pub nodes: Vec<StoredNode>,
    pub rule_sets: Vec<RuleSet>,
    pub pools: Vec<NodePool>,
    pub chains: Vec<ProxyChain>,
    pub dns: DnsSettings,
}

impl Default for AppStore {
    fn default() -> (r: Self)
        ensures
            r.subscriptions@.len() == 0,
            r.nodes@.len() == 0,
            r.rule_sets@.len() == 0,
            r.pools@.len() == 0,
            r.chains@.len() == 0,
            r.dns.rule_sets@.len() == 0,
            r.settings.current_node_id is None,
            r.settings.clash_api_secret is None,
            r.ids_can_be_cut(),
    {
        AppStore {
            settings: AppSettings::default(),
            subscriptions: Vec::new(),
            nodes: Vec::new(),
            rule_sets: Vec::new(),
            pools: Vec::new(),
            chains: Vec::new(),
            dns: DnsSettings::default(),
        }
    }
}

/// What is shown of a node beside a connection: its name, and the name of its
/// subscription.
#[derive(Debug)]
pub struct NodeInfo {
    pub name: String,
    pub subscription: String,
}

pub struct NodeInfoModel {
    pub name: Seq<char>,
    pub subscription: Seq<char>,
}

impl View for NodeInfo {
    type V = NodeInfoModel;

    open spec fn view(&self) -> NodeInfoModel {
        NodeInfoModel { name: self.name@, subscription: self.subscription@ }
    }
}

/// Some subscription of that id is enabled.
pub open spec fn is_enabled(subs: Seq<Subscription>, id: Seq<char>) -> bool {
    exists|i: int| 0 <= i < subs.len() && (#[trigger] subs[i]).id@ == id && subs[i].enabled
}

/// The name of the last subscription of that id; empty where there is none.
pub open spec fn subscription_name(subs: Seq<Subscription>, id: Seq<char>) -> Seq<char>
    decreases subs.len(),
{
    if subs.len() == 0 {
        Seq::empty()
    } else if subs.last().id@ == id {
        subs.last().name@
    } else {
        subscription_name(subs.drop_last(), id)
    }
}

/// What is shown of each outbound tag, for the nodes of enabled subscriptions. Of two
/// nodes with one tag, the later counts.
pub open spec fn tag_infos(nodes: Seq<StoredNode>, subs: Seq<Subscription>) -> Map<
    Seq<char>,
    NodeInfoModel,
>
    decreases nodes.len(),
{
    if nodes.len() == 0 {
        Map::empty()
    } else {
        let before = tag_infos(nodes.drop_last(), subs);
        let n = nodes.last();
        if is_enabled(subs, n.subscription_id@) {
            before.insert(
                node_tag(n.node.id@),
                NodeInfoModel {
                    name: n.node.name@,
                    subscription: subscription_name(subs, n.subscription_id@),
                },
            )
        } else {
            before
        }
    }
}

/// The models of the values of a map.
pub open spec fn info_views(m: Map<Seq<char>, NodeInfo>) -> Map<Seq<char>, NodeInfoModel> {
    m.map_values(|i: NodeInfo| i@)
}

fn subscription_enabled(subs: &Vec<Subscription>, id: &str) -> (r: bool)
    ensures
        r == is_enabled(subs@, id@),
{
    for i in 0..subs.len()
        invariant
            forall|j: int| 0 <= j < i ==> !((#[trigger] subs@[j]).id@ == id@ && subs@[j].enabled),
    {
        if subs[i].enabled && same(subs[i].id.as_str(), id) {
            proof {
                assert(subs@[i as int].id@ == id@);
            }
            return true;
        }
    }
    false
}

fn name_of_subscription(subs: &Vec<Subscription>, id: &str) -> (r: String)
    ensures
        r@ == subscription_name(subs@, id@),
{
    let mut i: usize = subs.len();
    proof {
        assert(subs@.take(i as int) =~= subs@);
    }
    while i > 0
        invariant
            i <= subs.len(),
            subscription_name(subs@, id@) == subscription_name(subs@.take(i as int), id@),
        decreases i,
    {
        proof {
            assert(subs@.take(i as int).last() == subs@[i - 1]);
            assert(subs@.take(i as int).drop_last() =~= subs@.take(i - 1));
        }
        if same(subs[i - 1].id.as_str(), id) {
            return subs[i - 1].name.clone();
        }
        i -= 1;
    }
    String::new()
}

impl AppStore {
    /// The tags of the nodes can be made.
    pub open spec fn ids_can_be_cut(self) -> bool {
        forall|i: int| 0 <= i < self.nodes@.len() ==> id_cut_ok(#[trigger] self.nodes@[i].node.id@)
    }

    /// The id of the selected node, where the store has that node, can be cut to its tag.
    pub open spec fn selection_can_be_cut(self) -> bool {
        self.settings.current_node_id is Some && self.node_pos(self.settings.current_node_id->0@)
            is Some ==> id_cut_ok(self.settings.current_node_id->0@)
    }

    /// The position of the first node of that id.
    pub open spec fn node_pos(self, id: Seq<char>) -> Option<int> {
        stored_pos(self.nodes@, id)
    }

    /// The position of the first node of that id.
    pub fn position_of_node(&self, id: &str) -> (r: Option<usize>)
        ensures
            match r {
                Some(i) => i < self.nodes@.len() && self.node_pos(id@) == Some(i as int)
                    && self.nodes@[i as int].node.id@ == id@,
                None => self.node_pos(id@) is None,
            },
    {
        for i in 0..self.nodes.len()
            invariant
                forall|j: int| 0 <= j < i ==> (#[trigger] self.nodes@[j]).node.id@ != id@,
        {
            if same(self.nodes[i].node.id.as_str(), id) {
                proof {
                    let k = choose|k: int|
                        0 <= k < self.nodes@.len() && (#[trigger] self.nodes@[k]).node.id@ == id@
                            && forall|j: int|
                            0 <= j < k ==> (#[trigger] self.nodes@[j]).node.id@ != id@;
                    assert(self.nodes@[i as int].node.id@ == id@);
                    assert(0 <= i < self.nodes@.len() && self.nodes@[i as int].node.id@ == id@
                        && forall|j: int|
                        0 <= j < i ==> (#[trigger] self.nodes@[j]).node.id@ != id@);
                    if k < i {
                        assert(self.nodes@[k].node.id@ != id@);
                    }
                    if i < k {
                        assert(self.nodes@[i as int].node.id@ != id@);
                    }
                    assert(k == i);
                }
                return Some(i);
            }
        }
        None
    }

    /// The first node of that id.
    pub fn find_node(&self, id: &str) -> (r: Option<&ProxyNode>)
        ensures
            match r {
                Some(n) => self.node_pos(id@) is Some && 0 <= self.node_pos(id@)->0
                    < self.nodes@.len() && n.id@ == id@ && *n == self.nodes@[self.node_pos(
                    id@,
                )->0].node,
                None => self.node_pos(id@) is None,
            },
            r is Some && self.ids_can_be_cut() ==> id_cut_ok(id@),
    {
        match self.position_of_node(id) {
            Some(i) => {
                proof {
                    assert(self.ids_can_be_cut() ==> id_cut_ok(self.nodes@[i as int].node.id@));
                }
                Some(&self.nodes[i].node)
            },
            None => None,
        }
    }

    /// Notes the latency of the first node of that id.
    pub fn update_node_latency(&mut self, id: &str, latency_ms: Option<u32>, tested_at: i64)
        ensures
            final(self).nodes@ == with_latency(old(self).nodes@, id@, latency_ms, tested_at),
            *final(self) == (AppStore { nodes: final(self).nodes, ..*old(self) }),
    {
        let ghost before = self.nodes@;
        if let Some(i) = self.position_of_node(id) {
            self.nodes[i].node.latency_ms = latency_ms;
            self.nodes[i].node.latency_at = Some(tested_at);
            proof {
                assert(self.nodes@ =~= with_latency(before, id@, latency_ms, tested_at));
            }
        }
    }

    /// Notes the latencies that probes came to; those of probes that were lost have no id.
    pub fn note_latencies(&mut self, results: &Vec<LatencyResult>)
        ensures
            final(self).nodes@ == with_latencies(old(self).nodes@, results@),
            *final(self) == (AppStore { nodes: final(self).nodes, ..*old(self) }),
    {
        let ghost before = *self;
        proof {
            assert(results@.take(0) =~= Seq::empty());
        }
        for i in 0..results.len()
            invariant
                self.nodes@ == with_latencies(before.nodes@, results@.take(i as int)),
                *self == (AppStore { nodes: self.nodes, ..before }),
        {
            proof {
                assert(results@.take(i + 1).drop_last() =~= results@.take(i as int));
                assert(results@.take(i + 1).last() == results@[i as int]);
            }
            let r = &results[i];
            if !r.id.as_str().is_empty() {
                self.update_node_latency(r.id.as_str(), r.latency_ms, r.tested_at);
            }
        }
        proof {
            assert(results@.take(results@.len() as int) =~= results@);
        }
    }

    /// What is shown of each outbound tag.
    pub open spec fn tag_map(self) -> Map<Seq<char>, NodeInfoModel> {
        tag_infos(self.nodes@, self.subscriptions@)
    }
}

/// The position of the first node of that id.
pub open spec fn stored_pos(nodes: Seq<StoredNode>, id: Seq<char>) -> Option<int> {
    if exists|i: int| 0 <= i < nodes.len() && (#[trigger] nodes[i]).node.id@ == id {
        Some(
            choose|i: int|
                0 <= i < nodes.len() && (#[trigger] nodes[i]).node.id@ == id && forall|j: int|
                    0 <= j < i ==> (#[trigger] nodes[j]).node.id@ != id,
        )
    } else {
        None
    }
}

/// The nodes with a latency noted for the first node of that id.
pub open spec fn with_latency(
    nodes: Seq<StoredNode>,
    id: Seq<char>,
    latency_ms: Option<u32>,
    tested_at: i64,
) -> Seq<StoredNode> {
    match stored_pos(nodes, id) {
        Some(p) => nodes.update(
            p,
            StoredNode {
                node: ProxyNode { latency_ms, latency_at: Some(tested_at), ..nodes[p].node },
                ..nodes[p]
            },
        ),
        None => nodes,
    }
}

/// The nodes with the latencies noted that probes came to, one after the other.
pub open spec fn with_latencies(nodes: Seq<StoredNode>, results: Seq<LatencyResult>) -> Seq<StoredNode>
    decreases results.len(),
{
    if results.len() == 0 {
        nodes
    } else {
        let before = with_latencies(nodes, results.drop_last());
        let r = results.last();
        if r.id@.len() == 0 {
            before
        } else {
            with_latency(before, r.id@, r.latency_ms, r.tested_at)
        }
    }
}

pub open spec fn of_enabled(subs: Seq<Subscription>) -> spec_fn(StoredNode) -> bool {
    |n: StoredNode| is_enabled(subs, n.subscription_id@)
}

impl AppStore {
    /// The nodes of enabled subscriptions.
    pub fn enabled_nodes(&self) -> (r: Vec<&ProxyNode>)
        ensures
            ({
                let on = self.nodes@.filter(of_enabled(self.subscriptions@));
                r@.len() == on.len() && forall|i: int|
                    0 <= i < on.len() ==> *(#[trigger] r@[i]) == on[i].node
            }),
    {
        let ghost p = of_enabled(self.subscriptions@);
        let mut out: Vec<&ProxyNode> = Vec::new();
        proof {
            reveal(Seq::filter);
            assert(self.nodes@.take(0).filter(p) =~= Seq::empty());
        }
        for i in 0..self.nodes.len()
            invariant
                p == of_enabled(self.subscriptions@),
                out@.len() == self.nodes@.take(i as int).filter(p).len(),
                forall|j: int|
                    0 <= j < out@.len() ==> *(#[trigger] out@[j]) == self.nodes@.take(
                        i as int,
                    ).filter(p)[j].node,
        {
            proof {
                reveal(Seq::filter);
                assert(self.nodes@.take(i + 1).drop_last() =~= self.nodes@.take(i as int));
                assert(self.nodes@.take(i + 1).last() == self.nodes@[i as int]);
            }
            if subscription_enabled(&self.subscriptions, self.nodes[i].subscription_id.as_str()) {
                out.push(&self.nodes[i].node);
            }
        }
        proof {
            assert(self.nodes@.take(self.nodes@.len() as int) =~= self.nodes@);
        }
        out
    }
}

pub open spec fn rule_on() -> spec_fn(Rule) -> bool {
    |r: Rule| r.enabled
}

/// The enabled rules of the enabled sets, one set after the other.
pub open spec fn enabled_rules(sets: Seq<RuleSet>) -> Seq<Rule>
    decreases sets.len(),
{
    if sets.len() == 0 {
        Seq::empty()
    } else {
        let before = enabled_rules(sets.drop_last());
        if sets.last().enabled {
            before + sets.last().rules@.filter(rule_on())
        } else {
            before
        }
    }
}

/// The places of rules: a lower one comes first.
pub open spec fn place_keys(rules: Seq<Rule>) -> Seq<KeyModel> {
    Seq::new(rules.len(), |i: int| KeyModel { rank: rules[i].ord as int, name: Seq::empty() })
}

/// The enabled rules of the enabled sets, by their places; those of one place stay in the
/// order of the store.
pub open spec fn rules_in_place(sets: Seq<RuleSet>) -> Seq<Rule> {
    let all = enabled_rules(sets);
    let p = order_of(place_keys(all));
    Seq::new(p.len(), |i: int| all[p[i]])
}

/// The values that references point at.
pub open spec fn referred(v: Seq<&Rule>) -> Seq<Rule> {
    Seq::new(v.len(), |i: int| *v[i])
}

/// Adds the enabled rules of a set.
fn add_enabled<'a>(out: &mut Vec<&'a Rule>, set: &'a RuleSet)
    ensures
        referred(final(out)@) == referred(old(out)@) + set.rules@.filter(rule_on()),
{
    let ghost start = referred(out@);
    let ghost keep = rule_on();
    proof {
        reveal(Seq::filter);
        assert(start + set.rules@.take(0).filter(keep) =~= start);
    }
    for i in 0..set.rules.len()
        invariant
            keep == rule_on(),
            referred(out@) == start + set.rules@.take(i as int).filter(keep),
    {
        let ghost before = referred(out@);
        proof {
            reveal(Seq::filter);
            assert(set.rules@.take(i + 1).drop_last() =~= set.rules@.take(i as int));
            assert(set.rules@.take(i + 1).last() == set.rules@[i as int]);
        }
        if set.rules[i].enabled {
            out.push(&set.rules[i]);
            proof {
                assert(referred(out@) =~= before.push(set.rules@[i as int]));
                assert(start + set.rules@.take(i + 1).filter(keep) =~= (start + set.rules@.take(
                    i as int,
                ).filter(keep)).push(set.rules@[i as int]));
            }
        }
    }
    proof {
        assert(set.rules@.take(set.rules@.len() as int) =~= set.rules@);
    }
}

impl AppStore {
    /// The enabled rules of the enabled sets, by their places.
    pub fn enabled_rules_sorted(&self) -> (r: Vec<&Rule>)
        ensures
            referred(r@) == rules_in_place(self.rule_sets@),
    {
        let mut all: Vec<&Rule> = Vec::new();
        proof {
            assert(self.rule_sets@.take(0) =~= Seq::empty());
            assert(referred(all@) =~= Seq::empty());
        }
        for i in 0..self.rule_sets.len()
            invariant
                referred(all@) == enabled_rules(self.rule_sets@.take(i as int)),
        {
            proof {
                assert(self.rule_sets@.take(i + 1).drop_last() =~= self.rule_sets@.take(i as int));
                assert(self.rule_sets@.take(i + 1).last() == self.rule_sets@[i as int]);
            }
            if self.rule_sets[i].enabled {
                add_enabled(&mut all, &self.rule_sets[i]);
            }
        }
        proof {
            assert(self.rule_sets@.take(self.rule_sets@.len() as int) =~= self.rule_sets@);
        }
        let ghost rules = referred(all@);
        let mut keys: Vec<SortKey> = Vec::new();
        for i in 0..all.len()
            invariant
                rules == referred(all@),
                keys@.len() == i,
                forall|j: int| 0 <= j < i ==> (#[trigger] keys@[j])@ == place_keys(rules)[j],
        {
            keys.push(SortKey { rank: all[i].ord as i128, name: String::new() });
            proof {
                assert(keys@.last()@.name =~= Seq::empty());
            }
        }
        let order = stable_order(&keys);
        let ghost p = index_seq(order@);
        proof {
            assert(key_views(keys@) =~= place_keys(rules));
            lemma_order_of(place_keys(rules), p);
        }
        let mut out: Vec<&Rule> = Vec::new();
        for i in 0..order.len()
            invariant
                rules == referred(all@),
                p == index_seq(order@),
                is_stable_order(place_keys(rules), p),
                out@.len() == i,
                forall|j: int| 0 <= j < i ==> *(#[trigger] out@[j]) == rules[p[j]],
        {
            proof {
                assert(0 <= p[i as int] < place_keys(rules).len());
                assert(p[i as int] == order@[i as int]);
            }
            out.push(all[order[i]]);
        }
        proof {
            assert(referred(out@) =~= rules_in_place(self.rule_sets@));
        }
        out
    }
}

/// What is shown of each outbound tag, for the nodes of enabled subscriptions.
pub fn node_tag_info_map(store: &AppStore) -> (r: Table<NodeInfo>)
    requires
        store.ids_can_be_cut(),
    ensures
        info_views(r@) == store.tag_map(),
{
    let mut table: Table<NodeInfo> = Table::new();
    proof {
        assert(info_views(table@) =~= tag_infos(store.nodes@.take(0), store.subscriptions@));
    }
    for i in 0..store.nodes.len()
        invariant
            store.ids_can_be_cut(),
            info_views(table@) == tag_infos(store.nodes@.take(i as int), store.subscriptions@),
    {
        let ghost whole = store.nodes@.take(i + 1);
        let ghost before = table@;
        proof {
            assert(whole.drop_last() =~= store.nodes@.take(i as int));
        }
        let n = &store.nodes[i];
        if subscription_enabled(&store.subscriptions, n.subscription_id.as_str()) {
            let info = NodeInfo {
                name: n.node.name.clone(),
                subscription: name_of_subscription(
                    &store.subscriptions,
                    n.subscription_id.as_str(),
                ),
            };
            let ghost model = info@;
            let tag = outbound_tag(&n.node);
            let ghost t = tag@;
            table.insert(tag, info);
            proof {
                assert(info_views(table@) =~= info_views(before).insert(t, model));
            }
        }
    }
    proof {
        assert(store.nodes@.take(store.nodes@.len() as int) =~= store.nodes@);
    }
    table
}

} // verus!
