//! Probes of nodes: what counts as an answer, and how long it is remembered.

use crate::domain::node::ProxyNode;
use crate::services::latency::{
    is_fresh, last_result, ping_noted, prunes, pruned, ranked_result, udp_positions, unified,
    CachedProbe, LatencyModel, LatencyResult, Probes,
};
use crate::services::probe_desk::{asked_for, desk_step, looked_up, DeskStep, UnderWay};
use vstd::prelude::*;

verus! {

/// Of two measurements the second counts where there is one, since the first had to open the
/// connection; without it the first does; and two failures are told together.
pub proof fn law_second_measurement_counts(first: Result<u32, Seq<char>>, second: Result<u32, Seq<char>>)
    ensures
        second is Ok ==> unified(first, second) == second,
        second is Err && first is Ok ==> unified(first, second) == first,
        first is Err && second is Err ==> unified(first, second) is Err,
{
}

/// An answer is remembered for 90 seconds, a failure for 15.
pub proof fn law_answers_are_remembered(c: CachedProbe, now_ms: u64)
    ensures
        c.result.latency_ms is Some ==> (is_fresh(c, now_ms) <==> now_ms - c.at_ms < 90000),
        c.result.latency_ms is None ==> (is_fresh(c, now_ms) <==> now_ms - c.at_ms < 15000),
{
}

/// What is dropped from memory was over, and what stays is as it was.
pub proof fn law_only_old_answers_are_dropped(m: Probes, now_ms: u64, k: Seq<char>)
    ensures
        pruned(m, now_ms).contains_key(k) <==> m.contains_key(k) && is_fresh(m[k], now_ms),
        pruned(m, now_ms).contains_key(k) ==> pruned(m, now_ms)[k] == m[k],
        !m.contains_key(k) && m.dom().len() >= 4096 ==> prunes(m, now_ms, k, now_ms),
{
}

/// A probe is made where no answer is remembered, none like it is under way, and fewer than
/// thirty are.
pub proof fn law_probes_are_made_when_needed(c: Probes, w: UnderWay, key: Seq<char>, now_ms: u64)
    ensures
        ({
            let step = desk_step(c, w, key, now_ms);
            let known = c.contains_key(key) && is_fresh(c[key], now_ms);
            &&& known ==> step == DeskStep::Take(c[key].result)
            &&& !known && w.contains_key(key) ==> step is Wait
            &&& !known && !w.contains_key(key) && w.dom().len() >= 30 ==> step is Queue
            &&& !known && !w.contains_key(key) && w.dom().len() < 30 ==> step is Probe
            &&& step is Probe ==> asked_for(c, w, key, now_ms).contains_key(key)
            &&& !(step is Probe) ==> asked_for(c, w, key, now_ms) == w
        }),
        c.contains_key(key) && is_fresh(c[key], now_ms) ==> looked_up(c, key, now_ms) == c,
        !(c.contains_key(key) && is_fresh(c[key], now_ms)) ==> !looked_up(c, key, now_ms).contains_key(
            key,
        ),
{
}

/// Nodes are parted by whether they have a port to connect to: each is on one side.
pub proof fn law_nodes_are_parted(nodes: Seq<ProxyNode>, udp: bool, i: int)
    ensures
        udp_positions(nodes, udp).contains(i) <==> 0 <= i < nodes.len() && ((
        nodes[i].protocol is Tuic || nodes[i].protocol is Hysteria || nodes[i].protocol is Hysteria2)
            <==> udp),
    decreases nodes.len(),
{
    if nodes.len() > 0 {
        let t = nodes.drop_last();
        law_nodes_are_parted(t, udp, i);
        let before = udp_positions(t, udp);
        let last = nodes.len() - 1;
        let all = before.push(last);
        assert(all[before.len() as int] == last);
        if before.contains(i) {
            let k = choose|k: int| 0 <= k < before.len() && before[k] == i;
            assert(all[k] == i);
        }
        if all.contains(i) && !before.contains(i) {
            let k = choose|k: int| 0 <= k < all.len() && all[k] == i;
            if k < before.len() {
                assert(before[k] == i);
            }
        }
        if 0 <= i < t.len() {
            assert(t[i] == nodes[i]);
        }
    }
}

/// The result of a node is the last one with its id.
pub proof fn law_last_result_of_a_node(results: Seq<LatencyResult>, id: Seq<char>)
    ensures
        last_result(results, id) is Some <==> exists|i: int|
            0 <= i < results.len() && (#[trigger] results[i]).id@ == id,
        last_result(results, id) matches Some(m) ==> exists|i: int|
            0 <= i < results.len() && (#[trigger] results[i])@ == m && m.id == id && forall|j: int|
                i < j < results.len() ==> (#[trigger] results[j]).id@ != id,
    decreases results.len(),
{
    if results.len() > 0 {
        let t = results.drop_last();
        let last = results.len() - 1;
        assert(results[last] == results.last());
        if results.last().id@ == id {
            assert(results[last]@ == results.last()@);
        } else {
            law_last_result_of_a_node(t, id);
            if exists|i: int| 0 <= i < results.len() && (#[trigger] results[i]).id@ == id {
                let i = choose|i: int| 0 <= i < results.len() && (#[trigger] results[i]).id@ == id;
                assert(t[i] == results[i]);
            }
            if let Some(m) = last_result(t, id) {
                let i = choose|i: int|
                    0 <= i < t.len() && (#[trigger] t[i])@ == m && m.id == id && forall|j: int|
                        i < j < t.len() ==> (#[trigger] t[j]).id@ != id;
                assert(results[i] == t[i]);
                assert forall|j: int| i < j < results.len() implies (#[trigger] results[j]).id@
                    != id by {
                    if j < last {
                        assert(t[j] == results[j]);
                    }
                }
            }
        }
    }
}

/// Each node has a result of its own id: one measured over UDP before one over TCP, and a
/// failure where there is neither.
pub proof fn law_each_node_has_a_result(
    node: ProxyNode,
    tcp: Seq<LatencyResult>,
    udp: Seq<LatencyResult>,
    now: i64,
)
    ensures
        ranked_result(node, tcp, udp, now).id == node.id@,
        last_result(udp, node.id@) is Some ==> ranked_result(node, tcp, udp, now) == last_result(
            udp,
            node.id@,
        )->0,
        last_result(udp, node.id@) is None && last_result(tcp, node.id@) is Some ==> ranked_result(
            node,
            tcp,
            udp,
            now,
        ) == last_result(tcp, node.id@)->0,
        last_result(udp, node.id@) is None && last_result(tcp, node.id@) is None ==> ranked_result(
            node,
            tcp,
            udp,
            now,
        ).latency_ms is None && ranked_result(node, tcp, udp, now).error is Some,
{
    law_last_result_of_a_node(udp, node.id@);
    law_last_result_of_a_node(tcp, node.id@);
}

/// A remark on a ping that could not be made changes nothing else, and no other result.
pub proof fn law_pings_are_remarked_on(r: LatencyModel)
    ensures
        r.method != "unsupported"@ ==> ping_noted(r) == r,
        ping_noted(r).id == r.id && ping_noted(r).latency_ms == r.latency_ms && ping_noted(r).method
            == r.method && ping_noted(r).tested_at == r.tested_at,
        r.method == "unsupported"@ ==> ping_noted(r).error is Some,
{
}

} // verus!
