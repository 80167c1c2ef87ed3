//! The automatic change of nodes: what a look at the selected node may do, in terms of what
//! was seen and when.

use crate::health::PassiveNodeStats;
use crate::order::{law_items_have_an_order, lemma_order_ranks, order_of, text_before};
use crate::services::latency::LatencyResult;
use crate::smart_switch::{
    answered, best_options, best_result, changed, compared, confirmed, gated, is_option, is_worth,
    lacking, latency_keys, median, node_ejected, observed, options, peer_latencies, result_keys,
    score_keys, signal_of, ControllerModel, Phase, Signal, Verdict,
};
use crate::core_kind::CoreKind;
use crate::domain::node::ProxyNode;
use vstd::prelude::*;

verus! {

// ---------------------------------------------------------------------------
// The probe of the selected node
// ---------------------------------------------------------------------------
/// The peers that a latency is out of proportion to, by their positions: it is more than
/// twice theirs and 150 milliseconds.
pub open spec fn outpaced_by(ms: u32, peers: Seq<u32>) -> Set<int> {
    vstd::set_lib::set_int_range(0, peers.len() as int).filter(
        |i: int| ms > 2 * peers[i] + 150,
    )
}

proof fn lemma_median_splits(v: Seq<u32>, ms: u32)
    requires
        v.len() >= 1,
    ensures
        ms > 2 * median(v) + 150 <==> outpaced_by(ms, v).len() > v.len() / 2,
{
    let keys = latency_keys(v);
    law_items_have_an_order(keys);
    let q = order_of(keys);
    let mid = (v.len() / 2) as int;
    let all = vstd::set_lib::set_int_range(0, v.len() as int);
    vstd::set_lib::lemma_int_range(0, v.len() as int);
    let slow = outpaced_by(ms, v);
    assert(q.no_duplicates()) by {
        assert forall|i: int, j: int| 0 <= i < q.len() && 0 <= j < q.len() && i != j implies q[i]
            != q[j] by {
            if i < j {
                lemma_order_ranks(keys, q, i, j);
            } else {
                lemma_order_ranks(keys, q, j, i);
            }
        }
    }
    assert(0 <= q[mid] < keys.len());
    if ms > 2 * median(v) + 150 {
        let front = q.take(mid + 1);
        assert(front.no_duplicates());
        front.unique_seq_to_set();
        assert forall|x: int| front.to_set().contains(x) implies slow.contains(x) by {
            let i = choose|i: int| 0 <= i < front.len() && front[i] == x;
            assert(q[i] == x);
            if i < mid {
                lemma_order_ranks(keys, q, i, mid);
            }
            assert(0 <= q[i] < keys.len());
        }
        vstd::set_lib::lemma_len_subset(front.to_set(), slow);
    } else {
        let front = q.take(mid);
        assert(front.no_duplicates());
        front.unique_seq_to_set();
        assert forall|x: int| slow.contains(x) implies front.to_set().contains(x) by {
            assert(q.contains(x));
            let i = choose|i: int| 0 <= i < q.len() && q[i] == x;
            if i > mid {
                lemma_order_ranks(keys, q, mid, i);
            }
            assert(i < mid);
            assert(front[i] == x);
            assert(front.contains(x));
        }
        vstd::set_lib::lemma_len_subset(slow, front.to_set());
    }
}

/// A soft suspicion of a node that answers, with at least two others to compare it with, and
/// no recent change: the look goes on to candidates exactly where the node is out of
/// proportion to more than half of the others. Where it is not, the look ends, and the
/// suspicion stays.
pub proof fn law_soft_suspicion_needs_a_slow_node(
    c: ControllerModel,
    s: Signal,
    ms: u32,
    peers: Seq<u32>,
    now_ms: u64,
)
    requires
        s.soft,
        !s.hard,
        peers.len() >= 2,
    ensures
        ({
            let (d, v) = confirmed(c, s, false, Some(ms), peers, now_ms);
            let slow = outpaced_by(ms, peers).len() > peers.len() / 2;
            let recent = c.last_switch is Some && now_ms - c.last_switch->0 < 210000;
            &&& !slow ==> v is None && d.phase == Phase::Suspect
            &&& slow && !recent ==> v == Some(Verdict { hard_fail: false, health_only: false })
            &&& slow && recent ==> v is None && d.phase == Phase::Cooldown
            &&& d.fails == 0
        }),
{
    lemma_median_splits(peers, ms);
}

/// A node that is no slower than any of the others is not left on a soft suspicion; one that
/// is out of proportion to all of them is looked at further; and a lower latency never makes
/// a look go on that would have ended.
pub proof fn law_faster_nodes_are_less_suspect(
    c: ControllerModel,
    s: Signal,
    ms: u32,
    less: u32,
    peers: Seq<u32>,
    now_ms: u64,
)
    requires
        s.soft,
        !s.hard,
        peers.len() >= 2,
        less <= ms,
    ensures
        (forall|i: int| 0 <= i < peers.len() ==> ms <= #[trigger] peers[i]) ==> confirmed(
            c,
            s,
            false,
            Some(ms),
            peers,
            now_ms,
        ).1 is None && confirmed(c, s, false, Some(ms), peers, now_ms).0.phase == Phase::Suspect,
        (forall|i: int| 0 <= i < peers.len() ==> ms > 2 * #[trigger] peers[i] + 150) && (
        c.last_switch is None || now_ms - c.last_switch->0 >= 210000) ==> confirmed(
            c,
            s,
            false,
            Some(ms),
            peers,
            now_ms,
        ).1 == Some(Verdict { hard_fail: false, health_only: false }),
        confirmed(c, s, false, Some(ms), peers, now_ms).1 is None ==> confirmed(
            c,
            s,
            false,
            Some(less),
            peers,
            now_ms,
        ).1 is None,
{
    let all = vstd::set_lib::set_int_range(0, peers.len() as int);
    vstd::set_lib::lemma_int_range(0, peers.len() as int);
    lemma_median_splits(peers, ms);
    lemma_median_splits(peers, less);
    if forall|i: int| 0 <= i < peers.len() ==> ms <= #[trigger] peers[i] {
        assert(outpaced_by(ms, peers) =~= Set::empty()) by {
            assert forall|i: int| !outpaced_by(ms, peers).contains(i) by {
                if 0 <= i < peers.len() {
                    assert(ms <= peers[i]);
                }
            }
        }
    }
    if forall|i: int| 0 <= i < peers.len() ==> ms > 2 * #[trigger] peers[i] + 150 {
        assert(outpaced_by(ms, peers) =~= all);
    }
    assert(outpaced_by(less, peers).subset_of(outpaced_by(ms, peers)));
    vstd::set_lib::lemma_len_subset(outpaced_by(less, peers), outpaced_by(ms, peers));
}

/// A probe that fails counts, one that answers clears the count unless the suspicion is
/// hard. A node has failed where its probe failed and it is the second failure in a row or
/// the requests raised a suspicion; such a node is left whenever it was selected. A node that
/// answers, of which nothing is suspected and whose probe is not due, is fine.
pub proof fn law_failures_are_confirmed(
    c: ControllerModel,
    s: Signal,
    failed: bool,
    ms: Option<u32>,
    peers: Seq<u32>,
    now_ms: u64,
)
    ensures
        ({
            let (d, v) = confirmed(c, s, failed, ms, peers, now_ms);
            let recent = c.last_switch is Some && now_ms - c.last_switch->0 < 210000;
            &&& failed && c.fails < u32::MAX ==> d.fails == c.fails + 1
            &&& !failed && !s.hard ==> d.fails == 0
            &&& !failed && s.hard ==> d.fails == c.fails
            &&& failed && (c.fails >= 1 || s.soft || s.hard) ==> v == Some(
                Verdict { hard_fail: true, health_only: false },
            )
            &&& failed && c.fails == 0 && !s.soft && !s.hard ==> v == if recent {
                None
            } else {
                Some(Verdict { hard_fail: false, health_only: false })
            }
            &&& !failed && s.hard ==> v == Some(Verdict { hard_fail: false, health_only: false })
            &&& !failed && !s.soft && !s.hard && !s.health_due ==> v is None && d.phase
                == Phase::Fine
            &&& !failed && !s.soft && !s.hard && s.health_due ==> v == if recent {
                None
            } else {
                Some(Verdict { hard_fail: false, health_only: true })
            }
            &&& d.last_switch == c.last_switch && d.last_health_probe == c.last_health_probe
            &&& d.ejected == c.ejected && d.eject_counts == c.eject_counts
        }),
{
}

// ---------------------------------------------------------------------------
// What the requests say
// ---------------------------------------------------------------------------
/// Requests raise a soft suspicion where there are five at least, fifteen of a hundred look
/// like failures, and those went to two destinations at least. They raise a hard one where
/// the last three to several destinations, or the last five, look like failures. A probe is
/// due ten minutes after the last.
pub proof fn law_suspicion_follows_the_counts(
    c: ControllerModel,
    stats: PassiveNodeStats,
    now_ms: u64,
)
    ensures
        ({
            let s = signal_of(c, stats, now_ms);
            &&& s.soft <==> stats.total >= 5 && 100 * stats.suspicious >= 15 * stats.total
                && stats.sus_dests >= 2
            &&& s.hard <==> stats.consecutive_recent_sus >= 5 || (stats.consecutive_recent_sus >= 3
                && stats.sus_dests >= 2)
            &&& s.health_due <==> c.last_health_probe is None || now_ms - c.last_health_probe->0
                >= 600000
        }),
{
}

/// The selected node is probed where the core can be asked and something calls for it: a hard
/// suspicion or a failed probe at any time, a soft one or a due probe outside the 210 seconds
/// behind a change. Without cause the node is fine.
pub proof fn law_probes_have_a_cause(c: ControllerModel, s: Signal, has_api: bool, now_ms: u64)
    ensures
        ({
            let (d, go) = observed(c, s, has_api, now_ms);
            let recent = c.last_switch is Some && now_ms - c.last_switch->0 < 210000;
            &&& go <==> has_api && (s.hard || c.fails > 0 || (!recent && (s.soft || s.health_due)))
            &&& go ==> d.phase == Phase::Probing
            &&& !s.soft && !s.hard && c.fails == 0 && !s.health_due ==> d.phase == Phase::Fine
            &&& !go && s.hard ==> d.phase == Phase::Suspect
            &&& d == (ControllerModel { phase: d.phase, ..c })
        }),
{
}

/// Within 120 seconds of a change no look goes on. A look forgets the nodes whose time is over
/// and leaves the rest of the controller alone; once 210 seconds are over the pause ends.
pub proof fn law_looks_rest_after_a_change(c: ControllerModel, now_ms: u64)
    ensures
        ({
            let (d, go) = gated(c, true, now_ms);
            &&& go <==> c.last_switch is None || now_ms - c.last_switch->0 >= 120000
            &&& !go ==> d.phase == Phase::Cooldown
            &&& go && c.phase != Phase::Cooldown ==> d.phase == c.phase
            &&& go && c.phase == Phase::Cooldown ==> d.phase == if c.last_switch is Some && now_ms
                - c.last_switch->0 < 210000 {
                Phase::Cooldown
            } else {
                Phase::Fine
            }
            &&& d.last_switch == c.last_switch && d.fails == c.fails && d.last_health_probe
                == c.last_health_probe
            &&& forall|k: Seq<char>| #[trigger]
                d.ejected.contains_key(k) <==> c.ejected.contains_key(k) && c.ejected[k] > now_ms
            &&& forall|k: Seq<char>| #[trigger]
                d.ejected.contains_key(k) ==> d.ejected[k] == c.ejected[k]
        }),
        gated(c, false, now_ms) == (c, false),
{
}

// ---------------------------------------------------------------------------
// What is worth a change
// ---------------------------------------------------------------------------
/// A change is worth it where the other node is faster by more than 50 milliseconds, or by
/// just 50 where the selected one takes at most 200. What is worth a change from a node is
/// worth it from a slower one, and what is faster still is worth it too.
pub proof fn law_worth_follows_the_gain(best: u32, current: u32, faster: u32, slower: u32)
    ensures
        is_worth(best, current) <==> current - best > 50 || (current - best == 50 && current
            <= 200),
        is_worth(best, current) && faster <= best ==> is_worth(faster, current),
        !is_worth(current, current),
{
}

/// A node that failed is left out for 30 seconds, then two minutes, then ten, then half an
/// hour, and for other nodes nothing changes.
pub proof fn law_time_outs_grow(c: ControllerModel, id: Seq<char>, other: Seq<char>, now_ms: u64)
    requires
        id != other,
        now_ms <= u64::MAX - 1800000,
    ensures
        ({
            let d = node_ejected(c, id, now_ms);
            let before = if c.eject_counts.contains_key(id) {
                c.eject_counts[id] as int
            } else {
                0
            };
            &&& d.ejected.contains_key(id) && d.eject_counts.contains_key(id)
            &&& before < u32::MAX ==> d.eject_counts[id] == before + 1
            &&& d.ejected[id] == now_ms + if before == 0 {
                30000int
            } else if before == 1 {
                120000
            } else if before == 2 {
                600000
            } else {
                1800000
            }
            &&& d.ejected.contains_key(other) == c.ejected.contains_key(other)
            &&& c.ejected.contains_key(other) ==> d.ejected[other] == c.ejected[other]
            &&& d.phase == c.phase && d.last_switch == c.last_switch && d.fails == c.fails
        }),
{
}

/// A change is noted: the pause begins, the failures are cleared, no probe is due, and the
/// node that was left is left out where it failed, and only then.
pub proof fn law_change_is_noted(
    c: ControllerModel,
    failed: bool,
    current: Seq<char>,
    now_ms: u64,
)
    requires
        now_ms <= u64::MAX - 1800000,
    ensures
        ({
            let d = changed(c, failed, current, now_ms);
            &&& d.last_switch == Some(now_ms)
            &&& d.last_health_probe == Some(now_ms)
            &&& d.fails == 0
            &&& d.phase == Phase::Cooldown
            &&& !failed ==> d.ejected == c.ejected
            &&& failed ==> d.ejected.contains_key(current) && d.ejected[current] >= now_ms + 30000
        }),
{
}

/// Where there is no candidate, a node that failed is left out, and only then; a look that
/// was due ends the wait for the next.
pub proof fn law_lack_of_candidates(
    c: ControllerModel,
    v: Verdict,
    failed: bool,
    current: Seq<char>,
    now_ms: u64,
)
    requires
        now_ms <= u64::MAX - 1800000,
    ensures
        ({
            let d = lacking(c, v, failed, current, now_ms);
            &&& failed ==> d.ejected.contains_key(current) && d.ejected[current] >= now_ms + 30000
            &&& !failed ==> d.ejected == c.ejected
            &&& v.health_only ==> d.last_health_probe == Some(now_ms) && d.phase == Phase::Fine
            &&& !v.health_only ==> d.last_health_probe == c.last_health_probe && d.phase == c.phase
            &&& d.last_switch == c.last_switch
        }),
{
}

// ---------------------------------------------------------------------------
// Candidates and their answers
// ---------------------------------------------------------------------------
proof fn lemma_answered(results: Seq<LatencyResult>)
    ensures
        forall|i: int|
            0 <= i < answered(results).len() ==> 0 <= #[trigger] answered(results)[i]
                < results.len() && results[answered(results)[i]].latency_ms is Some,
        forall|i: int, j: int|
            0 <= i < j < answered(results).len() ==> #[trigger] answered(results)[i]
                < #[trigger] answered(results)[j],
        forall|x: int|
            0 <= x < results.len() && results[x].latency_ms is Some
                ==> #[trigger] answered(results).contains(x),
    decreases results.len(),
{
    if results.len() > 0 {
        let t = results.drop_last();
        lemma_answered(t);
        let before = answered(t);
        let here = answered(results);
        assert forall|i: int| 0 <= i < here.len() implies 0 <= #[trigger] here[i] < results.len()
            && results[here[i]].latency_ms is Some by {
            if i < before.len() {
                assert(before[i] == here[i]);
                assert(t[before[i]] == results[before[i]]);
            }
        }
        assert forall|i: int, j: int| 0 <= i < j < here.len() implies #[trigger] here[i]
            < #[trigger] here[j] by {
            assert(before[i] == here[i]);
            if j < before.len() {
                assert(before[j] == here[j]);
            }
        }
        assert forall|x: int|
            0 <= x < results.len() && results[x].latency_ms is Some implies #[trigger] here.contains(
            x,
        ) by {
            if x < t.len() {
                assert(t[x] == results[x]);
                assert(before.contains(x));
                let i = choose|i: int| 0 <= i < before.len() && before[i] == x;
                assert(here[i] == x);
            } else {
                assert(here[here.len() - 1] == x);
            }
        }
    }
}

/// The best of the answers exists where one answered; nothing that answered has a lower
/// score, nor a lower latency at the same score, nor comes earlier with both the same.
pub proof fn law_best_answer_is_the_best(results: Seq<LatencyResult>, scores: Seq<u64>, x: int)
    requires
        scores.len() == results.len(),
        0 <= x < results.len(),
        results[x].latency_ms is Some,
    ensures
        best_result(results, scores) is Some,
        ({
            let b = best_result(results, scores)->0;
            &&& 0 <= b < results.len()
            &&& results[b].latency_ms is Some
            &&& scores[b] <= scores[x]
            &&& scores[b] == scores[x] ==> results[b].latency_ms->0 <= results[x].latency_ms->0
            &&& scores[b] == scores[x] && results[b].latency_ms == results[x].latency_ms ==> b <= x
        }),
{
    lemma_answered(results);
    let at = answered(results);
    assert(at.contains(x));
    let keys = result_keys(results, at, scores);
    law_items_have_an_order(keys);
    let q = order_of(keys);
    let i = choose|i: int| 0 <= i < at.len() && at[i] == x;
    assert(q.contains(i));
    let j = choose|j: int| 0 <= j < q.len() && q[j] == i;
    assert(0 <= q[0] < keys.len());
    let b = at[q[0]];
    if j > 0 {
        lemma_order_ranks(keys, q, 0, j);
        let sb = scores[b] as int;
        let sx = scores[x] as int;
        let lb = results[b].latency_ms->0 as int;
        let lx = results[x].latency_ms->0 as int;
        assert(keys[q[0]].rank == sb * 0x1_0000_0000 + lb);
        assert(keys[q[j]].rank == sx * 0x1_0000_0000 + lx);
        assert(crate::order::item_before(keys, q[0], q[j]));
        if sb == sx && lb == lx {
            assert(q[0] < q[j]);
        }
    }
}

/// Where nothing answered, there is no best answer.
pub proof fn law_no_answer_is_not_the_best(results: Seq<LatencyResult>, scores: Seq<u64>)
    requires
        forall|i: int| 0 <= i < results.len() ==> (#[trigger] results[i]).latency_ms is None,
    ensures
        best_result(results, scores) is None,
{
    lemma_answered(results);
    if answered(results).len() > 0 {
        assert(results[answered(results)[0]].latency_ms is Some);
    }
}

/// After the candidates were probed: where none answered, the node that failed is left out
/// and nothing is selected; a node that failed, or has no latency, is left for the best
/// answer; any other only for one that is worth it.
pub proof fn law_candidates_are_compared(
    c: ControllerModel,
    s: Signal,
    v: Verdict,
    failed: bool,
    ms: Option<u32>,
    current: Seq<char>,
    results: Seq<LatencyResult>,
    scores: Seq<u64>,
    now_ms: u64,
)
    requires
        now_ms <= u64::MAX - 1800000,
    ensures
        ({
            let (d, b) = compared(c, s, v, failed, ms, current, results, scores, now_ms);
            let best = best_result(results, scores);
            &&& b is Some ==> b == best
            &&& best is Some && (v.hard_fail || ms is None) ==> b is Some
            &&& best is Some && !v.hard_fail && ms is Some ==> (b is Some <==> {
                let gain = ms->0 - results[best->0].latency_ms->0;
                gain > 50 || (gain == 50 && ms->0 <= 200)
            })
            &&& b is None ==> d.phase == if s.soft || s.hard {
                Phase::Suspect
            } else {
                Phase::Fine
            }
            &&& best is None && failed ==> d.ejected.contains_key(current) && d.ejected[current]
                >= now_ms + 30000
            &&& best is Some || !failed ==> d.ejected == c.ejected
            &&& v.health_only ==> d.last_health_probe == Some(now_ms)
            &&& !v.health_only ==> d.last_health_probe == c.last_health_probe
            &&& d.last_switch == c.last_switch && d.fails == c.fails
        }),
{
}

proof fn lemma_options_are_all(
    nodes: Seq<ProxyNode>,
    kind: CoreKind,
    current: Option<Seq<char>>,
    ejected: Seq<Seq<char>>,
)
    ensures
        ({
            let at = options(nodes, kind, current, ejected);
            &&& forall|i: int|
                0 <= i < at.len() ==> 0 <= #[trigger] at[i] < nodes.len() && is_option(
                    nodes[at[i]],
                    kind,
                    current,
                    ejected,
                )
            &&& forall|i: int, j: int|
                0 <= i < j < at.len() ==> #[trigger] at[i] < #[trigger] at[j]
            &&& forall|x: int|
                0 <= x < nodes.len() && is_option(nodes[x], kind, current, ejected)
                    ==> #[trigger] at.contains(x)
        }),
    decreases nodes.len(),
{
    let here = options(nodes, kind, current, ejected);
    if nodes.len() > 0 {
        let t = nodes.drop_last();
        lemma_options_are_all(t, kind, current, ejected);
        let before = options(t, kind, current, ejected);
        assert forall|i: int| 0 <= i < here.len() implies 0 <= #[trigger] here[i] < nodes.len()
            && is_option(nodes[here[i]], kind, current, ejected) by {
            if i < before.len() {
                assert(before[i] == here[i]);
                assert(t[before[i]] == nodes[before[i]]);
            }
        }
        assert forall|i: int, j: int| 0 <= i < j < here.len() implies #[trigger] here[i]
            < #[trigger] here[j] by {
            assert(before[i] == here[i]);
            if j < before.len() {
                assert(before[j] == here[j]);
            }
        }
        assert forall|x: int|
            0 <= x < nodes.len() && is_option(
                nodes[x],
                kind,
                current,
                ejected,
            ) implies #[trigger] here.contains(x) by {
            if x < t.len() {
                assert(t[x] == nodes[x]);
                assert(before.contains(x));
                let i = choose|i: int| 0 <= i < before.len() && before[i] == x;
                assert(here[i] == x);
            } else {
                assert(here[here.len() - 1] == x);
            }
        }
    }
}

/// The candidates are as many nodes as may be selected, up to the limit, each once: served by
/// the core, not the selected one, not left out. Any such node that is passed over scores no
/// better than each that was taken.
pub proof fn law_candidates_are_the_best(
    nodes: Seq<ProxyNode>,
    kind: CoreKind,
    current: Option<Seq<char>>,
    ejected: Seq<Seq<char>>,
    scores: Seq<u64>,
    limit: int,
    x: int,
)
    requires
        scores.len() == nodes.len(),
        limit >= 0,
        0 <= x < nodes.len(),
        kind.serves_node(nodes[x]),
        Some(nodes[x].id@) != current,
        !ejected.contains(nodes[x].id@),
    ensures
        ({
            let got = best_options(
                nodes,
                options(nodes, kind, current, ejected),
                scores,
                limit,
            );
            &&& got.len() <= limit
            &&& !got.contains(x) ==> got.len() == limit
            &&& !got.contains(x) ==> forall|i: int|
                0 <= i < got.len() ==> scores[#[trigger] got[i]] <= scores[x]
        }),
{
    lemma_options_are_all(nodes, kind, current, ejected);
    let at = options(nodes, kind, current, ejected);
    let keys = score_keys(nodes, at, scores);
    law_items_have_an_order(keys);
    let q = order_of(keys);
    let all = Seq::new(q.len(), |i: int| at[q[i]]);
    let got = best_options(nodes, at, scores, limit);
    assert(at.contains(x));
    let i = choose|i: int| 0 <= i < at.len() && at[i] == x;
    assert(q.contains(i));
    let j = choose|j: int| 0 <= j < q.len() && q[j] == i;
    assert(all[j] == x);
    if !got.contains(x) {
        if all.len() <= limit {
            assert(got[j] == x);
        }
        assert(all.len() > limit);
        if j < limit {
            assert(got[j] == x);
        }
        assert forall|a: int| 0 <= a < got.len() implies scores[#[trigger] got[a]] <= scores[x] by {
            assert(got[a] == all[a]);
            assert(crate::order::item_before(keys, q[a], q[j]));
            assert(0 <= q[a] < keys.len());
            assert(keys[q[a]].rank == scores[at[q[a]]] as int);
            assert(keys[q[j]].rank == scores[x] as int);
        }
    }
}

/// Every candidate may be selected, and each is one of the nodes.
pub proof fn law_each_candidate_may_be_selected(
    nodes: Seq<ProxyNode>,
    kind: CoreKind,
    current: Option<Seq<char>>,
    ejected: Seq<Seq<char>>,
    scores: Seq<u64>,
    limit: int,
)
    requires
        scores.len() == nodes.len(),
        limit >= 0,
    ensures
        ({
            let got = best_options(
                nodes,
                options(nodes, kind, current, ejected),
                scores,
                limit,
            );
            &&& forall|i: int|
                0 <= i < got.len() ==> {
                    let n = nodes[#[trigger] got[i]];
                    &&& 0 <= got[i] < nodes.len()
                    &&& kind.serves_node(n)
                    &&& Some(n.id@) != current
                    &&& !ejected.contains(n.id@)
                }
            &&& forall|i: int, j: int|
                0 <= i < j < got.len() ==> #[trigger] got[i] != #[trigger] got[j] && scores[got[i]]
                    <= scores[got[j]]
        }),
{
    lemma_options_are_all(nodes, kind, current, ejected);
    let at = options(nodes, kind, current, ejected);
    let keys = score_keys(nodes, at, scores);
    law_items_have_an_order(keys);
    let q = order_of(keys);
    let all = Seq::new(q.len(), |i: int| at[q[i]]);
    let got = best_options(nodes, at, scores, limit);
    assert forall|i: int| 0 <= i < got.len() implies {
        let n = nodes[#[trigger] got[i]];
        &&& 0 <= got[i] < nodes.len()
        &&& kind.serves_node(n)
        &&& Some(n.id@) != current
        &&& !ejected.contains(n.id@)
    } by {
        assert(got[i] == all[i]);
        assert(0 <= q[i] < keys.len());
        assert(is_option(nodes[at[q[i]]], kind, current, ejected));
    }
    assert forall|i: int, j: int| 0 <= i < j < got.len() implies #[trigger] got[i]
        != #[trigger] got[j] && scores[got[i]] <= scores[got[j]] by {
        assert(got[i] == all[i] && got[j] == all[j]);
        assert(crate::order::item_before(keys, q[i], q[j]));
        assert(0 <= q[i] < keys.len() && 0 <= q[j] < keys.len());
        crate::order::lemma_text_total(keys[q[i]].name, keys[q[j]].name);
        crate::order::lemma_text_total(keys[q[i]].name, keys[q[i]].name);
        if q[i] == q[j] {
            assert(!text_before(keys[q[i]].name, keys[q[i]].name));
        }
    }
}

/// The latencies that a node is compared with are those of the other nodes that the core
/// serves and that have one.
pub proof fn law_peers_are_the_others(
    nodes: Seq<ProxyNode>,
    kind: CoreKind,
    current: Seq<char>,
    p: u32,
)
    ensures
        peer_latencies(nodes, kind, current).contains(p) <==> exists|i: int|
            0 <= i < nodes.len() && (#[trigger] nodes[i]).id@ != current && kind.serves_node(
                nodes[i],
            ) && nodes[i].latency_ms == Some(p),
        peer_latencies(nodes, kind, current).len() <= nodes.len(),
    decreases nodes.len(),
{
    if nodes.len() > 0 {
        let t = nodes.drop_last();
        law_peers_are_the_others(t, kind, current, p);
        let before = peer_latencies(t, kind, current);
        let here = peer_latencies(nodes, kind, current);
        let n = nodes.last();
        assert(nodes[nodes.len() - 1] == n);
        if here.contains(p) {
            let i = choose|i: int| 0 <= i < here.len() && here[i] == p;
            if i < before.len() {
                assert(before[i] == p);
                assert(before.contains(p));
                let a = choose|a: int|
                    0 <= a < t.len() && (#[trigger] t[a]).id@ != current && kind.serves_node(t[a])
                        && t[a].latency_ms == Some(p);
                assert(nodes[a] == t[a]);
            }
        }
        if exists|i: int|
            0 <= i < nodes.len() && (#[trigger] nodes[i]).id@ != current && kind.serves_node(
                nodes[i],
            ) && nodes[i].latency_ms == Some(p) {
            let i = choose|i: int|
                0 <= i < nodes.len() && (#[trigger] nodes[i]).id@ != current && kind.serves_node(
                    nodes[i],
                ) && nodes[i].latency_ms == Some(p);
            if i < t.len() {
                assert(t[i] == nodes[i]);
                assert(before.contains(p));
                let a = choose|a: int| 0 <= a < before.len() && before[a] == p;
                assert(here[a] == p);
            } else {
                assert(here[here.len() - 1] == p);
            }
        }
    }
}

} // verus!
