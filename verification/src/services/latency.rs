//! How long the nodes take to answer.

use crate::domain::node::{id_cut_ok, node_tag, outbound_tag, ProxyNode};
use crate::order::{
    index_seq, is_stable_order, key_views, lemma_order_covers, lemma_order_ranks, stable_order,
    KeyModel, SortKey,
};
use crate::runtime::rise;
use crate::table::{distinct_keys, has_key, lemma_row, map_of_rows, row_of, Table};
use crate::text::{clone_opt, concat3, decimal, decimal_of, opt_view, same};
use vstd::prelude::*;

verus! {

pub const DEFAULT_TIMEOUT_MS: u64 = 5000;

pub const DEFAULT_CONCURRENCY: usize = 30;

/// How many probes run at a time, over all callers.
pub const GLOBAL_CONCURRENCY: usize = 30;

/// Milliseconds that a result is kept.
pub const CACHE_TTL_MS: u64 = 90000;

/// Milliseconds that a failure is kept.
pub const FAILURE_CACHE_TTL_MS: u64 = 15000;

pub const MAX_CACHE_ENTRIES: usize = 4096;

/// How far a full cache is emptied.
pub const CACHE_TRIM_TO: usize = 3072;

#[derive(Debug)]
pub struct LatencyResult {
    pub id: String,
    pub name: String,
    /// Milliseconds; nothing where the node did not answer.
    pub latency_ms: Option<u32>,
    pub error: Option<String>,
    /// Unix seconds.
    pub tested_at: i64,
    /// `clash_api`, `tcp`, `unsupported` or `error`.
    pub method: String,
}

impl Clone for LatencyResult {
    fn clone(&self) -> (r: Self)
        ensures
            r == *self,
    {
        LatencyResult {
            id: self.id.clone(),
            name: self.name.clone(),
            latency_ms: self.latency_ms,
            error: clone_opt(&self.error),
            tested_at: self.tested_at,
            method: self.method.clone(),
        }
    }
}

/// The value of a result.
pub struct LatencyModel {
    pub id: Seq<char>,
    pub name: Seq<char>,
    pub latency_ms: Option<u32>,
    pub error: Option<Seq<char>>,
    pub tested_at: i64,
    pub method: Seq<char>,
}

impl View for LatencyResult {
    type V = LatencyModel;

    open spec fn view(&self) -> LatencyModel {
        LatencyModel {
            id: self.id@,
            name: self.name@,
            latency_ms: self.latency_ms,
            error: opt_view(self.error),
            tested_at: self.tested_at,
            method: self.method@,
        }
    }
}

// ---------------------------------------------------------------------------
// The way of a probe
// ---------------------------------------------------------------------------
/// How a node is probed.
#[derive(Debug, Clone, Copy, PartialEq, Eq, Structural)]
pub enum ProbeRoute {
    /// The core fetches an address through the node.
    Core,
    /// A connection to the node's port.
    Tcp,
    /// The node has no port to connect to, and no core runs.
    Unsupported,
}

/// The core is asked wherever it can be. Without it, nodes that only speak over UDP cannot be
/// probed at all.
pub fn probe_route(node: &ProxyNode, has_controller: bool) -> (r: ProbeRoute)
    ensures
        r == if has_controller {
            ProbeRoute::Core
        } else if node.protocol.udp_only() {
            ProbeRoute::Unsupported
        } else {
            ProbeRoute::Tcp
        },
{
    if has_controller {
        ProbeRoute::Core
    } else if node.protocol.is_udp_only() {
        ProbeRoute::Unsupported
    } else {
        ProbeRoute::Tcp
    }
}

/// The result for a node that cannot be probed.
pub fn unsupported_result(node: &ProxyNode, now_secs: i64) -> (r: LatencyResult)
    ensures
        r@ == (LatencyModel {
            id: node.id@,
            name: node.name@,
            latency_ms: None,
            error: Some("core not running: start the proxy to test this protocol"@),
            tested_at: now_secs,
            method: "unsupported"@,
        }),
{
    LatencyResult {
        id: node.id.clone(),
        name: node.name.clone(),
        latency_ms: None,
        error: Some("core not running: start the proxy to test this protocol".to_owned()),
        tested_at: now_secs,
        method: "unsupported".to_owned(),
    }
}

/// The result for a probe that was lost.
pub fn lost_result(error: String, now_secs: i64) -> (r: LatencyResult)
    ensures
        r@ == (LatencyModel {
            id: Seq::empty(),
            name: Seq::empty(),
            latency_ms: None,
            error: Some(error@),
            tested_at: now_secs,
            method: "error"@,
        }),
{
    let r = LatencyResult {
        id: String::new(),
        name: String::new(),
        latency_ms: None,
        error: Some(error),
        tested_at: now_secs,
        method: "error".to_owned(),
    };
    proof {
        assert(r@.id =~= Seq::empty());
        assert(r@.name =~= Seq::empty());
    }
    r
}

/// The key under which probes through the core share a result.
pub fn core_probe_key(
    base: &str,
    secret: &str,
    node: &ProxyNode,
    probe_url: &str,
    timeout_ms: u64,
) -> (r: String)
    requires
        id_cut_ok(node.id@),
    ensures
        r@ == "clash|"@ + base@ + "|"@ + secret@ + "|"@ + node.id@ + "|"@ + node_tag(node.id@)
            + "|"@ + probe_url@ + "|"@ + decimal(timeout_ms as nat),
{
    let mut s = concat3("clash|", base, "|");
    s.append(secret);
    s.append("|");
    s.append(node.id.as_str());
    s.append("|");
    s.append(outbound_tag(node).as_str());
    s.append("|");
    s.append(probe_url);
    s.append("|");
    s.append(decimal_of(timeout_ms).as_str());
    s
}

/// The key under which connections to a node share a result.
pub fn tcp_probe_key(node: &ProxyNode, timeout_ms: u64) -> (r: String)
    ensures
        r@ == "tcp|"@ + node.id@ + "|"@ + node.server@ + "|"@ + decimal(node.port as nat) + "|"@
            + decimal(timeout_ms as nat),
{
    let mut s = concat3("tcp|", node.id.as_str(), "|");
    s.append(node.server.as_str());
    s.append("|");
    s.append(decimal_of(node.port as u64).as_str());
    s.append("|");
    s.append(decimal_of(timeout_ms).as_str());
    s
}

/// Of two probes through the core the second counts, in which the way was warm.
pub open spec fn unified(first: Result<u32, Seq<char>>, second: Result<u32, Seq<char>>) -> Result<
    u32,
    Seq<char>,
> {
    match (first, second) {
        (_, Ok(ms)) => Ok(ms),
        (Ok(ms), Err(_)) => Ok(ms),
        (Err(a), Err(b)) => Err(a + "; retry: "@ + b),
    }
}

pub open spec fn delay_view(r: Result<u32, String>) -> Result<u32, Seq<char>> {
    match r {
        Ok(ms) => Ok(ms),
        Err(e) => Err(e@),
    }
}

pub fn unified_delay(first: Result<u32, String>, second: Result<u32, String>) -> (r: Result<
    u32,
    String,
>)
    ensures
        delay_view(r) == unified(delay_view(first), delay_view(second)),
{
    match second {
        Ok(ms) => Ok(ms),
        Err(b) => match first {
            Ok(ms) => Ok(ms),
            Err(a) => Err(concat3(a.as_str(), "; retry: ", b.as_str())),
        },
    }
}

/// The result of a probe.
pub fn probe_result(node: &ProxyNode, route: ProbeRoute, delay: Result<u32, String>, tested_at: i64) -> (r:
    LatencyResult)
    requires
        !(route is Unsupported),
    ensures
        r@ == (LatencyModel {
            id: node.id@,
            name: node.name@,
            latency_ms: match delay {
                Ok(ms) => Some(ms),
                Err(_) => None,
            },
            error: match delay {
                Ok(_) => None,
                Err(e) => Some(e@),
            },
            tested_at,
            method: if route is Core {
                "clash_api"@
            } else {
                "tcp"@
            },
        }),
{
    let method = match route {
        ProbeRoute::Core => "clash_api",
        _ => "tcp",
    };
    let (latency_ms, error) = match delay {
        Ok(ms) => (Some(ms), None),
        Err(e) => (None, Some(e)),
    };
    LatencyResult {
        id: node.id.clone(),
        name: node.name.clone(),
        latency_ms,
        error,
        tested_at,
        method: method.to_owned(),
    }
}

// ---------------------------------------------------------------------------
// Lists of results
// ---------------------------------------------------------------------------
pub open spec fn index_keys(v: Seq<(usize, LatencyResult)>) -> Seq<KeyModel> {
    Seq::new(v.len(), |i: int| KeyModel { rank: v[i].0 as int, name: Seq::empty() })
}

/// The results in the order of their nodes, then those of probes that were lost.
pub fn ordered_results(results: &Vec<(usize, LatencyResult)>, lost: Vec<LatencyResult>) -> (r: Vec<
    LatencyResult,
>)
    ensures
        exists|p: Seq<int>|
            {
                &&& #[trigger] is_stable_order(index_keys(results@), p)
                &&& r@.len() == p.len() + lost@.len()
                &&& forall|i: int| 0 <= i < p.len() ==> (#[trigger] r@[i]) == results@[p[i]].1
                &&& forall|i: int|
                    0 <= i < lost@.len() ==> #[trigger] r@[p.len() + i] == lost@[i]
            },
{
    let mut keys: Vec<SortKey> = Vec::new();
    for i in 0..results.len()
        invariant
            keys@.len() == i,
            forall|j: int|
                0 <= j < i ==> (#[trigger] keys@[j])@ == (KeyModel {
                    rank: results@[j].0 as int,
                    name: Seq::empty(),
                }),
    {
        keys.push(SortKey { rank: results[i].0 as i128, name: String::new() });
        proof {
            assert(keys@.last()@.name =~= Seq::empty());
        }
    }
    proof {
        assert(key_views(keys@) =~= index_keys(results@));
    }
    let order = stable_order(&keys);
    let ghost p = index_seq(order@);
    let mut out: Vec<LatencyResult> = Vec::new();
    for t in 0..order.len()
        invariant
            p == index_seq(order@),
            is_stable_order(index_keys(results@), p),
            out@.len() == t,
            forall|i: int| 0 <= i < t ==> (#[trigger] out@[i]) == results@[p[i]].1,
    {
        proof {
            assert(0 <= p[t as int] < index_keys(results@).len());
            assert(p[t as int] == order@[t as int]);
        }
        out.push(results[order[t]].1.clone());
    }
    let ghost first = out@;
    for x in it: lost
        invariant
            out@.len() == first.len() + it.index(),
            forall|i: int| 0 <= i < first.len() ==> (#[trigger] out@[i]) == first[i],
            forall|i: int|
                0 <= i < it.index() ==> #[trigger] out@[first.len() + i] == it.seq()[i],
    {
        out.push(x);
    }
    proof {
        assert forall|i: int| 0 <= i < p.len() implies (#[trigger] out@[i]) == results@[p[i]].1 by {
            assert(out@[i] == first[i]);
        }
    }
    out
}

/// What a plain ping says of nodes that have no port to connect to.
pub open spec fn ping_noted(r: LatencyModel) -> LatencyModel {
    if r.method == "unsupported"@ {
        LatencyModel {
            error: Some(
                "QUIC-only protocol: no TCP port to ping — use the real-latency test with the core running"@,
            ),
            ..r
        }
    } else {
        r
    }
}

pub fn note_pings(results: Vec<LatencyResult>) -> (r: Vec<LatencyResult>)
    ensures
        r@.len() == results@.len(),
        forall|i: int| 0 <= i < r@.len() ==> (#[trigger] r@[i])@ == ping_noted(results@[i]@),
{
    let mut out: Vec<LatencyResult> = Vec::new();
    for x in it: results
        invariant
            out@.len() == it.index(),
            forall|i: int|
                0 <= i < it.index() ==> (#[trigger] out@[i])@ == ping_noted(it.seq()[i]@),
    {
        let mut y = x;
        if same(y.method.as_str(), "unsupported") {
            y.error = Some(
                "QUIC-only protocol: no TCP port to ping — use the real-latency test with the core running".to_owned(),
            );
        }
        out.push(y);
    }
    out
}

/// The positions of the nodes that only speak over UDP, or of the others.
pub open spec fn udp_positions(nodes: Seq<ProxyNode>, udp: bool) -> Seq<int>
    decreases nodes.len(),
{
    if nodes.len() == 0 {
        Seq::empty()
    } else {
        let before = udp_positions(nodes.drop_last(), udp);
        if nodes.last().protocol.udp_only() == udp {
            before.push(nodes.len() - 1)
        } else {
            before
        }
    }
}

/// Parts the nodes that are connected to from those that the core has to probe.
pub fn split_by_transport(nodes: &Vec<ProxyNode>) -> (r: (Vec<usize>, Vec<usize>))
    ensures
        index_seq(r.0@) == udp_positions(nodes@, false),
        index_seq(r.1@) == udp_positions(nodes@, true),
{
    let mut tcp: Vec<usize> = Vec::new();
    let mut udp: Vec<usize> = Vec::new();
    proof {
        assert(nodes@.take(0) =~= Seq::empty());
        assert(index_seq(tcp@) =~= Seq::empty());
        assert(index_seq(udp@) =~= Seq::empty());
    }
    for i in 0..nodes.len()
        invariant
            index_seq(tcp@) == udp_positions(nodes@.take(i as int), false),
            index_seq(udp@) == udp_positions(nodes@.take(i as int), true),
    {
        let ghost t0 = tcp@;
        let ghost u0 = udp@;
        proof {
            assert(nodes@.take(i + 1).drop_last() =~= nodes@.take(i as int));
            assert(nodes@.take(i + 1).last() == nodes@[i as int]);
        }
        if nodes[i].protocol.is_udp_only() {
            udp.push(i);
            proof {
                assert(index_seq(udp@) =~= index_seq(u0).push(i as int));
            }
        } else {
            tcp.push(i);
            proof {
                assert(index_seq(tcp@) =~= index_seq(t0).push(i as int));
            }
        }
    }
    proof {
        assert(nodes@.take(nodes@.len() as int) =~= nodes@);
    }
    (tcp, udp)
}

/// The last result for a node.
pub open spec fn last_result(results: Seq<LatencyResult>, id: Seq<char>) -> Option<LatencyModel>
    decreases results.len(),
{
    if results.len() == 0 {
        None
    } else if results.last().id@ == id {
        Some(results.last()@)
    } else {
        last_result(results.drop_last(), id)
    }
}

fn find_result(results: &Vec<LatencyResult>, id: &str) -> (r: Option<usize>)
    ensures
        match r {
            Some(i) => i < results@.len() && last_result(results@, id@) == Some(
                results@[i as int]@,
            ),
            None => last_result(results@, id@) is None,
        },
{
    let mut i: usize = results.len();
    proof {
        assert(results@.take(i as int) =~= results@);
    }
    while i > 0
        invariant
            i <= results@.len(),
            last_result(results@, id@) == last_result(results@.take(i as int), id@),
        decreases i,
    {
        proof {
            assert(results@.take(i as int).last() == results@[i - 1]);
            assert(results@.take(i as int).drop_last() =~= results@.take(i - 1));
        }
        if same(results[i - 1].id.as_str(), id) {
            return Some(i - 1);
        }
        i -= 1;
    }
    None
}

/// The result for a node among those of connections and those through the core.
pub open spec fn ranked_result(
    node: ProxyNode,
    tcp: Seq<LatencyResult>,
    udp: Seq<LatencyResult>,
    now_secs: i64,
) -> LatencyModel {
    match last_result(udp, node.id@) {
        Some(m) => m,
        None => match last_result(tcp, node.id@) {
            Some(m) => m,
            None => LatencyModel {
                id: node.id@,
                name: node.name@,
                latency_ms: None,
                error: Some("missing probe result"@),
                tested_at: now_secs,
                method: "error"@,
            },
        },
    }
}

/// The results in the order of the nodes.
pub fn merge_ranked(
    nodes: &Vec<ProxyNode>,
    tcp: &Vec<LatencyResult>,
    udp: &Vec<LatencyResult>,
    now_secs: i64,
) -> (r: Vec<LatencyResult>)
    ensures
        r@.len() == nodes@.len(),
        forall|i: int|
            0 <= i < r@.len() ==> (#[trigger] r@[i])@ == ranked_result(
                nodes@[i],
                tcp@,
                udp@,
                now_secs,
            ),
{
    let mut out: Vec<LatencyResult> = Vec::new();
    for i in 0..nodes.len()
        invariant
            out@.len() == i,
            forall|j: int|
                0 <= j < i ==> (#[trigger] out@[j])@ == ranked_result(
                    nodes@[j],
                    tcp@,
                    udp@,
                    now_secs,
                ),
    {
        let n = &nodes[i];
        let found = match find_result(udp, n.id.as_str()) {
            Some(k) => udp[k].clone(),
            None => match find_result(tcp, n.id.as_str()) {
                Some(k) => tcp[k].clone(),
                None => LatencyResult {
                    id: n.id.clone(),
                    name: n.name.clone(),
                    latency_ms: None,
                    error: Some("missing probe result".to_owned()),
                    tested_at: now_secs,
                    method: "error".to_owned(),
                },
            },
        };
        out.push(found);
    }
    out
}

// ---------------------------------------------------------------------------
// The cache
// ---------------------------------------------------------------------------
/// Milliseconds that the result is kept.
pub open spec fn lifetime(r: LatencyResult) -> u64 {
    if r.latency_ms is Some {
        CACHE_TTL_MS
    } else {
        FAILURE_CACHE_TTL_MS
    }
}

pub fn cache_ttl(result: &LatencyResult) -> (r: u64)
    ensures
        r == lifetime(*result),
{
    if result.latency_ms.is_some() {
        CACHE_TTL_MS
    } else {
        FAILURE_CACHE_TTL_MS
    }
}

/// A result, with when it came, in milliseconds of a steady clock.
#[derive(Debug)]
pub struct CachedProbe {
    pub at_ms: u64,
    pub result: LatencyResult,
}

/// The result is new enough.
pub open spec fn is_fresh(c: CachedProbe, now_ms: u64) -> bool {
    rise(c.at_ms, now_ms) < lifetime(c.result)
}

fn fresh(c: &CachedProbe, now_ms: u64) -> (r: bool)
    ensures
        r == is_fresh(*c, now_ms),
{
    now_ms.saturating_sub(c.at_ms) < cache_ttl(&c.result)
}

#[derive(Debug)]
pub struct ProbeCache {
    pub entries: Table<CachedProbe>,
    /// When old results were last dropped.
    pub last_prune_ms: u64,
}

pub type Probes = Map<Seq<char>, CachedProbe>;

/// The results that are new enough.
pub open spec fn pruned(m: Probes, now_ms: u64) -> Probes {
    Map::new(
        |k: Seq<char>| m.contains_key(k) && is_fresh(m[k], now_ms),
        |k: Seq<char>| m[k],
    )
}

/// `kept` is what is left of `m` without `n` of its oldest results.
pub open spec fn without_oldest(m: Probes, kept: Probes, n: int) -> bool {
    &&& kept.submap_of(m)
    &&& kept.dom().len() + n == m.dom().len()
    &&& forall|g: Seq<char>, k: Seq<char>|
        #[trigger] m.contains_key(g) && !kept.contains_key(g) && #[trigger] kept.contains_key(k)
            ==> m[g].at_ms <= m[k].at_ms
}

/// The cache drops old results: after a while, or where it is full.
pub open spec fn prunes(c: Probes, last_prune_ms: u64, key: Seq<char>, now_ms: u64) -> bool {
    ||| rise(last_prune_ms, now_ms) >= FAILURE_CACHE_TTL_MS
    ||| c.dom().len() >= MAX_CACHE_ENTRIES && !c.contains_key(key)
}

/// The results before a new one is put among them: where there is no room, the oldest are
/// gone.
pub open spec fn made_room(c: Probes, last_prune_ms: u64, key: Seq<char>, now_ms: u64, kept: Probes) -> bool {
    let m = if prunes(c, last_prune_ms, key, now_ms) {
        pruned(c, now_ms)
    } else {
        c
    };
    if m.dom().len() >= MAX_CACHE_ENTRIES && !m.contains_key(key) {
        without_oldest(m, kept, m.dom().len() - CACHE_TRIM_TO + 1)
    } else {
        kept == m
    }
}

impl ProbeCache {
    pub fn new(now_ms: u64) -> (r: Self)
        ensures
            r.entries@ == Map::<Seq<char>, CachedProbe>::empty(),
            r.last_prune_ms == now_ms,
    {
        ProbeCache { entries: Table::new(), last_prune_ms: now_ms }
    }

    /// The result that is kept for a probe. One that is too old is dropped.
    pub fn cached_result(&mut self, key: &str, now_ms: u64) -> (r: Option<LatencyResult>)
        ensures
            ({
                let m = old(self).entries@;
                &&& r == if m.contains_key(key@) && is_fresh(m[key@], now_ms) {
                    Some(m[key@].result)
                } else {
                    None
                }
                &&& final(self).entries@ == if r is Some {
                    m
                } else {
                    m.remove(key@)
                }
                &&& final(self).last_prune_ms == old(self).last_prune_ms
            }),
    {
        let ghost m = self.entries@;
        let kept = match self.entries.get(key) {
            Some(c) => {
                if fresh(c, now_ms) {
                    return Some(c.result.clone());
                }
                true
            },
            None => false,
        };
        if kept {
            let _ = self.entries.remove(key);
        } else {
            proof {
                assert(m.remove(key@) =~= m);
            }
        }
        None
    }

    /// Drops the results that are too old.
    fn drop_stale(&mut self, now_ms: u64)
        ensures
            final(self).entries@ == pruned(old(self).entries@, now_ms),
            final(self).last_prune_ms == old(self).last_prune_ms,
    {
        let ghost m = self.entries@;
        let n: usize = self.entries.len();
        let ghost rows = self.entries.rows();
        let mut stale: Vec<String> = Vec::new();
        for i in 0..n
            invariant
                n == rows.len(),
                rows == self.entries.rows(),
                self.entries@ == m,
                distinct_keys(rows),
                m == map_of_rows(rows),
                forall|a: int|
                    0 <= a < stale@.len() ==> m.contains_key((#[trigger] stale@[a])@) && !is_fresh(
                        m[stale@[a]@],
                        now_ms,
                    ),
                forall|x: int|
                    0 <= x < i && !is_fresh((#[trigger] rows[x]).1, now_ms) ==> exists|a: int|
                        0 <= a < stale@.len() && (#[trigger] stale@[a])@ == rows[x].0@,
        {
            proof {
                lemma_row(rows, i as int);
            }
            let ghost before = stale@;
            if !fresh(self.entries.value_at(i), now_ms) {
                stale.push(self.entries.key_at(i).clone());
                proof {
                    assert(stale@[before.len() as int]@ == rows[i as int].0@);
                }
            }
            proof {
                assert forall|x: int|
                    0 <= x < i + 1 && !is_fresh((#[trigger] rows[x]).1, now_ms) implies exists|
                    a: int,
                |
                    0 <= a < stale@.len() && (#[trigger] stale@[a])@ == rows[x].0@ by {
                    if x < i {
                        let a = choose|a: int|
                            0 <= a < before.len() && (#[trigger] before[a])@ == rows[x].0@;
                        assert(stale@[a] == before[a]);
                    }
                }
            }
        }
        for i in 0..stale.len()
            invariant
                forall|k: Seq<char>| #[trigger]
                    self.entries@.contains_key(k) ==> m.contains_key(k) && self.entries@[k] == m[k],
                forall|k: Seq<char>|
                    m.contains_key(k) && is_fresh(m[k], now_ms)
                        ==> #[trigger] self.entries@.contains_key(k),
                forall|a: int|
                    0 <= a < i ==> !self.entries@.contains_key((#[trigger] stale@[a])@),
                forall|a: int|
                    0 <= a < stale@.len() ==> m.contains_key((#[trigger] stale@[a])@) && !is_fresh(
                        m[stale@[a]@],
                        now_ms,
                    ),
                self.last_prune_ms == old(self).last_prune_ms,
        {
            let _ = self.entries.remove(stale[i].as_str());
        }
        proof {
            let want = pruned(m, now_ms);
            assert forall|k: Seq<char>|
                #[trigger] self.entries@.contains_key(k) == want.contains_key(k) && (
                self.entries@.contains_key(k) ==> self.entries@[k] == want[k]) by {
                if m.contains_key(k) && !is_fresh(m[k], now_ms) {
                    assert(has_key(rows, k));
                    let x = row_of(rows, k);
                    assert(rows[x].0@ == k);
                    lemma_row(rows, x);
                    let a = choose|a: int|
                        0 <= a < stale@.len() && (#[trigger] stale@[a])@ == rows[x].0@;
                    assert(!self.entries@.contains_key(stale@[a]@));
                }
            }
            assert(self.entries@ =~= want);
        }
    }

    /// Drops the oldest results.
    fn drop_oldest(&mut self, count: usize)
        requires
            count <= old(self).entries@.dom().len(),
        ensures
            without_oldest(old(self).entries@, final(self).entries@, count as int),
            final(self).last_prune_ms == old(self).last_prune_ms,
    {
        let ghost m = self.entries@;
        let n: usize = self.entries.len();
        let ghost rows = self.entries.rows();
        let mut keys: Vec<SortKey> = Vec::new();
        let mut names: Vec<String> = Vec::new();
        for i in 0..n
            invariant
                n == rows.len(),
                rows == self.entries.rows(),
                keys@.len() == i,
                names@.len() == i,
                forall|j: int|
                    0 <= j < i ==> (#[trigger] keys@[j])@ == (KeyModel {
                        rank: rows[j].1.at_ms as int,
                        name: Seq::empty(),
                    }),
                forall|j: int| 0 <= j < i ==> (#[trigger] names@[j])@ == rows[j].0@,
        {
            keys.push(
                SortKey { rank: self.entries.value_at(i).at_ms as i128, name: String::new() },
            );
            names.push(self.entries.key_at(i).clone());
            proof {
                assert(keys@.last()@.name =~= Seq::empty());
            }
        }
        let order = stable_order(&keys);
        let ghost p = index_seq(order@);
        let ghost km = key_views(keys@);
        proof {
            assert forall|i: int| 0 <= i < km.len() implies (#[trigger] km[i]).name.len() == 0
                && km[i].rank == rows[i].1.at_ms by {
                assert(km[i] == keys@[i]@);
            }
        }
        for t in 0..count
            invariant
                count <= order@.len(),
                order@.len() == names@.len(),
                p == index_seq(order@),
                n == rows.len(),
                names@.len() == n,
                km.len() == n,
                distinct_keys(rows),
                m == map_of_rows(rows),
                m.dom().finite(),
                is_stable_order(km, p),
                forall|i: int|
                    0 <= i < km.len() ==> (#[trigger] km[i]).name.len() == 0 && km[i].rank
                        == rows[i].1.at_ms,
                forall|j: int| 0 <= j < n ==> (#[trigger] names@[j])@ == rows[j].0@,
                self.entries@.submap_of(m),
                self.entries@.dom().finite(),
                self.entries@.dom().len() + t == m.dom().len(),
                forall|s: int|
                    0 <= s < t ==> !self.entries@.contains_key(rows[#[trigger] p[s]].0@),
                forall|s: int|
                    t <= s < p.len() ==> self.entries@.contains_key(rows[#[trigger] p[s]].0@),
                self.last_prune_ms == old(self).last_prune_ms,
        {
            let ghost before = self.entries@;
            proof {
                assert(0 <= p[t as int] < km.len());
                assert(p[t as int] == order@[t as int]);
                assert(before.contains_key(rows[p[t as int]].0@));
            }
            let _ = self.entries.remove(names[order[t]].as_str());
            proof {
                let k = rows[p[t as int]].0@;
                assert(self.entries@ == before.remove(k));
                assert(self.entries@.dom() =~= before.dom().remove(k));
                assert forall|s: int| t + 1 <= s < p.len() implies self.entries@.contains_key(
                    rows[#[trigger] p[s]].0@,
                ) by {
                    lemma_order_ranks(km, p, t as int, s);
                    assert(0 <= p[s] < km.len());
                    let x = p[t as int];
                    let y = p[s];
                    if x < y {
                        assert(rows[x].0@ != rows[y].0@);
                    } else {
                        assert(rows[y].0@ != rows[x].0@);
                    }
                }
            }
        }
        proof {
            let kept = self.entries@;
            assert forall|g: Seq<char>, k: Seq<char>|
                #[trigger] m.contains_key(g) && !kept.contains_key(g)
                    && #[trigger] kept.contains_key(k) implies m[g].at_ms <= m[k].at_ms by {
                assert(kept.dom().contains(k));
                assert(m.dom().contains(k));
                assert(has_key(rows, g));
                assert(has_key(rows, k));
                let x = row_of(rows, g);
                let y = row_of(rows, k);
                assert(rows[x].0@ == g && rows[y].0@ == k);
                lemma_row(rows, x);
                lemma_row(rows, y);
                lemma_order_covers(km, p, x);
                lemma_order_covers(km, p, y);
                let a = choose|a: int| 0 <= a < p.len() && p[a] == x;
                let b = choose|b: int| 0 <= b < p.len() && p[b] == y;
                if a >= count {
                    assert(kept.contains_key(rows[p[a]].0@));
                }
                if b < count {
                    assert(!kept.contains_key(rows[p[b]].0@));
                }
                lemma_order_ranks(km, p, a, b);
            }
        }
    }

    /// Keeps a result. Of results that came at the same moment either may count as the older
    /// one.
    pub fn cache_result(&mut self, key: String, result: LatencyResult, now_ms: u64)
        ensures
            exists|kept: Probes|
                {
                    &&& #[trigger] made_room(
                        old(self).entries@,
                        old(self).last_prune_ms,
                        key@,
                        now_ms,
                        kept,
                    )
                    &&& final(self).entries@ == kept.insert(
                        key@,
                        (CachedProbe { at_ms: now_ms, result }),
                    )
                },
            final(self).last_prune_ms == if prunes(
                old(self).entries@,
                old(self).last_prune_ms,
                key@,
                now_ms,
            ) {
                now_ms
            } else {
                old(self).last_prune_ms
            },
    {
        let ghost start = self.entries@;
        let n: usize = self.entries.len();
        let prune = now_ms.saturating_sub(self.last_prune_ms) >= FAILURE_CACHE_TTL_MS || (n
            >= MAX_CACHE_ENTRIES && !self.entries.contains_key(key.as_str()));
        if prune {
            self.drop_stale(now_ms);
            self.last_prune_ms = now_ms;
        }
        let m: usize = self.entries.len();
        if m >= MAX_CACHE_ENTRIES && !self.entries.contains_key(key.as_str()) {
            self.drop_oldest(m - CACHE_TRIM_TO + 1);
        }
        let ghost kept = self.entries@;
        proof {
            assert(made_room(start, old(self).last_prune_ms, key@, now_ms, kept));
        }
        self.entries.insert(key, CachedProbe { at_ms: now_ms, result });
    }
}

/// The cache never holds more than its limit.
pub proof fn law_cache_keeps_to_its_limit(
    c: Probes,
    last_prune_ms: u64,
    key: Seq<char>,
    now_ms: u64,
    kept: Probes,
    entry: CachedProbe,
)
    requires
        c.dom().finite(),
        c.dom().len() <= MAX_CACHE_ENTRIES,
        made_room(c, last_prune_ms, key, now_ms, kept),
    ensures
        kept.insert(key, entry).dom().finite(),
        kept.insert(key, entry).dom().len() <= MAX_CACHE_ENTRIES,
{
    let m = if prunes(c, last_prune_ms, key, now_ms) {
        pruned(c, now_ms)
    } else {
        c
    };
    assert(m.dom().subset_of(c.dom()));
    vstd::set_lib::lemma_len_subset(m.dom(), c.dom());
    assert(kept.dom().subset_of(m.dom()));
    vstd::set_lib::lemma_len_subset(kept.dom(), m.dom());
    assert(kept.insert(key, entry).dom() =~= kept.dom().insert(key));
    if kept.contains_key(key) {
        assert(kept.dom().insert(key) =~= kept.dom());
    }
}

/// A failure is kept for a shorter time than a result.
pub proof fn law_failures_are_forgotten_first(r: LatencyResult, ok: LatencyResult)
    requires
        r.latency_ms is None,
        ok.latency_ms is Some,
    ensures
        lifetime(r) < lifetime(ok),
{
}

} // verus!
