//! Which nodes a second core serves, and on which ports.

use crate::core_kind::CoreKind;
use crate::domain::chain::{ChainHop, ProxyChain};
use crate::domain::node::{Protocol, ProxyNode};
use crate::domain::settings::{runtime_of, AppSettings, ExtraInbound, ProtocolCoreItem};
use crate::order::lemma_filter_prefix;
use crate::text::{lowered, same, trimmed};
use vstd::prelude::*;

verus! {

/// At most this many nodes are handed to the second core.
pub const SIDECAR_MAX_NODES: usize = 1024;

/// The nodes that the second core serves, by their ids, with their ports.
#[derive(Debug, Clone)]
pub struct SidecarPlan {
    pub ports: Vec<(String, u16)>,
}

pub open spec fn port_views(v: Seq<(String, u16)>) -> Seq<(Seq<char>, u16)> {
    Seq::new(v.len(), |i: int| (v[i].0@, v[i].1))
}

impl View for SidecarPlan {
    type V = Seq<(Seq<char>, u16)>;

    open spec fn view(&self) -> Seq<(Seq<char>, u16)> {
        port_views(self.ports@)
    }
}

/// The protocol is handed to the second core.
pub open spec fn is_wanted(items: Seq<ProtocolCoreItem>, protocol: Seq<char>) -> bool {
    exists|i: int|
        0 <= i < items.len() && (#[trigger] items[i]).core@ == "xray"@ && items[i].protocol@
            == protocol
}

/// Some protocol is handed to the second core.
pub open spec fn any_wanted(items: Seq<ProtocolCoreItem>) -> bool {
    exists|i: int| 0 <= i < items.len() && (#[trigger] items[i]).core@ == "xray"@
}

pub open spec fn hop_is_node(h: ChainHop, id: Seq<char>) -> bool {
    match h {
        ChainHop::Node { node_id } => node_id@ == id,
        ChainHop::Pool { pool_id } => false,
    }
}

pub open spec fn hops_hold(hops: Seq<ChainHop>, id: Seq<char>) -> bool {
    exists|i: int| 0 <= i < hops.len() && hop_is_node(#[trigger] hops[i], id)
}

/// The node is a hop of a chain.
pub open spec fn in_chains(chains: Seq<ProxyChain>, id: Seq<char>) -> bool {
    exists|i: int| 0 <= i < chains.len() && hops_hold((#[trigger] chains[i]).hops@, id)
}

/// The node can be handed to the second core.
pub open spec fn is_candidate(settings: AppSettings, chains: Seq<ProxyChain>) -> spec_fn(
    ProxyNode,
) -> bool {
    |n: ProxyNode|
        {
            &&& is_wanted(settings.protocol_cores@, n.protocol.name())
            &&& n.protocol != Protocol::WireGuard
            &&& !in_chains(chains, n.id@)
            &&& CoreKind::Xray.serves_node(n)
        }
}

pub open spec fn inbound_has_port(inbounds: Seq<ExtraInbound>, port: u16) -> bool {
    exists|i: int| 0 <= i < inbounds.len() && (#[trigger] inbounds[i]).port == port
}

/// The main core, or the client, listens on the port.
pub open spec fn is_reserved(settings: AppSettings, diag_port: u16, port: u16) -> bool {
    ||| port == settings.mixed_port
    ||| port == settings.api_port
    ||| port == diag_port
    ||| inbound_has_port(settings.extra_inbounds@, port)
}

pub open spec fn is_free(settings: AppSettings, diag_port: u16) -> spec_fn((Seq<char>, u16)) -> bool {
    |x: (Seq<char>, u16)| !is_reserved(settings, diag_port, x.1)
}

/// The candidates with one port after the other, as far as there are ports.
pub open spec fn numbered_ports(cands: Seq<ProxyNode>, base: u16) -> Seq<(Seq<char>, u16)> {
    let room = 0x1_0000 - base;
    let n = if cands.len() < room {
        cands.len() as int
    } else {
        room
    };
    Seq::new(n as nat, |i: int| (cands[i].id@, (base + i) as u16))
}

/// The second core is used at all.
pub open spec fn delegates(settings: AppSettings) -> bool {
    &&& settings.multi_core_enabled
    &&& CoreKind::of_word(lowered(trimmed(settings.core_type@))) == CoreKind::SingBox
    &&& runtime_of(settings.runtime_source@) is Generated
    &&& any_wanted(settings.protocol_cores@)
}

/// The nodes that the second core serves: the candidates have one port after the other,
/// those whose port is taken stay with the main core, and so do those behind the limit.
pub open spec fn delegated(
    settings: AppSettings,
    chains: Seq<ProxyChain>,
    nodes: Seq<ProxyNode>,
    diag_port: u16,
) -> Seq<(Seq<char>, u16)> {
    if !delegates(settings) {
        Seq::empty()
    } else {
        let cands = nodes.filter(is_candidate(settings, chains));
        let free = numbered_ports(cands, settings.sidecar_port).filter(
            is_free(settings, diag_port),
        );
        if free.len() > SIDECAR_MAX_NODES {
            free.take(SIDECAR_MAX_NODES as int)
        } else {
            free
        }
    }
}

fn wanted(items: &Vec<ProtocolCoreItem>, protocol: &str) -> (r: bool)
    ensures
        r == is_wanted(items@, protocol@),
{
    for i in 0..items.len()
        invariant
            forall|j: int|
                0 <= j < i ==> !((#[trigger] items@[j]).core@ == "xray"@ && items@[j].protocol@
                    == protocol@),
    {
        if same(items[i].core.as_str(), "xray") && same(items[i].protocol.as_str(), protocol) {
            return true;
        }
    }
    false
}

fn some_wanted(items: &Vec<ProtocolCoreItem>) -> (r: bool)
    ensures
        r == any_wanted(items@),
{
    for i in 0..items.len()
        invariant
            forall|j: int| 0 <= j < i ==> (#[trigger] items@[j]).core@ != "xray"@,
    {
        if same(items[i].core.as_str(), "xray") {
            return true;
        }
    }
    false
}

fn hops_have(hops: &Vec<ChainHop>, id: &str) -> (r: bool)
    ensures
        r == hops_hold(hops@, id@),
{
    for i in 0..hops.len()
        invariant
            forall|j: int| 0 <= j < i ==> !hop_is_node(#[trigger] hops@[j], id@),
    {
        let found = match &hops[i] {
            ChainHop::Node { node_id } => same(node_id.as_str(), id),
            ChainHop::Pool { .. } => false,
        };
        if found {
            proof {
                assert(hop_is_node(hops@[i as int], id@));
            }
            return true;
        }
    }
    false
}

fn chains_have(chains: &Vec<ProxyChain>, id: &str) -> (r: bool)
    ensures
        r == in_chains(chains@, id@),
{
    for i in 0..chains.len()
        invariant
            forall|j: int| 0 <= j < i ==> !hops_hold((#[trigger] chains@[j]).hops@, id@),
    {
        if hops_have(&chains[i].hops, id) {
            proof {
                assert(hops_hold(chains@[i as int].hops@, id@));
            }
            return true;
        }
    }
    false
}

fn reserved(settings: &AppSettings, diag_port: u16, port: u16) -> (r: bool)
    ensures
        r == is_reserved(*settings, diag_port, port),
{
    if port == settings.mixed_port || port == settings.api_port || port == diag_port {
        return true;
    }
    for i in 0..settings.extra_inbounds.len()
        invariant
            forall|j: int|
                0 <= j < i ==> (#[trigger] settings.extra_inbounds@[j]).port != port,
    {
        if settings.extra_inbounds[i].port == port {
            proof {
                assert(settings.extra_inbounds@[i as int].port == port);
            }
            return true;
        }
    }
    false
}

proof fn lemma_numbered_step(cands: Seq<ProxyNode>, n: ProxyNode, base: u16)
    ensures
        base + cands.len() <= 0xffff ==> numbered_ports(cands.push(n), base) == numbered_ports(
            cands,
            base,
        ).push((n.id@, (base + cands.len()) as u16)),
        base + cands.len() > 0xffff ==> numbered_ports(cands.push(n), base) == numbered_ports(
            cands,
            base,
        ),
{
    let a = numbered_ports(cands, base);
    let b = numbered_ports(cands.push(n), base);
    if base + cands.len() <= 0xffff {
        assert(b =~= a.push((n.id@, (base + cands.len()) as u16)));
    } else {
        assert(b =~= a);
    }
}

proof fn lemma_numbered_prefix(a: Seq<ProxyNode>, b: Seq<ProxyNode>, base: u16)
    requires
        a.len() <= b.len(),
        a == b.take(a.len() as int),
    ensures
        numbered_ports(a, base).len() <= numbered_ports(b, base).len(),
        numbered_ports(a, base) == numbered_ports(b, base).take(
            numbered_ports(a, base).len() as int,
        ),
{
    assert(numbered_ports(a, base) =~= numbered_ports(b, base).take(
        numbered_ports(a, base).len() as int,
    ));
}

/// Which nodes the second core serves, and on which ports; nothing where it serves none.
/// `diag_port` is the port that the client's own tests listen on.
pub fn compute_sidecar_plan(
    settings: &AppSettings,
    chains: &Vec<ProxyChain>,
    nodes: &Vec<ProxyNode>,
    diag_port: u16,
) -> (r: Option<SidecarPlan>)
    ensures
        match r {
            Some(p) => p@ == delegated(*settings, chains@, nodes@, diag_port) && p@.len() > 0,
            None => delegated(*settings, chains@, nodes@, diag_port).len() == 0,
        },
{
    if !settings.multi_core_enabled {
        return None;
    }
    if CoreKind::parse(settings.core_type.as_str()) != CoreKind::SingBox
        || settings.runtime_source().is_custom() {
        return None;
    }
    if !some_wanted(&settings.protocol_cores) {
        return None;
    }
    let base: u16 = settings.sidecar_port;
    let ghost cand = is_candidate(*settings, chains@);
    let ghost free = is_free(*settings, diag_port);
    let mut ports: Vec<(String, u16)> = Vec::new();
    let mut next_index: u32 = 0;
    let mut i: usize = 0;
    let mut done = false;
    proof {
        reveal(Seq::filter);
        assert(nodes@.take(0).filter(cand) =~= Seq::empty());
        assert(numbered_ports(Seq::empty(), base) =~= Seq::empty());
        assert(port_views(ports@) =~= numbered_ports(nodes@.take(0).filter(cand), base).filter(free));
    }
    while i < nodes.len() && !done
        invariant
            i <= nodes@.len(),
            base == settings.sidecar_port,
            cand == is_candidate(*settings, chains@),
            free == is_free(*settings, diag_port),
            port_views(ports@) == numbered_ports(nodes@.take(i as int).filter(cand), base).filter(
                free,
            ),
            next_index <= 0x1_0000,
            !done ==> next_index == nodes@.take(i as int).filter(cand).len(),
            !done ==> base + next_index <= 0x1_0000,
            ports@.len() <= SIDECAR_MAX_NODES,
            !done ==> ports@.len() < SIDECAR_MAX_NODES,
            done ==> ports@.len() == SIDECAR_MAX_NODES || base + nodes@.take(i as int).filter(
                cand,
            ).len() > 0xffff,
        decreases nodes@.len() - i,
    {
        let node = &nodes[i];
        let ghost upto = nodes@.take(i as int).filter(cand);
        proof {
            reveal(Seq::filter);
            assert(nodes@.take(i + 1).drop_last() =~= nodes@.take(i as int));
            assert(nodes@.take(i + 1).last() == *node);
            lemma_numbered_step(upto, *node, base);
        }
        let taken = wanted(&settings.protocol_cores, node.protocol.as_str()) && node.protocol
            != Protocol::WireGuard && !chains_have(chains, node.id.as_str())
            && CoreKind::Xray.supports_node(node);
        if taken {
            proof {
                assert(nodes@.take(i + 1).filter(cand) == upto.push(*node));
            }
            if next_index > 0xffff - (base as u32) {
                done = true;
            } else {
                let port: u16 = base + (next_index as u16);
                next_index += 1;
                let ghost before = ports@;
                let ghost pair = (node.id@, port);
                proof {
                    let a = numbered_ports(upto, base);
                    assert(a.push(pair).drop_last() =~= a);
                }
                if !reserved(settings, diag_port, port) {
                    ports.push((node.id.clone(), port));
                    proof {
                        assert(port_views(ports@) =~= port_views(before).push(pair));
                    }
                    if ports.len() >= SIDECAR_MAX_NODES {
                        done = true;
                    }
                }
            }
        }
        i += 1;
    }
    proof {
        let cands = nodes@.filter(cand);
        let part = nodes@.take(i as int).filter(cand);
        lemma_filter_prefix(nodes@, cand, i as int);
        lemma_numbered_prefix(part, cands, base);
        let all = numbered_ports(cands, base);
        let some = numbered_ports(part, base);
        lemma_filter_prefix(all, free, some.len() as int);
        if i == nodes@.len() {
            assert(nodes@.take(i as int) =~= nodes@);
        }
        assert(all.take(some.len() as int) == some);
        if base + part.len() > 0xffff {
            assert(some.len() == all.len());
            assert(all.take(all.len() as int) =~= all);
        }
        assert(port_views(ports@).len() == ports@.len());
        assert(port_views(ports@) =~= delegated(*settings, chains@, nodes@, diag_port));
    }
    if ports.len() == 0 {
        None
    } else {
        Some(SidecarPlan { ports })
    }
}

impl SidecarPlan {
    /// The ports, in their order.
    pub fn port_list(&self) -> (r: Vec<u16>)
        ensures
            r@.len() == self@.len(),
            forall|i: int| 0 <= i < r@.len() ==> #[trigger] r@[i] == self@[i].1,
    {
        let mut out: Vec<u16> = Vec::new();
        for i in 0..self.ports.len()
            invariant
                out@.len() == i,
                forall|j: int| 0 <= j < i ==> #[trigger] out@[j] == self.ports@[j].1,
        {
            out.push(self.ports[i].1);
        }
        out
    }
}

/// The position of the first node of that id.
pub open spec fn pos_of_id(nodes: Seq<ProxyNode>, id: Seq<char>) -> Option<int>
    decreases nodes.len(),
{
    if nodes.len() == 0 {
        None
    } else {
        match pos_of_id(nodes.drop_last(), id) {
            Some(i) => Some(i),
            None => if nodes.last().id@ == id {
                Some(nodes.len() - 1)
            } else {
                None
            },
        }
    }
}

/// The nodes of a plan, by their positions, with their ports.
pub open spec fn entries_of(plan: Seq<(Seq<char>, u16)>, nodes: Seq<ProxyNode>) -> Seq<(int, u16)>
    decreases plan.len(),
{
    if plan.len() == 0 {
        Seq::empty()
    } else {
        let before = entries_of(plan.drop_last(), nodes);
        match pos_of_id(nodes, plan.last().0) {
            Some(i) => before.push((i, plan.last().1)),
            None => before,
        }
    }
}

pub open spec fn entry_views(v: Seq<(usize, u16)>) -> Seq<(int, u16)> {
    Seq::new(v.len(), |i: int| (v[i].0 as int, v[i].1))
}

pub fn position_of(nodes: &Vec<ProxyNode>, id: &str) -> (r: Option<usize>)
    ensures
        match r {
            Some(i) => i < nodes@.len() && pos_of_id(nodes@, id@) == Some(i as int) && nodes@[i as int].id@
                == id@,
            None => pos_of_id(nodes@, id@) is None,
        },
{
    proof {
        assert(nodes@.take(0) =~= Seq::empty());
    }
    for i in 0..nodes.len()
        invariant
            pos_of_id(nodes@.take(i as int), id@) is None,
    {
        proof {
            assert(nodes@.take(i + 1).drop_last() =~= nodes@.take(i as int));
            assert(nodes@.take(i + 1).last() == nodes@[i as int]);
        }
        if same(nodes[i].id.as_str(), id) {
            proof {
                lemma_pos_is_kept(nodes@, id@, i + 1);
            }
            return Some(i);
        }
    }
    proof {
        assert(nodes@.take(nodes@.len() as int) =~= nodes@);
    }
    None
}

proof fn lemma_pos_is_kept(nodes: Seq<ProxyNode>, id: Seq<char>, n: int)
    requires
        0 <= n <= nodes.len(),
        pos_of_id(nodes.take(n), id) is Some,
    ensures
        pos_of_id(nodes, id) == pos_of_id(nodes.take(n), id),
    decreases nodes.len(),
{
    if n < nodes.len() {
        assert(nodes.drop_last().take(n) =~= nodes.take(n));
        lemma_pos_is_kept(nodes.drop_last(), id, n);
    } else {
        assert(nodes.take(n) =~= nodes);
    }
}

/// The nodes that the second core is told of, with their ports.
pub fn sidecar_entries(plan: &SidecarPlan, nodes: &Vec<ProxyNode>) -> (r: Vec<(usize, u16)>)
    ensures
        entry_views(r@) == entries_of(plan@, nodes@),
{
    let mut out: Vec<(usize, u16)> = Vec::new();
    proof {
        assert(plan@.take(0) =~= Seq::empty());
        assert(entry_views(out@) =~= Seq::empty());
    }
    for i in 0..plan.ports.len()
        invariant
            entry_views(out@) == entries_of(plan@.take(i as int), nodes@),
    {
        let ghost before = out@;
        proof {
            assert(plan@.take(i + 1).drop_last() =~= plan@.take(i as int));
            assert(plan@.take(i + 1).last() == (plan.ports@[i as int].0@, plan.ports@[i as int].1));
        }
        if let Some(p) = position_of(nodes, plan.ports[i].0.as_str()) {
            out.push((p, plan.ports[i].1));
            proof {
                assert(entry_views(out@) =~= entry_views(before).push(
                    (p as int, plan.ports@[i as int].1),
                ));
            }
        }
    }
    proof {
        assert(plan@.take(plan@.len() as int) =~= plan@);
    }
    out
}

proof fn lemma_filter_rises(s: Seq<(Seq<char>, u16)>, p: spec_fn((Seq<char>, u16)) -> bool)
    requires
        forall|a: int, b: int| 0 <= a < b < s.len() ==> (#[trigger] s[a]).1 < (#[trigger] s[b]).1,
    ensures
        forall|a: int, b: int|
            0 <= a < b < s.filter(p).len() ==> (#[trigger] s.filter(p)[a]).1 < (
            #[trigger] s.filter(p)[b]).1,
        forall|a: int| 0 <= a < s.filter(p).len() ==> p(#[trigger] s.filter(p)[a]),
        forall|a: int|
            0 <= a < s.filter(p).len() ==> s.len() > 0 && (#[trigger] s.filter(p)[a]).1
                <= s.last().1,
    decreases s.len(),
{
    reveal(Seq::filter);
    if s.len() > 0 {
        let t = s.drop_last();
        lemma_filter_rises(t, p);
        let f = t.filter(p);
        if t.len() > 0 {
            assert(t.last() == s[s.len() - 2]);
        }
        assert forall|a: int, b: int| 0 <= a < b < s.filter(p).len() implies (
        #[trigger] s.filter(p)[a]).1 < (#[trigger] s.filter(p)[b]).1 by {
            if b < f.len() {
                assert(s.filter(p)[a] == f[a] && s.filter(p)[b] == f[b]);
            } else {
                assert(s.filter(p)[a] == f[a]);
                assert(f[a].1 <= t.last().1);
            }
        }
        assert forall|a: int| 0 <= a < s.filter(p).len() implies p(#[trigger] s.filter(p)[a]) && (
        s.filter(p)[a]).1 <= s.last().1 by {
            if a < f.len() {
                assert(s.filter(p)[a] == f[a]);
                assert(f[a].1 <= t.last().1);
            }
        }
    }
}

/// In a plan the ports rise, so that no two nodes share one; none is a port that is taken,
/// none lies below the first port, and the plan keeps to its limit.
pub proof fn law_plan_ports_are_free(
    settings: AppSettings,
    chains: Seq<ProxyChain>,
    nodes: Seq<ProxyNode>,
    diag_port: u16,
)
    ensures
        ({
            let plan = delegated(settings, chains, nodes, diag_port);
            &&& plan.len() <= SIDECAR_MAX_NODES
            &&& forall|a: int, b: int|
                0 <= a < b < plan.len() ==> (#[trigger] plan[a]).1 < (#[trigger] plan[b]).1
            &&& forall|a: int|
                0 <= a < plan.len() ==> !is_reserved(settings, diag_port, (#[trigger] plan[a]).1)
            &&& forall|a: int| 0 <= a < plan.len() ==> (#[trigger] plan[a]).1
                >= settings.sidecar_port
        }),
{
    if delegates(settings) {
        let cands = nodes.filter(is_candidate(settings, chains));
        let all = numbered_ports(cands, settings.sidecar_port);
        let f = is_free(settings, diag_port);
        lemma_filter_rises(all, f);
        let kept = all.filter(f);
        let plan = delegated(settings, chains, nodes, diag_port);
        assert forall|a: int| 0 <= a < plan.len() implies plan[a] == kept[a] by {}
        assert forall|a: int| 0 <= a < plan.len() implies (#[trigger] plan[a]).1
            >= settings.sidecar_port && !is_reserved(settings, diag_port, plan[a].1) by {
            assert(plan[a] == kept[a]);
            assert(f(kept[a]));
            all.lemma_filter_contains_rev(f, kept[a]);
            assert(all.contains(kept[a]));
        }
        assert forall|a: int, b: int| 0 <= a < b < plan.len() implies (#[trigger] plan[a]).1 < (
        #[trigger] plan[b]).1 by {
            assert(plan[a] == kept[a] && plan[b] == kept[b]);
        }
    }
}

} // verus!
