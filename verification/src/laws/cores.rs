//! Cores and the nodes that they serve: which core takes which node, how nodes are told apart,
//! and what a running session is told as.

use crate::core_kind::CoreKind;
use crate::domain::chain::{ChainHop, ProxyChain};
use crate::domain::node::{
    credentials, extra_of, node_tag, transport_name, Protocol, ProtocolConfig, ProxyNode, Transport,
};
use crate::domain::settings::{runtime_of, AppSettings};
use crate::journal::live_cleared;
use crate::runtime::{
    owner_of_log, rise, sampled, shows_session, shut_down, started_at, CoreFacts, ProxyStatus,
    Runtime, TrafficTotals,
};
use crate::sidecar::{
    delegated, entries_of, in_chains, is_candidate, is_free, is_wanted, numbered_ports, pos_of_id,
};
use crate::start_plan::{is_generated_start, GeneratedStart};
use crate::start::secret_of;
use crate::storage::AppStore;
use crate::text::{has_prefix, lowered, trimmed};
use vstd::prelude::*;

verus! {

// ---------------------------------------------------------------------------
// Which core serves which node
// ---------------------------------------------------------------------------
/// Sing-box serves every node. Xray serves the protocols that it has, without obfuscation and
/// without Reality over a web socket. Mihomo serves all but three protocols, and VMess only
/// plainly or over a web socket.
pub proof fn law_cores_serve_what_they_have(n: ProxyNode)
    ensures
        CoreKind::SingBox.serves_node(n),
        n.protocol is Tuic || n.protocol is Hysteria || n.protocol is ShadowTls || n.protocol is Ssh
            || n.protocol is Naive || n.protocol is Tor || n.protocol is AnyTls
            || n.protocol is Snell ==> !CoreKind::Xray.serves_node(n),
        !(n.protocol is Tuic || n.protocol is Hysteria || n.protocol is ShadowTls
            || n.protocol is Ssh || n.protocol is Naive || n.protocol is Tor
            || n.protocol is AnyTls || n.protocol is Snell) && !(n.config is Hysteria2)
            && n.transport is None ==> CoreKind::Xray.serves_node(n),
        n.config is Hysteria2 && n.config->Hysteria2_obfs is Some ==> !CoreKind::Xray.serves_node(
            n,
        ),
        n.tls is Some && n.tls->0.reality_public_key is Some && n.transport is Some && n.transport->0 is Ws
            ==> !CoreKind::Xray.serves_node(n),
        n.protocol is Naive || n.protocol is Tor || n.protocol is ShadowTls
            ==> !CoreKind::Mihomo.serves_node(n),
        n.protocol is Vmess && n.transport is Some && (n.transport->0 is Grpc || n.transport->0 is Http
            || n.transport->0 is HttpUpgrade || n.transport->0 is Xhttp)
            ==> !CoreKind::Mihomo.serves_node(n),
        n.protocol is Vmess && (n.transport is None || n.transport->0 is Ws || n.transport->0 is Tcp)
            ==> CoreKind::Mihomo.serves_node(n),
        !(n.protocol is Vmess || n.protocol is Naive || n.protocol is Tor
            || n.protocol is ShadowTls) ==> CoreKind::Mihomo.serves_node(n),
{
}

/// Only the protocols over QUIC have no connection to probe.
pub proof fn law_quic_protocols_are_udp_only(p: Protocol)
    ensures
        p.udp_only() <==> p is Tuic || p is Hysteria || p is Hysteria2,
{
}

/// Nodes are told apart by their protocol, address and credentials, whatever they are called:
/// a new name keeps the identity, and a new password does not.
pub proof fn law_nodes_are_told_apart_by_their_secret(a: ProxyNode, b: ProxyNode)
    requires
        a.protocol == b.protocol,
        a.server@ == b.server@,
        a.port == b.port,
    ensures
        credentials(a.config) == credentials(b.config) <==> a.identity() == b.identity(),
        a.config == b.config ==> a.identity() == b.identity(),
        a.config == b.config && a.name@ == b.name@ ==> a.instance() == b.instance(),
        a.config == b.config && a.name@ != b.name@ ==> a.instance() != b.instance(),
{
    let head = a.protocol.name() + "|"@ + a.server@ + "|"@ + crate::text::decimal(a.port as nat)
        + "|"@;
    let n = head.len() as int;
    assert(a.identity() =~= head + credentials(a.config));
    assert(b.identity() =~= head + credentials(b.config));
    if a.identity() == b.identity() {
        assert(a.identity().skip(n) =~= credentials(a.config));
        assert(b.identity().skip(n) =~= credentials(b.config));
    }
    if a.config == b.config && a.instance() == b.instance() {
        let k = (a.identity() + "|"@).len() as int;
        assert(a.instance().skip(k) =~= a.name@);
        assert(b.instance().skip(k) =~= b.name@);
    }
}

/// What the credentials of a node are: its password, its user's id, or what stands for them.
pub proof fn law_credentials_are_secrets(c: ProtocolConfig)
    ensures
        c is Trojan ==> credentials(c) == c->Trojan_password@,
        c is AnyTls ==> credentials(c) == c->AnyTls_password@,
        c is Vmess ==> credentials(c) == c->Vmess_uuid@,
        c is Vless ==> credentials(c) == c->Vless_uuid@,
        c is Hysteria2 ==> credentials(c) == c->Hysteria2_password@,
        c is Hysteria ==> credentials(c) == c->Hysteria_auth@,
        c is Shadowsocks ==> crate::text::has_suffix(credentials(c), c->Shadowsocks_password@)
            && has_prefix(credentials(c), c->Shadowsocks_method@),
        c is Tuic ==> crate::text::has_suffix(credentials(c), c->Tuic_password@) && has_prefix(
            credentials(c),
            c->Tuic_uuid@,
        ),
        c is WireGuard ==> crate::text::has_suffix(credentials(c), c->WireGuard_peer_public_key@)
            && has_prefix(credentials(c), c->WireGuard_private_key@),
        c is Snell ==> crate::text::has_suffix(credentials(c), c->Snell_psk@),
{
    let s = credentials(c);
    if c is Shadowsocks {
        let m = c->Shadowsocks_method@;
        let p = c->Shadowsocks_password@;
        assert(s.subrange(0, m.len() as int) =~= m);
        assert(s.subrange(s.len() - p.len(), s.len() as int) =~= p);
    }
    if c is Tuic {
        let m = c->Tuic_uuid@;
        let p = c->Tuic_password@;
        assert(s.subrange(0, m.len() as int) =~= m);
        assert(s.subrange(s.len() - p.len(), s.len() as int) =~= p);
    }
    if c is WireGuard {
        let m = c->WireGuard_private_key@;
        let p = c->WireGuard_peer_public_key@;
        assert(s.subrange(0, m.len() as int) =~= m);
        assert(s.subrange(s.len() - p.len(), s.len() as int) =~= p);
    }
    if c is Snell {
        let p = c->Snell_psk@;
        assert(s.subrange(s.len() - p.len(), s.len() as int) =~= p);
    }
}

/// A node that hides behind another site is told as such before anything else.
pub proof fn law_reality_is_told_first(n: ProxyNode)
    ensures
        n.tls is Some && n.tls->0.reality_public_key is Some ==> extra_of(n) == Some("Reality"@),
        !(n.tls is Some && n.tls->0.reality_public_key is Some) ==> {
            &&& n.config is Shadowsocks ==> extra_of(n) == Some(n.config->Shadowsocks_method@)
            &&& n.config is Vmess ==> extra_of(n) == Some(n.config->Vmess_security@)
            &&& n.config is Trojan ==> extra_of(n) is None
        },
{
}

/// The tags of nodes begin with the same word, and two ids of different beginnings have
/// different tags.
pub proof fn law_node_tags_tell_ids_apart(a: Seq<char>, b: Seq<char>)
    ensures
        has_prefix(node_tag(a), "node-"@),
        node_tag(a) == node_tag(b) <==> crate::domain::node::id_prefix(a)
            == crate::domain::node::id_prefix(b),
{
    reveal_strlit("node-");
    assert(node_tag(a).subrange(0, 5) =~= "node-"@);
    if node_tag(a) == node_tag(b) {
        assert(node_tag(a).skip(5) =~= crate::domain::node::id_prefix(a));
        assert(node_tag(b).skip(5) =~= crate::domain::node::id_prefix(b));
    }
}

// ---------------------------------------------------------------------------
// The second core
// ---------------------------------------------------------------------------
/// The node may be handed over to the second core: its protocol is assigned to Xray, it is no
/// endpoint, no chain goes through it, and Xray serves it.
pub open spec fn may_be_handed_over(settings: AppSettings, chains: Seq<ProxyChain>, n: ProxyNode) -> bool {
    &&& exists|i: int|
        0 <= i < settings.protocol_cores@.len() && (#[trigger] settings.protocol_cores@[i]).core@
            == "xray"@ && settings.protocol_cores@[i].protocol@ == n.protocol.name()
    &&& !(n.protocol is WireGuard)
    &&& forall|c: int, h: int|
        0 <= c < chains.len() && 0 <= h < chains[c].hops@.len() ==> match #[trigger] chains[c].hops@[h] {
            ChainHop::Node { node_id } => node_id@ != n.id@,
            ChainHop::Pool { .. } => true,
        }
    &&& CoreKind::Xray.serves_node(n)
}

proof fn lemma_candidate(settings: AppSettings, chains: Seq<ProxyChain>, n: ProxyNode)
    ensures
        is_candidate(settings, chains)(n) ==> may_be_handed_over(settings, chains, n),
{
    if is_candidate(settings, chains)(n) {
        assert(is_wanted(settings.protocol_cores@, n.protocol.name()));
        assert forall|c: int, h: int|
            0 <= c < chains.len() && 0 <= h < chains[c].hops@.len() implies match #[trigger] chains[c].hops@[h] {
            ChainHop::Node { node_id } => node_id@ != n.id@,
            ChainHop::Pool { .. } => true,
        } by {
            if crate::sidecar::hop_is_node(chains[c].hops@[h], n.id@) {
                assert(crate::sidecar::hops_hold(chains[c].hops@, n.id@));
                assert(in_chains(chains, n.id@));
            }
        }
    }
}

proof fn lemma_filter_from<A>(s: Seq<A>, p: spec_fn(A) -> bool)
    ensures
        s.filter(p).len() <= s.len(),
        forall|k: int| 0 <= k < s.filter(p).len() ==> p(#[trigger] s.filter(p)[k]) && s.contains(s.filter(p)[k]),
    decreases s.len(),
{
    reveal(Seq::filter);
    if s.len() > 0 {
        let t = s.drop_last();
        lemma_filter_from(t, p);
        let before = t.filter(p);
        assert(s[s.len() - 1] == s.last());
        assert forall|k: int| 0 <= k < s.filter(p).len() implies p(#[trigger] s.filter(p)[k])
            && s.contains(s.filter(p)[k]) by {
            if k < before.len() {
                assert(s.filter(p)[k] == before[k]);
                let i = choose|i: int| 0 <= i < t.len() && t[i] == before[k];
                assert(s[i] == before[k]);
            }
        }
    }
}

/// The second core takes nothing over unless the user has turned it on under sing-box with a
/// generated configuration; and what it takes over may be handed over, and is one of the nodes.
pub proof fn law_second_core_takes_what_it_may(
    settings: AppSettings,
    chains: Seq<ProxyChain>,
    nodes: Seq<ProxyNode>,
    diag_port: u16,
    k: int,
)
    ensures
        !settings.multi_core_enabled ==> delegated(settings, chains, nodes, diag_port).len() == 0,
        CoreKind::of_word(lowered(trimmed(settings.core_type@))) != CoreKind::SingBox ==> delegated(
            settings,
            chains,
            nodes,
            diag_port,
        ).len() == 0,
        !(runtime_of(settings.runtime_source@) is Generated) ==> delegated(
            settings,
            chains,
            nodes,
            diag_port,
        ).len() == 0,
        0 <= k < delegated(settings, chains, nodes, diag_port).len() ==> exists|i: int|
            0 <= i < nodes.len() && (#[trigger] nodes[i]).id@ == delegated(
                settings,
                chains,
                nodes,
                diag_port,
            )[k].0 && may_be_handed_over(settings, chains, nodes[i]),
{
    let plan = delegated(settings, chains, nodes, diag_port);
    if 0 <= k < plan.len() {
        let p = is_candidate(settings, chains);
        let cands = nodes.filter(p);
        let all = numbered_ports(cands, settings.sidecar_port);
        let f = is_free(settings, diag_port);
        lemma_filter_from(all, f);
        lemma_filter_from(nodes, p);
        assert(plan[k] == all.filter(f)[k]);
        let j = choose|j: int| 0 <= j < all.len() && all[j] == plan[k];
        assert(all[j].0 == cands[j].id@);
        assert(p(cands[j]));
        let i = choose|i: int| 0 <= i < nodes.len() && nodes[i] == cands[j];
        lemma_candidate(settings, chains, nodes[i]);
        assert(nodes[i].id@ == plan[k].0);
    }
}

/// The node of an id is the first that has it.
pub proof fn law_first_node_of_an_id(nodes: Seq<ProxyNode>, id: Seq<char>)
    ensures
        pos_of_id(nodes, id) is Some <==> exists|i: int|
            0 <= i < nodes.len() && (#[trigger] nodes[i]).id@ == id,
        pos_of_id(nodes, id) matches Some(p) ==> 0 <= p < nodes.len() && nodes[p].id@ == id
            && forall|j: int| 0 <= j < p ==> (#[trigger] nodes[j]).id@ != id,
    decreases nodes.len(),
{
    if nodes.len() > 0 {
        let t = nodes.drop_last();
        let last = nodes.len() - 1;
        law_first_node_of_an_id(t, id);
        assert(nodes[last] == nodes.last());
        if exists|i: int| 0 <= i < t.len() && (#[trigger] t[i]).id@ == id {
            let i = choose|i: int| 0 <= i < t.len() && (#[trigger] t[i]).id@ == id;
            assert(nodes[i].id@ == id);
        }
        if exists|i: int| 0 <= i < nodes.len() && (#[trigger] nodes[i]).id@ == id {
            let i = choose|i: int| 0 <= i < nodes.len() && (#[trigger] nodes[i]).id@ == id;
            if i < last {
                assert(t[i].id@ == id);
            }
        }
        if let Some(p) = pos_of_id(nodes, id) {
            assert forall|j: int| 0 <= j < p implies (#[trigger] nodes[j]).id@ != id by {
                if pos_of_id(t, id) is None {
                    assert(t[j].id@ != id);
                } else {
                    assert(t[j].id@ != id);
                }
            }
        }
    }
}

// ---------------------------------------------------------------------------
// The session
// ---------------------------------------------------------------------------
/// A generated start has the rights of an administrator exactly with a network interface; its
/// controller's secret is the stored one, and Xray has none.
pub proof fn law_generated_start_follows_the_settings(
    g: GeneratedStart,
    kind: CoreKind,
    store: AppStore,
    nodes: Seq<ProxyNode>,
    diag_port: u16,
    generated: Seq<char>,
)
    requires
        is_generated_start(g, kind, store, nodes, diag_port, generated),
    ensures
        g.kind == kind,
        g.elevated <==> store.settings.tun_enabled,
        kind == CoreKind::Xray ==> g.secret@.len() == 0,
        kind != CoreKind::Xray && secret_of(store.settings, generated) is Some ==> g.secret@
            == secret_of(store.settings, generated)->0,
        g.sidecar is Some ==> store.settings.multi_core_enabled,
{
}

/// A session that is shown is shown as it is.
pub proof fn law_status_is_what_runs(s: ProxyStatus, rt: Runtime, store: AppStore, facts: CoreFacts)
    requires
        shows_session(s, rt, store, facts),
    ensures
        s.running == facts.running && s.core_state == facts.state && s.error == facts.error,
        s.system_proxy == rt.system_proxy_on && s.tun_enabled == store.settings.tun_enabled,
        s.upload_speed == rt.traffic_speed.0 && s.download_speed == rt.traffic_speed.1,
        rt.traffic_prev matches Some(p) ==> s.upload_total == p.1.upload_total && s.download_total
            == p.1.download_total && s.connections == p.1.connections,
        rt.traffic_prev is None ==> s.upload_total == 0 && s.download_total == 0 && s.connections
            == 0,
        rt.custom_inbound_port matches Some(p) ==> s.mixed_port == p,
        rt.custom_inbound_port is None ==> s.mixed_port == store.settings.mixed_port,
        s.api_port == store.settings.api_port,
        s.sidecar_running <==> facts.running && facts.sidecar_running,
        facts.running ==> s.core_type@ == facts.kind.name(),
        !facts.running ==> s.core_type@ == store.settings.core_type@,
        s.smart_switch <==> store.settings.auto_select is Smart,
        s.core_memory_bytes == facts.memory_bytes && s.core_elevated == facts.elevated,
{
}

/// A session began when it was first seen to run, and a stopped one has not begun.
pub proof fn law_sessions_begin_once(known: Option<i64>, now: i64, later: i64)
    ensures
        started_at(known, false, now) is None,
        started_at(None, true, now) == Some(now),
        started_at(started_at(known, true, now), true, later) == started_at(known, true, now),
        known is Some ==> started_at(known, true, now) == known,
{
}

/// A shutdown leaves no controller, no ports of a second core and no counters; the proxy of
/// the system stays noted as on exactly where it could not be put back.
pub proof fn law_shutdown_leaves_nothing_on(before: Runtime, after: Runtime, cleared: bool)
    requires
        shut_down(before, after, cleared),
    ensures
        after.api is None && after.xray_metrics is None && after.sidecar_ports@.len() == 0,
        after.traffic_prev is None && after.traffic_speed == (0u64, 0u64),
        after.system_proxy_on <==> before.system_proxy_on && !cleared,
        before.system_proxy_on && cleared ==> after.proxy_snapshot is None,
        before.system_proxy_on && !cleared ==> after.proxy_snapshot == before.proxy_snapshot,
        after.journal@ == live_cleared(before.journal@),
        after.last_config_path == before.last_config_path,
{
}

/// A sample notes its counters and when it came; a speed is noted only from the second on.
pub proof fn law_samples_are_noted(
    before: Runtime,
    after: Runtime,
    conns: Seq<crate::journal::ConnectionModel>,
    totals: TrafficTotals,
    speed: Option<(u64, u64)>,
    now_ms: i64,
    steady_ms: u64,
)
    requires
        sampled(before, after, conns, totals, speed, now_ms, steady_ms),
    ensures
        after.traffic_prev == Some((steady_ms, totals)),
        after.last_sample_at == Some(steady_ms),
        before.traffic_prev is None || speed is None ==> after.traffic_speed
            == before.traffic_speed,
        before.traffic_prev is Some && speed is Some ==> after.traffic_speed == speed->0,
        after.journal@.live == conns,
        after.api == before.api && after.system_proxy_on == before.system_proxy_on,
{
}

/// What a counter rose by is the difference, and nothing where it fell.
pub proof fn law_counters_rise(from: u64, to: u64)
    ensures
        to >= from ==> from + rise(from, to) == to,
        to < from ==> rise(from, to) == 0,
{
}

/// A core's log is the second core's where that is of the kind and has one, else the main
/// core's where that is of the kind, else nobody's.
pub proof fn law_logs_have_an_owner(kind: CoreKind, second: CoreKind, has_log: bool, main: CoreKind)
    ensures
        owner_of_log(kind, second, has_log, main) is Sidecar <==> second == kind && has_log,
        owner_of_log(kind, second, has_log, main) is Main <==> main == kind && !(second == kind
            && has_log),
{
}

/// The system is pointed at the port that the core listens on: the profile's own where one
/// runs, else the mixed one.
pub proof fn law_system_is_pointed_at_the_core(rt: Runtime, store: AppStore)
    ensures
        runtime_of(store.settings.runtime_source@) is Singbox ==> rt.proxy_port(store)
            == rt.custom_inbound_port,
        runtime_of(store.settings.runtime_source@) is Generated ==> rt.proxy_port(store) == Some(
            store.settings.mixed_port,
        ),
{
}

/// What the second core listens for: each node of the plan that is still there, with its port.
pub proof fn law_second_core_listens_for_its_nodes(
    plan: Seq<(Seq<char>, u16)>,
    entry: (Seq<char>, u16),
    nodes: Seq<ProxyNode>,
)
    ensures
        pos_of_id(nodes, entry.0) matches Some(i) ==> entries_of(plan.push(entry), nodes)
            == entries_of(plan, nodes).push((i, entry.1)),
        pos_of_id(nodes, entry.0) is None ==> entries_of(plan.push(entry), nodes) == entries_of(
            plan,
            nodes,
        ),
{
    assert(plan.push(entry).drop_last() =~= plan);
}

/// A transport is told by its name, and plain TCP by none.
pub proof fn law_transports_have_names(t: Transport)
    ensures
        transport_name(None) is None,
        t is Tcp ==> transport_name(Some(t)) is None,
        t is Ws ==> transport_name(Some(t)) == Some("ws"@),
        t is Grpc ==> transport_name(Some(t)) == Some("grpc"@),
        t is Http ==> transport_name(Some(t)) == Some("http"@),
        t is HttpUpgrade ==> transport_name(Some(t)) == Some("httpupgrade"@),
        t is Xhttp ==> transport_name(Some(t)) == Some("xhttp"@),
{
}

/// A port of the second core is none that is taken for something else.
pub proof fn law_second_core_takes_free_ports(
    settings: AppSettings,
    chains: Seq<ProxyChain>,
    nodes: Seq<ProxyNode>,
    diag_port: u16,
    k: int,
    x: int,
)
    requires
        0 <= k < delegated(settings, chains, nodes, diag_port).len(),
    ensures
        ({
            let port = delegated(settings, chains, nodes, diag_port)[k].1;
            &&& port != settings.mixed_port && port != settings.api_port && port != diag_port
            &&& port >= settings.sidecar_port
            &&& 0 <= x < settings.extra_inbounds@.len() ==> port != settings.extra_inbounds@[x].port
        }),
        delegated(settings, chains, nodes, diag_port).len() <= 1024,
{
    crate::sidecar::law_plan_ports_are_free(settings, chains, nodes, diag_port);
    let port = delegated(settings, chains, nodes, diag_port)[k].1;
    if 0 <= x < settings.extra_inbounds@.len() {
        if settings.extra_inbounds@[x].port == port {
            assert(crate::sidecar::inbound_has_port(settings.extra_inbounds@, port));
        }
    }
}

/// The tag of a node has the first sixteen characters of its id.
pub proof fn law_tags_have_sixteen_characters(id: Seq<char>)
    requires
        vstd::utf8::is_ascii_chars(id),
    ensures
        id.len() >= 16 ==> node_tag(id) == "node-"@ + id.take(16),
        id.len() < 16 ==> node_tag(id) == "node-"@ + id,
{
    let n = if id.len() >= 16 {
        16
    } else {
        id.len() as int
    };
    crate::text::lemma_ascii_cut(id, n);
    assert(id.take(id.len() as int) =~= id);
}

} // verus!
