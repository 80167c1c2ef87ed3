//! How a session starts.

use crate::core_kind::CoreKind;
use crate::domain::chain::{NodePool, ProxyChain};
use crate::domain::dns::DnsSettings;
use crate::domain::node::ProxyNode;
use crate::domain::rule::{Rule, RuleSet};
use crate::domain::settings::{
    has_secret, runtime_of, AppSettings, AutoSelectMode, ExtraInbound, OutboundMode, RuntimeModel,
    RuntimeSource,
};
use crate::domain::subscription::{Subscription, SubscriptionSource};
use crate::error::{AppError, ErrorModel};
use crate::runtime::{ApiEndpoint, MetricsEndpoint, Runtime};
use crate::sidecar::{pos_of_id, position_of, SidecarPlan};
use crate::storage::{referred, rules_in_place, AppStore};
use crate::text::{
    clone_opt, concat2, concat3, decimal, decimal_of, has_prefix, lowered, opt_view, parse_u64,
    parsed_u64, remove_char, same, separators, split_words, strip_prefix, trim, trimmed, views,
    without_char, words,
};
use crate::web::{lossy_text, text_lossy};
use vstd::prelude::*;

verus! {

// ---------------------------------------------------------------------------
// The way of a start
// ---------------------------------------------------------------------------
/// How the session starts.
#[derive(Debug)]
pub enum StartRoute {
    /// The core runs already.
    Running,
    /// The core runs a profile of the user, by its id.
    Custom(String),
    /// The core runs a configuration that is made for it.
    Generated(CoreKind),
}

pub fn start_route(running: bool, settings: &AppSettings) -> (r: StartRoute)
    ensures
        running ==> r is Running,
        !running ==> match runtime_of(settings.runtime_source@) {
            RuntimeModel::Singbox(id) => r is Custom && r->Custom_0@ == id,
            RuntimeModel::Generated => r == StartRoute::Generated(
                CoreKind::of_word(lowered(trimmed(settings.core_type@))),
            ),
        },
{
    if running {
        return StartRoute::Running;
    }
    match settings.runtime_source() {
        RuntimeSource::Singbox { id } => StartRoute::Custom(id),
        RuntimeSource::Generated => StartRoute::Generated(
            CoreKind::parse(settings.core_type.as_str()),
        ),
    }
}

// ---------------------------------------------------------------------------
// What a start needs
// ---------------------------------------------------------------------------
/// The address that a listener has.
pub open spec fn listen_host(allow_lan: bool) -> Seq<char> {
    if allow_lan {
        "0.0.0.0"@
    } else {
        "127.0.0.1"@
    }
}

/// Another program listens on the port.
pub open spec fn port_taken(label: Seq<char>, host: Seq<char>, port: u16) -> ErrorModel {
    ErrorModel::Core(
        label + " 端口 "@ + host + ":"@ + decimal(port as nat)
            + " 已被其他程序占用，请关闭冲突程序或修改端口"@,
    )
}

fn host_of(allow_lan: bool) -> (r: &'static str)
    ensures
        r@ == listen_host(allow_lan),
{
    if allow_lan {
        "0.0.0.0"
    } else {
        "127.0.0.1"
    }
}

fn holds_port(busy: &Vec<u16>, port: u16) -> (r: bool)
    ensures
        r == busy@.contains(port),
{
    for i in 0..busy.len()
        invariant
            forall|j: int| 0 <= j < i ==> busy@[j] != port,
    {
        if busy[i] == port {
            return true;
        }
    }
    false
}

/// Refuses a port that is among the ones on which other programs listen.
pub fn ensure_listen_port_available_on(port: u16, host: &str, label: &str, busy: &Vec<u16>) -> (r:
    Result<(), AppError>)
    ensures
        r is Err <==> busy@.contains(port),
        r is Err ==> r->Err_0@ == port_taken(label@, host@, port),
{
    if holds_port(busy, port) {
        let mut s = concat3(label, " 端口 ", host);
        s.append(":");
        s.append(decimal_of(port as u64).as_str());
        s.append(" 已被其他程序占用，请关闭冲突程序或修改端口");
        return Err(AppError::Core(s));
    }
    Ok(())
}

pub fn ensure_listen_port_available(port: u16, label: &str, busy: &Vec<u16>) -> (r: Result<
    (),
    AppError,
>)
    ensures
        r is Err <==> busy@.contains(port),
        r is Err ==> r->Err_0@ == port_taken(label@, "127.0.0.1"@, port),
{
    ensure_listen_port_available_on(port, "127.0.0.1", label, busy)
}

/// The first listener beside the main one whose port is taken.
pub open spec fn first_taken(inbounds: Seq<ExtraInbound>, busy: Seq<u16>) -> Option<int>
    decreases inbounds.len(),
{
    if inbounds.len() == 0 {
        None
    } else {
        match first_taken(inbounds.drop_last(), busy) {
            Some(i) => Some(i),
            None => if busy.contains(inbounds.last().port) {
                Some(inbounds.len() - 1)
            } else {
                None
            },
        }
    }
}

proof fn lemma_first_taken_is_kept(inbounds: Seq<ExtraInbound>, busy: Seq<u16>, n: int)
    requires
        0 <= n <= inbounds.len(),
        first_taken(inbounds.take(n), busy) is Some,
    ensures
        first_taken(inbounds, busy) == first_taken(inbounds.take(n), busy),
    decreases inbounds.len(),
{
    if n < inbounds.len() {
        assert(inbounds.drop_last().take(n) =~= inbounds.take(n));
        lemma_first_taken_is_kept(inbounds.drop_last(), busy, n);
    } else {
        assert(inbounds.take(n) =~= inbounds);
    }
}

/// What is wrong with the ports of the session, in the order in which they are tried: the
/// main listener, the controller, the other listeners.
pub open spec fn ports_refusal(settings: AppSettings, api_label: Seq<char>, busy: Seq<u16>) -> Option<
    ErrorModel,
> {
    if busy.contains(settings.mixed_port) {
        Some(port_taken("Mixed"@, listen_host(settings.allow_lan), settings.mixed_port))
    } else if busy.contains(settings.api_port) {
        Some(port_taken(api_label, "127.0.0.1"@, settings.api_port))
    } else {
        match first_taken(settings.extra_inbounds@, busy) {
            Some(i) => Some(
                port_taken(
                    "Inbound"@,
                    listen_host(settings.extra_inbounds@[i].allow_lan),
                    settings.extra_inbounds@[i].port,
                ),
            ),
            None => None,
        }
    }
}

/// The result of a check that refuses with that error.
pub open spec fn refuses(r: Result<(), AppError>, e: Option<ErrorModel>) -> bool {
    match e {
        Some(m) => r is Err && r->Err_0@ == m,
        None => r is Ok,
    }
}

fn check_ports(settings: &AppSettings, api_label: &str, busy: &Vec<u16>) -> (r: Result<
    (),
    AppError,
>)
    ensures
        refuses(r, ports_refusal(*settings, api_label@, busy@)),
{
    match ensure_listen_port_available_on(
        settings.mixed_port,
        host_of(settings.allow_lan),
        "Mixed",
        busy,
    ) {
        Ok(()) => {},
        Err(e) => {
            return Err(e);
        },
    }
    match ensure_listen_port_available(settings.api_port, api_label, busy) {
        Ok(()) => {},
        Err(e) => {
            return Err(e);
        },
    }
    let ghost all = settings.extra_inbounds@;
    proof {
        assert(all.take(0) =~= Seq::empty());
    }
    for i in 0..settings.extra_inbounds.len()
        invariant
            all == settings.extra_inbounds@,
            first_taken(all.take(i as int), busy@) is None,
            !busy@.contains(settings.mixed_port),
            !busy@.contains(settings.api_port),
    {
        let inb = &settings.extra_inbounds[i];
        proof {
            assert(all.take(i + 1).drop_last() =~= all.take(i as int));
            assert(all.take(i + 1).last() == *inb);
            if busy@.contains(inb.port) {
                lemma_first_taken_is_kept(all, busy@, i + 1);
            }
        }
        match ensure_listen_port_available_on(
            inb.port,
            host_of(inb.allow_lan),
            "Inbound",
            busy,
        ) {
            Ok(()) => {},
            Err(e) => {
                return Err(e);
            },
        }
    }
    proof {
        assert(all.take(all.len() as int) =~= all);
    }
    Ok(())
}

/// The core takes the node into its configuration.
pub open spec fn takes_node(kind: CoreKind) -> spec_fn(ProxyNode) -> bool {
    |n: ProxyNode|
        match kind {
            CoreKind::SingBox => true,
            CoreKind::Xray => CoreKind::Xray.serves(n.protocol),
            CoreKind::Mihomo => CoreKind::Mihomo.serves_node(n),
        }
}

/// The position of the first node that the core takes.
pub open spec fn first_taken_node(nodes: Seq<ProxyNode>, kind: CoreKind) -> Option<int>
    decreases nodes.len(),
{
    if nodes.len() == 0 {
        None
    } else {
        match first_taken_node(nodes.drop_last(), kind) {
            Some(i) => Some(i),
            None => if takes_node(kind)(nodes.last()) {
                Some(nodes.len() - 1)
            } else {
                None
            },
        }
    }
}

proof fn lemma_first_node_is_kept(nodes: Seq<ProxyNode>, kind: CoreKind, n: int)
    requires
        0 <= n <= nodes.len(),
        first_taken_node(nodes.take(n), kind) is Some,
    ensures
        first_taken_node(nodes, kind) == first_taken_node(nodes.take(n), kind),
    decreases nodes.len(),
{
    if n < nodes.len() {
        assert(nodes.drop_last().take(n) =~= nodes.take(n));
        lemma_first_node_is_kept(nodes.drop_last(), kind, n);
    } else {
        assert(nodes.take(n) =~= nodes);
    }
}

fn takes(kind: CoreKind, n: &ProxyNode) -> (r: bool)
    ensures
        r == takes_node(kind)(*n),
{
    match kind {
        CoreKind::SingBox => true,
        CoreKind::Xray => CoreKind::Xray.supports(n.protocol),
        CoreKind::Mihomo => CoreKind::Mihomo.supports_node(n),
    }
}

fn find_taken_node(nodes: &Vec<ProxyNode>, kind: CoreKind) -> (r: Option<usize>)
    ensures
        match r {
            Some(i) => i < nodes@.len() && first_taken_node(nodes@, kind) == Some(i as int),
            None => first_taken_node(nodes@, kind) is None,
        },
{
    proof {
        assert(nodes@.take(0) =~= Seq::empty());
    }
    for i in 0..nodes.len()
        invariant
            first_taken_node(nodes@.take(i as int), kind) is None,
    {
        proof {
            assert(nodes@.take(i + 1).drop_last() =~= nodes@.take(i as int));
            assert(nodes@.take(i + 1).last() == nodes@[i as int]);
        }
        if takes(kind, &nodes[i]) {
            proof {
                lemma_first_node_is_kept(nodes@, kind, i + 1);
            }
            return Some(i);
        }
    }
    proof {
        assert(nodes@.take(nodes@.len() as int) =~= nodes@);
    }
    None
}

/// What the machine has for a start.
#[derive(Debug)]
pub struct StartSupplies {
    /// The core's program was found.
    pub core_found: bool,
    /// The program of the Xray core was found.
    pub xray_found: bool,
    /// The ports on which other programs listen.
    pub busy: Vec<u16>,
}

/// What keeps a generated session from starting, by the first thing that does: no nodes;
/// no program for the second core, where one is planned; no node that the core takes; a
/// port; no program for the core.
pub open spec fn start_refusal(
    kind: CoreKind,
    settings: AppSettings,
    nodes: Seq<ProxyNode>,
    sidecar: bool,
    s: StartSupplies,
) -> Option<ErrorModel> {
    let label = if kind == CoreKind::Xray {
        "Metrics"@
    } else {
        "Clash API"@
    };
    if nodes.len() == 0 {
        Some(ErrorModel::Core("no nodes; import a subscription first"@))
    } else if kind == CoreKind::SingBox && sidecar && !s.xray_found {
        Some(
            ErrorModel::Core(
                "Xray 副进程已启用但未找到 Xray 内核：请先在设置中下载 Xray，或关闭协议委托"@,
            ),
        )
    } else if kind == CoreKind::Xray && first_taken_node(nodes, kind) is None {
        Some(
            ErrorModel::Config(
                "当前启用的节点均不被 Xray 内核支持（仅支持 vmess/vless/shadowsocks/trojan/hysteria2(无 obfs)/socks5/http/wireguard）。请导入兼容订阅或切回 sing-box 内核"@,
            ),
        )
    } else if kind == CoreKind::Mihomo && first_taken_node(nodes, kind) is None {
        Some(
            ErrorModel::Config(
                "当前启用的节点均不被 mihomo 内核支持（支持 ss/vmess/vless/trojan/hysteria(2)/tuic/wireguard/anytls/snell/socks5/http/ssh）。请导入兼容订阅或切换内核"@,
            ),
        )
    } else if ports_refusal(settings, label, s.busy@) is Some {
        ports_refusal(settings, label, s.busy@)
    } else if !s.core_found {
        Some(
            ErrorModel::Core(
                match kind {
                    CoreKind::SingBox => "sing-box binary not found"@,
                    CoreKind::Xray => "Xray binary not found; download it on the Settings core tab"@,
                    CoreKind::Mihomo =>
                        "mihomo binary not found; download it on the Settings core tab"@,
                },
            ),
        )
    } else {
        None
    }
}

/// Whether a generated session can start.
pub fn check_start(
    kind: CoreKind,
    settings: &AppSettings,
    nodes: &Vec<ProxyNode>,
    sidecar: bool,
    s: &StartSupplies,
) -> (r: Result<(), AppError>)
    ensures
        refuses(r, start_refusal(kind, *settings, nodes@, sidecar, *s)),
{
    if nodes.len() == 0 {
        return Err(AppError::Core("no nodes; import a subscription first".to_owned()));
    }
    if kind == CoreKind::SingBox && sidecar && !s.xray_found {
        return Err(
            AppError::Core(
                "Xray 副进程已启用但未找到 Xray 内核：请先在设置中下载 Xray，或关闭协议委托".to_owned(),
            ),
        );
    }
    let taken = find_taken_node(nodes, kind);
    if kind == CoreKind::Xray && taken.is_none() {
        return Err(
            AppError::Config(
                "当前启用的节点均不被 Xray 内核支持（仅支持 vmess/vless/shadowsocks/trojan/hysteria2(无 obfs)/socks5/http/wireguard）。请导入兼容订阅或切回 sing-box 内核".to_owned(),
            ),
        );
    }
    if kind == CoreKind::Mihomo && taken.is_none() {
        return Err(
            AppError::Config(
                "当前启用的节点均不被 mihomo 内核支持（支持 ss/vmess/vless/trojan/hysteria(2)/tuic/wireguard/anytls/snell/socks5/http/ssh）。请导入兼容订阅或切换内核".to_owned(),
            ),
        );
    }
    let label = if kind == CoreKind::Xray {
        "Metrics"
    } else {
        "Clash API"
    };
    match check_ports(settings, label, &s.busy) {
        Ok(()) => {},
        Err(e) => {
            return Err(e);
        },
    }
    if !s.core_found {
        let text = match kind {
            CoreKind::SingBox => "sing-box binary not found",
            CoreKind::Xray => "Xray binary not found; download it on the Settings core tab",
            CoreKind::Mihomo => "mihomo binary not found; download it on the Settings core tab",
        };
        return Err(AppError::Core(text.to_owned()));
    }
    Ok(())
}

/// The node that the session starts on: the selected one, or the first that the core takes
/// where none is selected, or one that the core does not take.
pub open spec fn start_node(kind: CoreKind, current: Option<Seq<char>>, nodes: Seq<ProxyNode>) -> Option<
    Seq<char>,
> {
    let pick = match current {
        None => true,
        Some(id) => match pos_of_id(nodes, id) {
            Some(i) => !takes_node(kind)(nodes[i]),
            None => false,
        },
    };
    match first_taken_node(nodes, kind) {
        Some(i) if pick => Some(nodes[i].id@),
        _ => current,
    }
}

/// Puts the selection on the node that the session starts on.
pub fn pick_start_node(store: &mut AppStore, kind: CoreKind, nodes: &Vec<ProxyNode>)
    ensures
        opt_view(final(store).settings.current_node_id) == start_node(
            kind,
            opt_view(old(store).settings.current_node_id),
            nodes@,
        ),
        *final(store) == (AppStore {
            settings: AppSettings {
                current_node_id: final(store).settings.current_node_id,
                ..old(store).settings
            },
            ..*old(store)
        }),
{
    let id = choose_start_node(&store.settings.current_node_id, kind, nodes);
    put_current_node(store, id);
}

fn choose_start_node(current: &Option<String>, kind: CoreKind, nodes: &Vec<ProxyNode>) -> (r:
    Option<String>)
    ensures
        opt_view(r) == start_node(kind, opt_view(*current), nodes@),
{
    let pick = match current {
        None => true,
        Some(id) => match position_of(nodes, id.as_str()) {
            Some(i) => !takes(kind, &nodes[i]),
            None => false,
        },
    };
    if pick {
        if let Some(i) = find_taken_node(nodes, kind) {
            return Some(nodes[i].id.clone());
        }
    }
    clone_opt(current)
}

/// Selects a node.
pub fn put_current_node(store: &mut AppStore, id: Option<String>)
    ensures
        *final(store) == (AppStore {
            settings: AppSettings { current_node_id: id, ..old(store).settings },
            ..*old(store)
        }),
{
    store.settings.current_node_id = id;
}

/// Keeps the secret of the controller.
fn put_secret(store: &mut AppStore, secret: Option<String>)
    ensures
        *final(store) == (AppStore {
            settings: AppSettings { clash_api_secret: secret, ..old(store).settings },
            ..*old(store)
        }),
{
    store.settings.clash_api_secret = secret;
}

// ---------------------------------------------------------------------------
// The secret of the controller
// ---------------------------------------------------------------------------
/// The secret that the controller is started with: none where it asks for none, else the
/// one that is kept, or the new one where none is.
pub open spec fn secret_of(settings: AppSettings, generated: Seq<char>) -> Option<Seq<char>> {
    if !settings.api_secret_enabled {
        None
    } else {
        match opt_view(settings.clash_api_secret) {
            Some(s) if trimmed(s).len() > 0 => Some(s),
            _ => Some(generated),
        }
    }
}

/// The store keeps the secret of the next start, `r` is that secret or empty, and nothing
/// else changed.
pub open spec fn secret_resolved(
    before: AppStore,
    generated: Seq<char>,
    r: Seq<char>,
    after: AppStore,
) -> bool {
    &&& opt_view(after.settings.clash_api_secret) == secret_of(before.settings, generated)
    &&& r == match secret_of(before.settings, generated) {
        Some(s) => s,
        None => Seq::empty(),
    }
    &&& after == (AppStore {
        settings: AppSettings {
            clash_api_secret: after.settings.clash_api_secret,
            ..before.settings
        },
        ..before
    })
}

/// The secret for the next configuration, which the store keeps. `generated` is a new one,
/// for the case that one is asked for and none is kept.
pub fn resolve_clash_api_secret(store: &mut AppStore, generated: String) -> (r: String)
    ensures
        secret_resolved(*old(store), generated@, r@, *final(store)),
{
    let secret = choose_secret(&store.settings, generated);
    let r = match &secret {
        Some(s) => s.clone(),
        None => String::new(),
    };
    put_secret(store, secret);
    r
}

fn choose_secret(settings: &AppSettings, generated: String) -> (r: Option<String>)
    ensures
        opt_view(r) == secret_of(*settings, generated@),
{
    if !settings.api_secret_enabled {
        return None;
    }
    if let Some(s) = &settings.clash_api_secret {
        if !trim(s.as_str()).is_empty() {
            return Some(s.clone());
        }
    }
    Some(generated)
}

/// Where the controller asks for a secret, the store keeps the one that a start has: the one
/// that was kept before if that was not blank, else the new one. Where it asks for none,
/// there is none. The next start has the same secret, whatever new one it is offered, and
/// leaves what is kept as it is. Only a new secret that is blank makes a blank one, which the
/// next start replaces.
pub proof fn law_secret_is_kept(
    before: AppStore,
    first: Seq<char>,
    r: Seq<char>,
    after: AppStore,
    second: Seq<char>,
    r2: Seq<char>,
    later: AppStore,
)
    requires
        secret_resolved(before, first, r, after),
        secret_resolved(after, second, r2, later),
    ensures
        after.settings.api_secret_enabled == before.settings.api_secret_enabled,
        before.settings.api_secret_enabled ==> {
            &&& opt_view(after.settings.clash_api_secret) == Some(r)
            &&& has_secret(before.settings.clash_api_secret) ==> r
                == before.settings.clash_api_secret->0@
            &&& !has_secret(before.settings.clash_api_secret) ==> r == first
            &&& trimmed(r).len() == 0 ==> trimmed(first).len() == 0 && !has_secret(
                before.settings.clash_api_secret,
            ) && r2 == second
        },
        !before.settings.api_secret_enabled ==> r.len() == 0
            && after.settings.clash_api_secret is None,
        !before.settings.api_secret_enabled || trimmed(r).len() > 0 ==> r2 == r && opt_view(
            later.settings.clash_api_secret,
        ) == opt_view(after.settings.clash_api_secret),
        later == (AppStore {
            settings: AppSettings {
                clash_api_secret: later.settings.clash_api_secret,
                ..after.settings
            },
            ..after
        }),
{
}

// ---------------------------------------------------------------------------
// The wait for a core
// ---------------------------------------------------------------------------
/// What a start waits for.
#[derive(Debug, Clone, Copy, PartialEq, Eq, Structural)]
pub enum WaitFor {
    /// The controller answers.
    Controller,
    /// The counters of the Xray core answer; the session runs without them, too.
    Counters,
    /// The process runs.
    Process,
}

#[derive(Debug, Clone, Copy, PartialEq, Eq, Structural)]
pub enum WaitEvent {
    /// A round begins, so many milliseconds after the wait began.
    Round(u64),
    /// The core was asked, and answered or did not.
    Asked(bool),
    /// The process was looked at, and ran or did not.
    Looked(bool),
    /// The pause is over.
    Paused,
}

#[derive(Debug, Clone, Copy, PartialEq, Eq, Structural)]
pub enum WaitStep {
    Ask,
    Look,
    /// Wait so many milliseconds.
    Pause(u64),
    /// Begin the next round.
    Again,
    Ready,
    /// The core exited.
    Exited,
    /// The time is over.
    TimeOver,
}

/// For how many milliseconds a start waits.
pub open spec fn wait_limit(what: WaitFor, elevated: bool) -> u64 {
    match what {
        WaitFor::Controller => if elevated {
            10000
        } else {
            6000
        },
        WaitFor::Counters => 3000,
        WaitFor::Process => 4000,
    }
}

/// What a wait does next. The controller is asked, and after a pause the process is looked
/// at; the counters are asked, and the process is looked at before the pause; a process is
/// only looked at.
pub open spec fn next_wait(what: WaitFor, elevated: bool, ev: WaitEvent) -> WaitStep {
    match ev {
        WaitEvent::Round(elapsed) => if elapsed >= wait_limit(what, elevated) {
            WaitStep::TimeOver
        } else if what == WaitFor::Process {
            WaitStep::Look
        } else {
            WaitStep::Ask
        },
        WaitEvent::Asked(answered) => if answered {
            WaitStep::Ready
        } else if what == WaitFor::Controller {
            WaitStep::Pause(200)
        } else {
            WaitStep::Look
        },
        WaitEvent::Looked(running) => match what {
            WaitFor::Controller => if running {
                WaitStep::Again
            } else {
                WaitStep::Exited
            },
            WaitFor::Counters => if running {
                WaitStep::Pause(150)
            } else {
                WaitStep::Exited
            },
            WaitFor::Process => if running {
                WaitStep::Ready
            } else {
                WaitStep::Pause(100)
            },
        },
        WaitEvent::Paused => if what == WaitFor::Controller {
            WaitStep::Look
        } else {
            WaitStep::Again
        },
    }
}

pub fn wait_step(what: WaitFor, elevated: bool, ev: WaitEvent) -> (r: WaitStep)
    ensures
        r == next_wait(what, elevated, ev),
{
    match ev {
        WaitEvent::Round(elapsed) => {
            let limit: u64 = match what {
                WaitFor::Controller => if elevated {
                    10000
                } else {
                    6000
                },
                WaitFor::Counters => 3000,
                WaitFor::Process => 4000,
            };
            if elapsed >= limit {
                WaitStep::TimeOver
            } else if what == WaitFor::Process {
                WaitStep::Look
            } else {
                WaitStep::Ask
            }
        },
        WaitEvent::Asked(answered) => {
            if answered {
                WaitStep::Ready
            } else if what == WaitFor::Controller {
                WaitStep::Pause(200)
            } else {
                WaitStep::Look
            }
        },
        WaitEvent::Looked(running) => match what {
            WaitFor::Controller => {
                if running {
                    WaitStep::Again
                } else {
                    WaitStep::Exited
                }
            },
            WaitFor::Counters => {
                if running {
                    WaitStep::Pause(150)
                } else {
                    WaitStep::Exited
                }
            },
            WaitFor::Process => {
                if running {
                    WaitStep::Ready
                } else {
                    WaitStep::Pause(100)
                }
            },
        },
        WaitEvent::Paused => {
            if what == WaitFor::Controller {
                WaitStep::Look
            } else {
                WaitStep::Again
            }
        },
    }
}

/// A wait ends well only where the core answered, or, where only its process counts, runs;
/// it ends for an exited core only where the process was seen not to run.
pub proof fn law_wait_ends_for_a_reason(what: WaitFor, elevated: bool, ev: WaitEvent)
    ensures
        next_wait(what, elevated, ev) is Ready ==> ev == WaitEvent::Asked(true) || (what
            == WaitFor::Process && ev == WaitEvent::Looked(true)),
        next_wait(what, elevated, ev) is Exited ==> ev == WaitEvent::Looked(false),
        next_wait(what, elevated, ev) is TimeOver ==> ev is Round && ev->Round_0 >= wait_limit(
            what,
            elevated,
        ),
{
}

// ---------------------------------------------------------------------------
// What is said of a failed start
// ---------------------------------------------------------------------------
/// The last characters of a core's log, without zeros; nothing where they are blank.
pub open spec fn log_end(text: Seq<char>) -> Seq<char> {
    let tail = if text.len() > 1200 {
        text.skip(text.len() - 1200)
    } else {
        text
    };
    let clean = without_char(tail, '\0');
    if trimmed(clean).len() == 0 {
        Seq::empty()
    } else {
        clean
    }
}

pub fn log_tail_hint(text: &str) -> (r: String)
    ensures
        r@ == log_end(text@),
{
    let n: usize = text.unicode_len();
    let tail = if n > 1200 {
        text.substring_char(n - 1200, n)
    } else {
        text
    };
    proof {
        assert(tail@ =~= if text@.len() > 1200 {
            text@.skip(text@.len() - 1200)
        } else {
            text@
        });
    }
    let clean = remove_char(tail, '\0');
    if trim(clean.as_str()).is_empty() {
        String::new()
    } else {
        clean
    }
}

/// What a core said before it failed: the error that was caught, or the end of its log.
pub fn core_startup_log_hint(last_error: Option<&str>, log: Option<&Vec<u8>>) -> (r: String)
    ensures
        r@ == match last_error {
            Some(e) => e@,
            None => match log {
                Some(b) => log_end(lossy_text(b@)),
                None => Seq::empty(),
            },
        },
{
    match last_error {
        Some(e) => e.to_owned(),
        None => match log {
            Some(b) => {
                let text = text_lossy(b.as_slice());
                log_tail_hint(text.as_str())
            },
            None => String::new(),
        },
    }
}

pub open spec fn with_log(text: Seq<char>, hint: Seq<char>) -> Seq<char> {
    if hint.len() == 0 {
        text
    } else {
        text + "\n--- log ---\n"@ + hint
    }
}

fn add_log(text: String, hint: &str) -> (r: String)
    ensures
        r@ == with_log(text@, hint@),
{
    if hint.is_empty() {
        text
    } else {
        concat3(text.as_str(), "\n--- log ---\n", hint)
    }
}

/// What is said where the controller of a core did not answer.
pub fn controller_failure(kind: CoreKind, host: &str, port: u16, hint: &str) -> (r: AppError)
    ensures
        r@ == ErrorModel::Core(
            with_log(
                (if kind == CoreKind::Mihomo {
                    "mihomo started but clash api not responding at "@
                } else {
                    "sing-box started but clash_api not responding at "@
                }) + host@ + ":"@ + decimal(port as nat),
                hint@,
            ),
        ),
{
    let head = if kind == CoreKind::Mihomo {
        "mihomo started but clash api not responding at "
    } else {
        "sing-box started but clash_api not responding at "
    };
    let mut s = concat3(head, host, ":");
    s.append(decimal_of(port as u64).as_str());
    AppError::Core(add_log(s, hint))
}

/// What is said where the Xray core exited.
pub fn exit_failure(hint: &str) -> (r: AppError)
    ensures
        r@ == ErrorModel::Core(with_log("xray exited during startup"@, hint@)),
{
    AppError::Core(add_log("xray exited during startup".to_owned(), hint))
}

/// What is said where a profile's process did not run.
pub fn process_failure(hint: &str) -> (r: AppError)
    ensures
        r@ == ErrorModel::Core(
            if hint@.len() == 0 {
                "sing-box failed to stay running"@
            } else {
                "sing-box failed to stay running"@ + ": "@ + hint@
            },
        ),
{
    if hint.is_empty() {
        AppError::Core("sing-box failed to stay running".to_owned())
    } else {
        AppError::Core(concat3("sing-box failed to stay running", ": ", hint))
    }
}

/// What is said where the second core did not start.
pub fn sidecar_failure(error: &str, hint: &str) -> (r: AppError)
    ensures
        r@ == ErrorModel::Core(
            if hint@.len() == 0 {
                "Xray 副进程启动失败："@ + error@
            } else {
                "Xray 副进程启动失败："@ + error@ + "\n"@ + hint@
            },
        ),
{
    let mut s = concat2("Xray 副进程启动失败：", error);
    if !hint.is_empty() {
        s.append("\n");
        s.append(hint);
    }
    AppError::Core(s)
}

// ---------------------------------------------------------------------------
// Profiles of the user
// ---------------------------------------------------------------------------
/// The position of the first subscription of that id.
pub open spec fn sub_pos(subs: Seq<Subscription>, id: Seq<char>) -> Option<int>
    decreases subs.len(),
{
    if subs.len() == 0 {
        None
    } else {
        match sub_pos(subs.drop_last(), id) {
            Some(i) => Some(i),
            None => if subs.last().id@ == id {
                Some(subs.len() - 1)
            } else {
                None
            },
        }
    }
}

proof fn lemma_sub_pos_is_kept(subs: Seq<Subscription>, id: Seq<char>, n: int)
    requires
        0 <= n <= subs.len(),
        sub_pos(subs.take(n), id) is Some,
    ensures
        sub_pos(subs, id) == sub_pos(subs.take(n), id),
    decreases subs.len(),
{
    if n < subs.len() {
        assert(subs.drop_last().take(n) =~= subs.take(n));
        lemma_sub_pos_is_kept(subs.drop_last(), id, n);
    } else {
        assert(subs.take(n) =~= subs);
    }
}

pub fn find_subscription(subs: &Vec<Subscription>, id: &str) -> (r: Option<usize>)
    ensures
        match r {
            Some(i) => i < subs@.len() && sub_pos(subs@, id@) == Some(i as int),
            None => sub_pos(subs@, id@) is None,
        },
{
    proof {
        assert(subs@.take(0) =~= Seq::empty());
    }
    for i in 0..subs.len()
        invariant
            sub_pos(subs@.take(i as int), id@) is None,
    {
        proof {
            assert(subs@.take(i + 1).drop_last() =~= subs@.take(i as int));
            assert(subs@.take(i + 1).last() == subs@[i as int]);
        }
        if same(subs[i].id.as_str(), id) {
            proof {
                lemma_sub_pos_is_kept(subs@, id@, i + 1);
            }
            return Some(i);
        }
    }
    proof {
        assert(subs@.take(subs@.len() as int) =~= subs@);
    }
    None
}

/// The configuration of a profile.
pub open spec fn profile_content(subs: Seq<Subscription>, id: Seq<char>) -> Option<Seq<char>> {
    match sub_pos(subs, id) {
        Some(i) => match subs[i].source {
            SubscriptionSource::Singbox { content } => Some(content@),
            _ => None,
        },
        None => None,
    }
}

/// The configuration of the profile that the session is to run.
pub fn custom_profile(store: &AppStore, id: &str) -> (r: Result<String, AppError>)
    ensures
        match profile_content(store.subscriptions@, id@) {
            Some(c) => r is Ok && r->Ok_0@ == c,
            None => r is Err && r->Err_0@ == ErrorModel::Core(
                "selected sing-box profile was not found"@,
            ),
        },
{
    if let Some(i) = find_subscription(&store.subscriptions, id) {
        if let SubscriptionSource::Singbox { content } = &store.subscriptions[i].source {
            return Ok(content.clone());
        }
    }
    Err(AppError::Core("selected sing-box profile was not found".to_owned()))
}

/// What the configuration of a profile says of the session.
#[derive(Debug)]
pub struct ProfileInsight {
    pub inbound_port: Option<u16>,
    pub clash_api_host: Option<String>,
    pub clash_api_port: Option<u16>,
    pub clash_api_secret: Option<String>,
    pub has_clash_api: bool,
    pub has_tun: bool,
}

/// What keeps a profile from starting, by the first thing that does.
pub open spec fn profile_refusal(p: ProfileInsight, s: StartSupplies) -> Option<ErrorModel> {
    if p.inbound_port is Some && s.busy@.contains(p.inbound_port->0) {
        Some(port_taken("Inbound"@, "127.0.0.1"@, p.inbound_port->0))
    } else if p.clash_api_port is Some && s.busy@.contains(p.clash_api_port->0) {
        Some(port_taken("Clash API"@, "127.0.0.1"@, p.clash_api_port->0))
    } else if !s.core_found {
        Some(ErrorModel::Core("sing-box binary not found"@))
    } else {
        None
    }
}

/// Whether a profile can start.
pub fn check_profile(p: &ProfileInsight, s: &StartSupplies) -> (r: Result<(), AppError>)
    ensures
        refuses(r, profile_refusal(*p, *s)),
{
    if let Some(port) = p.inbound_port {
        match ensure_listen_port_available(port, "Inbound", &s.busy) {
            Ok(()) => {},
            Err(e) => {
                return Err(e);
            },
        }
    }
    if let Some(port) = p.clash_api_port {
        match ensure_listen_port_available(port, "Clash API", &s.busy) {
            Ok(()) => {},
            Err(e) => {
                return Err(e);
            },
        }
    }
    if !s.core_found {
        return Err(AppError::Core("sing-box binary not found".to_owned()));
    }
    Ok(())
}

pub open spec fn text_or(o: Option<String>, other: Seq<char>) -> Seq<char> {
    match o {
        Some(s) => s@,
        None => other,
    }
}

/// The controller of a profile.
pub fn profile_endpoint(p: &ProfileInsight, session: u64) -> (r: Option<ApiEndpoint>)
    ensures
        match r {
            Some(e) => {
                &&& p.has_clash_api
                &&& e.host@ == text_or(p.clash_api_host, "127.0.0.1"@)
                &&& e.port == match p.clash_api_port {
                    Some(n) => n,
                    None => 9090,
                }
                &&& e.secret@ == text_or(p.clash_api_secret, Seq::empty())
                &&& e.session == session
            },
            None => !p.has_clash_api,
        },
{
    if !p.has_clash_api {
        return None;
    }
    let host = match &p.clash_api_host {
        Some(h) => h.clone(),
        None => "127.0.0.1".to_owned(),
    };
    let port: u16 = match p.clash_api_port {
        Some(n) => n,
        None => 9090,
    };
    let secret = match &p.clash_api_secret {
        Some(s) => s.clone(),
        None => String::new(),
    };
    Some(ApiEndpoint { host, port, secret, session })
}

/// The store keeps the secret of the controller that a profile has.
pub fn keep_profile_secret(store: &mut AppStore, secret: &str)
    ensures
        opt_view(final(store).settings.clash_api_secret) == if secret@.len() == 0 {
            None
        } else {
            Some(secret@)
        },
        *final(store) == (AppStore {
            settings: AppSettings {
                clash_api_secret: final(store).settings.clash_api_secret,
                ..old(store).settings
            },
            ..*old(store)
        }),
{
    let kept = if secret.is_empty() {
        None
    } else {
        Some(secret.to_owned())
    };
    put_secret(store, kept);
}

// ---------------------------------------------------------------------------
// What the session notes of its start
// ---------------------------------------------------------------------------
impl Runtime {
    /// A generated session begins to start: nothing of a profile is left.
    pub fn generated_begins(&mut self)
        ensures
            *final(self) == (Runtime {
                custom_inbound_port: None,
                custom_has_clash_api: false,
                custom_has_tun: false,
                ..*old(self)
            }),
    {
        self.custom_inbound_port = None;
        self.custom_has_clash_api = false;
        self.custom_has_tun = false;
    }

    /// The core's process was launched. The Xray core has no controller, so that of an
    /// earlier session is gone, whether the start succeeds or not.
    pub fn launched(&mut self, kind: CoreKind, config_path: String, binary_path: String)
        ensures
            *final(self) == (Runtime {
                last_config_path: Some(config_path),
                last_binary_path: Some(binary_path),
                api: if kind == CoreKind::Xray {
                    None
                } else {
                    old(self).api
                },
                ..*old(self)
            }),
    {
        self.last_config_path = Some(config_path);
        self.last_binary_path = Some(binary_path);
        if kind == CoreKind::Xray {
            self.api = None;
        }
    }

    /// The process of a profile was launched. Where the profile has no controller, that of an
    /// earlier session is gone, whether the start succeeds or not.
    pub fn profile_launched(&mut self, p: &ProfileInsight, config_path: String, binary_path: String)
        ensures
            *final(self) == (Runtime {
                last_config_path: Some(config_path),
                last_binary_path: Some(binary_path),
                custom_inbound_port: p.inbound_port,
                custom_has_clash_api: p.has_clash_api,
                custom_has_tun: p.has_tun,
                api: if p.has_clash_api {
                    old(self).api
                } else {
                    None
                },
                ..*old(self)
            }),
    {
        self.launched(CoreKind::SingBox, config_path, binary_path);
        if !p.has_clash_api {
            self.api = None;
        }
        self.custom_inbound_port = p.inbound_port;
        self.custom_has_clash_api = p.has_clash_api;
        self.custom_has_tun = p.has_tun;
    }

    /// The session runs. A generated sing-box or mihomo session has a controller, one of
    /// Xray has counters in its place.
    pub fn is_ready(
        &mut self,
        kind: CoreKind,
        api: Option<ApiEndpoint>,
        metrics: Option<MetricsEndpoint>,
        now_secs: i64,
    )
        ensures
            *final(self) == (Runtime {
                api: if kind == CoreKind::Xray {
                    None
                } else {
                    api
                },
                xray_metrics: match kind {
                    CoreKind::SingBox => old(self).xray_metrics,
                    CoreKind::Xray => metrics,
                    CoreKind::Mihomo => None,
                },
                core_started_at: Some(now_secs),
                ..*old(self)
            }),
    {
        match kind {
            CoreKind::SingBox => {
                self.api = api;
            },
            CoreKind::Xray => {
                self.api = None;
                self.xray_metrics = metrics;
            },
            CoreKind::Mihomo => {
                self.api = api;
                self.xray_metrics = None;
            },
        }
        self.core_started_at = Some(now_secs);
    }

    /// The second core runs.
    pub fn sidecar_started(&mut self, plan: &SidecarPlan)
        ensures
            final(self).sidecar_ports@.len() == plan@.len(),
            forall|i: int|
                0 <= i < plan@.len() ==> #[trigger] final(self).sidecar_ports@[i] == plan@[i].1,
            *final(self) == (Runtime { sidecar_ports: final(self).sidecar_ports, ..*old(self) }),
    {
        self.sidecar_ports = plan.port_list();
    }

    /// The second core did not start, and the main one was stopped again.
    pub fn start_undone(&mut self)
        ensures
            *final(self) == (Runtime { core_started_at: None, api: None, ..*old(self) }),
    {
        self.core_started_at = None;
        self.api = None;
    }
}

// ---------------------------------------------------------------------------
// What a configuration is made from
// ---------------------------------------------------------------------------
/// What the configuration of a core is made from.
#[derive(Debug)]
pub struct BuildOptions<'a> {
    pub mixed_port: u16,
    pub allow_lan: bool,
    pub api_port: u16,
    pub extra_inbounds: &'a Vec<ExtraInbound>,
    pub api_secret: String,
    pub current_node_id: Option<String>,
    pub log_level: String,
    /// The rules that are enabled, by their places.
    pub rules: Vec<&'a Rule>,
    /// The rule sets that are enabled, in their order.
    pub rule_sets: Vec<&'a RuleSet>,
    pub pools: &'a Vec<NodePool>,
    pub chains: &'a Vec<ProxyChain>,
    pub tun_enabled: bool,
    pub tun_stack: String,
    pub dns: &'a DnsSettings,
    pub outbound_mode: OutboundMode,
    pub route_final: String,
    pub auto_select: AutoSelectMode,
    pub probe_url: String,
    pub find_process: bool,
    pub tun_ipv6: bool,
    pub block_quic: bool,
    pub bypass_lan: bool,
    pub tun_interface_name: Option<String>,
    pub sidecar: Option<SidecarPlan>,
}

pub open spec fn set_enabled() -> spec_fn(RuleSet) -> bool {
    |s: RuleSet| s.enabled
}

/// `o` takes everything from the store.
pub open spec fn options_of(o: BuildOptions, store: AppStore, secret: Seq<char>) -> bool {
    let set = store.settings;
    let on = store.rule_sets@.filter(set_enabled());
    &&& o.mixed_port == set.mixed_port
    &&& o.allow_lan == set.allow_lan
    &&& o.api_port == set.api_port
    &&& *o.extra_inbounds == set.extra_inbounds
    &&& o.api_secret@ == secret
    &&& o.current_node_id == set.current_node_id
    &&& o.log_level@ == "info"@
    &&& referred(o.rules@) == rules_in_place(store.rule_sets@)
    &&& o.rule_sets@.len() == on.len()
    &&& forall|i: int| 0 <= i < on.len() ==> *(#[trigger] o.rule_sets@[i]) == on[i]
    &&& *o.pools == store.pools
    &&& *o.chains == store.chains
    &&& o.tun_enabled == set.tun_enabled
    &&& o.tun_stack@ == set.tun_stack@
    &&& *o.dns == store.dns
    &&& o.outbound_mode == set.outbound_mode
    &&& o.route_final@ == set.route_final@
    &&& o.auto_select == set.auto_select
    &&& o.probe_url@ == set.probe_url@
    &&& o.find_process == set.find_process
    &&& o.tun_ipv6 == set.tun_ipv6_enabled
    &&& o.block_quic == set.block_quic
    &&& o.bypass_lan == set.bypass_lan
    &&& o.tun_interface_name is None
    &&& o.sidecar is None
}

pub fn build_options<'a>(store: &'a AppStore, api_secret: String) -> (r: BuildOptions<'a>)
    ensures
        options_of(r, *store, api_secret@),
{
    let ghost keep = set_enabled();
    let mut on: Vec<&'a RuleSet> = Vec::new();
    proof {
        reveal(Seq::filter);
        assert(store.rule_sets@.take(0).filter(keep) =~= Seq::empty());
    }
    for i in 0..store.rule_sets.len()
        invariant
            keep == set_enabled(),
            on@.len() == store.rule_sets@.take(i as int).filter(keep).len(),
            forall|j: int|
                0 <= j < on@.len() ==> *(#[trigger] on@[j]) == store.rule_sets@.take(
                    i as int,
                ).filter(keep)[j],
    {
        proof {
            reveal(Seq::filter);
            assert(store.rule_sets@.take(i + 1).drop_last() =~= store.rule_sets@.take(i as int));
            assert(store.rule_sets@.take(i + 1).last() == store.rule_sets@[i as int]);
        }
        if store.rule_sets[i].enabled {
            on.push(&store.rule_sets[i]);
        }
    }
    proof {
        assert(store.rule_sets@.take(store.rule_sets@.len() as int) =~= store.rule_sets@);
    }
    let set = &store.settings;
    BuildOptions {
        mixed_port: set.mixed_port,
        allow_lan: set.allow_lan,
        api_port: set.api_port,
        extra_inbounds: &set.extra_inbounds,
        api_secret,
        current_node_id: clone_opt(&set.current_node_id),
        log_level: "info".to_owned(),
        rules: store.enabled_rules_sorted(),
        rule_sets: on,
        pools: &store.pools,
        chains: &store.chains,
        tun_enabled: set.tun_enabled,
        tun_stack: set.tun_stack.clone(),
        dns: &store.dns,
        outbound_mode: set.outbound_mode,
        route_final: set.route_final.clone(),
        auto_select: set.auto_select,
        probe_url: set.probe_url.clone(),
        find_process: set.find_process,
        tun_ipv6: set.tun_ipv6_enabled,
        block_quic: set.block_quic,
        bypass_lan: set.bypass_lan,
        tun_interface_name: None,
        sidecar: None,
    }
}

// ---------------------------------------------------------------------------
// Rights, and the names of interfaces
// ---------------------------------------------------------------------------
/// The core that the next start needs the rights of an administrator for. `profile_tun`
/// says that the profile which the session runs opens a network interface.
pub fn elevation_wanted(store: &AppStore, profile_tun: bool) -> (r: Option<CoreKind>)
    ensures
        r == match runtime_of(store.settings.runtime_source@) {
            RuntimeModel::Singbox(id) => if profile_content(store.subscriptions@, id) is Some
                && profile_tun {
                Some(CoreKind::SingBox)
            } else {
                None
            },
            RuntimeModel::Generated => if store.settings.tun_enabled {
                Some(CoreKind::of_word(lowered(trimmed(store.settings.core_type@))))
            } else {
                None
            },
        },
{
    match store.settings.runtime_source() {
        RuntimeSource::Singbox { id } => {
            if custom_profile(store, id.as_str()).is_ok() && profile_tun {
                Some(CoreKind::SingBox)
            } else {
                None
            }
        },
        RuntimeSource::Generated => {
            if store.settings.tun_enabled {
                Some(CoreKind::parse(store.settings.core_type.as_str()))
            } else {
                None
            }
        },
    }
}

/// The program that still needs the rights of an administrator.
pub fn resolve_pending_elevation(
    store: &AppStore,
    profile_tun: bool,
    binary: Option<String>,
    has_rights: bool,
) -> (r: Option<String>)
    ensures
        r == if match runtime_of(store.settings.runtime_source@) {
            RuntimeModel::Singbox(id) => profile_content(store.subscriptions@, id) is Some
                && profile_tun,
            RuntimeModel::Generated => store.settings.tun_enabled,
        } && !has_rights {
            binary
        } else {
            None
        },
{
    if elevation_wanted(store, profile_tun).is_some() && !has_rights {
        binary
    } else {
        None
    }
}

/// The interface of that number is in the listing.
pub open spec fn lists_utun(listing: Seq<char>, n: int) -> bool {
    exists|i: int| #![trigger words(listing, separators(false))[i]]
        0 <= i < words(listing, separators(false)).len() && utun_number(
            words(listing, separators(false))[i],
        ) == Some(n)
}

/// The number of an interface, by its name.
pub open spec fn utun_number(w: Seq<char>) -> Option<int> {
    if has_prefix(w, "utun"@) {
        match parsed_u64(w.skip("utun"@.len() as int)) {
            Some(n) if n <= u32::MAX => Some(n as int),
            _ => None,
        }
    } else {
        None
    }
}

/// The lowest number behind `from` that is not in the listing.
pub open spec fn lowest_free(listing: Seq<char>, from: int) -> Option<int>
    decreases 1000 - from,
{
    if from >= 1000 {
        None
    } else if !lists_utun(listing, from) {
        Some(from)
    } else {
        lowest_free(listing, from + 1)
    }
}

fn utun_listed(names: &Vec<String>, n: u64) -> (r: bool)
    requires
        n < 1000,
    ensures
        r == exists|i: int|
            #![trigger views(names@)[i]]
            0 <= i < views(names@).len() && utun_number(views(names@)[i]) == Some(n as int),
{
    for i in 0..names.len()
        invariant
            n < 1000,
            forall|j: int|
                #![trigger names@[j]]
                0 <= j < i ==> utun_number(names@[j]@) != Some(n as int),
    {
        if let Some(rest) = strip_prefix(names[i].as_str(), "utun") {
            if let Some(m) = parse_u64(rest) {
                if m == n {
                    proof {
                        assert(utun_number(views(names@)[i as int]) == Some(n as int));
                    }
                    return true;
                }
            }
        }
    }
    proof {
        assert forall|i: int|
            #![trigger views(names@)[i]]
            0 <= i < views(names@).len() implies utun_number(views(names@)[i]) != Some(n as int) by {
            assert(views(names@)[i] == names@[i]@);
        }
    }
    false
}

/// The name of an interface that the listing of the system's interfaces does not hold.
pub fn pick_free_darwin_utun_name(listing: &str) -> (r: String)
    ensures
        r@ == "utun"@ + match lowest_free(listing@, 0) {
            Some(n) => decimal(n as nat),
            None => "9"@,
        },
{
    let names = split_words(listing, false);
    let mut n: u64 = 0;
    while n < 1000
        invariant
            n <= 1000,
            views(names@) == words(listing@, separators(false)),
            lowest_free(listing@, 0) == lowest_free(listing@, n as int),
        decreases 1000 - n,
    {
        if !utun_listed(&names, n) {
            return concat2("utun", decimal_of(n).as_str());
        }
        n += 1;
    }
    concat2("utun", "9")
}

} // verus!
