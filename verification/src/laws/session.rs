//! Sessions: how they start, with what, and how they capture traffic.

use crate::core_kind::CoreKind;
use crate::domain::node::ProxyNode;
use crate::domain::settings::{runtime_of, AppSettings, CaptureMode, ExtraInbound};
use crate::domain::subscription::Subscription;
use crate::error::AppError;
use crate::journal::ConnectionModel;
use crate::launch::{next_launch, Launch, LaunchEvent, LaunchStep, Launched};
use crate::sidecar::pos_of_id;
use crate::start::{
    first_taken, first_taken_node, listen_host, lists_utun, log_end, lowest_free, next_wait,
    options_of, profile_content, profile_refusal, start_node, start_refusal, sub_pos, takes_node,
    with_log, BuildOptions, ProfileInsight, StartSupplies, WaitEvent, WaitFor, WaitStep,
};
use crate::state::{
    capture_plan_of, main_group_named, node_picked, restart_marked, select_refusal, start_begun,
    tagged_id, AppState, KernelSelectionPoll,
};
use crate::storage::{AppStore, StoredNode};
use crate::text::{has_prefix, has_suffix, lowered, trimmed};
use vstd::prelude::*;

verus! {

// ---------------------------------------------------------------------------
// How traffic is captured
// ---------------------------------------------------------------------------
/// A start turns the system's proxy on exactly where the capture mode that is stored after it
/// is that of the system's proxy. A mode that was stored before stays, whatever the caller
/// asks for; without one, the caller's wish counts and is stored. Nothing else is stored.
pub proof fn law_start_captures_as_stored(
    before: AppState,
    asked: bool,
    on: bool,
    after: AppState,
)
    requires
        start_begun(before, asked, on, after),
    ensures
        on <==> after.store.settings.capture_mode == CaptureMode::System,
        before.store.settings.capture_mode == CaptureMode::System ==> on,
        before.store.settings.capture_mode == CaptureMode::Tun ==> !on,
        before.store.settings.capture_mode == CaptureMode::Off ==> on == asked,
        before.store.settings.capture_mode != CaptureMode::Off || !asked ==> after.store
            == before.store,
        on && before.store.settings.capture_mode == CaptureMode::Off
            ==> !after.store.settings.tun_enabled,
        after.store.settings == (AppSettings {
            capture_mode: after.store.settings.capture_mode,
            tun_enabled: after.store.settings.tun_enabled,
            ..before.store.settings
        }),
        after.core_transitioning,
        after.runtime == before.runtime,
{
}

/// Starts agree: one that follows another turns the system's proxy on as the first did,
/// whatever is asked for then, and stores nothing more, unless neither mode nor wish was
/// there at first.
pub proof fn law_starts_agree(
    before: AppState,
    asked: bool,
    on: bool,
    after: AppState,
    asked_then: bool,
    on_then: bool,
    later: AppState,
)
    requires
        start_begun(before, asked, on, after),
        start_begun(after, asked_then, on_then, later),
        on || before.store.settings.capture_mode != CaptureMode::Off,
    ensures
        on_then == on,
        later.store == after.store,
{
}

/// A plan for a capture mode: the network interface is changed only where it differs, the core
/// is restarted only for that and where it runs, the system's proxy is on for its own mode
/// alone, and nothing is done where all is as asked. What an earlier run left is removed only
/// where the client does not use the system's proxy.
pub proof fn law_capture_plan_does_what_differs(
    mode: CaptureMode,
    s: AppSettings,
    proxy_on: bool,
    running: bool,
)
    ensures
        ({
            let p = capture_plan_of(mode, s, proxy_on, running);
            let tun_right = s.tun_enabled == (mode == CaptureMode::Tun);
            let proxy_right = proxy_on == (mode == CaptureMode::System);
            &&& p.mode == mode
            &&& p.system_proxy <==> mode == CaptureMode::System
            &&& p.unchanged <==> tun_right && proxy_right && s.capture_mode == mode
            &&& p.save_tun <==> !tun_right
            &&& p.restart <==> !tun_right && running
            &&& p.clean_up <==> mode != CaptureMode::System && !proxy_on
        }),
{
}

// ---------------------------------------------------------------------------
// What a start needs
// ---------------------------------------------------------------------------
proof fn lemma_first_taken(inbounds: Seq<ExtraInbound>, busy: Seq<u16>)
    ensures
        first_taken(inbounds, busy) is None <==> forall|i: int|
            0 <= i < inbounds.len() ==> !busy.contains((#[trigger] inbounds[i]).port),
    decreases inbounds.len(),
{
    if inbounds.len() > 0 {
        let t = inbounds.drop_last();
        lemma_first_taken(t, busy);
        assert(inbounds[inbounds.len() - 1] == inbounds.last());
        if first_taken(t, busy) is Some {
            let i = choose|i: int| 0 <= i < t.len() && busy.contains((#[trigger] t[i]).port);
            assert(inbounds[i] == t[i]);
        } else {
            assert forall|i: int|
                0 <= i < t.len() implies !busy.contains((#[trigger] inbounds[i]).port) by {
                assert(t[i] == inbounds[i]);
            }
        }
    }
}

proof fn lemma_first_taken_node(nodes: Seq<ProxyNode>, kind: CoreKind)
    ensures
        match first_taken_node(nodes, kind) {
            Some(i) => 0 <= i < nodes.len() && takes_node(kind)(nodes[i]) && forall|j: int|
                0 <= j < i ==> !takes_node(kind)(#[trigger] nodes[j]),
            None => forall|j: int| 0 <= j < nodes.len() ==> !takes_node(kind)(#[trigger] nodes[j]),
        },
    decreases nodes.len(),
{
    if nodes.len() > 0 {
        let t = nodes.drop_last();
        lemma_first_taken_node(t, kind);
        assert forall|j: int| 0 <= j < t.len() implies t[j] == nodes[j] by {}
        match first_taken_node(t, kind) {
            Some(i) => {
                assert(t[i] == nodes[i]);
                assert forall|j: int| 0 <= j < i implies !takes_node(kind)(#[trigger] nodes[j]) by {
                    assert(t[j] == nodes[j]);
                }
            },
            None => {
                assert forall|j: int| 0 <= j < t.len() implies !takes_node(kind)(
                    #[trigger] nodes[j],
                ) by {
                    assert(t[j] == nodes[j]);
                }
            },
        }
    }
}

/// A generated session starts exactly where there are nodes, the core takes one of them, the
/// programs that it needs are there, and none of its ports is taken: the main one, that of
/// the controller, and those beside.
pub proof fn law_start_needs_nodes_ports_and_programs(
    kind: CoreKind,
    settings: AppSettings,
    nodes: Seq<ProxyNode>,
    sidecar: bool,
    s: StartSupplies,
)
    ensures
        start_refusal(kind, settings, nodes, sidecar, s) is None <==> {
            &&& nodes.len() > 0
            &&& kind == CoreKind::SingBox && sidecar ==> s.xray_found
            &&& kind == CoreKind::Xray ==> exists|i: int|
                0 <= i < nodes.len() && CoreKind::Xray.serves((#[trigger] nodes[i]).protocol)
            &&& kind == CoreKind::Mihomo ==> exists|i: int|
                0 <= i < nodes.len() && CoreKind::Mihomo.serves_node(#[trigger] nodes[i])
            &&& !s.busy@.contains(settings.mixed_port)
            &&& !s.busy@.contains(settings.api_port)
            &&& forall|i: int|
                0 <= i < settings.extra_inbounds@.len() ==> !s.busy@.contains(
                    (#[trigger] settings.extra_inbounds@[i]).port,
                )
            &&& s.core_found
        },
{
    lemma_first_taken(settings.extra_inbounds@, s.busy@);
    lemma_first_taken_node(nodes, kind);
    let label = if kind == CoreKind::Xray {
        "Metrics"@
    } else {
        "Clash API"@
    };
    if first_taken_node(nodes, kind) is Some {
        let i = first_taken_node(nodes, kind)->0;
        assert(takes_node(kind)(nodes[i]));
    } else {
        assert forall|j: int| 0 <= j < nodes.len() implies !takes_node(kind)(#[trigger] nodes[j]) by {}
    }
}

/// A profile starts exactly where the ports that it names are not taken and its core is there.
pub proof fn law_profile_needs_ports_and_a_core(p: ProfileInsight, s: StartSupplies)
    ensures
        profile_refusal(p, s) is None <==> {
            &&& p.inbound_port is Some ==> !s.busy@.contains(p.inbound_port->0)
            &&& p.clash_api_port is Some ==> !s.busy@.contains(p.clash_api_port->0)
            &&& s.core_found
        },
{
}

proof fn lemma_pos_of_id(nodes: Seq<ProxyNode>, id: Seq<char>)
    ensures
        match pos_of_id(nodes, id) {
            Some(i) => 0 <= i < nodes.len() && nodes[i].id@ == id && forall|j: int|
                0 <= j < i ==> (#[trigger] nodes[j]).id@ != id,
            None => forall|j: int| 0 <= j < nodes.len() ==> (#[trigger] nodes[j]).id@ != id,
        },
    decreases nodes.len(),
{
    if nodes.len() > 0 {
        let t = nodes.drop_last();
        lemma_pos_of_id(t, id);
        match pos_of_id(t, id) {
            Some(i) => {
                assert(t[i] == nodes[i]);
                assert forall|j: int| 0 <= j < i implies (#[trigger] nodes[j]).id@ != id by {
                    assert(t[j] == nodes[j]);
                }
            },
            None => {
                assert forall|j: int| 0 <= j < t.len() implies (#[trigger] nodes[j]).id@ != id by {
                    assert(t[j] == nodes[j]);
                }
            },
        }
    }
}

/// The node that a session starts on: a selected node stays where it is not in the list or the
/// core takes it; else it is the first in the list that the core takes, where there is one.
/// Under sing-box that is the first node.
pub proof fn law_session_starts_on_a_usable_node(
    kind: CoreKind,
    current: Option<Seq<char>>,
    nodes: Seq<ProxyNode>,
    x: int,
)
    requires
        0 <= x < nodes.len(),
        kind == CoreKind::Xray ==> CoreKind::Xray.serves(nodes[x].protocol),
        kind == CoreKind::Mihomo ==> CoreKind::Mihomo.serves_node(nodes[x]),
        forall|j: int|
            0 <= j < x ==> match kind {
                CoreKind::SingBox => false,
                CoreKind::Xray => !CoreKind::Xray.serves((#[trigger] nodes[j]).protocol),
                CoreKind::Mihomo => !CoreKind::Mihomo.serves_node(nodes[j]),
            },
    ensures
        current is None ==> start_node(kind, current, nodes) == Some(nodes[x].id@),
        kind == CoreKind::SingBox && current is Some ==> start_node(kind, current, nodes) == current,
        current is Some && (forall|j: int|
            0 <= j < nodes.len() ==> (#[trigger] nodes[j]).id@ != current->0) ==> start_node(
            kind,
            current,
            nodes,
        ) == current,
        current == Some(nodes[x].id@) ==> start_node(kind, current, nodes) == current,
        forall|j: int|
            0 <= j < nodes.len() && current == Some((#[trigger] nodes[j]).id@) && (forall|k: int|
                0 <= k < j ==> (#[trigger] nodes[k]).id@ != nodes[j].id@) && kind == CoreKind::Xray
                && !CoreKind::Xray.serves(nodes[j].protocol) ==> start_node(kind, current, nodes)
                == Some(nodes[x].id@),
{
    lemma_first_taken_node(nodes, kind);
    assert(takes_node(kind)(nodes[x]));
    let f = first_taken_node(nodes, kind)->0;
    assert(f == x) by {
        if f < x {
            assert(takes_node(kind)(nodes[f]));
            let same = nodes[f].protocol;
        }
    }
    if current is Some {
        lemma_pos_of_id(nodes, current->0);
        assert forall|j: int|
            0 <= j < nodes.len() && current == Some((#[trigger] nodes[j]).id@) && (forall|k: int|
                0 <= k < j ==> (#[trigger] nodes[k]).id@ != nodes[j].id@) && kind == CoreKind::Xray
                && !CoreKind::Xray.serves(nodes[j].protocol) implies start_node(
            kind,
            current,
            nodes,
        ) == Some(nodes[x].id@) by {
            let i = pos_of_id(nodes, current->0)->0;
            assert(nodes[i].id@ == current->0);
            assert(i == j);
        }
    }
}

// ---------------------------------------------------------------------------
// The wait for a core
// ---------------------------------------------------------------------------
/// A start waits for a controller six seconds, or ten where the core has the rights of an
/// administrator; for the counters three; for a process four. Until then it asks or looks.
/// A core that answers is ready at once.
pub proof fn law_waits_have_their_time(what: WaitFor, elevated: bool, elapsed: u64)
    ensures
        ({
            let limit: int = match what {
                WaitFor::Controller => if elevated {
                    10000
                } else {
                    6000
                },
                WaitFor::Counters => 3000,
                WaitFor::Process => 4000,
            };
            &&& next_wait(what, elevated, WaitEvent::Round(elapsed)) is TimeOver <==> elapsed
                >= limit
            &&& elapsed < limit ==> next_wait(what, elevated, WaitEvent::Round(elapsed))
                == if what == WaitFor::Process {
                WaitStep::Look
            } else {
                WaitStep::Ask
            }
        }),
        next_wait(what, elevated, WaitEvent::Asked(true)) is Ready,
        !(next_wait(what, elevated, WaitEvent::Asked(false)) is Ready),
        what != WaitFor::Process ==> next_wait(what, elevated, WaitEvent::Looked(false)) is Exited,
        what == WaitFor::Process ==> next_wait(what, elevated, WaitEvent::Looked(true)) is Ready,
        what == WaitFor::Process ==> next_wait(what, elevated, WaitEvent::Looked(false)) is Pause,
        what != WaitFor::Process ==> !(next_wait(what, elevated, WaitEvent::Looked(true)) is Ready),
{
}

// ---------------------------------------------------------------------------
// The selected node
// ---------------------------------------------------------------------------
/// A node can be selected where the configuration is made by the client, the selection is by
/// hand or the automatic one is on, the store has the node, and the core serves it.
pub proof fn law_selection_needs_a_served_node(store: AppStore, id: Seq<char>, manual: bool)
    ensures
        select_refusal(store, id, manual) is None <==> {
            &&& !(runtime_of(store.settings.runtime_source@) is Singbox)
            &&& manual || store.settings.auto_select is Smart
            &&& store.node_pos(id) is Some
            &&& CoreKind::of_word(lowered(trimmed(store.settings.core_type@))).serves_node(
                store.nodes@[store.node_pos(id)->0].node,
            )
        },
{
}

/// A selection is kept; one by hand ends every automatic selection, one by the client leaves
/// it on.
pub proof fn law_selection_by_hand_ends_the_automatic(s: AppSettings, id: String)
    ensures
        node_picked(s, id, true).current_node_id == Some(id),
        node_picked(s, id, false).current_node_id == Some(id),
        node_picked(s, id, true).auto_select is Off,
        !node_picked(s, id, true).smart_switch,
        node_picked(s, id, false) == (AppSettings { current_node_id: Some(id), ..s }),
{
}

/// A restart is marked only where the core runs; the store is the new one either way.
pub proof fn law_restart_is_marked_where_it_runs(s: AppState, store: AppStore)
    ensures
        restart_marked(s, store, false).status_cache == s.status_cache,
        restart_marked(s, store, true).status_cache.core_state
            == crate::runtime::CoreState::Starting,
        restart_marked(s, store, false).store == store,
        restart_marked(s, store, true).store == store,
        restart_marked(s, store, false).core_transitioning,
        restart_marked(s, store, true).core_transitioning,
{
}

/// A tag leads back to the first node that has it, and to nothing where none has.
pub proof fn law_tag_leads_to_the_first_node(nodes: Seq<StoredNode>, tag: Seq<char>)
    ensures
        match tagged_id(nodes, tag) {
            Some(id) => exists|i: int|
                0 <= i < nodes.len() && (#[trigger] nodes[i]).node.id@ == id
                    && crate::domain::node::node_tag(id) == tag && forall|j: int|
                    0 <= j < i ==> crate::domain::node::node_tag((#[trigger] nodes[j]).node.id@)
                        != tag,
            None => forall|j: int|
                0 <= j < nodes.len() ==> crate::domain::node::node_tag(
                    (#[trigger] nodes[j]).node.id@,
                ) != tag,
        },
    decreases nodes.len(),
{
    if nodes.len() > 0 {
        let t = nodes.drop_last();
        law_tag_leads_to_the_first_node(t, tag);
        match tagged_id(t, tag) {
            Some(id) => {
                let i = choose|i: int|
                    0 <= i < t.len() && (#[trigger] t[i]).node.id@ == id
                        && crate::domain::node::node_tag(id) == tag && forall|j: int|
                        0 <= j < i ==> crate::domain::node::node_tag((#[trigger] t[j]).node.id@)
                            != tag;
                assert(nodes[i] == t[i]);
                assert forall|j: int| 0 <= j < i implies crate::domain::node::node_tag(
                    (#[trigger] nodes[j]).node.id@,
                ) != tag by {
                    assert(t[j] == nodes[j]);
                }
            },
            None => {
                assert forall|j: int| 0 <= j < t.len() implies crate::domain::node::node_tag(
                    (#[trigger] nodes[j]).node.id@,
                ) != tag by {
                    assert(t[j] == nodes[j]);
                }
                assert(nodes[nodes.len() - 1] == nodes.last());
            },
        }
    }
}

/// What is told of a failed start is the end of the log: never more than 1200 characters, and
/// nothing where it is blank.
pub proof fn law_log_hint_is_an_end(text: Seq<char>)
    ensures
        log_end(text).len() <= 1200,
        log_end(text).len() > 0 ==> trimmed(log_end(text)).len() > 0,
        !text.contains('\0') && text.len() <= 1200 && trimmed(text).len() > 0 ==> log_end(text)
            == text,
{
    let tail = if text.len() > 1200 {
        text.skip(text.len() - 1200)
    } else {
        text
    };
    crate::laws::texts::lemma_without_char(tail, '\0');
}

// ---------------------------------------------------------------------------
// Ports, interfaces and messages
// ---------------------------------------------------------------------------
/// A listener is on all addresses exactly where the network may use it.
pub proof fn law_listeners_are_local_unless_shared(allow_lan: bool)
    ensures
        listen_host(allow_lan) == if allow_lan {
            "0.0.0.0"@
        } else {
            "127.0.0.1"@
        },
{
}

/// The interface that is taken is the first that no other program has.
pub proof fn law_first_free_interface_is_taken(listing: Seq<char>, from: int, n: int)
    requires
        0 <= from,
    ensures
        lowest_free(listing, from) == Some(n) ==> from <= n < 1000 && !lists_utun(listing, n)
            && forall|k: int| from <= k < n ==> lists_utun(listing, k),
        lowest_free(listing, from) is None ==> forall|k: int|
            from <= k < 1000 ==> lists_utun(listing, k),
    decreases 1000 - from,
{
    if from < 1000 && lists_utun(listing, from) {
        law_first_free_interface_is_taken(listing, from + 1, n);
    }
}

/// What a core said follows the message where it said anything.
pub proof fn law_messages_end_with_the_log(text: Seq<char>, hint: Seq<char>)
    ensures
        hint.len() == 0 ==> with_log(text, hint) == text,
        hint.len() > 0 ==> has_prefix(with_log(text, hint), text) && has_suffix(
            with_log(text, hint),
            hint,
        ) && with_log(text, hint).len() > text.len() + hint.len(),
{
    reveal_strlit("\n--- log ---\n");
    if hint.len() > 0 {
        let m = with_log(text, hint);
        assert(m.subrange(0, text.len() as int) =~= text);
        assert(m.subrange(m.len() - hint.len(), m.len() as int) =~= hint);
    }
}

/// A configuration is made from the settings as they are stored.
pub proof fn law_configurations_follow_the_store(o: BuildOptions, store: AppStore, secret: Seq<char>)
    requires
        options_of(o, store, secret),
    ensures
        o.mixed_port == store.settings.mixed_port && o.api_port == store.settings.api_port,
        o.allow_lan == store.settings.allow_lan && o.tun_enabled == store.settings.tun_enabled,
        o.tun_ipv6 == store.settings.tun_ipv6_enabled && o.block_quic == store.settings.block_quic,
        o.bypass_lan == store.settings.bypass_lan && o.find_process == store.settings.find_process,
        o.outbound_mode == store.settings.outbound_mode && o.auto_select
            == store.settings.auto_select,
        o.route_final@ == store.settings.route_final@ && o.probe_url@ == store.settings.probe_url@,
        o.api_secret@ == secret && o.current_node_id == store.settings.current_node_id,
        o.rules@.len() == crate::storage::enabled_rules(store.rule_sets@).len(),
        o.rule_sets@.len() <= store.rule_sets@.len(),
        *o.dns == store.dns && *o.chains == store.chains && *o.pools == store.pools,
{
    let keys = crate::storage::place_keys(crate::storage::enabled_rules(store.rule_sets@));
    crate::order::law_items_have_an_order(keys);
    assert(crate::storage::referred(o.rules@).len() == o.rules@.len());
    store.rule_sets@.lemma_filter_len(crate::start::set_enabled());
}

/// A profile is run where the subscription of its id is one.
pub proof fn law_profiles_are_of_their_kind(subs: Seq<Subscription>, id: Seq<char>)
    ensures
        profile_content(subs, id) is Some <==> exists|i: int|
            0 <= i < subs.len() && (#[trigger] subs[i]).id@ == id && subs[i].source is Singbox
                && forall|j: int| 0 <= j < i ==> (#[trigger] subs[j]).id@ != id,
{
    lemma_sub_pos(subs, id);
    if let Some(p) = sub_pos(subs, id) {
        assert(subs[p].id@ == id);
        if exists|i: int|
            0 <= i < subs.len() && (#[trigger] subs[i]).id@ == id && subs[i].source is Singbox
                && forall|j: int| 0 <= j < i ==> (#[trigger] subs[j]).id@ != id {
            let i = choose|i: int|
                0 <= i < subs.len() && (#[trigger] subs[i]).id@ == id && subs[i].source is Singbox
                    && forall|j: int| 0 <= j < i ==> (#[trigger] subs[j]).id@ != id;
            assert(i == p) by {
                if i < p {
                    assert(subs[i].id@ != id);
                }
                if p < i {
                    assert(subs[p].id@ != id);
                }
            }
        }
    }
}

proof fn lemma_sub_pos(subs: Seq<Subscription>, id: Seq<char>)
    ensures
        sub_pos(subs, id) is Some <==> exists|i: int|
            0 <= i < subs.len() && (#[trigger] subs[i]).id@ == id,
        sub_pos(subs, id) matches Some(p) ==> 0 <= p < subs.len() && subs[p].id@ == id && forall|
            j: int,
        | 0 <= j < p ==> (#[trigger] subs[j]).id@ != id,
    decreases subs.len(),
{
    if subs.len() > 0 {
        let t = subs.drop_last();
        let last = subs.len() - 1;
        lemma_sub_pos(t, id);
        assert(subs[last] == subs.last());
        assert forall|j: int| 0 <= j < t.len() implies t[j] == subs[j] by {}
        if exists|i: int| 0 <= i < t.len() && (#[trigger] t[i]).id@ == id {
            let i = choose|i: int| 0 <= i < t.len() && (#[trigger] t[i]).id@ == id;
            assert(subs[i].id@ == id);
        }
        if exists|i: int| 0 <= i < subs.len() && (#[trigger] subs[i]).id@ == id {
            let i = choose|i: int| 0 <= i < subs.len() && (#[trigger] subs[i]).id@ == id;
            if i < last {
                assert(t[i].id@ == id);
            }
        }
        if let Some(p) = sub_pos(subs, id) {
            assert forall|j: int| 0 <= j < p implies (#[trigger] subs[j]).id@ != id by {
                assert(t[j].id@ != id);
            }
        }
    }
}

// ---------------------------------------------------------------------------
// A launch
// ---------------------------------------------------------------------------
/// A launch goes from the configuration to the process to the wait; a failure on the way ends
/// it with its reason.
pub proof fn law_launches_go_step_by_step(l: Launch, x: AppError)
    ensures
        l.state is Preparing ==> next_launch(l, LaunchEvent::Prepared) is Start && next_launch(
            l,
            LaunchEvent::NotPrepared(x),
        ) == LaunchStep::Fail(x@),
        l.state is Starting ==> next_launch(l, LaunchEvent::Started) is Wait && next_launch(
            l,
            LaunchEvent::NotStarted(x),
        ) == LaunchStep::Fail(x@),
        l.state is StartingSidecar ==> next_launch(l, LaunchEvent::SidecarStarted) is Ready
            && next_launch(l, LaunchEvent::SidecarNotStarted(x)) == LaunchStep::StopAndFail(x@),
        l.state is Over ==> next_launch(l, LaunchEvent::Prepared) is Ignore,
{
}

/// A core that is ready is followed by the second one where there is one; a core that exited
/// is asked for its log; and one that did not answer in time fails, but for Xray, whose
/// counters are not needed.
pub proof fn law_launches_end_with_the_wait(l: Launch, w: WaitEvent)
    requires
        l.state is Waiting,
    ensures
        ({
            let step = next_launch(l, LaunchEvent::Wait(w));
            let wait = next_wait(l.what.waits_for(), l.elevated, w);
            &&& wait is Ready && l.sidecar ==> step is StartSidecar
            &&& wait is Ready && !l.sidecar ==> step is Ready
            &&& wait is Exited ==> step is ReadLog
            &&& wait is TimeOver && l.what != Launched::Generated(CoreKind::Xray) ==> step is ReadLog
            &&& wait is TimeOver && l.what == Launched::Generated(CoreKind::Xray) ==> step is Ready
                || step is StartSidecar
            &&& wait is Ask || wait is Look || wait is Pause || wait is Again ==> step
                == LaunchStep::Wait(wait)
        }),
{
}

// ---------------------------------------------------------------------------
// The state
// ---------------------------------------------------------------------------
/// The core's own selection is asked for once at a time, and two seconds apart.
pub proof fn law_selection_is_asked_for_in_time(p: KernelSelectionPoll, now_ms: u64)
    ensures
        p.in_flight ==> !p.may_start(now_ms),
        !p.in_flight && p.last_started is None ==> p.may_start(now_ms),
        !p.in_flight && p.last_started is Some ==> (p.may_start(now_ms) <==> now_ms
            - p.last_started->0 >= 2000),
{
}

/// Connections of the main group are shown under the node that is selected; all others stay,
/// and without a name so do those.
pub proof fn law_main_group_is_named(conns: Seq<ConnectionModel>, name: Seq<char>, i: int)
    requires
        0 <= i < conns.len(),
    ensures
        main_group_named(conns, None) == conns,
        main_group_named(conns, Some(name)).len() == conns.len(),
        conns[i].node == "proxy"@ ==> main_group_named(conns, Some(name))[i]
            == (ConnectionModel { node: name, ..conns[i] }),
        conns[i].node != "proxy"@ ==> main_group_named(conns, Some(name))[i] == conns[i],
{
}

} // verus!
