use satelite::core_kind::CoreKind;
use satelite::digest::Stamp;
use satelite::domain::chain::{ChainHop, ProxyChain};
use satelite::domain::node::{Protocol, ProtocolConfig, ProxyNode, TlsConfig, Transport};
use satelite::domain::settings::{ExtraInbound, ProtocolCoreItem};
use satelite::error::AppError;
use satelite::health::PassiveNodeStats;
use satelite::journal::{ConnectionInfo, RequestRecord, MAX_REQUEST_HISTORY};
use satelite::runtime::{
    ApiEndpoint, CoreFacts, CoreState, LogOwner, MemoryPlan, ProcessMemInfo, Runtime, StopStep,
    SystemProxySnapshot, MEMORY_CACHE_MS,
};
use satelite::sidecar::{compute_sidecar_plan, sidecar_entries, SIDECAR_MAX_NODES};
use satelite::start::{
    core_startup_log_hint, ensure_listen_port_available, log_tail_hint, pick_free_darwin_utun_name,
    resolve_clash_api_secret, wait_step, WaitEvent, WaitFor, WaitStep,
};
use satelite::storage::AppStore;

const DIAG_PORT: u16 = 9;

// ---- the secret of the controller ----

#[test]
fn disabled_toggle_clears_any_stored_secret_and_returns_empty() {
    // Turning the toggle off must actually wipe the persisted secret —
    // otherwise the UI could still display/copy a "dead" key that no
    // longer matches what's in the running config.
    let mut store = AppStore::default();
    store.settings.api_secret_enabled = false;
    store.settings.clash_api_secret = Some("leftover".into());
    let secret = resolve_clash_api_secret(&mut store, "fresh".into());
    assert_eq!(secret, "");
    assert_eq!(store.settings.clash_api_secret, None);
}

#[test]
fn enabled_toggle_generates_a_secret_when_none_is_stored() {
    let mut store = AppStore::default();
    store.settings.api_secret_enabled = true;
    store.settings.clash_api_secret = None;
    let secret = resolve_clash_api_secret(&mut store, "fresh".into());
    assert!(!secret.is_empty());
    assert_eq!(store.settings.clash_api_secret, Some(secret));
}

#[test]
fn enabled_toggle_reuses_the_persisted_secret_across_restarts() {
    // Regenerating on every restart would silently break any external
    // tool that saved the previous secret.
    let mut store = AppStore::default();
    store.settings.api_secret_enabled = true;
    store.settings.clash_api_secret = Some("kept-secret".into());
    let secret = resolve_clash_api_secret(&mut store, "fresh".into());
    assert_eq!(secret, "kept-secret");
    assert_eq!(store.settings.clash_api_secret.as_deref(), Some("kept-secret"));
    // A second start gives the same one.
    assert_eq!(
        resolve_clash_api_secret(&mut store, "fresher".into()),
        "kept-secret"
    );
}

#[test]
fn a_blank_secret_is_replaced() {
    let mut store = AppStore::default();
    store.settings.api_secret_enabled = true;
    store.settings.clash_api_secret = Some("  ".into());
    assert_eq!(resolve_clash_api_secret(&mut store, "fresh".into()), "fresh");
    assert_eq!(store.settings.clash_api_secret.as_deref(), Some("fresh"));
    assert_eq!(resolve_clash_api_secret(&mut store, "later".into()), "fresh");
    assert_eq!(store.settings.clash_api_secret.as_deref(), Some("fresh"));
    assert!(store.settings.api_secret_enabled);
}

// ---- the sidecar's plan ----

fn node(id: &str, protocol: Protocol) -> ProxyNode {
    let config = match protocol {
        Protocol::Vless => ProtocolConfig::Vless {
            uuid: "uuid-1".into(),
            flow: None,
            packet_encoding: "xudp".into(),
        },
        _ => ProtocolConfig::Shadowsocks {
            method: "aes-256-gcm".into(),
            password: "pw".into(),
            plugin: None,
            plugin_opts: None,
            shadow_tls: None,
        },
    };
    ProxyNode {
        id: id.into(),
        name: format!("n-{id}"),
        protocol,
        server: "example.com".into(),
        port: 443,
        tls: None,
        transport: None,
        udp: Some(true),
        config,
        source: None,
        latency_ms: None,
        latency_at: None,
    }
}

fn sidecar_store() -> AppStore {
    let mut store = AppStore::default();
    store.settings.multi_core_enabled = true;
    store.settings.protocol_cores = vec![ProtocolCoreItem {
        protocol: "vless".into(),
        core: "xray".into(),
    }];
    store.settings.sidecar_port = 20890;
    store
}

#[test]
fn disabled_or_non_singbox_core_yields_no_plan() {
    let mut store = sidecar_store();
    let nodes = vec![node("n1", Protocol::Vless)];
    store.settings.multi_core_enabled = false;
    assert!(compute_sidecar_plan(&store.settings, &store.chains, &nodes, DIAG_PORT).is_none());

    store.settings.multi_core_enabled = true;
    store.settings.core_type = "xray".into();
    assert!(compute_sidecar_plan(&store.settings, &store.chains, &nodes, DIAG_PORT).is_none());
}

#[test]
fn only_delegated_protocols_get_ports_in_input_order() {
    let store = sidecar_store();
    let nodes = vec![
        node("ss1", Protocol::Shadowsocks),
        node("vl1", Protocol::Vless),
        node("vl2", Protocol::Vless),
    ];
    let plan = compute_sidecar_plan(&store.settings, &store.chains, &nodes, DIAG_PORT).expect("plan");
    assert_eq!(
        plan.ports,
        vec![("vl1".into(), 20890), ("vl2".into(), 20891)]
    );
    assert_eq!(plan.port_list(), vec![20890, 20891]);
    assert_eq!(sidecar_entries(&plan, &nodes), vec![(1, 20890), (2, 20891)]);
}

#[test]
fn xray_unsupported_combo_falls_back_to_native() {
    // REALITY over ws is exactly the combination CoreKind::Xray rejects —
    // the plan must drop it (native sing-box outbound) rather than emit a
    // sidecar inbound the Xray config can't map.
    let store = sidecar_store();
    let mut n = node("vl", Protocol::Vless);
    n.tls = Some(TlsConfig {
        enabled: true,
        server_name: Some("sni.example.com".into()),
        insecure: None,
        alpn: None,
        utls_fingerprint: None,
        reality_public_key: Some("pbk".into()),
        reality_short_id: Some("abcd".into()),
    });
    n.transport = Some(Transport::Ws {
        path: None,
        headers: None,
        max_early_data: None,
    });
    assert!(compute_sidecar_plan(&store.settings, &store.chains, &vec![n], DIAG_PORT).is_none());
}

#[test]
fn chain_pinned_nodes_stay_native() {
    let mut store = sidecar_store();
    store.chains = vec![ProxyChain::new(
        "链",
        vec![
            ChainHop::Node {
                node_id: "vl1".into(),
            },
            ChainHop::Node {
                node_id: "ss1".into(),
            },
        ],
        Stamp { nanos: 1, pid: 1 },
    )];
    let nodes = vec![
        node("ss1", Protocol::Shadowsocks),
        node("vl1", Protocol::Vless),
        node("vl2", Protocol::Vless),
    ];
    let plan = compute_sidecar_plan(&store.settings, &store.chains, &nodes, DIAG_PORT).expect("plan");
    assert_eq!(plan.ports, vec![("vl2".into(), 20890)]);
}

#[test]
fn plan_caps_at_max_nodes() {
    let store = sidecar_store();
    let nodes: Vec<ProxyNode> = (0..(SIDECAR_MAX_NODES + 5))
        .map(|i| node(&format!("n{i}"), Protocol::Vless))
        .collect();
    let plan = compute_sidecar_plan(&store.settings, &store.chains, &nodes, DIAG_PORT).expect("plan");
    assert_eq!(plan.ports.len(), SIDECAR_MAX_NODES);
}

#[test]
fn xhttp_nodes_follow_the_protocol_pin_only() {
    // No per-transport special cases: an xhttp node delegates exactly
    // when its PROTOCOL is pinned to Xray. vless is pinned here (goes to
    // the sidecar); shadowsocks is not (stays native — and since
    // sing-box can't speak xhttp, generation filters that node out).
    let store = sidecar_store();
    let mut vl_xhttp = node("vl1", Protocol::Vless);
    vl_xhttp.transport = Some(Transport::Xhttp {
        path: None,
        host: None,
        mode: None,
    });
    let mut ss_xhttp = node("ss1", Protocol::Shadowsocks);
    ss_xhttp.transport = Some(Transport::Xhttp {
        path: None,
        host: None,
        mode: None,
    });
    let nodes = vec![vl_xhttp, ss_xhttp];
    let plan = compute_sidecar_plan(&store.settings, &store.chains, &nodes, DIAG_PORT).expect("plan");
    assert_eq!(plan.ports, vec![("vl1".into(), 20890)]);
}

#[test]
fn reserved_ports_are_skipped_without_stalling_the_range() {
    // The second candidate port (base+1) collides with the Clash API
    // port: that node stays native, later nodes keep their own indexes —
    // the range must not shift, stall, or reuse the reserved port.
    let mut store = sidecar_store(); // base 20890
    store.settings.api_port = 20891;
    store.settings.extra_inbounds = vec![ExtraInbound {
        id: "x".into(),
        kind: "mixed".into(),
        port: 20894,
        allow_lan: false,
    }];
    let nodes = vec![
        node("vl1", Protocol::Vless),
        node("vl2", Protocol::Vless),
        node("vl3", Protocol::Vless),
        node("vl4", Protocol::Vless),
        node("vl5", Protocol::Vless),
    ];
    let plan = compute_sidecar_plan(&store.settings, &store.chains, &nodes, DIAG_PORT).expect("plan");
    assert_eq!(
        plan.ports,
        vec![
            ("vl1".into(), 20890),
            // 20891 = api port → vl2 native
            ("vl3".into(), 20892),
            ("vl4".into(), 20893),
            // 20894 = extra inbound → vl5 native
        ]
    );
}

#[test]
fn ports_of_a_plan_are_free_and_distinct() {
    let mut store = sidecar_store();
    store.settings.sidecar_port = 65534;
    let nodes: Vec<ProxyNode> = (0..4)
        .map(|i| node(&format!("n{i}"), Protocol::Vless))
        .collect();
    let plan = compute_sidecar_plan(&store.settings, &store.chains, &nodes, 65534).expect("plan");
    // The range ends with the last port, and the probing port is not used.
    assert_eq!(plan.ports, vec![("n1".into(), 65535)]);
}

// ---- stopping ----

fn idle() -> CoreFacts {
    CoreFacts {
        running: false,
        state: CoreState::Stopped,
        kind: CoreKind::SingBox,
        error: None,
        memory_bytes: None,
        elevated: false,
        sidecar_running: false,
        sidecar_state: CoreState::Stopped,
    }
}

fn runtime_with_system_proxy() -> Runtime {
    let mut runtime = Runtime::new();
    runtime.system_proxy_on = true;
    runtime.proxy_snapshot = Some(SystemProxySnapshot {
        detail: "previous system proxy".into(),
    });
    runtime
}

fn restore_failed() -> AppError {
    AppError::Core("restore failed".into())
}

fn closed_record(id: &str, history_seq: u64, host: &str) -> RequestRecord {
    RequestRecord {
        id: id.into(),
        history_seq,
        destination: format!("{host}:443"),
        host: host.into(),
        network: "tcp".into(),
        conn_type: "http".into(),
        node: "proxy".into(),
        chains: Vec::new(),
        rule: String::new(),
        rule_payload: String::new(),
        process: String::new(),
        source: String::new(),
        upload: 10,
        download: 10,
        first_seen: 1_000,
        last_seen: 1_100,
        closed: true,
        closed_at: Some(1_100),
    }
}

#[test]
fn request_incremental_cursor_pages_without_skipping() {
    let store = AppStore::default();
    let mut runtime = Runtime::new();
    runtime.journal.journal_seq = 3;
    for (id, seq, host) in [
        ("one", 1, "match.example"),
        ("two", 2, "other.example"),
        ("three", 3, "match.example"),
    ] {
        runtime
            .journal
            .request_by_id
            .insert(id.into(), closed_record(id, seq, host));
    }

    let first = runtime.request_history(&store, None, Some(1), Some(0));
    assert_eq!(first.entries.len(), 1);
    assert_eq!(first.cursor, 1);
    let second = runtime.request_history(&store, None, Some(1), Some(first.cursor));
    assert_eq!(second.entries.len(), 1);
    assert_eq!(second.cursor, 2);

    let filtered = runtime.request_history(&store, Some("match"), Some(10), Some(1));
    assert_eq!(filtered.entries.len(), 1);
    assert_eq!(filtered.entries[0].id, "three");
    assert_eq!(filtered.cursor, 3);
}

#[test]
fn user_stop_restores_system_proxy_before_reporting_stopped() {
    let store = AppStore::default();
    let mut runtime = runtime_with_system_proxy();
    assert!(matches!(runtime.stop_begins(), StopStep::RestoreProxy));

    let status = runtime
        .stop_proxy(&store, Ok(()), Ok(()), &idle(), 0)
        .expect("stop proxy");

    assert!(!runtime.system_proxy_on);
    assert!(runtime.proxy_snapshot.is_none());
    assert!(!status.system_proxy);
    assert!(!status.running);
}

#[test]
fn user_stop_does_not_clear_state_when_system_proxy_restore_fails() {
    let store = AppStore::default();
    let mut runtime = runtime_with_system_proxy();
    assert!(matches!(runtime.stop_begins(), StopStep::RestoreProxy));

    let error = runtime
        .stop_proxy(&store, Err(restore_failed()), Ok(()), &idle(), 0)
        .expect_err("restore must fail");

    assert!(format!("{error:?}").contains("restore failed"));
    assert!(runtime.system_proxy_on);
    assert!(runtime.proxy_snapshot.is_some());
}

#[test]
fn shutdown_reports_whether_system_proxy_was_cleared() {
    let mut successful = runtime_with_system_proxy();
    assert!(successful.shutdown(Ok(())));
    assert!(!successful.system_proxy_on);

    let mut failed = runtime_with_system_proxy();
    assert!(!failed.shutdown(Err(restore_failed())));
    assert!(failed.system_proxy_on);
    assert!(failed.proxy_snapshot.is_some());
}

#[test]
fn status_never_waits_for_clash_api_network_io() {
    let store = AppStore::default();
    let mut runtime = Runtime::new();
    runtime.api = Some(ApiEndpoint {
        host: "192.0.2.1".into(),
        port: 9,
        secret: "unreachable".into(),
        session: 1,
    });

    let started = std::time::Instant::now();
    let _ = runtime.status(&store, &idle(), 0);

    assert!(
        started.elapsed() < std::time::Duration::from_millis(100),
        "status must remain a memory-only operation"
    );
}

#[test]
fn stop_then_start_accepts_the_same_ports() {
    let port: u16 = 23456;
    // The session listens on the port until it is stopped.
    let mut listening = vec![port];
    assert!(ensure_listen_port_available(port, "test", &listening).is_err());

    let mut store = AppStore::default();
    store.settings.mixed_port = port;
    store.settings.api_port = 0;
    let mut runtime = Runtime::new();
    runtime.api = Some(ApiEndpoint {
        host: "127.0.0.1".into(),
        port,
        secret: "test".into(),
        session: 1,
    });
    let status = runtime
        .stop_proxy(&store, Ok(()), Ok(()), &idle(), 0)
        .unwrap();
    if !status.running {
        listening.clear();
    }
    assert!(
        ensure_listen_port_available(port, "test", &listening).is_ok(),
        "stop must allow an immediate restart"
    );
    assert!(runtime.api.is_none(), "stop must cancel Clash API clients");
}

// ---- live connections ----

fn conn(id: &str, up: u64) -> ConnectionInfo {
    ConnectionInfo {
        id: id.into(),
        destination: format!("{id}.example:443"),
        host: format!("{id}.example"),
        destination_ip: "1.2.3.4".into(),
        destination_port: "443".into(),
        network: "tcp".into(),
        conn_type: String::new(),
        source: "127.0.0.1:1".into(),
        process: String::new(),
        chains: vec![],
        node: String::new(),
        rule: String::new(),
        rule_payload: String::new(),
        upload: up,
        download: 0,
        start: String::new(),
    }
}

#[test]
fn live_batch_skips_order_ids_until_membership_changes() {
    let mut runtime = Runtime::new();
    let store = AppStore::default();
    runtime.ingest_connections(vec![conn("a", 1), conn("b", 1)], 1);

    let first = runtime.live_connection_batch(&store, None, None);
    assert!(first.full && first.order_ids.is_some());
    assert_eq!(first.order_ids.as_ref().map(Vec::len), Some(2));

    // Pure counter update — membership unchanged: order_ids omitted.
    runtime.ingest_connections(vec![conn("a", 5), conn("b", 5)], 2);
    let delta =
        runtime.live_connection_batch(&store, Some(first.revision), Some(first.order_revision));
    assert!(!delta.unchanged && !delta.full);
    assert!(
        delta.order_ids.is_none(),
        "no membership change → skip order_ids"
    );
    assert_eq!(delta.rows.len(), 2);

    // New id → membership changed → order_ids return and revision bumps.
    runtime.ingest_connections(vec![conn("a", 5), conn("b", 5), conn("c", 1)], 3);
    let delta2 =
        runtime.live_connection_batch(&store, Some(delta.revision), Some(delta.order_revision));
    assert!(delta2.order_ids.is_some());
    assert_eq!(delta2.order_ids.as_ref().map(Vec::len), Some(3));
    assert!(delta2.order_revision > delta.order_revision);

    // Removal also counts as a membership change.
    runtime.ingest_connections(vec![conn("a", 5), conn("b", 5)], 4);
    let delta3 = runtime.live_connection_batch(
        &store,
        Some(delta2.revision),
        Some(delta2.order_revision),
    );
    assert!(delta3.order_ids.is_some());
    assert_eq!(delta3.order_ids.as_ref().map(Vec::len), Some(2));
    assert!(!delta3.removed_ids.is_empty());
}

#[test]
fn batches_say_when_nothing_changed() {
    let mut runtime = Runtime::new();
    let store = AppStore::default();
    runtime.ingest_connections(vec![conn("a", 1)], 1);
    let first = runtime.live_connection_batch(&store, None, None);
    let again =
        runtime.live_connection_batch(&store, Some(first.revision), Some(first.order_revision));
    assert!(again.unchanged);
    assert!(again.rows.is_empty());
    // Of a later revision there is nothing to tell but the order.
    let ahead = runtime.live_connection_batch(&store, Some(first.revision + 9), None);
    assert!(!ahead.full && !ahead.unchanged);
    assert!(ahead.rows.is_empty());
    assert_eq!(ahead.order_ids.as_ref().map(Vec::len), Some(1));
}

#[test]
fn a_stop_tells_that_all_connections_are_gone() {
    let mut runtime = Runtime::new();
    let store = AppStore::default();
    runtime.ingest_connections(vec![conn("a", 1)], 1);
    let first = runtime.live_connection_batch(&store, None, None);
    runtime.stop_core(Ok(())).unwrap();
    let batch =
        runtime.live_connection_batch(&store, Some(first.revision), Some(first.order_revision));
    assert_eq!(batch.order_ids, Some(vec![]));
    assert!(batch.order_revision > first.order_revision);
    assert_eq!(batch.removed_ids, vec!["a".to_string()]);
    assert!(batch.rows.is_empty());
    assert!(!batch.unchanged && !batch.full);
    // With nothing open, another stop changes nothing.
    runtime.stop_core(Ok(())).unwrap();
    let again =
        runtime.live_connection_batch(&store, Some(batch.revision), Some(batch.order_revision));
    assert!(again.unchanged);
    assert_eq!(again.order_revision, batch.order_revision);
}

#[test]
fn requests_are_open_while_they_are_reported() {
    let mut runtime = Runtime::new();
    runtime.ingest_connections(vec![conn("a", 1), conn("b", 1)], 1_000);
    runtime.ingest_connections(vec![conn("b", 7)], 9_000);
    let a = runtime.journal.request_by_id.get("a").unwrap();
    assert!(a.closed);
    assert_eq!(a.closed_at, Some(9_000));
    let b = runtime.journal.request_by_id.get("b").unwrap();
    assert!(!b.closed);
    assert_eq!(b.closed_at, None);
    // One that comes back is open again.
    runtime.ingest_connections(vec![conn("a", 2)], 10_000);
    let a = runtime.journal.request_by_id.get("a").unwrap();
    assert!(!a.closed);
    assert_eq!(a.closed_at, None);
    assert_eq!(runtime.journal.request_by_id.get("b").unwrap().closed_at, Some(10_000));
}

#[test]
fn a_run_of_pages_lists_every_request_once() {
    let store = AppStore::default();
    let mut runtime = Runtime::new();
    let all: Vec<ConnectionInfo> = (0..7).map(|i| conn(&format!("c{i}"), 1)).collect();
    runtime.ingest_connections(all, 1);
    for left in (0..7u64).rev() {
        let open = (0..left).map(|i| conn(&format!("c{i}"), 1)).collect();
        runtime.ingest_connections(open, 10_000 + left as i64);
    }
    let mut seen: Vec<String> = Vec::new();
    let mut after = 0;
    loop {
        let page = runtime.request_history(&store, None, Some(3), Some(after));
        assert!(page.entries.len() <= 3);
        assert!(page.cursor >= after);
        if page.entries.is_empty() {
            assert_eq!(page.cursor, runtime.journal.journal_seq);
            break;
        }
        assert!(page.cursor > after);
        after = page.cursor;
        seen.extend(page.entries.iter().map(|e| e.id.clone()));
    }
    assert_eq!(seen, vec!["c6", "c5", "c4", "c3", "c2", "c1", "c0"]);
}

#[test]
fn closed_connections_become_history() {
    let mut runtime = Runtime::new();
    let store = AppStore::default();
    runtime.ingest_connections(vec![conn("a", 1), conn("b", 1)], 1_000);
    runtime.ingest_connections(vec![conn("b", 7)], 9_000);
    let page = runtime.request_history(&store, None, None, None);
    assert_eq!(page.entries.len(), 1);
    assert_eq!(page.entries[0].host, "a.example");
    runtime.clear_request_history();
    assert!(runtime
        .request_history(&store, None, None, None)
        .entries
        .is_empty());
}

#[test]
fn failing_node_is_noticed() {
    let mut runtime = Runtime::new();
    for i in 0..4u64 {
        let mut r = closed_record(&format!("r{i}"), i + 1, &format!("x{i}.example"));
        r.node = "tag".into();
        runtime.journal.request_by_id.insert(format!("r{i}"), r);
    }
    let stats: PassiveNodeStats = runtime.passive_node_stats("tag", 60_000, 2_000);
    assert_eq!(stats.total, 4);
    assert_eq!(stats.suspicious, 4);
    assert_eq!(stats.sus_dests, 4);
    assert_eq!(stats.consecutive_recent_sus, 4);
    assert!(stats.hard_degraded());
    assert!(stats.soft_degraded(4, 100));
    assert!(!stats.soft_degraded(5, 100));
    let other = runtime.passive_node_stats("other", 60_000, 2_000);
    assert_eq!(other.total, 0);
    assert!(!other.hard_degraded());
    // What closed long ago no longer counts.
    assert_eq!(runtime.passive_node_stats("tag", 10, 2_000).total, 0);
}

#[test]
fn counts_of_a_node_bound_each_other() {
    let mut runtime = Runtime::new();
    for (i, (host, down)) in [("x", 10), ("x", 10), ("y", 90_000), ("z", 10)].iter().enumerate() {
        let mut r = closed_record(&format!("r{i}"), i as u64 + 1, &format!("{host}.example"));
        r.node = "tag".into();
        r.download = *down;
        r.last_seen = 1_000 + i as i64;
        r.closed_at = Some(r.last_seen);
        runtime.journal.request_by_id.insert(format!("r{i}"), r);
    }
    let stats = runtime.passive_node_stats("tag", 60_000, 2_000);
    assert_eq!(stats.total, 4);
    assert_eq!(stats.suspicious, 3);
    assert_eq!(stats.dests, 3);
    assert_eq!(stats.sus_dests, 2);
    assert_eq!(stats.consecutive_recent_sus, 1);
}

#[test]
fn the_history_keeps_to_its_limit() {
    let mut runtime = Runtime::new();
    let many: Vec<ConnectionInfo> = (0..MAX_REQUEST_HISTORY + 5)
        .map(|i| conn(&format!("c{i}"), 1))
        .collect();
    runtime.ingest_connections(many, 1);
    assert_eq!(runtime.journal.request_by_id.len(), MAX_REQUEST_HISTORY);
    assert_eq!(runtime.journal.request_order.len(), MAX_REQUEST_HISTORY);
}

// ---- the process ----

#[test]
fn memory_is_read_anew_after_a_while() {
    let mut runtime = Runtime::new();
    assert!(matches!(runtime.core_mem_info(None, 0), MemoryPlan::NoProcess));
    assert!(matches!(runtime.core_mem_info(Some(7), 0), MemoryPlan::Read(7)));
    runtime.keep_mem_info(
        7,
        ProcessMemInfo {
            rss_bytes: Some(99),
            is_root: Some(false),
        },
        1_000,
    );
    assert!(matches!(
        runtime.core_mem_info(Some(7), 1_001),
        MemoryPlan::Kept(_)
    ));
    assert!(matches!(
        runtime.core_mem_info(Some(7), 1_000 + MEMORY_CACHE_MS),
        MemoryPlan::Read(7)
    ));
    assert!(matches!(
        runtime.core_mem_info(Some(8), 1_001),
        MemoryPlan::Read(8)
    ));
}

#[test]
fn waiting_ends_for_a_reason() {
    let step = |ev| wait_step(WaitFor::Controller, false, ev);
    assert_eq!(step(WaitEvent::Round(0)), WaitStep::Ask);
    assert_eq!(step(WaitEvent::Asked(true)), WaitStep::Ready);
    assert_eq!(step(WaitEvent::Asked(false)), WaitStep::Pause(200));
    assert_eq!(step(WaitEvent::Paused), WaitStep::Look);
    assert_eq!(step(WaitEvent::Looked(true)), WaitStep::Again);
    assert_eq!(step(WaitEvent::Looked(false)), WaitStep::Exited);
    assert_eq!(step(WaitEvent::Round(6000)), WaitStep::TimeOver);
    assert_eq!(
        wait_step(WaitFor::Controller, true, WaitEvent::Round(6000)),
        WaitStep::Ask
    );
    assert_eq!(
        wait_step(WaitFor::Process, false, WaitEvent::Looked(true)),
        WaitStep::Ready
    );
}

#[test]
fn free_utun_name_is_not_listed() {
    assert_eq!(pick_free_darwin_utun_name("lo0 en0 utun0"), "utun1");
    assert_eq!(pick_free_darwin_utun_name("utun0 utun2 utun1"), "utun3");
    assert_eq!(pick_free_darwin_utun_name(""), "utun0");
}

#[test]
fn log_hint_is_the_end_of_the_log() {
    assert_eq!(log_tail_hint(" \n"), "");
    assert_eq!(log_tail_hint("first\nla\0st"), "first\nlast");
    let long = "x".repeat(1300) + "end";
    assert_eq!(log_tail_hint(&long).len(), 1200);
    assert!(log_tail_hint(&long).ends_with("xend"));
    // A caught error goes before the log; bytes that are no text are replaced.
    assert_eq!(
        core_startup_log_hint(None, Some(&b"bad \xff byte".to_vec())),
        "bad \u{fffd} byte"
    );
}

#[test]
fn logs_come_from_the_core_that_wrote_them() {
    let runtime = Runtime::new();
    assert!(matches!(
        runtime.core_log_tail_for(CoreKind::Xray, CoreKind::Xray, true, CoreKind::SingBox),
        LogOwner::Sidecar
    ));
    assert!(matches!(
        runtime.core_log_tail_for(CoreKind::SingBox, CoreKind::Xray, true, CoreKind::SingBox),
        LogOwner::Main
    ));
}
