use satelite::core_kind::CoreKind;
use satelite::domain::node::{Protocol, ProtocolConfig, ProxyNode};
use satelite::domain::settings::{AppSettings, AutoSelectMode, CaptureMode, OutboundMode};
use satelite::domain::subscription::{Subscription, SubscriptionSource};
use satelite::error::AppError;
use satelite::journal::ConnectionInfo;
use satelite::runtime::{
    ApiEndpoint, ConnectionsSnapshot, CoreFacts, CoreState, ProxyStatus, Runtime,
};
use satelite::state::{
    apply_selected_node, id_of_tag, AppState, KernelSelectionPoll, Ownership, RestartStep,
    KERNEL_SELECTION_POLL_MS,
};
use satelite::storage::{AppStore, StoredNode};
use satelite::traffic::{LiveConnectionBatch, RequestBatch};
use satelite::view_cache::TrafficViewCache;
use satelite::watchdog::{watchdog_should_restart, Watchdog, WATCHDOG_MAX_ATTEMPTS};

fn facts(running: bool) -> CoreFacts {
    CoreFacts {
        running,
        state: if running {
            CoreState::Running
        } else {
            CoreState::Stopped
        },
        kind: CoreKind::SingBox,
        error: None,
        memory_bytes: None,
        elevated: false,
        sidecar_running: false,
        sidecar_state: CoreState::Stopped,
    }
}

fn state() -> AppState {
    AppState::load(AppStore::default(), &facts(false), 0)
}

fn trojan(id: &str) -> ProxyNode {
    ProxyNode {
        id: id.into(),
        name: id.into(),
        protocol: Protocol::Trojan,
        server: "example.com".into(),
        port: 443,
        tls: None,
        transport: None,
        udp: None,
        config: ProtocolConfig::Trojan {
            password: "x".into(),
        },
        source: None,
        latency_ms: None,
        latency_at: None,
    }
}

fn state_with_node() -> AppState {
    let mut s = state();
    s.store.subscriptions.push(Subscription {
        id: "sub".into(),
        name: "sub".into(),
        source: SubscriptionSource::Url {
            url: "https://example.com/sub".into(),
        },
        last_update: 1,
        node_count: 1,
        enabled: true,
        format: None,
        skipped_count: 0,
        via_proxy: false,
        auto_update: false,
        auto_update_interval_min: 1440,
        traffic: None,
        user_agent: None,
    });
    s.store.nodes.push(StoredNode {
        node: trojan("node-a"),
        subscription_id: "sub".into(),
    });
    s
}

fn endpoint(session: u64, secret: &str) -> ApiEndpoint {
    ApiEndpoint {
        host: "127.0.0.1".into(),
        port: 19090,
        secret: secret.into(),
        session,
    }
}

#[test]
fn suppresses_concurrent_and_recent_status_polls() {
    let mut poll = KernelSelectionPoll::default();
    let start: u64 = 5_000;
    assert!(poll.try_start(start));
    assert!(!poll.try_start(start + 10_000));

    poll.finish();
    assert!(!poll.try_start(start + 500));
    assert!(poll.try_start(start + KERNEL_SELECTION_POLL_MS));
}

#[test]
fn manual_node_selection_disables_every_auto_select_mode() {
    for mode in [AutoSelectMode::Smart, AutoSelectMode::Kernel] {
        let mut settings = AppSettings {
            auto_select: mode,
            smart_switch: true,
            ..AppSettings::default()
        };
        let was_kernel = apply_selected_node(&mut settings, "manual-node".into(), true);
        assert_eq!(settings.auto_select, AutoSelectMode::Off);
        assert!(!settings.smart_switch);
        assert_eq!(settings.current_node_id.as_deref(), Some("manual-node"));
        assert_eq!(was_kernel, mode.is_kernel());
    }
}

#[test]
fn kernel_auto_manual_select_skips_live_put_and_flips_mode() {
    let mut s = state_with_node();
    s.store.settings.auto_select = AutoSelectMode::Kernel;
    s.runtime.api = Some(endpoint(1, "test"));

    let plan = s
        .select_current_node_serialized("node-a", true, true)
        .expect("kernel-mode manual select must not touch the urltest group");
    assert!(plan.live.is_none());
    // Nothing else switches the core meanwhile.
    assert!(s.select_current_node_serialized("node-a", true, true).is_err());
    let was_kernel = s.current_node_selected("node-a", true, false);
    s.end_core_transition();
    assert!(was_kernel);
    assert_eq!(s.store.settings.auto_select, AutoSelectMode::Off);
    assert_eq!(s.store.settings.current_node_id.as_deref(), Some("node-a"));
}

#[test]
fn unknown_nodes_are_not_selected() {
    let mut s = state_with_node();
    assert!(matches!(
        s.select_current_node_serialized("node-b", true, false),
        Err(AppError::NotFound(_))
    ));
    let mut custom = state_with_node();
    custom.store.settings.runtime_source = "singbox:p".into();
    assert!(matches!(
        custom.select_current_node_serialized("node-a", true, false),
        Err(AppError::Core(_))
    ));
}

#[test]
fn status_uses_cache_instead_of_waiting_for_runtime_during_transition() {
    let mut s = state();
    s.core_transitioning = true;
    s.mark_cached_core_state(CoreState::Starting);
    let status: ProxyStatus = s.proxy_status(true, &facts(true), 0);
    assert_eq!(status.core_state, CoreState::Starting);
}

#[test]
fn traffic_views_use_cache_instead_of_waiting_during_transition() {
    let mut s = state();
    s.core_transitioning = true;
    let live = s.live_connection_views(true);
    let requests = s.request_views(true, None, Some(800), false, None);
    let failures = s.request_views(true, None, Some(800), true, None);
    assert!(live.is_empty());
    assert!(requests.entries.is_empty());
    assert!(failures.entries.is_empty());
}

#[test]
fn journal_never_waits_for_runtime_and_rejects_stale_sessions() {
    let mut s = state();
    let current = endpoint(1, "current");
    s.runtime.api = Some(endpoint(1, "current"));
    assert!(s.try_clash_api_clone(true).is_none());
    assert!(s.try_clash_api_clone(false).is_some());

    let stale = endpoint(2, "stale");
    let snapshot = |upload_total| ConnectionsSnapshot {
        upload_total,
        download_total: 0,
        connections: Vec::new(),
    };
    assert!(!s.try_apply_connection_snapshot(false, false, &stale, true, snapshot(3), None, 0, 0));
    assert!(s.try_apply_connection_snapshot(false, false, &current, true, snapshot(7), None, 0, 0));
    assert_eq!(s.proxy_status(false, &facts(false), 0).upload_total, 7);
}

#[test]
fn core_running_check_never_waits_for_runtime_lock() {
    let mut s = state();
    s.status_cache.running = true;
    s.status_cache.core_state = CoreState::Running;
    let cached_running = s.is_core_running(true, &facts(false));
    s.core_transitioning = true;
    let transition_running = s.is_core_running(true, &facts(false));
    assert!(cached_running, "lock contention must use cached state");
    assert!(!transition_running, "transition check must not wait");
}

#[test]
fn one_switch_at_a_time() {
    let mut s = state();
    assert!(s.begin_core_transition().is_ok());
    assert!(s.is_core_transitioning());
    assert!(matches!(s.begin_core_transition(), Err(AppError::Core(_))));
    assert!(s.clear_request_history_nonblocking(true).is_err());
    s.end_core_transition();
    assert!(s.begin_core_transition().is_ok());
}

#[test]
fn a_start_marks_the_session_and_nothing_else() {
    let mut state = AppState::load(AppStore::default(), &facts(true), 7);
    assert_eq!(state.runtime.core_started_at, Some(7));
    assert_eq!(state.runtime.journal.journal_seq, 0);
    assert!(state.runtime.proxy_snapshot.is_none());
    state.set_pending_import_urls(vec!["https://example.com".into()]);
    state.allow_exit();
    assert!(state.start_proxy(true).unwrap());
    assert!(state.is_core_transitioning());
    assert_eq!(state.status_cache.core_state, CoreState::Starting);
    assert_eq!(state.store.settings.capture_mode, CaptureMode::System);
    assert!(state.is_ui_visible());
    assert!(state.is_exit_allowed());
    assert!(state.peek_pending_import_urls().is_some());
    assert_eq!(state.runtime.core_started_at, Some(7));
    assert!(state.start_proxy(true).is_err());
}

#[test]
fn capture_modes_exclude_each_other() {
    let mut s = state();
    let plan = s.set_tun_enabled(true, true).unwrap();
    assert!(plan.restart);
    assert!(s.set_system_proxy(true, true).is_err());
    s.capture_mode_set(&plan);
    s.end_core_transition();
    assert_eq!(s.store.settings.capture_mode, CaptureMode::Tun);
    assert!(s.store.settings.tun_enabled);
    let plan = s.set_system_proxy(true, true).unwrap();
    assert!(plan.system_proxy);
    s.capture_mode_set(&plan);
    s.end_core_transition();
    assert_eq!(s.store.settings.capture_mode, CaptureMode::System);
    assert!(!s.store.settings.tun_enabled);
    assert!(s.set_capture_mode("sideways", true).is_err());
}

#[test]
fn outbound_mode_restarts_a_running_core() {
    let mut s = state();
    s.store.settings.outbound_mode = OutboundMode::Rule;
    assert!(matches!(
        s.set_outbound_mode(OutboundMode::Global, true),
        Ok(RestartStep::SaveAndRestart)
    ));
    assert_eq!(s.cached_core_state(), CoreState::Starting);
    assert!(s.set_outbound_mode(OutboundMode::Direct, false).is_err());
    s.end_core_transition();
    assert!(matches!(
        s.set_outbound_mode(OutboundMode::Direct, false),
        Ok(RestartStep::Save)
    ));
    assert_eq!(s.store.settings.outbound_mode, OutboundMode::Direct);
    let mut status = s.cached_status();
    status.system_proxy = true;
    let port = status.mixed_port;
    assert!(matches!(s.proxy_ownership(&status), Ownership::Record(p) if p == port));
}

#[test]
fn tags_lead_back_to_nodes() {
    let s = state_with_node();
    assert_eq!(id_of_tag(&s.store, "node-node-a").as_deref(), Some("node-a"));
    assert_eq!(id_of_tag(&s.store, "proxy"), None);
}

#[test]
fn pending_addresses_wait_for_the_form() {
    let mut s = state();
    assert_eq!(s.peek_pending_import_urls(), None);
    s.set_pending_import_urls(vec!["https://a".into()]);
    assert_eq!(
        s.peek_pending_import_urls(),
        Some(vec!["https://a".to_string()])
    );
    s.clear_pending_import_urls();
    assert_eq!(s.peek_pending_import_urls(), None);
}

// ---- the watchdog ----

#[test]
fn restarts_only_on_error_edge() {
    // running → error, no transition, budget left → restart.
    assert!(watchdog_should_restart(
        true,
        false,
        false,
        CoreState::Error,
        0
    ));
    // Deliberate stop lands on "stopped" → never auto-restart.
    assert!(!watchdog_should_restart(
        true,
        false,
        false,
        CoreState::Stopped,
        0
    ));
    // No edge (was already down) or mid-transition → skip.
    assert!(!watchdog_should_restart(
        false,
        false,
        false,
        CoreState::Error,
        0
    ));
    assert!(!watchdog_should_restart(
        true,
        false,
        true,
        CoreState::Error,
        0
    ));
    // Budget exhausted inside the window → skip.
    assert!(!watchdog_should_restart(
        true,
        false,
        false,
        CoreState::Error,
        WATCHDOG_MAX_ATTEMPTS
    ));
    assert!(!watchdog_should_restart(
        true,
        false,
        false,
        CoreState::Error,
        WATCHDOG_MAX_ATTEMPTS + 2
    ));
    // Still running → nothing to do.
    assert!(!watchdog_should_restart(
        true,
        true,
        false,
        CoreState::Running,
        0
    ));
}

#[test]
fn attempts_to_revive_a_core_are_bounded() {
    let mut dog = Watchdog::new();
    let mut revived = 0;
    for round in 0..10u64 {
        dog.look(round * 2, true, false, CoreState::Running, None);
        if dog
            .look(round * 2 + 1, false, false, CoreState::Error, None)
            .revive_core
        {
            revived += 1;
        }
    }
    assert_eq!(revived, WATCHDOG_MAX_ATTEMPTS);
}

// ---- the cached views ----

fn conn(id: &str) -> ConnectionInfo {
    ConnectionInfo {
        id: id.into(),
        destination: format!("{id}.example:443"),
        host: format!("{id}.example"),
        destination_ip: "1.2.3.4".into(),
        destination_port: "443".into(),
        network: "tcp".into(),
        conn_type: String::new(),
        source: "127.0.0.1:1".into(),
        process: String::new(),
        chains: vec![],
        node: String::new(),
        rule: String::new(),
        rule_payload: String::new(),
        upload: 1,
        download: 0,
        start: String::new(),
    }
}

#[test]
fn merged_batches_keep_the_cache_in_step() {
    let store = AppStore::default();
    let mut runtime = Runtime::new();
    let mut cache = TrafficViewCache::default();
    runtime.ingest_connections(vec![conn("a"), conn("b")], 1);
    let first: LiveConnectionBatch = runtime.live_connection_batch(&store, None, None);
    cache.merge(&first);
    runtime.ingest_connections(vec![conn("b"), conn("c")], 2);
    let second = runtime.live_connection_batch(
        &store,
        Some(first.revision),
        Some(first.order_revision),
    );
    assert!(!second.full);
    cache.merge(&second);
    let shown = cache.batch(None);
    let ids: Vec<String> = shown.rows.iter().map(|r| r.id.clone()).collect();
    let live: Vec<String> = runtime
        .live_connections(&store)
        .iter()
        .map(|r| r.id.clone())
        .collect();
    assert_eq!(ids, live);
    assert_eq!(shown.revision, second.revision);
    assert!(cache.batch(Some(shown.revision)).unchanged);
}

#[test]
fn cached_requests_answer_the_same_query() {
    let store = AppStore::default();
    let mut runtime = Runtime::new();
    runtime.ingest_connections(vec![conn("a")], 1);
    runtime.ingest_connections(vec![], 9_000);
    let page: RequestBatch = runtime.request_history(&store, Some("a"), Some(10), None);
    let mut cache = TrafficViewCache::default();
    cache.keep_requests("a", Some(10), false, &page);
    assert_eq!(cache.cached_views("a", Some(10), false, None).entries.len(), 1);
    assert!(cache.cached_views("b", Some(10), false, None).entries.is_empty());
    cache.clear_requests();
    assert!(cache.cached_views("a", Some(10), false, None).entries.is_empty());
}

#[test]
fn the_store_is_read_and_changed_through_the_state() {
    let mut s = state();
    let port = s.with_store(|store| Ok(store.settings.mixed_port)).unwrap();
    s.with_store_mut(|store| {
        store.settings.mixed_port = port + 1;
        Ok(())
    })
    .unwrap();
    assert_eq!(s.store.settings.mixed_port, port + 1);
    let refused: Result<(), AppError> =
        s.with_store_mut(|_| Err(AppError::Config("no".to_string())));
    assert_eq!(refused, Err(AppError::Config("no".to_string())));
    s.lock_store().settings.mixed_port = port;
    s.lock_runtime().system_proxy_on = true;
    assert_eq!(s.store.settings.mixed_port, port);
    assert!(s.runtime.system_proxy_on);
}
