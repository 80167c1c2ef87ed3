use satelite::core_kind::CoreKind;
use satelite::digest::Stamp;
use satelite::domain::dns::{read_system_hosts_entries, DnsSettings, BUILTIN_DNS_SET_ID};
use satelite::domain::node::{
    NodeSummary, Protocol, ProtocolConfig, ProxyNode, Transport,
};
use satelite::domain::rule::{
    builtin_remote_ip_only, sanitize_rules, Rule, RuleSet, RuleSetDnsStrategy, RuleTarget, RuleType,
};
use satelite::domain::settings::{
    AppSettings, AutoSelectMode, ExtraInbound, ProtocolCoreItem, RuntimeSource,
};
use satelite::domain::subscription::{
    mask_share_uri, Subscription, SubscriptionSource, SubscriptionTraffic,
};
use satelite::error::AppError;
use satelite::runtime::{ApiEndpoint, CoreFacts, CoreState, Runtime, SystemProxySnapshot};
use satelite::start::{
    build_options, check_profile, check_start, elevation_wanted, keep_profile_secret,
    pick_start_node, profile_endpoint, resolve_pending_elevation, sidecar_failure, ProfileInsight,
    StartSupplies,
};
use satelite::start_plan::StartPlan;
use satelite::state::{AppState, RestartStep};
use satelite::storage::{AppStore, StoredNode};

fn node(id: &str, protocol: Protocol) -> ProxyNode {
    ProxyNode {
        id: id.into(),
        name: id.into(),
        protocol,
        server: "example.com".into(),
        port: 443,
        tls: None,
        transport: None,
        udp: None,
        config: ProtocolConfig::Trojan {
            password: "x".into(),
        },
        source: None,
        latency_ms: None,
        latency_at: None,
    }
}

fn subscription(id: &str, source: SubscriptionSource) -> Subscription {
    Subscription {
        id: id.into(),
        name: format!("name of {id}"),
        source,
        last_update: 1_000,
        node_count: 0,
        enabled: true,
        format: None,
        skipped_count: 0,
        via_proxy: false,
        auto_update: true,
        auto_update_interval_min: 10,
        traffic: None,
        user_agent: None,
    }
}

fn supplies() -> StartSupplies {
    StartSupplies {
        core_found: true,
        xray_found: true,
        busy: vec![],
    }
}

fn facts(running: bool) -> CoreFacts {
    CoreFacts {
        running,
        state: if running {
            CoreState::Running
        } else {
            CoreState::Stopped
        },
        kind: CoreKind::SingBox,
        error: None,
        memory_bytes: None,
        elevated: false,
        sidecar_running: false,
        sidecar_state: CoreState::Stopped,
    }
}

fn text_of(e: AppError) -> String {
    match e {
        AppError::Core(s) | AppError::Config(s) => s,
        other => panic!("{other:?}"),
    }
}

// ---- the start of a session ----

#[test]
fn a_start_needs_nodes_ports_and_a_core() {
    let mut settings = AppSettings::default();
    settings.mixed_port = 2080;
    settings.api_port = 9090;
    settings.extra_inbounds = vec![ExtraInbound {
        id: "x".into(),
        kind: "mixed".into(),
        port: 3000,
        allow_lan: true,
    }];
    let nodes = vec![node("a", Protocol::Trojan)];
    let check = |kind, nodes: &Vec<ProxyNode>, sidecar, s: &StartSupplies| {
        check_start(kind, &settings, nodes, sidecar, s).map_err(text_of)
    };
    assert_eq!(check(CoreKind::SingBox, &nodes, false, &supplies()), Ok(()));
    assert_eq!(
        check(CoreKind::SingBox, &vec![], false, &supplies()),
        Err("no nodes; import a subscription first".to_string())
    );
    let no_xray = StartSupplies {
        xray_found: false,
        ..supplies()
    };
    assert!(check(CoreKind::SingBox, &nodes, true, &no_xray).is_err());
    assert!(check(CoreKind::SingBox, &nodes, false, &no_xray).is_ok());
    // Tor is served by neither of the other cores.
    let tor = vec![node("t", Protocol::Tor)];
    assert!(check(CoreKind::Xray, &tor, false, &supplies())
        .unwrap_err()
        .contains("Xray"));
    assert!(check(CoreKind::Mihomo, &tor, false, &supplies())
        .unwrap_err()
        .contains("mihomo"));
    let busy = |port: u16| StartSupplies {
        busy: vec![port],
        ..supplies()
    };
    assert_eq!(
        check(CoreKind::SingBox, &nodes, false, &busy(2080)),
        Err("Mixed 端口 127.0.0.1:2080 已被其他程序占用，请关闭冲突程序或修改端口".to_string())
    );
    assert_eq!(
        check(CoreKind::Xray, &nodes, false, &busy(9090)),
        Err("Metrics 端口 127.0.0.1:9090 已被其他程序占用，请关闭冲突程序或修改端口".to_string())
    );
    assert_eq!(
        check(CoreKind::Mihomo, &nodes, false, &busy(3000)),
        Err("Inbound 端口 0.0.0.0:3000 已被其他程序占用，请关闭冲突程序或修改端口".to_string())
    );
    let no_core = StartSupplies {
        core_found: false,
        ..supplies()
    };
    assert_eq!(
        check(CoreKind::SingBox, &nodes, false, &no_core),
        Err("sing-box binary not found".to_string())
    );
}

#[test]
fn a_session_starts_as_the_settings_say() {
    let nodes = vec![node("a", Protocol::Trojan)];
    let mut runtime = Runtime::new();
    let mut store = AppStore::default();
    store.settings.api_secret_enabled = true;
    store.settings.tun_enabled = true;
    let mut start = |store: &mut AppStore, running: bool, secret: &str| {
        runtime.start_proxy(
            store,
            &nodes,
            &facts(running),
            &supplies(),
            secret.into(),
            9,
            0,
        )
    };
    match start(&mut store, false, "first").unwrap() {
        StartPlan::Generated(g) => {
            assert_eq!(g.kind, CoreKind::SingBox);
            assert_eq!(g.secret, "first");
            assert!(g.elevated);
            assert!(g.sidecar.is_none());
        }
        other => panic!("{other:?}"),
    }
    // The secret stays.
    match start(&mut store, false, "second").unwrap() {
        StartPlan::Generated(g) => assert_eq!(g.secret, "first"),
        other => panic!("{other:?}"),
    }
    assert!(matches!(
        start(&mut store, true, "third").unwrap(),
        StartPlan::Running(_)
    ));
    store.settings.core_type = "xray".into();
    match start(&mut store, false, "fourth").unwrap() {
        StartPlan::Generated(g) => {
            assert_eq!(g.kind, CoreKind::Xray);
            assert_eq!(g.secret, "");
        }
        other => panic!("{other:?}"),
    }
    store.settings.runtime_source = "singbox:p".into();
    assert_eq!(
        text_of(start(&mut store, false, "fifth").unwrap_err()),
        "selected sing-box profile was not found"
    );
    store.subscriptions.push(subscription(
        "p",
        SubscriptionSource::Singbox {
            content: "{}".into(),
        },
    ));
    match start(&mut store, false, "sixth").unwrap() {
        StartPlan::Custom { id, content } => {
            assert_eq!(id, "p");
            assert_eq!(content, "{}");
        }
        other => panic!("{other:?}"),
    }
}

#[test]
fn a_start_hands_nodes_to_the_second_core() {
    let nodes = vec![node("a", Protocol::Trojan)];
    let mut runtime = Runtime::new();
    let mut store = AppStore::default();
    store.settings.multi_core_enabled = true;
    store.settings.sidecar_port = 20890;
    store.settings.protocol_cores = vec![ProtocolCoreItem {
        protocol: "trojan".into(),
        core: "xray".into(),
    }];
    match runtime
        .start_proxy(
            &mut store,
            &nodes,
            &facts(false),
            &supplies(),
            String::new(),
            9,
            0,
        )
        .unwrap()
    {
        StartPlan::Generated(g) => {
            let plan = g.sidecar.unwrap();
            assert_eq!(plan.ports, vec![("a".into(), 20890)]);
            runtime.sidecar_started(&plan);
            assert_eq!(runtime.sidecar_ports, vec![20890]);
        }
        other => panic!("{other:?}"),
    }
    runtime.start_undone();
    assert!(runtime.api.is_none());
    assert_eq!(
        sidecar_failure("no port", ""),
        AppError::Core("Xray 副进程启动失败：no port".into())
    );
    assert_eq!(
        sidecar_failure("no port", "log"),
        AppError::Core("Xray 副进程启动失败：no port\nlog".into())
    );
}

#[test]
fn the_start_node_is_one_that_the_core_takes() {
    let mut store = AppStore::default();
    let nodes = vec![node("tor", Protocol::Tor), node("ok", Protocol::Trojan)];
    pick_start_node(&mut store, CoreKind::SingBox, &nodes);
    assert_eq!(store.settings.current_node_id.as_deref(), Some("tor"));
    pick_start_node(&mut store, CoreKind::Mihomo, &nodes);
    assert_eq!(store.settings.current_node_id.as_deref(), Some("ok"));
    // A node that is not enabled now stays selected.
    store.settings.current_node_id = Some("elsewhere".into());
    pick_start_node(&mut store, CoreKind::Xray, &nodes);
    assert_eq!(store.settings.current_node_id.as_deref(), Some("elsewhere"));
}

#[test]
fn profiles_bring_their_own_controller() {
    let mut profile = ProfileInsight {
        inbound_port: Some(7000),
        clash_api_host: None,
        clash_api_port: Some(7001),
        clash_api_secret: Some("s".into()),
        has_clash_api: true,
        has_tun: true,
    };
    assert!(check_profile(&profile, &supplies()).is_ok());
    for port in [7000, 7001] {
        let busy = StartSupplies {
            busy: vec![port],
            ..supplies()
        };
        assert!(check_profile(&profile, &busy).is_err());
    }
    let api = profile_endpoint(&profile, 4).unwrap();
    assert_eq!((api.host.as_str(), api.port), ("127.0.0.1", 7001));
    assert_eq!(api.secret, "s");
    let mut store = AppStore::default();
    keep_profile_secret(&mut store, "s");
    assert_eq!(store.settings.clash_api_secret.as_deref(), Some("s"));
    keep_profile_secret(&mut store, "");
    assert_eq!(store.settings.clash_api_secret, None);
    profile.has_clash_api = false;
    assert!(profile_endpoint(&profile, 4).is_none());
    let mut runtime = Runtime::new();
    runtime.profile_launched(&profile, "c".into(), "b".into());
    assert_eq!(runtime.custom_inbound_port, Some(7000));
    assert!(runtime.custom_has_tun);
}

#[test]
fn a_launch_forgets_a_controller_that_is_gone() {
    let endpoint = || {
        Some(ApiEndpoint {
            host: "127.0.0.1".into(),
            port: 9,
            secret: "s".into(),
            session: 1,
        })
    };
    let mut runtime = Runtime::new();
    runtime.api = endpoint();
    runtime.launched(CoreKind::SingBox, "c".into(), "b".into());
    assert!(runtime.api.is_some());
    runtime.launched(CoreKind::Xray, "c2".into(), "b2".into());
    assert!(runtime.api.is_none());
    assert_eq!(runtime.last_config_path.as_deref(), Some("c2"));
    assert_eq!(runtime.last_binary_path.as_deref(), Some("b2"));
    let mut profile = ProfileInsight {
        inbound_port: Some(7000),
        clash_api_host: None,
        clash_api_port: Some(7001),
        clash_api_secret: Some("s".into()),
        has_clash_api: true,
        has_tun: false,
    };
    runtime.api = endpoint();
    runtime.profile_launched(&profile, "c".into(), "b".into());
    assert!(runtime.api.is_some());
    profile.has_clash_api = false;
    runtime.profile_launched(&profile, "c".into(), "b".into());
    assert!(runtime.api.is_none());
}

#[test]
fn rights_are_asked_for_where_they_lack() {
    let mut store = AppStore::default();
    assert_eq!(elevation_wanted(&store, true), None);
    store.settings.tun_enabled = true;
    assert_eq!(elevation_wanted(&store, false), Some(CoreKind::SingBox));
    let ask = |rights| resolve_pending_elevation(&store, false, Some("core".into()), rights);
    assert_eq!(ask(false), Some("core".to_string()));
    assert_eq!(ask(true), None);
}

#[test]
fn configurations_are_made_of_enabled_sets() {
    let mut store = AppStore::default();
    let stamp = |n| Stamp { nanos: n, pid: 1 };
    store.rule_sets = vec![
        RuleSet::new_user("on", vec![], stamp(1)),
        RuleSet::new_user("off", vec![], stamp(2)),
    ];
    store.rule_sets[0].enabled = true;
    store.rule_sets[1].enabled = false;
    let options = build_options(&store, "secret".into());
    assert_eq!(options.rule_sets.len(), 1);
    assert_eq!(options.rule_sets[0].name, "on");
    assert_eq!(options.api_secret, "secret");
}

#[test]
fn rules_of_enabled_sets_come_in_their_order() {
    let mut store = AppStore::default();
    let rule = |payload: &str, ord| {
        Rule::new(RuleType::Domain, payload.into(), RuleTarget::Proxy, ord)
    };
    let stamp = |n| Stamp { nanos: n, pid: 1 };
    let mut off = rule("off", 0);
    off.enabled = false;
    store.rule_sets = vec![
        RuleSet::new_user("one", vec![rule("b", 2), rule("a", 1), off], stamp(1)),
        RuleSet::new_user("two", vec![rule("c", 2), rule("first", 0)], stamp(2)),
        RuleSet::new_user("three", vec![rule("hidden", 0)], stamp(3)),
    ];
    store.rule_sets[0].enabled = true;
    store.rule_sets[1].enabled = true;
    store.rule_sets[2].enabled = false;
    let sorted: Vec<&str> = store
        .enabled_rules_sorted()
        .iter()
        .map(|r| r.payload.as_str())
        .collect();
    assert_eq!(sorted, vec!["first", "a", "b", "c"]);
    let options = build_options(&store, String::new());
    let taken: Vec<&str> = options.rules.iter().map(|r| r.payload.as_str()).collect();
    assert_eq!(taken, sorted);
}

// ---- the system's proxy ----

#[test]
fn the_system_proxy_is_set_while_the_core_runs() {
    let store = AppStore::default();
    let mut runtime = Runtime::new();
    let snapshot = || {
        Ok(SystemProxySnapshot {
            detail: "before".into(),
        })
    };
    let status = runtime
        .set_system_proxy(&store, true, snapshot(), Ok(()), &facts(true), 0)
        .unwrap();
    assert!(status.system_proxy);
    assert!(runtime.proxy_snapshot.is_some());
    let failed = runtime.set_system_proxy(
        &store,
        false,
        snapshot(),
        Err(AppError::Core("no".into())),
        &facts(true),
        0,
    );
    assert!(failed.is_err());
    assert!(runtime.system_proxy_on);
    let status = runtime
        .set_system_proxy(&store, false, snapshot(), Ok(()), &facts(true), 0)
        .unwrap();
    assert!(!status.system_proxy);
}

#[test]
fn a_new_secret_needs_a_generated_session() {
    let mut state = AppState::load(AppStore::default(), &facts(false), 0);
    assert!(state.regenerate_api_secret("n".into(), true).is_err());
    state.store.settings.api_secret_enabled = true;
    assert!(matches!(
        state.regenerate_api_secret("n".into(), true),
        Ok(RestartStep::SaveAndRestart)
    ));
    assert_eq!(state.store.settings.clash_api_secret.as_deref(), Some("n"));
    assert!(state.regenerate_api_secret("m".into(), true).is_err());
    state.end_core_transition();
    state.store.settings.runtime_source = "singbox:p".into();
    assert!(state.regenerate_api_secret("m".into(), true).is_err());
    assert!(matches!(state.restart_if_running(true), Ok(false)));
}

#[test]
fn latencies_are_noted_by_id() {
    let mut store = AppStore::default();
    store.nodes = vec![
        StoredNode {
            node: node("a", Protocol::Trojan),
            subscription_id: "s".into(),
        },
        StoredNode {
            node: node("b", Protocol::Trojan),
            subscription_id: "s".into(),
        },
    ];
    let result = |id: &str, ms| satelite::services::latency::LatencyResult {
        id: id.into(),
        name: String::new(),
        latency_ms: ms,
        error: None,
        tested_at: 77,
        method: "tcp".into(),
    };
    store.note_latencies(&vec![
        result("b", Some(5)),
        result("", Some(6)),
        result("unknown", Some(7)),
    ]);
    assert_eq!(store.nodes[0].node.latency_ms, None);
    assert_eq!(store.nodes[1].node.latency_ms, Some(5));
    assert_eq!(store.nodes[1].node.latency_at, Some(77));
    // The nodes of a subscription that is not there are not enabled.
    assert!(store.enabled_nodes().is_empty());
    store.subscriptions.push(subscription(
        "s",
        SubscriptionSource::Node { uri: None },
    ));
    assert_eq!(store.enabled_nodes().len(), 2);
}

// ---- what is shown ----

#[test]
fn subscriptions_are_due_after_their_interval() {
    let mut s = subscription("s", SubscriptionSource::Node { uri: None });
    assert!(!s.is_auto_update_due(1_599));
    assert!(s.is_auto_update_due(1_600));
    s.auto_update_interval_min = 0;
    assert!(s.is_auto_update_due(1_060));
    s.auto_update = false;
    assert!(!s.is_auto_update_due(99_999));
}

#[test]
fn lists_hide_what_is_secret() {
    let url = subscription(
        "u",
        SubscriptionSource::Url {
            url: "https://user:pw@example.com/a-very-long-path-with-a-token?key=1".into(),
        },
    );
    let view = url.try_to_view().unwrap();
    assert_eq!(view.source_kind, "url");
    assert_eq!(view.source_display, "https://example.com/a-very-long-path-with-a…?…");
    let file = subscription(
        "f",
        SubscriptionSource::File {
            path: "/home/me/nodes.yaml".into(),
        },
    );
    assert_eq!(file.try_to_view().unwrap().source_display, "nodes.yaml");
    let shown = |path: &str| {
        subscription("f", SubscriptionSource::File { path: path.into() })
            .try_to_view()
            .unwrap()
            .source_display
    };
    assert_eq!(shown("nodes.yaml"), "nodes.yaml");
    assert_eq!(shown("home/nodes.yaml/"), "nodes.yaml");
    // A path without a name is shown whole.
    assert_eq!(shown("home/.."), "home/..");
    assert_eq!(shown(""), "");
    let text = subscription(
        "t",
        SubscriptionSource::Text {
            content: "\n  first\nsecond".into(),
        },
    );
    assert_eq!(text.try_to_view().unwrap().source_display, "first");
    assert!(!mask_share_uri("vless://secret@example.com:443?x=1#n").contains("secret"));
    let detail = text.to_detail();
    assert_eq!(detail.content.as_deref(), Some("\n  first\nsecond"));
    assert!(detail.url.is_none());
    assert!(text.source.contributes_nodes());
    assert!(url.source.is_remote());
    assert_eq!(url.source.duplicate(), url.source);
    // A long text that is no URL is not cut within a character.
    let odd = subscription(
        "o",
        SubscriptionSource::Url {
            url: "é".repeat(23) + "x" + &"é".repeat(5),
        },
    );
    assert!(odd.try_to_view().is_none());
}

#[test]
fn quotas_know_what_is_left() {
    let t = SubscriptionTraffic {
        upload: Some(3),
        download: Some(4),
        total: Some(5),
        ..SubscriptionTraffic::default()
    };
    assert_eq!(t.remaining(), Some(0));
    assert!(!t.is_empty());
    assert_eq!(SubscriptionTraffic::default().remaining(), None);
    assert!(SubscriptionTraffic::default().is_empty());
}

#[test]
fn nodes_are_summed_up() {
    let mut n = node("a", Protocol::Snell);
    n.config = ProtocolConfig::Snell {
        psk: "p".into(),
        version: 4,
        userkey: None,
        reuse: None,
        obfs_mode: None,
        obfs_host: None,
        mode: None,
    };
    n.transport = Some(Transport::Grpc { service_name: None });
    let s = NodeSummary::from_node(&n);
    assert_eq!(s.protocol, "snell");
    assert_eq!(s.transport.as_deref(), Some("grpc"));
    assert_eq!(s.extra.as_deref(), Some("v4"));
    assert!(!s.tls);
    assert_eq!(Protocol::from_singbox_type("wireguard"), Some(Protocol::WireGuard));
    assert_eq!(Protocol::from_singbox_type("carrier-pigeon"), None);
    let by_name = node("x", Protocol::Trojan).with_computed_id();
    assert_eq!(
        by_name.id,
        ProxyNode::compute_id("x", "example.com", 443, Protocol::Trojan)
    );
}

#[test]
fn settings_are_brought_up_to_date() {
    let mut s = AppSettings {
        smart_switch: true,
        ..AppSettings::default()
    };
    s.migrate_auto_select();
    assert_eq!(s.auto_select, AutoSelectMode::Smart);
    s.auto_select = AutoSelectMode::Kernel;
    s.migrate_auto_select();
    assert!(!s.smart_switch);
    s.route_final = "BLOCK".into();
    assert_eq!(s.normalized_route_final(), "block");
    s.route_final = "anything".into();
    assert_eq!(s.normalized_route_final(), "proxy");
    assert_eq!(
        RuntimeSource::parse("singbox:abc").singbox_id(),
        Some("abc")
    );
    assert_eq!(RuntimeSource::Generated.singbox_id(), None);
}

#[test]
fn factory_dns_rules_can_be_restored() {
    let mut dns = DnsSettings::default();
    dns.ensure_rule_sets(None);
    let at = |dns: &DnsSettings| {
        dns.rule_sets
            .iter()
            .position(|s| s.id == BUILTIN_DNS_SET_ID)
            .unwrap()
    };
    let i = at(&dns);
    dns.rule_sets[i].enabled = true;
    assert!(dns.has_enabled_dns_sets());
    dns.rule_sets[i].dns_rules.clear();
    assert!(!dns.has_enabled_dns_sets());
    dns.reset_builtin_dns_set(Some("home.arpa\n"));
    assert!(dns.has_enabled_dns_sets());
    let i = at(&dns);
    assert_eq!(dns.rule_sets[i].dns_rules.len(), 1);
    assert_eq!(dns.rule_sets[i].dns_rules[0].payload, "home.arpa");
    dns.reset_builtin_dns_set(None);
    let i = at(&dns);
    assert_eq!(dns.rule_sets[i].dns_rules[0].payload, "local");
    let entries = read_system_hosts_entries(&vec![("a".into(), "1.2.3.4".into())]);
    assert_eq!(entries[0].id, "sys-0");
    assert_eq!(entries[0].addr, "1.2.3.4");
}

#[test]
fn unsupported_rules_are_dropped() {
    let rule = |t| Rule::new(t, "x".into(), RuleTarget::Proxy, 1);
    let kept = sanitize_rules(&[rule(RuleType::Geoip), rule(RuleType::Domain)]);
    assert_eq!(kept.len(), 1);
    assert_eq!(kept[0].rule_type, RuleType::Domain);
    assert_eq!(RuleSetDnsStrategy::Domestic.server_tag(), "dns-cn");
    assert_eq!(builtin_remote_ip_only("mine"), None);
}
