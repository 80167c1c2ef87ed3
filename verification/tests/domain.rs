use satelite::digest::Stamp;
use satelite::domain::chain::{ChainHop, NodePool, PoolMode, ProxyChain};
use satelite::domain::dns::{
    default_rules, parse_dns_action, parse_dns_whitelist_text, parse_hosts_text, DnsAction, DnsMode,
    DnsRule, DnsRuleSet, DnsRuleSetKind, DnsSettings, DomainMatcher, HostsConfig, HostsEntry,
    BUILTIN_DNS_SET_ID, SYSTEM_HOSTS_SET_ID,
};
use satelite::domain::node::{tag_prefix, Protocol, ProtocolConfig, ProxyNode};
use satelite::domain::rule::{
    build_builtin_remote_set, builtin_remote_rule_sets, builtin_remote_spec,
    default_update_interval, format_clash_rules_list, is_builtin_remote_id, is_factory_set_id,
    keyword_list_overlap, name_matches_keywords, normalize_remote_update_interval,
    remote_rule_display_count, remote_update_interval_secs, rules_contain_ip_cidr,
    RemoteRuleSetConfig, Rule, RuleSet, RuleSetDnsStrategy, RuleSetOwnership, RuleSetStrategy,
    RuleTarget, RuleType, BUILTIN_SET_ID, LEGACY_BUILTIN_REMOTE_IDS,
};
use satelite::domain::settings::{
    AppSettings, AutoSelectMode, CaptureMode, OutboundMode, RuntimeSource, TrayIconStyle,
};
use satelite::domain::subscription::{
    source_from_wire, source_to_wire, SourceWire, SubscriptionSource, SubscriptionTraffic,
};
use satelite::json::{parse_bytes, Json};

fn stamp(nanos: u128) -> Stamp {
    Stamp { nanos, pid: 7 }
}

fn json(text: &str) -> Json {
    parse_bytes(text.as_bytes()).unwrap()
}

// ---- chains and pools ----

#[test]
fn pool_ids_are_disjoint_and_stable_prefix() {
    let pool = NodePool::new(
        "香港节点",
        PoolMode::Keyword {
            include_words: vec!["香港".into()],
            exclude_words: vec![],
        },
        stamp(1),
    );
    assert!(pool.id.starts_with("pool-"));
    assert!(pool.outbound_tag().starts_with("pool-"));
}

#[test]
fn chain_ids_are_disjoint_from_pool_ids() {
    let chain = ProxyChain::new(
        "落地链",
        vec![
            ChainHop::Pool {
                pool_id: "pool-abc".into(),
            },
            ChainHop::Node {
                node_id: "node-xyz".into(),
            },
        ],
        stamp(1),
    );
    assert!(chain.id.starts_with("chain-"));
    assert_ne!(
        chain.id,
        NodePool::new("x", PoolMode::Explicit { node_ids: vec![] }, stamp(1)).id
    );
}

#[test]
fn rapid_creates_do_not_collide() {
    let a = NodePool::new("同名", PoolMode::Explicit { node_ids: vec![] }, stamp(1));
    let b = NodePool::new("同名", PoolMode::Explicit { node_ids: vec![] }, stamp(2));
    assert_ne!(a.id, b.id);
}

#[test]
fn pool_tag_is_its_id() {
    let pool = NodePool::new(" 东京 ", PoolMode::Explicit { node_ids: vec![] }, stamp(3));
    assert_eq!(pool.name, "东京");
    assert_eq!(pool.outbound_tag(), pool.id);
    assert_eq!(pool.id.len(), 25);
}

// ---- DNS ----

#[test]
fn legacy_rules_mode_enables_legacy_rules_layer() {
    let mut settings = DnsSettings {
        mode: DnsMode::Rules,
        ..DnsSettings::default()
    };
    assert_eq!(settings.mode, DnsMode::Rules);
    assert!(!settings.rules_enabled);

    settings.migrate_legacy_rules_mode();

    assert_eq!(settings.mode, DnsMode::Local);
    assert!(settings.rules_enabled);
}

#[test]
fn legacy_flat_rules_and_hosts_migrate_into_typed_sets() {
    let mut settings = DnsSettings {
        rules_enabled: true,
        hosts: HostsConfig {
            enabled: true,
            include_system: true,
            entries: vec![HostsEntry {
                id: "legacy-host".into(),
                enabled: true,
                domain: "legacy.example".into(),
                addr: "10.0.0.8".into(),
            }],
        },
        ..DnsSettings::default()
    };

    settings.ensure_rule_sets(None);

    let builtin = settings
        .rule_sets
        .iter()
        .find(|set| set.id == BUILTIN_DNS_SET_ID)
        .unwrap();
    assert!(builtin.enabled);
    assert_eq!(builtin.kind, DnsRuleSetKind::Dns);
    assert!(!builtin.dns_rules.is_empty());

    let system = settings
        .rule_sets
        .iter()
        .find(|set| set.id == SYSTEM_HOSTS_SET_ID)
        .unwrap();
    assert!(system.enabled);
    assert!(system.read_only);

    let custom = settings
        .rule_sets
        .iter()
        .find(|set| set.id == "migrated-hosts")
        .unwrap();
    assert_eq!(custom.kind, DnsRuleSetKind::Hosts);
    assert_eq!(custom.hosts[0].domain, "legacy.example");
}

#[test]
fn enabled_typed_sets_are_flattened_in_set_order() {
    let mut settings = DnsSettings::default();
    settings.rule_sets = vec![
        DnsRuleSet {
            id: "first".into(),
            name: "First".into(),
            kind: DnsRuleSetKind::Dns,
            builtin: false,
            read_only: false,
            enabled: true,
            dns_rules: vec![DnsRule {
                id: "r1".into(),
                enabled: true,
                matcher: DomainMatcher::Domain,
                payload: "first.example".into(),
                action: DnsAction::Local,
            }],
            hosts: Vec::new(),
        },
        DnsRuleSet {
            id: "second".into(),
            name: "Second".into(),
            kind: DnsRuleSetKind::Dns,
            builtin: false,
            read_only: false,
            enabled: true,
            dns_rules: vec![DnsRule {
                id: "r2".into(),
                enabled: true,
                matcher: DomainMatcher::Domain,
                payload: "second.example".into(),
                action: DnsAction::Remote,
            }],
            hosts: Vec::new(),
        },
    ];

    let rules = settings.enabled_dns_rules();
    assert_eq!(rules[0].payload, "first.example");
    assert_eq!(rules[1].payload, "second.example");
}

#[test]
fn ensuring_rule_sets_twice_changes_nothing() {
    let mut settings = DnsSettings::default();
    settings.ensure_rule_sets(None);
    let ids: Vec<String> = settings.rule_sets.iter().map(|s| s.id.clone()).collect();
    settings.ensure_rule_sets(None);
    let again: Vec<String> = settings.rule_sets.iter().map(|s| s.id.clone()).collect();
    assert_eq!(ids, again);
    assert!(ids.iter().any(|i| i == BUILTIN_DNS_SET_ID));
    assert!(ids.iter().any(|i| i == SYSTEM_HOSTS_SET_ID));
}

#[test]
fn parse_bare_and_explicit() {
    let text = r#"
# comment
xiaojukeji.com
DOMAIN-SUFFIX,didichuxing.com,SYSTEM
DOMAIN,api.example.com,DOMESTIC
DOMAIN-KEYWORD,corp,REMOTE
"#;
    let rules = parse_dns_whitelist_text(text, "test");
    assert_eq!(rules.len(), 4);
    assert!(matches!(rules[0].matcher, DomainMatcher::DomainSuffix));
    assert_eq!(rules[0].payload, "xiaojukeji.com");
    assert!(matches!(rules[0].action, DnsAction::Local));
    assert!(matches!(rules[2].matcher, DomainMatcher::Domain));
    assert!(matches!(rules[2].action, DnsAction::Domestic));
    assert!(matches!(rules[3].action, DnsAction::Remote));
}

#[test]
fn default_rules_load_builtin_file() {
    let list = "# private names\nlocal\nlan\ninternal\ncorp\nDOMAIN,localhost\n";
    let rules = default_rules(Some(list));
    // The builtin file seeds local/lan/internal/corp/localhost at minimum.
    assert!(rules.iter().any(|r| r.payload == "local"));
    assert!(rules.iter().any(|r| r.payload == "localhost"));
    assert!(rules.iter().all(|r| matches!(r.action, DnsAction::Local)));
}

#[test]
fn factory_rules_fall_back_without_a_list() {
    let payloads = |rules: Vec<DnsRule>| -> Vec<String> {
        rules.iter().map(|r| r.payload.clone()).collect()
    };
    let fallback = vec!["local", "lan", "internal", "corp"];
    assert_eq!(payloads(default_rules(None)), fallback);
    // A list with no rule in it counts as none.
    assert_eq!(payloads(default_rules(Some("# nothing\n\n"))), fallback);
    assert_eq!(payloads(default_rules(Some("home.arpa\n"))), vec!["home.arpa"]);
    let listed = DnsSettings::with_list(Some("home.arpa\n"));
    assert_eq!(payloads(listed.rules), vec!["home.arpa"]);
    assert_eq!(payloads(DnsSettings::default().rules), fallback);
}

#[test]
fn hosts_lines_need_an_address() {
    let text = "127.0.0.1 localhost local # here\nnot-an-ip name\n::1 six\n";
    let pairs = parse_hosts_text(text, &vec![true, false, true]);
    assert_eq!(
        pairs,
        vec![
            ("localhost".to_string(), "127.0.0.1".to_string()),
            ("local".to_string(), "127.0.0.1".to_string()),
            ("six".to_string(), "::1".to_string()),
        ]
    );
}

#[test]
fn dns_actions_read_back() {
    for action in [
        DnsAction::Local,
        DnsAction::Domestic,
        DnsAction::Remote,
        DnsAction::Block,
    ] {
        assert_eq!(DnsAction::from_wire(action.wire_kind()), Some(action));
    }
    assert_eq!(parse_dns_action("REJECT"), Some(DnsAction::Block));
    assert_eq!(parse_dns_action("nowhere"), None);
}

// ---- nodes ----

fn ss_node(id: &str, name: &str, password: &str) -> ProxyNode {
    ProxyNode {
        id: id.to_string(),
        name: name.to_string(),
        protocol: Protocol::Shadowsocks,
        server: "example.com".into(),
        port: 8388,
        tls: None,
        transport: None,
        udp: None,
        config: ProtocolConfig::Shadowsocks {
            method: "aes-128-gcm".into(),
            password: password.into(),
            plugin: None,
            plugin_opts: None,
            shadow_tls: None,
        },
        source: None,
        latency_ms: None,
        latency_at: None,
    }
}

#[test]
fn ensure_unique_ids_renames_only_duplicates() {
    let base = ProxyNode::compute_id("香港 01", "example.com", 8388, Protocol::Shadowsocks);
    let other = ProxyNode::compute_id("东京 01", "example.com", 8388, Protocol::Shadowsocks);
    let mut nodes = vec![
        ss_node(&base, "香港 01", "pass-a"),
        ss_node(&base, "香港 01", "pass-b"),
        ss_node(&other, "东京 01", "pass-c"),
    ];

    let renamed = ProxyNode::ensure_unique_ids(&mut nodes);
    assert_eq!(renamed, 1);
    // First occurrence keeps its id; distinct node untouched.
    assert_eq!(nodes[0].id, base);
    assert_eq!(nodes[2].id, other);
    // Duplicate got a different id, distinct on the tag prefix.
    assert_ne!(nodes[1].id, base);
    let prefixes: Vec<String> = nodes.iter().map(|n| tag_prefix(&n.id)).collect();
    let mut unique = prefixes.clone();
    unique.sort();
    unique.dedup();
    assert_eq!(prefixes.len(), unique.len());
}

#[test]
fn ensure_unique_ids_is_deterministic() {
    let base = ProxyNode::compute_id("同号节点", "example.com", 8388, Protocol::Shadowsocks);
    let build = || {
        vec![
            ss_node(&base, "同号节点", "pass-a"),
            ss_node(&base, "同号节点", "pass-b"),
        ]
    };
    let mut first = build();
    let mut second = build();
    ProxyNode::ensure_unique_ids(&mut first);
    ProxyNode::ensure_unique_ids(&mut second);
    assert_eq!(first[1].id, second[1].id);
    assert_ne!(first[0].id, first[1].id);
}

#[test]
fn node_ids_are_digests() {
    let id = ProxyNode::compute_id("a", "b", 1, Protocol::Vless);
    assert_eq!(id.len(), 32);
    assert!(id.chars().all(|c| c.is_ascii_hexdigit()));
    // The first half of the SHA-256 of "a|b|1|vless".
    assert_eq!(id, "fa7d5bb07dfff59c0f3b32c2535a3e39");
}

#[test]
fn protocol_names_read_back() {
    for p in [
        Protocol::Shadowsocks,
        Protocol::Vmess,
        Protocol::Vless,
        Protocol::Trojan,
        Protocol::Hysteria2,
        Protocol::WireGuard,
    ] {
        assert_eq!(Protocol::from_clash_type(p.as_str()), Some(p));
    }
}

// ---- rules ----

#[test]
fn accepts_only_supported_remote_update_intervals() {
    assert_eq!(
        normalize_remote_update_interval("disabled"),
        Some("disabled")
    );
    assert_eq!(normalize_remote_update_interval("1H"), Some("1h"));
    assert_eq!(normalize_remote_update_interval("12h"), Some("12h"));
    assert_eq!(normalize_remote_update_interval("24h"), Some("24h"));
    assert_eq!(normalize_remote_update_interval("6h"), None);
}

#[test]
fn disabled_has_no_schedule_and_legacy_default_is_disabled() {
    assert_eq!(remote_update_interval_secs("disabled"), None);
    assert_eq!(remote_update_interval_secs("1h"), Some(3_600));
    assert_eq!(remote_update_interval_secs("12h"), Some(43_200));
    assert_eq!(remote_update_interval_secs("24h"), Some(86_400));

    let remote = RemoteRuleSetConfig {
        url: "https://example.com/rules.json".into(),
        format: "source".into(),
        update_interval: default_update_interval(),
        target: RuleTarget::Proxy,
        local_path: None,
        download_status: "idle".into(),
        download_error: None,
        last_update: None,
        last_attempt: None,
        rule_count: None,
        contains_ip: None,
    };
    assert_eq!(remote.update_interval, "disabled");
}

#[test]
fn rules_contain_ip_cidr_detects_top_level_field() {
    let rules = vec![json(
        r#"{"domain_suffix": ["a.com"], "ip_cidr": ["10.0.0.0/8"]}"#,
    )];
    assert!(rules_contain_ip_cidr(&rules));
}

#[test]
fn rules_contain_ip_cidr_detects_nested_logical_rule() {
    let rules = vec![json(
        r#"{
            "type": "logical",
            "mode": "and",
            "rules": [
                {"domain_suffix": ["a.com"]},
                {"ip_cidr": ["10.0.0.0/8"]}
            ]
        }"#,
    )];
    assert!(rules_contain_ip_cidr(&rules));
}

#[test]
fn rules_contain_ip_cidr_false_for_domain_only_rules() {
    let rules = vec![
        json(r#"{"domain_suffix": ["a.com"]}"#),
        json(
            r#"{
                "type": "logical",
                "mode": "or",
                "rules": [
                    {"domain": ["b.com"]},
                    {"domain_keyword": ["c"]}
                ]
            }"#,
        ),
    ];
    assert!(!rules_contain_ip_cidr(&rules));
}

#[test]
fn smart_keywords_whitelist_or_blacklist_or() {
    let inc: Vec<String> = vec!["新加坡".into(), "日本".into()];
    let exc: Vec<String> = vec!["香港".into(), "台湾".into()];
    // Whitelist OR: either keyword ok
    assert!(name_matches_keywords("新加坡 01", &inc, &exc));
    assert!(name_matches_keywords("日本 东京", &inc, &exc));
    assert!(!name_matches_keywords("美国 01", &inc, &exc));
    // Blacklist OR: any hit skips (even if whitelist would pass)
    assert!(!name_matches_keywords("新加坡香港", &inc, &exc));
    assert!(!name_matches_keywords("香港 01", &inc, &exc));
    // Empty whitelist = all except blacklist
    assert!(name_matches_keywords("任意节点", &[], &exc));
    assert!(!name_matches_keywords("HK 香港专线", &[], &exc));
    assert!(!name_matches_keywords("台湾专线", &[], &exc));
}

#[test]
fn keywords_match_in_any_case() {
    // Small letters beyond ASCII come from the standard library.
    assert!(name_matches_keywords("ÄPFEL", &["äpfel".into()], &[]));
    assert_eq!(
        Rule::normalize_keywords(&[" HK ".into(), "hk".into(), "".into(), "É".into(), "é".into()]),
        vec!["HK".to_string(), "É".to_string()]
    );
}

#[test]
fn smart_keywords_list_overlap() {
    let a: Vec<String> = vec!["新加坡".into(), "香港".into()];
    let b: Vec<String> = vec!["香港".into(), "日本".into()];
    let o = keyword_list_overlap(&a, &b);
    assert_eq!(o, vec!["香港".to_string()]);
    assert!(keyword_list_overlap(&a, &[]).is_empty());
}

#[test]
fn format_clash_rules_list_basic() {
    let direct = Rule::new(
        RuleType::DomainSuffix,
        "corp.internal".into(),
        RuleTarget::Direct,
        10,
    );
    let proxy = Rule::new(
        RuleType::DomainSuffix,
        "openai.com".into(),
        RuleTarget::Proxy,
        20,
    );
    let clash = format_clash_rules_list("通用", &[direct, proxy]);
    assert!(clash.contains("DOMAIN-SUFFIX,corp.internal,DIRECT"));
    assert!(clash.contains("DOMAIN-SUFFIX,openai.com,PROXY"));
}

#[test]
fn route_strategy_recommends_dns_policy() {
    assert_eq!(
        RuleSetStrategy::Proxy.recommended_dns_strategy(),
        Some(RuleSetDnsStrategy::Remote)
    );
    assert_eq!(
        RuleSetStrategy::Direct.recommended_dns_strategy(),
        Some(RuleSetDnsStrategy::Local)
    );
    assert_eq!(
        RuleSetStrategy::Smart.recommended_dns_strategy(),
        Some(RuleSetDnsStrategy::Remote)
    );
    assert_eq!(
        RuleSetStrategy::Node.recommended_dns_strategy(),
        Some(RuleSetDnsStrategy::Remote)
    );
    assert_eq!(
        RuleSetStrategy::Filter.recommended_dns_strategy(),
        Some(RuleSetDnsStrategy::Remote)
    );
    assert_eq!(RuleSetStrategy::Block.recommended_dns_strategy(), None);
}

#[test]
fn whole_set_strategies_map_from_targets() {
    assert_eq!(
        RuleSetStrategy::from_target(RuleTarget::Node),
        RuleSetStrategy::Node
    );
    // RuleTarget::Smart is the keyword pool → whole-set Filter strategy.
    assert_eq!(
        RuleSetStrategy::from_target(RuleTarget::Smart),
        RuleSetStrategy::Filter
    );
    assert_eq!(RuleSetStrategy::Node.route_target(), None);
    assert_eq!(RuleSetStrategy::Filter.route_target(), None);
    assert_eq!(
        RuleSetStrategy::Proxy.route_target(),
        Some(RuleTarget::Proxy)
    );
}

#[test]
fn smart_set_tag_is_stable_and_never_collides_with_rule_tags() {
    let mut set = RuleSet::new_user("过滤池", vec![], stamp(1));
    set.id = "system-geolocation-not-cn".into();
    let tag = set.smart_set_outbound_tag();
    assert_eq!(tag, "smart-system-geolocati");
    // Rule ids are 24-char hex — the "rs-"/"system-" prefixes keep the
    // tag spaces disjoint.
    let rule = Rule::new(RuleType::DomainSuffix, "x.com".into(), RuleTarget::Smart, 1);
    assert_ne!(tag, rule.smart_outbound_tag());
}

#[test]
fn new_remote_derives_dns_strategy_from_route_target() {
    let proxy = RuleSet::new_remote(
        "Proxy",
        "https://example.com/proxy.srs",
        RuleTarget::Proxy,
        stamp(1),
    );
    assert_eq!(proxy.strategy, RuleSetStrategy::Proxy);
    assert_eq!(proxy.dns_strategy, RuleSetDnsStrategy::Remote);

    let direct = RuleSet::new_remote(
        "Direct",
        "https://example.com/direct.srs",
        RuleTarget::Direct,
        stamp(2),
    );
    assert_eq!(direct.strategy, RuleSetStrategy::Direct);
    assert_eq!(direct.dns_strategy, RuleSetDnsStrategy::Local);
}

#[test]
fn builtin_remote_specs_are_well_formed() {
    let all = builtin_remote_rule_sets();
    let mut ids = std::collections::HashSet::new();
    for spec in all.iter() {
        assert!(
            ids.insert(spec.id),
            "duplicate builtin remote id {}",
            spec.id
        );
        assert!(spec.id.starts_with("system-"));
        assert_eq!(spec.file, format!("{}.srs", spec.id));
        assert!(spec.url.starts_with("https://"));
        assert!(matches!(
            spec.target,
            RuleTarget::Proxy | RuleTarget::Direct
        ));
        assert!(is_builtin_remote_id(spec.id));
        assert!(is_factory_set_id(spec.id));
    }
    // System ids map 1:1 from their first-iteration ids.
    assert_eq!(LEGACY_BUILTIN_REMOTE_IDS.len(), all.len());
    for (old, new) in LEGACY_BUILTIN_REMOTE_IDS {
        assert_eq!(builtin_remote_spec(new).expect("mapped id exists").id, new);
        assert_ne!(old, new);
    }
    // Legacy list ids are recognizable but never factory or system.
    assert!(!is_factory_set_id(BUILTIN_SET_ID));
    assert!(!is_factory_set_id("builtin-ruleset-proxy"));
    assert!(!is_builtin_remote_id(BUILTIN_SET_ID));
    assert!(!is_builtin_remote_id(LEGACY_BUILTIN_REMOTE_IDS[0].0));
}

#[test]
fn build_builtin_remote_set_shape() {
    let spec = builtin_remote_rule_sets()[0];
    let set = build_builtin_remote_set(&spec, stamp(1));
    assert_eq!(set.id, spec.id);
    assert!(set.builtin);
    assert_eq!(set.ownership, RuleSetOwnership::Builtin);
    assert!(set.enabled);
    let remote = set.remote.expect("remote config");
    assert_eq!(remote.url, spec.url);
    assert_eq!(remote.format, "binary");
    assert_eq!(remote.update_interval, "24h");
    assert_eq!(remote.target, spec.target);
    assert_eq!(remote.local_path, None);
    assert_eq!(set.strategy, RuleSetStrategy::from_target(spec.target));
    // DNS pairing follows the route target.
    assert_eq!(
        set.dns_strategy,
        RuleSetStrategy::from_target(spec.target)
            .recommended_dns_strategy()
            .unwrap()
    );
}

#[test]
fn rows_of_rules_are_counted() {
    assert_eq!(
        remote_rule_display_count(&json(r#"{"domain":["a","b"],"ip_cidr":["1.0.0.0/8"]}"#)),
        3
    );
    assert_eq!(
        remote_rule_display_count(&json(r#"{"type":"logical","rules":[{"domain":["a"]}]}"#)),
        1
    );
    assert_eq!(remote_rule_display_count(&json("7")), 1);
}

// ---- settings ----

#[test]
fn legacy_tun_flag_migrates_to_capture_mode() {
    let mut settings = AppSettings {
        tun_enabled: true,
        capture_mode: CaptureMode::Off,
        ..AppSettings::default()
    };
    settings.migrate_capture_mode();
    assert_eq!(settings.capture_mode, CaptureMode::Tun);
    assert!(settings.tun_enabled);
}

#[test]
fn system_capture_clears_stale_tun_flag() {
    let mut settings = AppSettings {
        tun_enabled: true,
        capture_mode: CaptureMode::System,
        ..AppSettings::default()
    };
    settings.migrate_capture_mode();
    assert_eq!(settings.capture_mode, CaptureMode::System);
    assert!(!settings.tun_enabled);
}

#[test]
fn new_store_keeps_api_secret_disabled_by_default() {
    // A clean/new AppSettings never had a secret, so the migration is a
    // no-op: users who never turned this on don't get surprised by it.
    let mut settings = AppSettings::default();
    settings.migrate_api_secret_enabled();
    assert!(!settings.api_secret_enabled);
}

#[test]
fn store_with_a_preexisting_secret_migrates_to_enabled() {
    // Pre-toggle stores always carried a secret unconditionally — treat
    // that as "was enabled" so upgrading doesn't drop anyone's auth.
    let mut settings = AppSettings {
        clash_api_secret: Some("abc123".into()),
        ..AppSettings::default()
    };
    settings.migrate_api_secret_enabled();
    assert!(settings.api_secret_enabled);
}

#[test]
fn store_with_an_empty_secret_field_stays_disabled() {
    let mut settings = AppSettings {
        clash_api_secret: Some("   ".into()),
        ..AppSettings::default()
    };
    settings.migrate_api_secret_enabled();
    assert!(!settings.api_secret_enabled);
}

#[test]
fn tray_icon_style_parses_and_defaults_to_badge() {
    assert_eq!(AppSettings::default().tray_icon, TrayIconStyle::Badge);
    assert_eq!(TrayIconStyle::parse("ghost"), Some(TrayIconStyle::PacGhost));
    assert_eq!(TrayIconStyle::parse("legacy"), Some(TrayIconStyle::Mark));
    assert_eq!(TrayIconStyle::parse("laoyou"), Some(TrayIconStyle::Buddy));
    assert_eq!(TrayIconStyle::parse("warning"), Some(TrayIconStyle::Danger));
    assert_eq!(
        TrayIconStyle::parse("danger2"),
        Some(TrayIconStyle::Danger2)
    );
    assert_eq!(TrayIconStyle::parse("ghost2"), Some(TrayIconStyle::Ghost2));
    assert_eq!(TrayIconStyle::parse("faceid"), Some(TrayIconStyle::Faceid));
    assert_eq!(TrayIconStyle::parse("nope"), None);
}

#[test]
fn runtime_source_roundtrip() {
    assert_eq!(RuntimeSource::parse(""), RuntimeSource::Generated);
    assert_eq!(RuntimeSource::parse("generated"), RuntimeSource::Generated);
    assert_eq!(
        RuntimeSource::parse("singbox:abc"),
        RuntimeSource::Singbox { id: "abc".into() }
    );
    let mut settings = AppSettings::default();
    settings.set_runtime_source(RuntimeSource::Singbox { id: "p1".into() });
    assert!(settings.runtime_source().is_custom());
    settings.set_runtime_source(RuntimeSource::Generated);
    assert!(!settings.runtime_source().is_custom());
}

#[test]
fn mode_names_read_back() {
    for m in [OutboundMode::Rule, OutboundMode::Global, OutboundMode::Direct] {
        assert_eq!(OutboundMode::parse(m.as_str()), Some(m));
    }
    for m in [CaptureMode::Off, CaptureMode::System, CaptureMode::Tun] {
        assert_eq!(CaptureMode::parse(m.as_str()), Some(m));
    }
    for m in [AutoSelectMode::Off, AutoSelectMode::Smart, AutoSelectMode::Kernel] {
        assert_eq!(AutoSelectMode::parse(m.as_str()), Some(m));
    }
    assert_eq!(CaptureMode::parse(" TUN "), Some(CaptureMode::Tun));
    assert_eq!(CaptureMode::parse("both"), None);
}

// ---- subscriptions ----

fn wire(kind: &str) -> SourceWire {
    SourceWire {
        kind: kind.into(),
        url: None,
        path: None,
        content: None,
        uri: None,
        profile: None,
    }
}

#[test]
fn node_roundtrip_is_readable_by_url_file_only_builds() {
    let src = SubscriptionSource::Node {
        uri: Some("vless://uuid@host.example:443#n".into()),
    };
    let stored = source_to_wire(&src);
    assert_eq!(stored.kind, "file");
    assert_eq!(stored.profile.as_deref(), Some("node"));
    assert_eq!(stored.path.as_deref(), Some("satelite:node"));
    let back = source_from_wire(stored).unwrap();
    assert_eq!(src, back);
}

#[test]
fn reads_explicit_node_tag_from_newer_files() {
    let mut stored = wire("node");
    stored.uri = Some("trojan://pwd@host.example:443".into());
    let src = source_from_wire(stored).unwrap();
    assert_eq!(
        src,
        SubscriptionSource::Node {
            uri: Some("trojan://pwd@host.example:443".into()),
        }
    );
}

#[test]
fn text_roundtrip_uses_compatible_file_tag() {
    let src = SubscriptionSource::Text {
        content: "{\"outbounds\":[]}".into(),
    };
    let stored = source_to_wire(&src);
    assert_eq!(stored.kind, "file");
    assert_eq!(stored.profile.as_deref(), Some("text"));
    let back = source_from_wire(stored).unwrap();
    assert_eq!(src, back);
}

#[test]
fn singbox_roundtrip_uses_compatible_file_tag() {
    let src = SubscriptionSource::Singbox {
        content: "{\"inbounds\":[],\"outbounds\":[]}".into(),
    };
    let stored = source_to_wire(&src);
    assert_eq!(stored.kind, "file");
    assert_eq!(stored.profile.as_deref(), Some("singbox"));
    let back = source_from_wire(stored).unwrap();
    assert_eq!(src, back);
}

#[test]
fn unknown_source_kind_is_an_error_not_a_file() {
    let err = source_from_wire(wire("quantum")).unwrap_err();
    assert!(err.contains("unknown subscription source kind"));
}

#[test]
fn merged_traffic_prefers_the_first() {
    let a = SubscriptionTraffic {
        upload: Some(1),
        ..SubscriptionTraffic::default()
    };
    let b = SubscriptionTraffic {
        upload: Some(2),
        download: Some(3),
        ..SubscriptionTraffic::default()
    };
    let m = SubscriptionTraffic::merge(Some(a), Some(b)).unwrap();
    assert_eq!(m.upload, Some(1));
    assert_eq!(m.download, Some(3));
    assert_eq!(m.used(), 4);
}
