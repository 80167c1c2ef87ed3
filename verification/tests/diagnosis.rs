use satelite::core_kind::CoreKind;
use satelite::digest::Stamp;
use satelite::domain::dns::{DnsSettings, HostsConfig, HostsEntry, REMOTE_DNS_POOL};
use satelite::domain::node::{Protocol, ProtocolConfig, ProxyNode};
use satelite::domain::rule::{
    RemoteRuleSetConfig, Rule, RuleSet, RuleSetDnsStrategy, RuleSetOwnership, RuleSetStrategy,
    RuleTarget, RuleType,
};
use satelite::domain::settings::OutboundMode;
use satelite::services::dns_diag::{
    answered_query, clean_domain, clean_domains, failed_query, make_report, query_note, rcode_text,
    DnsDiagAnswer, MAX_DOMAINS,
};
use satelite::services::dns_path::{
    DnsDiagInput, DnsPathAnalyzer, DnsPathStrategy, RemoteContent,
};
use satelite::services::exit_ip::{parse_source, sources, Race, RaceEvent, RaceStep, Source};
use satelite::services::latency::{
    cache_ttl, core_probe_key, lost_result, merge_ranked, note_pings, ordered_results,
    probe_result, probe_route, split_by_transport, tcp_probe_key, unified_delay,
    unsupported_result, LatencyResult, ProbeCache, ProbeRoute, CACHE_TRIM_TO, CACHE_TTL_MS,
    FAILURE_CACHE_TTL_MS, GLOBAL_CONCURRENCY, MAX_CACHE_ENTRIES,
};
use satelite::services::probe_desk::{DeskStep, ProbeDesk};
use satelite::web::to_ascii_domain;

// ---- the address under which the client appears ----

fn src(url: &str) -> Source {
    sources().into_iter().find(|s| s.url == url).unwrap()
}

#[test]
fn parses_ip_sb_geoip() {
    let (ip, cc) = parse_source(
        &src("https://api.ip.sb/geoip"),
        r#"{"ip":"104.28.7.9","country_code":"US","country":"United States"}"#,
    )
    .unwrap();
    assert_eq!(ip, "104.28.7.9");
    assert_eq!(cc.as_deref(), Some("US"));
}

#[test]
fn parses_ipwho_is() {
    let (ip, cc) = parse_source(
        &src("https://ipwho.is/"),
        r#"{"ip":"1.2.3.4","success":true,"country_code":"JP"}"#,
    )
    .unwrap();
    assert_eq!(ip, "1.2.3.4");
    assert_eq!(cc.as_deref(), Some("JP"));
}

#[test]
fn parses_ip_api_com() {
    let (ip, cc) = parse_source(
        &src("http://ip-api.com/json"),
        r#"{"query":"5.6.7.8","countryCode":"DE","country":"Germany"}"#,
    )
    .unwrap();
    assert_eq!(ip, "5.6.7.8");
    assert_eq!(cc.as_deref(), Some("DE"));
}

#[test]
fn parses_myip_com() {
    let (ip, cc) = parse_source(
        &src("https://api.myip.com"),
        r#"{"ip":"9.9.9.9","cc":"SG"}"#,
    )
    .unwrap();
    assert_eq!(ip, "9.9.9.9");
    assert_eq!(cc.as_deref(), Some("SG"));
}

#[test]
fn rejects_failure_shapes() {
    // ipwho.is answers success:false with a null ip.
    assert!(parse_source(
        &src("https://ipwho.is/"),
        r#"{"ip":null,"success":false,"message":"Invalid IP"}"#,
    )
    .is_none());
    // Empty / missing ip fields.
    assert!(parse_source(&src("https://api.myip.com"), r#"{"ip":"","cc":"US"}"#).is_none());
    assert!(parse_source(&src("https://api.myip.com"), "not json").is_none());
    // Country code is optional — ip alone still parses.
    let (ip, cc) = parse_source(&src("https://api.myip.com"), r#"{"ip":"1.1.1.1"}"#).unwrap();
    assert_eq!(ip, "1.1.1.1");
    assert!(cc.is_none());
}

#[test]
fn first_answer_wins_the_race() {
    let mut race = Race::new(true);
    assert!(matches!(
        race.step(RaceEvent::Failed("no route".into())),
        RaceStep::Wait
    ));
    match race.step(RaceEvent::Answered {
        url: "https://ipwho.is/".into(),
        ip: "1.2.3.4".into(),
        country: None,
    }) {
        RaceStep::Won(info) => {
            assert_eq!(info.ip, "1.2.3.4");
            assert!(info.via_proxy);
        }
        _ => panic!("an answer wins"),
    }
    match race.step(RaceEvent::Over) {
        RaceStep::Lost(error) => assert_eq!(error, "no route"),
        _ => panic!("the time is over"),
    }
}

// ---- the way of a DNS query ----

fn input(core: &str, sets: Vec<RuleSet>, dns: DnsSettings) -> DnsDiagInput {
    let contents = sets.iter().map(|_| RemoteContent::Missing).collect();
    DnsDiagInput {
        core_type: core.into(),
        runtime_source: "generated".into(),
        tun_enabled: false,
        outbound_mode: OutboundMode::Rule,
        rule_sets: sets,
        dns,
        contents,
        system_hosts: vec![],
    }
}

fn local_set(id: &str, name: &str, rules: Vec<Rule>, dns_strategy: RuleSetDnsStrategy) -> RuleSet {
    RuleSet {
        id: id.into(),
        name: name.into(),
        builtin: false,
        enabled: true,
        ownership: RuleSetOwnership::User,
        strategy: RuleSetStrategy::Proxy,
        node_id: None,
        node_name: None,
        smart_include: Vec::new(),
        smart_exclude: Vec::new(),
        chain_id: None,
        chain_name: None,
        dns_strategy,
        remote: None,
        dns_rules: Vec::new(),
        rules,
    }
}

#[test]
fn singbox_chain_set_beats_hosts_rules_and_final() {
    let sets = vec![local_set(
        "s1",
        "海外",
        vec![Rule::new(
            RuleType::DomainSuffix,
            "google.com".into(),
            RuleTarget::Proxy,
            10,
        )],
        RuleSetDnsStrategy::Remote,
    )];
    let mut dns = DnsSettings::default();
    dns.fake_ip.enabled = false;
    // A hosts entry and a DNS rule for the same domain must NOT win.
    dns.hosts = HostsConfig {
        enabled: true,
        include_system: false,
        entries: vec![HostsEntry {
            id: "h".into(),
            enabled: true,
            domain: "google.com".into(),
            addr: "10.0.0.1".into(),
        }],
    };
    dns.rule_sets = Vec::new(); // effective_hosts falls back to flat hosts
    let analyzer = DnsPathAnalyzer::build(&input("singbox", sets, dns));
    let path = analyzer.decide("www.google.com");
    assert_eq!(path.strategy, DnsPathStrategy::Remote);
    assert!(path.matched_by.contains("海外"));
    assert!(path.matched_by.contains("后缀 google.com"));
    assert!(path.via_proxy);
    assert!(path.servers[0].contains(REMOTE_DNS_POOL[0]));
}

#[test]
fn singbox_hosts_beats_dns_rules_and_fakeip() {
    let mut dns = DnsSettings::default();
    dns.fake_ip.enabled = false;
    dns.hosts = HostsConfig {
        enabled: true,
        include_system: false,
        entries: vec![HostsEntry {
            id: "h".into(),
            enabled: true,
            domain: "pinned.example".into(),
            addr: "10.0.0.9".into(),
        }],
    };
    dns.rule_sets = Vec::new();
    let analyzer = DnsPathAnalyzer::build(&input("singbox", vec![], dns));
    let path = analyzer.decide("pinned.example");
    assert_eq!(path.strategy, DnsPathStrategy::Hosts);
    assert!(path.servers[0].contains("10.0.0.9"));
}

#[test]
fn singbox_block_set_rejects_but_mihomo_xray_keep_resolving() {
    let mut block_set = local_set(
        "ads",
        "广告",
        vec![Rule::new(
            RuleType::DomainSuffix,
            "ads.example".into(),
            RuleTarget::Block,
            10,
        )],
        RuleSetDnsStrategy::Remote,
    );
    block_set.strategy = RuleSetStrategy::Block;
    let mut dns = DnsSettings::default();
    dns.fake_ip.enabled = false;

    let singbox = DnsPathAnalyzer::build(&input("singbox", vec![block_set.clone()], dns.clone()));
    assert_eq!(
        singbox.decide("ads.example").strategy,
        DnsPathStrategy::Block
    );

    // mihomo/Xray never emit a DNS reject for Block sets — traffic is
    // blocked at routing, DNS still resolves via the set's dns_strategy.
    let mihomo = DnsPathAnalyzer::build(&input("mihomo", vec![block_set.clone()], dns.clone()));
    assert_eq!(
        mihomo.decide("ads.example").strategy,
        DnsPathStrategy::Remote
    );

    let xray = DnsPathAnalyzer::build(&input("xray", vec![block_set], dns));
    assert_eq!(xray.decide("ads.example").strategy, DnsPathStrategy::Remote);
}

#[test]
fn mihomo_keyword_falls_back_to_final_with_note() {
    let sets = vec![local_set(
        "kw",
        "关键词集",
        vec![Rule::new(
            RuleType::DomainKeyword,
            "google".into(),
            RuleTarget::Proxy,
            10,
        )],
        RuleSetDnsStrategy::Remote,
    )];
    let mut dns = DnsSettings::default();
    dns.fake_ip.enabled = false;
    dns.dns_final = "domestic".into();

    let mihomo = DnsPathAnalyzer::build(&input("mihomo", sets.clone(), dns.clone()));
    let path = mihomo.decide("google.com");
    assert_eq!(path.strategy, DnsPathStrategy::Domestic); // dns_final pool
    assert!(path.note.as_deref().unwrap_or_default().contains("mihomo"));
    assert!(path.note.as_deref().unwrap_or_default().contains("关键词"));

    // sing-box keywords work normally.
    let singbox = DnsPathAnalyzer::build(&input("singbox", sets, dns));
    let path = singbox.decide("google.com");
    assert_eq!(path.strategy, DnsPathStrategy::Remote);
    assert!(path.matched_by.contains("关键词集"));
}

#[test]
fn fakeip_activation_matches_each_core() {
    let mut dns = DnsSettings::default();
    dns.fake_ip.enabled = false;
    dns.dns_final = "remote".into();

    // mihomo forces fake-ip under TUN even with the toggle off.
    let mut tun_input = input("mihomo", vec![], dns.clone());
    tun_input.tun_enabled = true;
    let path = DnsPathAnalyzer::build(&tun_input).decide("youtube.com");
    assert_eq!(path.strategy, DnsPathStrategy::FakeIp);

    // sing-box does not (fake_ip.enabled stays authoritative).
    let path = DnsPathAnalyzer::build(&input("singbox", vec![], dns.clone())).decide("youtube.com");
    assert_eq!(path.strategy, DnsPathStrategy::Remote);

    // sing-box with FakeIP on: bypass suffix falls back to local.
    let mut dns_bypass = dns.clone();
    dns_bypass.fake_ip.enabled = true;
    dns_bypass.fake_ip.bypass = vec!["lan".into()];
    let analyzer = DnsPathAnalyzer::build(&input("singbox", vec![], dns_bypass));
    assert_eq!(
        analyzer.decide("printer.lan").strategy,
        DnsPathStrategy::Local
    );
    assert_eq!(
        analyzer.decide("youtube.com").strategy,
        DnsPathStrategy::FakeIp
    );
}

#[test]
fn xray_skips_user_remote_sets_but_singbox_uses_cache() {
    let cache = br#"{
        "version": 3,
        "rules": [
            { "domain_suffix": ["openai.com"] },
            { "domain_keyword": ["huggingface"] }
        ]
    }"#;
    let mut remote_set = local_set(
        "rs-user",
        "用户远程集",
        vec![],
        RuleSetDnsStrategy::Domestic,
    );
    remote_set.remote = Some(RemoteRuleSetConfig {
        url: "https://example.com/set.json".into(),
        format: "source".into(),
        update_interval: "disabled".into(),
        target: RuleTarget::Proxy,
        local_path: Some("remote-rule-sets/user-set.json".into()),
        download_status: "ready".into(),
        download_error: None,
        last_update: None,
        last_attempt: None,
        rule_count: Some(2),
        contains_ip: None,
    });

    let mut dns = DnsSettings::default();
    dns.fake_ip.enabled = false;
    let mut singbox_input = input("singbox", vec![remote_set.clone()], dns.clone());
    singbox_input.contents = vec![RemoteContent::Bytes(cache.to_vec())];
    let analyzer = DnsPathAnalyzer::build(&singbox_input);
    let path = analyzer.decide("chat.openai.com");
    assert_eq!(path.strategy, DnsPathStrategy::Domestic);
    assert!(path.matched_by.contains("用户远程集"));
    assert!(path.matched_by.contains("后缀 openai.com"));
    // keyword items from remote caches classify too
    assert_eq!(
        analyzer.decide("hf.huggingface.co").strategy,
        DnsPathStrategy::Domestic
    );

    // Xray skips user remote sets entirely.
    let mut xray_input = input("xray", vec![remote_set], dns);
    xray_input.contents = vec![RemoteContent::Bytes(cache.to_vec())];
    let analyzer = DnsPathAnalyzer::build(&xray_input);
    assert_eq!(
        analyzer.decide("chat.openai.com").strategy,
        DnsPathStrategy::Remote
    );
}

#[test]
fn builtin_geosite_sets_approximate_under_xray_with_bypass_keyword() {
    let mut builtin = RuleSet::new_remote(
        "海外网站",
        "https://example.com/x.srs",
        RuleTarget::Proxy,
        Stamp { nanos: 1, pid: 1 },
    );
    builtin.id = "system-geolocation-not-cn".into();
    builtin.dns_strategy = RuleSetDnsStrategy::Remote;
    if let Some(remote) = builtin.remote.as_mut() {
        remote.format = "source".into();
        remote.local_path = Some("remote-rule-sets/system-geolocation-not-cn.srs".into());
    }

    let mut dns = DnsSettings::default();
    dns.fake_ip.enabled = false;
    let mut xray_input = input("xray", vec![builtin], dns);
    xray_input.contents = vec![RemoteContent::Bytes(
        br#"{ "version": 3, "rules": [ { "domain_suffix": ["google.com"] } ] }"#.to_vec(),
    )];
    let analyzer = DnsPathAnalyzer::build(&xray_input);
    let path = analyzer.decide("google.com");
    assert_eq!(path.strategy, DnsPathStrategy::Remote);
    assert!(
        path.approx,
        "builtin sets are cache-approximated under Xray"
    );
    assert!(!analyzer.approx_set_names().is_empty());
}

#[test]
fn clean_domain_strips_url_decoration() {
    assert_eq!(
        clean_domain("https://www.google.com/search?q=1").as_deref(),
        Some("www.google.com")
    );
    assert_eq!(clean_domain("  x.com:443 ").as_deref(), Some("x.com"));
    assert_eq!(clean_domain("youtube.com").as_deref(), Some("youtube.com"));
    assert_eq!(
        clean_domain("https://a.com:8080/path").as_deref(),
        Some("a.com")
    );
    assert_eq!(clean_domain(""), None);
}

#[test]
fn domains_are_asked_once() {
    let raw: Vec<String> = (0..200)
        .flat_map(|i| vec![format!("d{i}.com"), format!("https://d{i}.com/x")])
        .collect();
    let clean = clean_domains(&raw);
    assert_eq!(clean.len(), MAX_DOMAINS);
    assert_eq!(clean[1], "d1.com");
}

#[test]
fn names_beyond_ascii_go_out_in_their_ascii_form() {
    assert_eq!(to_ascii_domain("例え.jp"), "xn--r8jz45g.jp");
    assert_eq!(to_ascii_domain("example.com"), "example.com");
    let mut dns = DnsSettings::default();
    dns.fake_ip.enabled = false;
    let sets = vec![local_set(
        "s",
        "日本",
        vec![Rule::new(
            RuleType::DomainSuffix,
            "xn--r8jz45g.jp".into(),
            RuleTarget::Proxy,
            1,
        )],
        RuleSetDnsStrategy::Domestic,
    )];
    let path = DnsPathAnalyzer::build(&input("singbox", sets, dns)).decide("例え.jp");
    assert_eq!(path.strategy, DnsPathStrategy::Domestic);
}

#[test]
fn answers_are_reported() {
    assert_eq!(rcode_text(0), "NOERROR");
    assert_eq!(rcode_text(3), "NXDOMAIN");
    let answered = answered_query(
        0,
        vec![DnsDiagAnswer {
            name: "a.com.".into(),
            rr_type: 1,
            ttl: 60,
            data: "1.2.3.4".into(),
        }],
        12,
    );
    assert!(answered.ok);
    assert_eq!(answered.status_text, "NOERROR");
    let failed = failed_query("timeout".into(), 6_000);
    assert!(!failed.ok);
    assert_eq!(failed.error.as_deref(), Some("timeout"));
    assert_eq!(query_note(true, true, CoreKind::SingBox), None);
    assert!(query_note(true, true, CoreKind::Xray).is_some());
    assert!(query_note(true, false, CoreKind::Mihomo).is_some());
    assert!(query_note(false, true, CoreKind::Mihomo).is_some());

    let analyzer = DnsPathAnalyzer::build(&input("singbox", vec![], DnsSettings::default()));
    let report = make_report(
        "singbox".into(),
        "generated".into(),
        true,
        true,
        Some(&analyzer),
        vec!["a.com".into()],
        vec![Some(answered)],
    );
    assert_eq!(report.results.len(), 1);
    assert_eq!(report.results[0].domain, "a.com");
    assert!(report.results[0].path.is_some());
    assert!(report.results[0].query.is_some());
}

// ---- latency ----

fn result(ms: Option<u32>) -> LatencyResult {
    LatencyResult {
        id: "test-node".into(),
        name: "test".into(),
        latency_ms: ms,
        error: if ms.is_none() {
            Some("failed".into())
        } else {
            None
        },
        tested_at: 0,
        method: "test".into(),
    }
}

fn node(id: &str, protocol: Protocol) -> ProxyNode {
    ProxyNode {
        id: id.into(),
        name: "test-node".into(),
        protocol,
        server: "127.0.0.1".into(),
        port: 1,
        tls: None,
        transport: None,
        udp: None,
        config: ProtocolConfig::Hysteria2 {
            password: "x".into(),
            up_mbps: None,
            down_mbps: None,
            obfs: None,
            obfs_password: None,
        },
        source: None,
        latency_ms: None,
        latency_at: None,
    }
}

// Hysteria2/Hysteria/Tuic are QUIC-only: a plain TCP connect to their port
// always fails regardless of node health, so they are routed through the clash
// delay API (when available) instead of TCP.
#[test]
fn udp_only_protocols_use_clash_api_when_available_not_tcp() {
    for protocol in [Protocol::Hysteria2, Protocol::Hysteria, Protocol::Tuic] {
        let n = node("n", protocol);
        let r = probe_result(&n, probe_route(&n, true), Err("refused".into()), 0);
        assert_eq!(
            r.method, "clash_api",
            "{protocol:?} must probe via clash_api, not raw TCP"
        );
    }
    // A TCP-based protocol also probes through the kernel when the
    // clash API is available — raw TCP reachability lies about proxy
    // health (e.g. mihomo/other-core nodes ace TCP and die mid-proxy).
    let n = node("n", Protocol::Shadowsocks);
    let r = probe_result(&n, probe_route(&n, true), Err("refused".into()), 0);
    assert_eq!(r.method, "clash_api");
}

// Without the clash API (core stopped / custom profiles / Xray), TCP
// protocols fall back to the direct-TCP probe — still the raw signal,
// but the only one available.
#[test]
fn tcp_protocols_fall_back_to_direct_probe_without_clash_api() {
    let n = node("n", Protocol::Shadowsocks);
    let r = probe_result(&n, probe_route(&n, false), Err("refused".into()), 0);
    assert_eq!(r.method, "tcp");
}

// Without a running core there is no way to speak QUIC-only protocols at
// all — a raw TCP probe would always time out and look like a dead node.
#[test]
fn udp_only_protocols_report_unsupported_without_clash_api() {
    let n = node("n", Protocol::Hysteria2);
    assert!(matches!(probe_route(&n, false), ProbeRoute::Unsupported));
    let r = unsupported_result(&n, 0);
    assert_eq!(r.method, "unsupported");
    assert!(r.latency_ms.is_none());
    assert!(r.error.is_some());
}

// The ping button must not tell users to "start the core" — it never
// uses the core at all. QUIC-only protocols are simply unpingable.
#[test]
fn ping_nodes_flags_quic_only_without_core_not_running_note() {
    let n = node("n", Protocol::Hysteria2);
    let results = note_pings(vec![unsupported_result(&n, 0)]);
    assert_eq!(results[0].method, "unsupported");
    let err = results[0].error.as_deref().unwrap_or_default();
    assert!(
        !err.contains("core not running"),
        "ping note must not claim the core is stopped: {err}"
    );
}

// Smart-switch ranking: TCP-capable nodes ride the fast TCP ping even
// when the clash API is available; QUIC-only nodes fall back to the
// through-kernel URL probe. Order follows the input.
#[test]
fn ranked_probes_use_tcp_for_tcp_capable_and_clash_for_quic() {
    let nodes = vec![
        node("a", Protocol::Shadowsocks),
        node("b", Protocol::Hysteria2),
    ];
    let (tcp, udp) = split_by_transport(&nodes);
    assert_eq!((tcp, udp), (vec![0], vec![1]));
    let results = merge_ranked(
        &nodes,
        &vec![probe_result(&nodes[0], ProbeRoute::Tcp, Ok(3), 0)],
        &vec![probe_result(&nodes[1], ProbeRoute::Core, Ok(9), 0)],
        0,
    );
    assert_eq!(results.len(), 2);
    assert_eq!(results[0].id, nodes[0].id, "caller order must be kept");
    assert_eq!(results[0].method, "tcp");
    assert_eq!(results[1].method, "clash_api");
}

#[test]
fn failures_use_shorter_cache_ttl() {
    assert_eq!(cache_ttl(&result(Some(1))), CACHE_TTL_MS);
    assert_eq!(cache_ttl(&result(None)), FAILURE_CACHE_TTL_MS);
}

#[test]
fn fresh_results_are_reused() {
    let mut cache = ProbeCache::new(0);
    cache.cache_result("ok".into(), result(Some(42)), 0);
    cache.cache_result("bad".into(), result(None), 0);
    assert_eq!(
        cache
            .cached_result("ok", FAILURE_CACHE_TTL_MS + 1)
            .unwrap()
            .latency_ms,
        Some(42)
    );
    assert!(cache.cached_result("bad", FAILURE_CACHE_TTL_MS - 1).is_some());
    assert!(cache.cached_result("bad", FAILURE_CACHE_TTL_MS + 1).is_none());
    assert!(cache.cached_result("ok", CACHE_TTL_MS + 1).is_none());
    assert!(cache.cached_result("unknown", 0).is_none());
}

#[test]
fn full_cache_is_emptied_in_part() {
    let mut cache = ProbeCache::new(0);
    for i in 0..MAX_CACHE_ENTRIES + 1 {
        cache.cache_result(format!("k{i}"), result(Some(1)), i as u64);
    }
    let left = (0..MAX_CACHE_ENTRIES + 1)
        .filter(|i| cache.cached_result(&format!("k{i}"), 5_000).is_some())
        .count();
    assert_eq!(left, CACHE_TRIM_TO);
    // The newest result is among them.
    assert!(cache
        .cached_result(&format!("k{MAX_CACHE_ENTRIES}"), 5_000)
        .is_some());
}

#[test]
fn probes_are_told_apart_by_their_keys() {
    let n = node("0123456789abcdef0123", Protocol::Shadowsocks);
    assert_eq!(
        tcp_probe_key(&n, 200),
        "tcp|0123456789abcdef0123|127.0.0.1|1|200"
    );
    assert_eq!(
        core_probe_key("http://h", "s", &n, "http://p", 9),
        "clash|http://h|s|0123456789abcdef0123|node-0123456789abcdef|http://p|9"
    );
}

#[test]
fn second_delay_counts() {
    assert_eq!(unified_delay(Ok(90), Ok(40)), Ok(40));
    assert_eq!(unified_delay(Ok(90), Err("x".into())), Ok(90));
    assert_eq!(unified_delay(Err("x".into()), Ok(40)), Ok(40));
    assert_eq!(
        unified_delay(Err("a".into()), Err("b".into())),
        Err("a; retry: b".to_string())
    );
    let ordered = ordered_results(
        &vec![(1, result(Some(2))), (0, result(Some(1)))],
        vec![lost_result("panic".into(), 0)],
    );
    assert_eq!(
        ordered.iter().map(|r| r.latency_ms).collect::<Vec<_>>(),
        vec![Some(1), Some(2), None]
    );
}

#[test]
fn identical_in_flight_probes_are_coalesced_and_cached() {
    let mut desk = ProbeDesk::new(0);
    let mut calls = 0;
    for _ in 0..12 {
        match desk.ask("coalesce", 0) {
            DeskStep::Probe => calls += 1,
            DeskStep::Wait => {}
            other => panic!("{other:?}"),
        }
    }
    desk.ended("coalesce".into(), result(Some(42)), 20);
    for _ in 0..12 {
        match desk.ask("coalesce", 21) {
            DeskStep::Take(r) => assert_eq!(r.latency_ms, Some(42)),
            other => panic!("fresh successful result must be reused: {other:?}"),
        }
    }
    assert_eq!(calls, 1);
}

#[test]
fn global_probe_concurrency_never_exceeds_thirty() {
    let mut desk = ProbeDesk::new(0);
    let mut active = 0;
    for i in 0..45 {
        match desk.ask(&format!("global-{i}"), 0) {
            DeskStep::Probe => active += 1,
            DeskStep::Queue => {}
            other => panic!("{other:?}"),
        }
    }
    assert_eq!(active, GLOBAL_CONCURRENCY);
    assert!(active <= 30);
    // One that is given up makes room.
    desk.lost("global-0");
    assert!(matches!(desk.ask("global-44", 0), DeskStep::Probe));
    assert!(matches!(desk.ask("global-0", 0), DeskStep::Queue));
}
