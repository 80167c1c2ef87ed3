use satelite::core_kind::CoreKind;
use satelite::domain::dns::{DnsSettings, HostsConfig, HostsEntry};
use satelite::domain::node::Protocol;
use satelite::domain::rule::{Rule, RuleSetStrategy, RuleTarget};
use satelite::domain::settings::{AppSettings, CaptureMode, OutboundMode, TrayIconStyle};
use satelite::domain::subscription::SubscriptionTraffic;
use satelite::health::PassiveNodeStats;
use satelite::order::{stable_order, SortKey};
use satelite::remote_rule_auto::{source_cache_contains_ip, validate_source};
use satelite::services::dns_path::{DnsDiagInput, DnsPathAnalyzer, DnsPathStrategy};
use satelite::smart_switch::{Controller, Phase, Signal, COOLDOWN_MS, MIN_DWELL_MS};

#[test]
fn core_names_read_back() {
    for kind in [CoreKind::SingBox, CoreKind::Xray, CoreKind::Mihomo] {
        assert_eq!(CoreKind::parse(kind.as_str()), kind);
    }
    assert_eq!(CoreKind::parse(" XRAY "), CoreKind::Xray);
    assert_eq!(CoreKind::parse("unknown"), CoreKind::SingBox);
}

#[test]
fn a_type_names_one_protocol() {
    assert_eq!(Protocol::from_clash_type("ss"), Some(Protocol::Shadowsocks));
    assert_eq!(Protocol::from_clash_type("hy2"), Some(Protocol::Hysteria2));
    assert_eq!(Protocol::from_clash_type(""), None);
}

#[test]
fn tray_icons_read_back() {
    for style in [
        TrayIconStyle::Badge,
        TrayIconStyle::Mark,
        TrayIconStyle::PacGhost,
        TrayIconStyle::Buddy,
        TrayIconStyle::Danger,
        TrayIconStyle::Danger2,
        TrayIconStyle::Ghost2,
        TrayIconStyle::Faceid,
    ] {
        assert_eq!(TrayIconStyle::parse(style.as_str()), Some(style));
    }
}

#[test]
fn tidy_keywords_stay_as_they_are() {
    let raw: Vec<String> = vec![" HK".into(), "hk".into(), " ".into(), "JP ".into()];
    let once = Rule::normalize_keywords(&raw);
    assert_eq!(once, vec!["HK".to_string(), "JP".to_string()]);
    assert_eq!(Rule::normalize_keywords(&once), once);
}

#[test]
fn plain_targets_survive_the_strategy() {
    for target in [RuleTarget::Direct, RuleTarget::Proxy, RuleTarget::Block] {
        assert_eq!(
            RuleSetStrategy::from_target(target).route_target(),
            Some(target)
        );
    }
}

#[test]
fn migrations_settle() {
    let mut s = AppSettings {
        tun_enabled: true,
        capture_mode: CaptureMode::Off,
        smart_switch: true,
        ..AppSettings::default()
    };
    s.migrate_capture_mode();
    s.migrate_auto_select();
    let (mode, tun, auto) = (s.capture_mode, s.tun_enabled, s.auto_select);
    s.migrate_capture_mode();
    s.migrate_auto_select();
    assert_eq!((mode, tun, auto), (s.capture_mode, s.tun_enabled, s.auto_select));
}

#[test]
fn merging_quotas_is_associative() {
    let quota = |upload, total, text: Option<&str>| {
        Some(SubscriptionTraffic {
            upload,
            total,
            expire_text: text.map(str::to_string),
            ..SubscriptionTraffic::default()
        })
    };
    let a = || quota(Some(1), None, None);
    let b = || quota(Some(2), Some(3), None);
    let c = || quota(None, Some(4), Some("never"));
    let left = SubscriptionTraffic::merge(SubscriptionTraffic::merge(a(), b()), c()).unwrap();
    let right = SubscriptionTraffic::merge(a(), SubscriptionTraffic::merge(b(), c())).unwrap();
    assert_eq!(left.upload, Some(1));
    assert_eq!(left.total, Some(3));
    assert_eq!(left.expire_text.as_deref(), Some("never"));
    assert_eq!(
        (left.upload, left.total, left.expire_text),
        (right.upload, right.total, right.expire_text)
    );
}

#[test]
fn a_kept_file_is_judged_as_the_download_was() {
    for text in [
        &br#"{"version":3,"rules":[{"ip_cidr":["10.0.0.0/8"]}]}"#[..],
        &br#"{"version":3,"rules":[{"domain":["a"]}]}"#[..],
    ] {
        let (_, holds) = validate_source(text).unwrap();
        assert_eq!(source_cache_contains_ip(text), Some(holds));
    }
    assert_eq!(source_cache_contains_ip(b"no json"), None);
}

#[test]
fn hosts_come_first_but_for_sing_box() {
    let mut dns = DnsSettings::default();
    dns.fake_ip.enabled = true;
    dns.rule_sets = Vec::new();
    dns.hosts = HostsConfig {
        enabled: true,
        include_system: false,
        entries: vec![HostsEntry {
            id: "h".into(),
            enabled: true,
            domain: "Pinned.Example".into(),
            addr: " 10.0.0.9 ".into(),
        }],
    };
    for core in ["mihomo", "xray", "singbox"] {
        let analyzer = DnsPathAnalyzer::build(&DnsDiagInput {
            core_type: core.into(),
            runtime_source: "generated".into(),
            tun_enabled: true,
            outbound_mode: OutboundMode::Rule,
            rule_sets: vec![],
            dns: dns.clone(),
            contents: vec![],
            system_hosts: vec![],
        });
        let path = analyzer.decide("pinned.example.");
        assert_eq!(path.strategy, DnsPathStrategy::Hosts);
        assert_eq!(path.servers, vec!["10.0.0.9（静态映射）".to_string()]);
    }
}

#[test]
fn stable_orders_keep_equal_items_in_place() {
    let key = |rank: i128, name: &str| SortKey {
        rank,
        name: name.to_string(),
    };
    let keys = vec![key(2, "b"), key(1, "z"), key(2, "a"), key(1, "z")];
    assert_eq!(stable_order(&keys), vec![1, 3, 2, 0]);
}

#[test]
fn soft_signals_wait_for_the_cooldown() {
    let mut c = Controller::default();
    c.mark_switched(0);
    let stats = PassiveNodeStats {
        total: 10,
        suspicious: 2,
        dests: 5,
        sus_dests: 2,
        consecutive_recent_sus: 0,
    };
    let during = MIN_DWELL_MS + COOLDOWN_MS - 1;
    assert!(c.tick_signal(&stats, true, during).is_none());
    assert!(c.tick_signal(&stats, true, during + 1).is_some());
    assert_eq!(c.phase, Phase::Probing);
}

#[test]
fn a_node_that_answers_has_not_failed() {
    let mut c = Controller::default();
    let hard = Signal {
        soft: false,
        hard: true,
        health_due: false,
    };
    let v = c.current_probed(hard, false, Some(40), &vec![], 0).unwrap();
    assert!(!v.hard_fail);
    let v = c.current_probed(hard, true, None, &vec![], 0).unwrap();
    assert!(v.hard_fail);
}
