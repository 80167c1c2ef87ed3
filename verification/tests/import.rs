use satelite::domain::node::{
    ParseResult, Protocol, ProtocolConfig, ProxyNode, SkippedProxy, SubscriptionFormat,
};
use satelite::domain::subscription::{SubscriptionSource, SubscriptionTraffic};
use satelite::error::AppError;
use satelite::services::disposition::{
    parse_content_disposition_filename, parse_disposition_filename_str,
};
use satelite::services::import::{
    body_text, build_outcome, check_url, fetch_failure, fetch_proxy, import_fetched, import_from_file_with_id,
    import_from_node, import_from_singbox, import_from_text, name_from_url, split_remark_nodes,
    subscription_id, subscription_user_agent, FetchedBody, FileFacts, ImportContext, NodeEntry,
    MAX_BODY_BYTES,
};
use satelite::services::quota::{
    apply_remark_name, days_from_civil, parse_expire_timestamp, parse_subscription_userinfo,
    parse_userinfo_from_content, parse_userinfo_str, remark_size_texts, size_parts,
    userinfo_values, FloatReading, Header,
};
use satelite::web::canonical_subscription_url;

fn parse_size_to_bytes(s: &str) -> Option<u64> {
    let (number, power) = size_parts(s)?;
    let num: f64 = number.parse().ok()?;
    if !num.is_finite() || num < 0.0 {
        return None;
    }
    Some((num * 1024.0_f64.powi(power as i32)).round() as u64)
}

fn sizes_in(names: &[&str]) -> Vec<(String, u64)> {
    names
        .iter()
        .flat_map(|name| remark_size_texts(name))
        .filter_map(|text| parse_size_to_bytes(&text).map(|b| (text, b)))
        .collect()
}

fn floats_in(raw: &str) -> Vec<(String, FloatReading)> {
    userinfo_values(raw)
        .into_iter()
        .filter_map(|text| {
            let f: f64 = text.parse().ok()?;
            let reading = FloatReading {
                rounded: f.round() as u64,
                truncated: f as i64,
            };
            Some((text, reading))
        })
        .collect()
}

fn used_ratio(t: &SubscriptionTraffic) -> Option<f64> {
    let total = t.total.filter(|&t| t > 0)? as f64;
    Some((t.used() as f64 / total).clamp(0.0, 1.0))
}

fn context(names: &[&str]) -> ImportContext {
    ImportContext {
        now: 1_700_000_000,
        nanos: Some(5),
        sizes: sizes_in(names),
        floats: vec![],
    }
}

fn shadowsocks(name: &str, password: &str) -> ProxyNode {
    ProxyNode {
        id: String::new(),
        name: name.into(),
        protocol: Protocol::Shadowsocks,
        server: "example.com".into(),
        port: 8388,
        tls: None,
        transport: None,
        udp: None,
        config: ProtocolConfig::Shadowsocks {
            method: "aes-128-gcm".into(),
            password: password.into(),
            plugin: None,
            plugin_opts: None,
            shadow_tls: None,
        },
        source: None,
        latency_ms: None,
        latency_at: None,
    }
}

fn hysteria2(name: &str) -> ProxyNode {
    ProxyNode {
        protocol: Protocol::Hysteria2,
        server: "203.10.98.188".into(),
        port: 443,
        config: ProtocolConfig::Hysteria2 {
            password: "8df42c5a-e1c4-44b8-8806-463573d05ac1".into(),
            up_mbps: None,
            down_mbps: None,
            obfs: None,
            obfs_password: None,
        },
        ..shadowsocks(name, "")
    }
}

fn parsed(nodes: Vec<ProxyNode>, format: SubscriptionFormat) -> ParseResult {
    ParseResult {
        nodes,
        skipped: vec![],
        format,
    }
}

#[test]
fn same_name_different_credentials_get_distinct_ids() {
    // Two nodes sharing name/server/port/protocol but differing only by
    // password: the ids hash credentials too, so they get
    // distinct ids directly (no more `node-<id[..16]>` tag collision).
    let outcome = build_outcome(
        "test-sub".into(),
        SubscriptionSource::Text {
            content: String::new(),
        },
        parsed(
            vec![shadowsocks("香港 01", "pass-a"), shadowsocks("香港 01", "pass-b")],
            SubscriptionFormat::UriList,
        ),
        None,
        false,
        &context(&[]),
    );
    assert_eq!(outcome.nodes.len(), 2);
    assert_ne!(outcome.nodes[0].id, outcome.nodes[1].id);
    // Ids must differ on the 16-hex prefix `outbound_tag` renders.
    assert_ne!(
        outcome.nodes[0].id[..16.min(outcome.nodes[0].id.len())],
        outcome.nodes[1].id[..16.min(outcome.nodes[1].id.len())]
    );
}

#[test]
fn node_id_survives_rename_and_resubscribe() {
    // The whole point of hashing on backend identity instead of name/sub
    // id: an airport renaming a node, or the user re-adding the same
    // subscription under a different URL, must not rotate the node's
    // id — otherwise manual selections and rule bindings silently break.
    let build = |name: &str, sub_url: &str| {
        build_outcome(
            "airport".into(),
            SubscriptionSource::Url {
                url: sub_url.into(),
            },
            parsed(
                vec![shadowsocks(name, "same-pass")],
                SubscriptionFormat::UriList,
            ),
            None,
            false,
            &context(&[]),
        )
    };
    // Same node, renamed by the airport on refresh.
    let before = build("HK-01", "https://sub.example.com/a");
    let after_rename = build("HK-01-renamed", "https://sub.example.com/a");
    assert_eq!(before.nodes[0].id, after_rename.nodes[0].id);

    // Same node, subscription re-added under a different URL.
    let after_resub = build("HK-01", "https://sub.example.com/b");
    assert_eq!(before.nodes[0].id, after_resub.nodes[0].id);
}

#[test]
fn parse_userinfo_basic() {
    let t = parse_userinfo_str(
        "upload=1073741824; download=2147483648; total=1073741824000; expire=1893456000",
        &vec![],
    )
    .expect("parsed");
    assert_eq!(t.upload, Some(1_073_741_824));
    assert_eq!(t.download, Some(2_147_483_648));
    assert_eq!(t.total, Some(1_073_741_824_000));
    assert_eq!(t.expire, Some(1_893_456_000));
    assert_eq!(t.used(), 3_221_225_472);
    assert!(used_ratio(&t).unwrap() < 0.01);
    assert!(t.remaining().unwrap() > 1_000_000_000_000);
}

#[test]
fn parse_userinfo_like_flclash() {
    // Same string shape FlClash tests use
    let t = parse_userinfo_str("upload=10; download=20; total=100; expire=200", &vec![]).unwrap();
    assert_eq!(t.upload, Some(10));
    assert_eq!(t.download, Some(20));
    assert_eq!(t.total, Some(100));
    assert_eq!(t.used(), 30);
    assert!((used_ratio(&t).unwrap() - 0.3).abs() < 1e-9);
}

#[test]
fn userinfo_takes_fractions() {
    let raw = "upload=1.5e3; download=2; total=\"4000.6\"; expire=1893456000.9";
    let t = parse_userinfo_str(raw, &floats_in(raw)).unwrap();
    assert_eq!(t.upload, Some(1500));
    assert_eq!(t.total, Some(4001));
    assert_eq!(t.expire, Some(1_893_456_000));
}

#[test]
fn subscription_ua_contains_clash_verge() {
    let ua = subscription_user_agent();
    assert!(ua.to_ascii_lowercase().contains("clash-verge"), "ua={ua}");
    assert!(ua.to_ascii_lowercase().contains("flclash"), "ua={ua}");
}

#[test]
fn parse_disposition_filename_star_utf8() {
    // 良心云
    let d = "attachment;filename*=UTF-8''%E8%89%AF%E5%BF%83%E4%BA%91";
    let name = parse_disposition_filename_str(d).expect("name");
    assert_eq!(name, "良心云");
}

#[test]
fn parse_disposition_filename_star_with_ext() {
    let d = r#"attachment; filename*=UTF-8''%E6%B5%8B%E8%AF%95.yaml"#;
    let name = parse_disposition_filename_str(d).expect("name");
    assert_eq!(name, "测试");
}

#[test]
fn parse_disposition_filename_plain() {
    let d = r#"attachment; filename="my-sub.yaml""#;
    let name = parse_disposition_filename_str(d).expect("name");
    assert_eq!(name, "my-sub");
}

#[test]
fn parse_disposition_prefers_star_over_plain() {
    let d = r#"attachment; filename="fallback.yaml"; filename*=UTF-8''%E4%BC%98%E5%85%88"#;
    let name = parse_disposition_filename_str(d).expect("name");
    assert_eq!(name, "优先");
}

#[test]
fn disposition_comes_as_bytes() {
    assert_eq!(parse_content_disposition_filename(None), None);
    assert_eq!(
        parse_content_disposition_filename(Some(&b"attachment; filename=a.txt".to_vec())),
        Some("a".to_string())
    );
}

#[test]
fn parse_userinfo_empty() {
    assert!(parse_userinfo_str("", &vec![]).is_none());
    assert!(parse_userinfo_str("foo=bar", &vec![]).is_none());
}

#[test]
fn parse_userinfo_from_yaml_comment() {
    let yaml = r#"# upload=455727941; download=6174315083; total=1073741824000; expire=1671815872;

proxies:
  - name: a
    type: ss
"#;
    let t = parse_userinfo_from_content(yaml, &vec![]).expect("body comment");
    assert_eq!(t.upload, Some(455_727_941));
    assert_eq!(t.download, Some(6_174_315_083));
    assert_eq!(t.total, Some(1_073_741_824_000));
    assert_eq!(t.expire, Some(1_671_815_872));
}

#[test]
fn userinfo_is_read_from_the_header() {
    let headers = vec![
        Header {
            name: "content-type".into(),
            value: "text/plain".into(),
        },
        Header {
            name: "subscription-userinfo".into(),
            value: "upload=1; download=2; total=9".into(),
        },
    ];
    let t = parse_subscription_userinfo(&headers, &vec![]).unwrap();
    assert_eq!(t.used(), 3);
    assert_eq!(t.remaining(), Some(6));
}

#[test]
fn parse_size_tb() {
    let b = parse_size_to_bytes("2.41 TB").unwrap();
    assert!((b as f64 - 2.41 * 1024f64.powi(4)).abs() < 1024.0 * 1024.0);
    assert_eq!(parse_size_to_bytes("1000G").unwrap(), 1000 * 1024u64.pow(3));
}

#[test]
fn sizes_have_a_number_and_a_unit() {
    assert_eq!(size_parts(" 1,024 MiB "), Some(("1024".to_string(), 2)));
    assert_eq!(size_parts("-7"), Some(("7".to_string(), 0)));
    assert_eq!(size_parts("7 parsec"), None);
    assert_eq!(size_parts("GB"), None);
    assert_eq!(size_parts("无限"), None);
}

#[test]
fn remark_remaining_and_expire() {
    let sizes = sizes_in(&["剩余流量：2.41 TB"]);
    let mut t = SubscriptionTraffic::default();
    assert!(apply_remark_name("剩余流量：2.41 TB", &mut t, &sizes));
    assert!(apply_remark_name("套餐到期：长期有效", &mut t, &sizes));
    assert_eq!(t.expire_text.as_deref(), Some("长期有效"));
    let rem = t.quota_remaining.unwrap();
    assert!(rem > 2 * 1024u64.pow(4));
    assert!(rem < 3 * 1024u64.pow(4));
}

#[test]
fn split_filters_remark_nodes() {
    let mk = |name: &str| ProxyNode {
        id: name.into(),
        protocol: Protocol::Vless,
        server: "cfyes.example.com".into(),
        port: 443,
        config: ProtocolConfig::Vless {
            uuid: "x".into(),
            flow: None,
            packet_encoding: "xudp".into(),
        },
        ..shadowsocks(name, "")
    };
    let (traffic, real) = split_remark_nodes(
        vec![
            mk("剩余流量：2.41 TB"),
            mk("套餐到期：长期有效"),
            mk("HK-01"),
        ],
        &sizes_in(&["剩余流量：2.41 TB"]),
    );
    assert_eq!(real.len(), 1);
    assert_eq!(real[0].name, "HK-01");
    let t = traffic.unwrap();
    assert!(t.quota_remaining.is_some());
    assert_eq!(t.expire_text.as_deref(), Some("长期有效"));
}

#[test]
fn local_link_parse_keeps_hysteria2_named_like_quota() {
    let uri = "hysteria2://8df42c5a-e1c4-44b8-8806-463573d05ac1@203.10.98.188:443/?insecure=false&sni=www.bing.com#%E5%89%A9%E4%BD%99%E6%B5%81%E9%87%8F%EF%BC%9A977.82%20GB";
    let name = "剩余流量：977.82 GB";
    let outcome = import_from_text(
        Some("hy2-test".into()),
        uri.into(),
        None,
        Ok(parsed(vec![hysteria2(name)], SubscriptionFormat::UriList)),
        &context(&[name]),
    )
    .unwrap();
    assert_eq!(outcome.nodes.len(), 1);
    assert_eq!(outcome.subscription.node_count, 1);
    assert!(outcome.subscription.traffic.is_none());
    assert_eq!(outcome.nodes[0].server, "203.10.98.188");
    assert_eq!(outcome.nodes[0].port, 443);
    assert_ne!(outcome.nodes[0].name, "剩余流量：977.82 GB");
    assert_eq!(outcome.nodes[0].name, "hysteria2-203.10.98.188-443");
}

#[test]
fn same_hysteria2_with_different_fragments_is_one_node() {
    let a = "hysteria2://8df42c5a-e1c4-44b8-8806-463573d05ac1@203.10.98.188:443/?insecure=false&sni=www.bing.com#%E5%89%A9%E4%BD%99%E6%B5%81%E9%87%8F%EF%BC%9A977.82%20GB";
    let b = "hysteria2://8df42c5a-e1c4-44b8-8806-463573d05ac1@203.10.98.188:443/?insecure=false&sni=www.bing.com#%E5%A5%97%E9%A4%90%E5%88%B0%E6%9C%9F%EF%BC%9A%E9%95%BF%E6%9C%9F%E6%9C%89%E6%95%88";
    let names = ["剩余流量：977.82 GB", "套餐到期：长期有效"];
    let outcome = import_from_text(
        Some("hy2-dup".into()),
        format!("{a}\n{b}"),
        None,
        Ok(parsed(
            vec![hysteria2(names[0]), hysteria2(names[1])],
            SubscriptionFormat::UriList,
        )),
        &context(&names),
    )
    .unwrap();
    assert_eq!(outcome.nodes.len(), 1);
    assert_eq!(outcome.subscription.node_count, 1);
}

#[test]
fn local_import_of_full_clash_config_matches_parser() {
    let names = ["a", "b", "c", "d", "e", "f", "g", "h"];
    let nodes = names.iter().map(|n| shadowsocks(n, n)).collect();
    let outcome = import_from_text(
        Some("clash".into()),
        "proxies:\n".into(),
        None,
        Ok(parsed(nodes, SubscriptionFormat::ClashYaml)),
        &context(&names),
    )
    .unwrap();
    assert_eq!(outcome.nodes.len(), 8);
    assert_eq!(outcome.subscription.node_count, 8);
    assert_eq!(outcome.subscription.skipped_count, 0);
    assert_eq!(outcome.subscription.format.as_deref(), Some("clash_yaml"));
}

#[test]
fn same_backend_different_names_stay_separate() {
    let base = "hysteria2://8df42c5a-e1c4-44b8-8806-463573d05ac1@203.10.98.188:443/?insecure=false&sni=www.bing.com";
    let body = format!("{base}#HK-01\n{base}#HK-02\n{base}#JP-01");
    let outcome = import_from_text(
        Some("airport".into()),
        body,
        None,
        Ok(parsed(
            vec![hysteria2("HK-01"), hysteria2("HK-02"), hysteria2("JP-01")],
            SubscriptionFormat::UriList,
        )),
        &context(&[]),
    )
    .unwrap();
    assert_eq!(outcome.nodes.len(), 3);
    assert_eq!(outcome.subscription.node_count, 3);
    let mut names: Vec<_> = outcome.nodes.iter().map(|n| n.name.as_str()).collect();
    names.sort_unstable();
    assert_eq!(names, ["HK-01", "HK-02", "JP-01"]);
    // No two of them share a tag.
    assert_ne!(outcome.nodes[0].id[..16], outcome.nodes[1].id[..16]);
    assert_ne!(outcome.nodes[1].id[..16], outcome.nodes[2].id[..16]);
}

// ---- addresses of subscriptions ----

#[test]
fn normalizes_only_safe_url_parts() {
    assert_eq!(
        canonical_subscription_url(" HTTPS://Example.COM:443#view "),
        Some("https://example.com/".into())
    );
    assert_eq!(
        canonical_subscription_url("http://example.com:80/path?b=2&a=1"),
        Some("http://example.com/path?b=2&a=1".into())
    );
}

#[test]
fn preserves_sensitive_path_and_query_order() {
    assert_ne!(
        canonical_subscription_url("https://example.com/Token?a=1&b=2"),
        canonical_subscription_url("https://example.com/token?b=2&a=1")
    );
}

#[test]
fn equal_addresses_are_one_subscription() {
    let id = |url: &str| {
        subscription_id(
            &SubscriptionSource::Url {
                url: url.to_string(),
            },
            None,
        )
    };
    assert_eq!(id("https://Example.com:443/a#x"), id(" https://example.com/a "));
    assert_ne!(id("https://example.com/a"), id("https://example.com/b"));
    // The first half of the SHA-256 of "url|https://example.com/a".
    assert_eq!(id("https://example.com/a"), "b20b82426d026c46b114ce532300778b");
    assert_eq!(name_from_url("https://sub.example.com/x"), "sub.example.com");
    assert_eq!(name_from_url("no url"), "Subscription");
}

#[test]
fn addresses_are_checked() {
    assert_eq!(
        check_url("  "),
        Err(AppError::Fetch("url is empty".to_string()))
    );
    assert_eq!(
        check_url("ftp://x"),
        Err(AppError::Fetch(
            "url must start with http:// or https://".to_string()
        ))
    );
    assert_eq!(check_url(" https://x "), Ok("https://x".to_string()));
    assert_eq!(
        fetch_failure(false, "timeout"),
        AppError::Fetch("timeout".to_string())
    );
}

// ---- ways in ----

#[test]
fn texts_that_hold_nothing_are_refused() {
    let none = || Ok(parsed(vec![], SubscriptionFormat::UriList));
    assert!(matches!(
        import_from_text(None, " \n".into(), None, none(), &context(&[])),
        Err(AppError::EmptySubscription)
    ));
    assert!(matches!(
        import_from_text(None, "x".repeat(MAX_BODY_BYTES + 1), None, none(), &context(&[])),
        Err(AppError::Io(_))
    ));
    assert!(matches!(
        import_from_text(
            None,
            "x".into(),
            None,
            Err(AppError::SubscriptionParse("no".into())),
            &context(&[])
        ),
        Err(AppError::SubscriptionParse(_))
    ));
    let outcome = import_from_text(None, "x".into(), None, none(), &context(&[])).unwrap();
    assert_eq!(outcome.subscription.name, "多节点");
    assert!(!outcome.subscription.auto_update);
    assert!(outcome.subscription.enabled);
}

#[test]
fn files_are_read_into_the_store() {
    let file = |exists: bool, len: u64| FileFacts {
        exists,
        len: Ok(len),
        content: Ok("vless://x".into()),
        stem: Some("home".into()),
    };
    let none = || Ok(parsed(vec![], SubscriptionFormat::UriList));
    assert!(matches!(
        import_from_file_with_id(None, "/f", file(false, 1), None, none(), &context(&[])),
        Err(AppError::Io(_))
    ));
    assert!(matches!(
        import_from_file_with_id(
            None,
            "/f",
            file(true, MAX_BODY_BYTES as u64 + 1),
            None,
            none(),
            &context(&[])
        ),
        Err(AppError::Io(_))
    ));
    let outcome =
        import_from_file_with_id(None, "/f", file(true, 9), None, none(), &context(&[])).unwrap();
    assert_eq!(outcome.subscription.name, "home");
    assert!(!outcome.subscription.via_proxy);
    assert_eq!(outcome.subscription.user_agent, None);
    assert_eq!(
        outcome.subscription.source,
        SubscriptionSource::Text {
            content: "vless://x".into()
        }
    );
}

#[test]
fn profiles_start_out_disabled() {
    let outcome =
        import_from_singbox(None, Ok("{}".into()), Some("id".into()), &context(&[])).unwrap();
    assert_eq!(outcome.subscription.id, "id");
    assert_eq!(outcome.subscription.name, "sing-box");
    assert!(!outcome.subscription.enabled);
    assert!(!outcome.subscription.via_proxy);
    assert_eq!(outcome.subscription.user_agent, None);
}

#[test]
fn a_node_needs_a_link_or_a_form() {
    assert!(matches!(
        import_from_node(None, NodeEntry::Missing, None, &context(&[])),
        Err(AppError::SubscriptionParse(_))
    ));
    let entry = NodeEntry::Link {
        uri: "ss://x".into(),
        parsed: Ok(ParseResult {
            nodes: vec![shadowsocks("mine", "p")],
            skipped: vec![SkippedProxy {
                name: None,
                reason: "unknown".into(),
            }],
            format: SubscriptionFormat::UriList,
        }),
    };
    let outcome = import_from_node(None, entry, None, &context(&[])).unwrap();
    assert_eq!(outcome.subscription.name, "mine");
    assert_eq!(outcome.subscription.skipped_count, 1);
    assert!(!outcome.subscription.via_proxy);
    assert_eq!(outcome.subscription.user_agent, None);
}

#[test]
fn a_fetch_may_go_through_the_client() {
    assert_eq!(fetch_proxy(false, Some(7890)), None);
    assert_eq!(
        fetch_proxy(true, Some(7890)).as_deref(),
        Some("http://127.0.0.1:7890")
    );
    assert_eq!(fetch_proxy(true, None).as_deref(), Some("http://127.0.0.1:2080"));
}

#[test]
fn bodies_that_are_no_text_are_read_all_the_same() {
    assert_eq!(body_text("é: 1".as_bytes()), "é: 1");
    assert_eq!(body_text(b"a\xffb"), "a\u{fffd}b");
}

#[test]
fn fetched_subscriptions_carry_their_quota() {
    let body = FetchedBody {
        headers: vec![Header {
            name: "subscription-userinfo".into(),
            value: "upload=1; download=2; total=9".into(),
        }],
        disposition: Some("attachment; filename=air.yaml".into()),
        content: "proxies:".into(),
    };
    let outcome = import_fetched(
        None,
        "https://example.com/s".into(),
        None,
        true,
        Some("mine/1".into()),
        &body,
        parsed(vec![shadowsocks("HK", "p")], SubscriptionFormat::ClashYaml),
        &context(&[]),
    );
    assert_eq!(outcome.subscription.name, "air");
    assert!(outcome.subscription.via_proxy);
    assert_eq!(outcome.subscription.user_agent.as_deref(), Some("mine/1"));
    let traffic = outcome.subscription.traffic.unwrap();
    assert_eq!(traffic.total, Some(9));
    assert_eq!(traffic.used(), 3);
}

#[test]
fn days_are_counted_from_the_epoch() {
    assert_eq!(days_from_civil(1970, 1, 1), Some(0));
    assert_eq!(days_from_civil(2000, 3, 1), Some(11_017));
    assert_eq!(days_from_civil(1969, 12, 31), Some(-1));
    assert_eq!(days_from_civil(2024, 13, 1), None);
    assert_eq!(parse_expire_timestamp("1893456000"), Some(1_893_456_000));
}
