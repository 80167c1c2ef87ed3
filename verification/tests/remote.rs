use satelite::digest::Stamp;
use satelite::domain::rule::{RuleSet, RuleTarget};
use satelite::error::AppError;
use satelite::log_frame::{frame_of_members, FrameMember, LogFrame};
use satelite::log_listener::{
    dest_host_key, failure_in_frame, listen_step, parse_dial_failure, parse_dial_failure_frame,
    ListenStep,
};
use satelite::remote_rule_auto::{
    begin_refresh, cache_file_name, complete_refresh, due_ids, fail_refresh, heal_contains_ip,
    is_binary_set, old_file, orphaned_files, validate_source, ActiveDownloads, CacheEntry,
    CacheReading, RuleSetFileFormat,
};

// ---- dial failures in the log ----

#[test]
fn parses_rule_matched_dial_failure() {
    let line = parse_dial_failure(
        "[TCP] dial proxy (match RuleSet/proxy) 192.168.1.2:52341 --> github.com:443 error: dial tcp 13.250.231.171:39645: i/o timeout",
    )
    .expect("should parse");
    assert_eq!(line.proxy, "proxy");
    assert_eq!(line.dest, "github.com");
}

#[test]
fn parses_retry_line_and_pinned_node() {
    let line = parse_dial_failure(
        "[TCP] dial node-2db123c73eacab2b (match GeoSite/cn) 192.168.1.2:1 --> ipwho.is:443 error: connect: connection refused, retry 2",
    )
    .expect("should parse");
    assert_eq!(line.proxy, "node-2db123c73eacab2b");
    assert_eq!(line.dest, "ipwho.is");
}

#[test]
fn parses_rule_nil_form() {
    let line = parse_dial_failure(
        "[UDP] dial GLOBAL 192.168.1.2:1 --> 8.8.8.8:53 error: dial udp: i/o timeout",
    )
    .expect("should parse");
    assert_eq!(line.proxy, "GLOBAL");
    assert_eq!(line.dest, "8.8.8.8");
}

#[test]
fn parses_ipv6_destination() {
    let line = parse_dial_failure(
        "[TCP] dial proxy (match Match) ::1 --> [2001:db8::1]:443 error: i/o timeout",
    )
    .expect("should parse");
    assert_eq!(line.dest, "2001:db8::1");
}

#[test]
fn ignores_non_dial_lines() {
    assert!(parse_dial_failure(
        "[TCP] connected 1.2.3.4:443 --> github.com:443 match RuleSet/x using proxy"
    )
    .is_none());
    assert!(parse_dial_failure("start initial compatible provider(PROXY) fetch").is_none());
    // Info-level connection-matched lines (shape check only — the level
    // filter already rejects them before parsing).
    assert!(parse_dial_failure("[TCP] connected ...").is_none());
}

#[test]
fn frame_level_filter() {
    let warn = parse_dial_failure_frame(
        r#"{"type":"warning","payload":"[TCP] dial proxy (match Match) a --> b.com:443 error: x"}"#,
    );
    assert!(warn.is_some());
    let info = parse_dial_failure_frame(
        r#"{"type":"info","payload":"[TCP] dial proxy (match Match) a --> b.com:443 error: x"}"#,
    );
    assert!(info.is_none());
    let not_json = parse_dial_failure_frame("not json");
    assert!(not_json.is_none());
}

#[test]
fn frames_are_read_as_their_fields_ask() {
    let line = "[TCP] dial node-a (match Match) a --> b.com:443 error: x";
    let reads = |text: String| parse_dial_failure_frame(&text).map(|f| (f.proxy, f.dest));
    let found = Some(("node-a".to_string(), "b.com".to_string()));
    assert_eq!(reads(format!(r#" {{ "payload" : "{line}" , "type":"ERROR" }} "#)), found);
    // Escapes are read, in names too.
    assert_eq!(
        reads(format!(r#"{{"t\u0079pe":"w\u0061rning","payload":"{line}"}}"#)),
        found
    );
    // The two in a list, and nothing more.
    assert_eq!(reads(format!(r#"["warning", "{line}"]"#)), found);
    assert_eq!(reads(format!(r#"["warning", "{line}", 1]"#)), None);
    assert_eq!(reads(format!(r#"["warning", "{line}",]"#)), None);
    assert_eq!(reads(r#"["warning"]"#.to_string()), None);
    // Other members are passed over, whatever they hold, and however often they come.
    for other in ["1e999", r#""\ud800""#, r#"{"type":[null]}"#, "-0.5"] {
        assert_eq!(
            reads(format!(
                r#"{{"a":{other},"type":"warning","a":true,"payload":"{line}"}}"#
            )),
            found,
            "{other}"
        );
    }
    let deep = "[".repeat(300) + &"]".repeat(300);
    assert_eq!(
        reads(format!(r#"{{"a":{deep},"type":"warning","payload":"{line}"}}"#)),
        found
    );
    // A field comes once, and is a text.
    assert_eq!(
        reads(format!(r#"{{"type":"warning","type":"warning","payload":"{line}"}}"#)),
        None
    );
    assert_eq!(reads(format!(r#"{{"type":1,"payload":"{line}"}}"#)), None);
    assert_eq!(reads(format!(r#"{{"payload":"{line}"}}"#)), None);
    assert_eq!(reads(format!(r#"{{"type":"warning","payload":"{line}",}}"#)), None);
    assert_eq!(reads(format!(r#"{{"type":"warning","payload":"{line}"}} x"#)), None);
    assert_eq!(reads(format!(r#"{{"type" "warning","payload":"{line}"}}"#)), None);
    assert_eq!(reads(format!(r#"{{"a":1x,"type":"warning","payload":"{line}"}}"#)), None);
    assert_eq!(reads(String::new()), None);
    assert_eq!(reads("{}".to_string()), None);
}

#[test]
fn members_make_a_frame() {
    let member = |name: &str, text: Option<&str>| FrameMember {
        name: name.into(),
        text: text.map(str::to_string),
    };
    let frame = frame_of_members(&vec![
        member("payload", Some("line")),
        member("other", None),
        member("type", Some("error")),
    ])
    .unwrap();
    assert_eq!((frame.level.as_str(), frame.payload.as_str()), ("error", "line"));
    assert!(frame_of_members(&vec![
        member("payload", Some("line")),
        member("type", Some("error")),
        member("type", None),
    ])
    .is_none());
    let info = LogFrame {
        level: "info".into(),
        payload: "[TCP] dial node-a x --> b.com:443 error: x".into(),
    };
    assert!(failure_in_frame(Some(info)).is_none());
    assert!(failure_in_frame(None).is_none());
}

#[test]
fn dest_key_shapes() {
    assert_eq!(dest_host_key("github.com:443"), "github.com");
    assert_eq!(dest_host_key("[2001:db8::1]:443"), "2001:db8::1");
    assert_eq!(dest_host_key("2001:db8::1"), "2001:db8::1");
    assert_eq!(dest_host_key("1.2.3.4:80"), "1.2.3.4");
    assert_eq!(dest_host_key("bare-host"), "bare-host");
}

#[test]
fn only_a_running_mihomo_is_listened_to() {
    assert!(matches!(listen_step(false, true, true, true), ListenStep::Listen));
    assert!(matches!(listen_step(true, true, true, true), ListenStep::Idle));
    assert!(matches!(listen_step(false, true, false, true), ListenStep::Idle));
    assert!(matches!(listen_step(false, false, true, true), ListenStep::Idle));
    assert!(matches!(listen_step(false, true, true, false), ListenStep::Idle));
}

// ---- remote rule sets ----

fn remote_set(name: &str, url: &str, target: RuleTarget, format: &str, path: &str) -> RuleSet {
    let mut set = RuleSet::new_remote(name, url, target, Stamp { nanos: 1, pid: 1 });
    let remote = set.remote.as_mut().unwrap();
    remote.format = format.into();
    remote.local_path = Some(path.into());
    remote.contains_ip = None;
    set
}

#[test]
fn removes_only_unreferenced_rule_cache_files() {
    let entry = |path: &str, extension: &str, referenced: bool| CacheEntry {
        path: path.into(),
        extension: Some(extension.into()),
        referenced,
        is_file: true,
    };
    let entries = vec![
        entry("referenced.json", "json", true),
        entry("orphaned.srs", "srs", false),
        entry("keep.txt", "txt", false),
    ];
    assert_eq!(orphaned_files(&entries), vec!["orphaned.srs".to_string()]);
}

#[test]
fn active_download_guard_releases_id_when_dropped() {
    let mut active = ActiveDownloads::new();
    let id = "remote-download-guard";
    assert!(active.acquire(id).is_ok(), "first download acquires id");
    assert!(active.acquire(id).is_err());
    active.release(id);
    assert!(active.acquire(id).is_ok());
}

#[test]
fn heal_contains_ip_backfills_stale_remote_sets() {
    // Sets downloaded before the `contains_ip` metadata existed carry `None`;
    // the builder then assumes domain-only and emits a DNS-side `rule_set`
    // reference that sing-box 1.14 rejects as Legacy Address Filter Fields once
    // a fakeip rule exists. The heal re-scans each cache once.
    let domain_json = br#"{"version":3,"rules":[{"domain_suffix":["ads.example"]}]}"#.to_vec();
    let mixed_json =
        br#"{"version":3,"rules":[{"domain_suffix":["a.com"]},{"ip_cidr":["1.0.1.0/24"]}]}"#
            .to_vec();

    let mut already_labeled = remote_set(
        "Labeled",
        "https://e.com/l.json",
        RuleTarget::Proxy,
        "source",
        "block.json",
    );
    already_labeled.remote.as_mut().unwrap().contains_ip = Some(false);
    let mut sets = vec![
        remote_set(
            "Binary IP",
            "https://e.com/cn.srs",
            RuleTarget::Direct,
            "binary",
            "geoip.srs",
        ),
        remote_set(
            "Source Domain",
            "https://e.com/b.json",
            RuleTarget::Proxy,
            "source",
            "block.json",
        ),
        remote_set(
            "Source Mixed",
            "https://e.com/m.json",
            RuleTarget::Proxy,
            "source",
            "mixed.json",
        ),
        already_labeled,
        remote_set(
            "Junk",
            "https://e.com/j.srs",
            RuleTarget::Proxy,
            "binary",
            "junk.srs",
        ),
        remote_set(
            "Missing",
            "https://e.com/x.json",
            RuleTarget::Proxy,
            "source",
            "does-not-exist.json",
        ),
    ];
    let readings = vec![
        CacheReading::Binary(Some(true)),
        CacheReading::Bytes(domain_json.clone()),
        CacheReading::Bytes(mixed_json.clone()),
        CacheReading::Bytes(mixed_json),
        CacheReading::Binary(None),
        CacheReading::Missing,
    ];
    heal_contains_ip(&mut sets, &readings);

    let verdict = |name: &str| {
        sets.iter()
            .find(|set| set.name == name)
            .and_then(|set| set.remote.as_ref())
            .and_then(|remote| remote.contains_ip)
    };
    assert_eq!(verdict("Binary IP"), Some(true));
    assert_eq!(verdict("Source Domain"), Some(false));
    assert_eq!(verdict("Source Mixed"), Some(true));
    // Already-labeled entries are not re-scanned; unreadable caches and
    // missing files keep `None` (conservative domain-only assumption).
    assert_eq!(verdict("Labeled"), Some(false));
    assert_eq!(verdict("Junk"), None);
    assert_eq!(verdict("Missing"), None);
}

#[test]
fn accepts_sing_box_source_json() {
    assert_eq!(
        validate_source(br#"{"version":3,"rules":[{"domain_suffix":["example.com"]}]}"#),
        Ok((1, false))
    );
}

#[test]
fn counts_expanded_matcher_values() {
    assert_eq!(
        validate_source(
            br#"{"version":3,"rules":[{"domain_suffix":["a.com","b.com"],"ip_cidr":["10.0.0.0/8"]}]}"#
        ),
        Ok((3, true))
    );
}

#[test]
fn rejects_html_and_empty_rules() {
    assert!(validate_source(b"<html>not a rule set</html>").is_err());
    assert!(validate_source(br#"{"version":3,"rules":[]}"#).is_err());
}

#[test]
fn binary_sets_have_a_mark() {
    assert!(is_binary_set(&[0x53, 0x52, 0x53, 0x02]));
    assert!(!is_binary_set(b"SR"));
    assert!(!is_binary_set(b"{\"version\":3}"));
}

#[test]
fn cache_files_are_named_by_set_and_moment() {
    assert_eq!(
        cache_file_name("system-cn", 17, RuleSetFileFormat::Binary),
        "system-cn-17.srs"
    );
    assert_eq!(
        cache_file_name("mine", -1, RuleSetFileFormat::Source),
        "mine--1.json"
    );
    assert_eq!(old_file(Some("a".into()), "b", true), Some("a".to_string()));
    assert_eq!(old_file(Some("a".into()), "a", true), None);
    assert_eq!(old_file(Some("a".into()), "b", false), None);
}

#[test]
fn a_download_is_noted_and_ends() {
    let mut set = remote_set(
        "R",
        "https://e.com/r.json",
        RuleTarget::Proxy,
        "source",
        "old.json",
    );
    set.id = "r".into();
    set.remote.as_mut().unwrap().update_interval = "1h".into();
    set.remote.as_mut().unwrap().last_attempt = Some(100);
    let mut sets = vec![set];
    assert!(due_ids(&sets, 3_699).is_empty());
    assert_eq!(due_ids(&sets, 3_700), vec!["r".to_string()]);

    assert_eq!(begin_refresh(&mut sets, "r", 3_700).unwrap(), "https://e.com/r.json");
    assert_eq!(sets[0].remote.as_ref().unwrap().download_status, "downloading");
    let old = complete_refresh(
        &mut sets,
        "r",
        RuleSetFileFormat::Source,
        "new.json".into(),
        3_700,
        5,
        true,
    )
    .unwrap();
    assert_eq!(old, Some("old.json".to_string()));
    let remote = sets[0].remote.as_ref().unwrap();
    assert_eq!(remote.local_path.as_deref(), Some("new.json"));
    assert_eq!(remote.rule_count, Some(5));
    assert_eq!(remote.contains_ip, Some(true));
    assert!(due_ids(&sets, 3_701).is_empty());

    fail_refresh(&mut sets, "r", "no route");
    assert_eq!(
        sets[0].remote.as_ref().unwrap().download_error.as_deref(),
        Some("no route")
    );
    assert!(matches!(
        begin_refresh(&mut sets, "unknown", 1),
        Err(AppError::NotFound(_))
    ));
}
