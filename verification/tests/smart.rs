use satelite::core_kind::CoreKind;
use satelite::domain::node::{Protocol, ProtocolConfig, ProxyNode};
use satelite::domain::rule::{Rule, RuleTarget, RuleType};
use satelite::health::PassiveNodeStats;
use satelite::launch::{Launch, LaunchAction, LaunchEvent, Launched};
use satelite::refresh::{Refresh, RefreshAction, RefreshEvent};
use satelite::remote_rule_auto::{BinaryScan, RuleSetFileFormat};
use satelite::services::latency::LatencyResult;
use satelite::smart_bootstrap::{bootstrap_refusal, Bootstrap};
use satelite::smart_choice::{gather_pool, Choice, ChoiceAction, ChoiceEvent};
use satelite::smart_rule_pass::{PassAction, PassEvent, RulePass};
use satelite::smart_rules::{has_pool, pool_candidates, rule_probe_interval, RuleStates, RuleStep};
use satelite::smart_switch::{
    find_best, peers_of, pick_candidates, should_prefer, should_switch, Controller, Phase,
    COOLDOWN_MS, MIN_DWELL_MS, TOP_K,
};
use satelite::smart_tick::{CurrentProbe, Tick, TickAction, TickEvent};
use satelite::start::{WaitEvent, WaitStep};

fn node(id: &str, latency_ms: Option<u32>) -> ProxyNode {
    ProxyNode {
        id: id.into(),
        name: id.into(),
        protocol: Protocol::Trojan,
        server: "example.com".into(),
        port: 443,
        tls: None,
        transport: None,
        udp: None,
        config: ProtocolConfig::Trojan {
            password: "x".into(),
        },
        source: None,
        latency_ms,
        latency_at: None,
    }
}

fn answer(id: &str, latency_ms: Option<u32>) -> LatencyResult {
    LatencyResult {
        id: id.into(),
        name: id.into(),
        latency_ms,
        error: None,
        tested_at: 0,
        method: "tcp".into(),
    }
}

#[test]
fn healthy_smart_rules_probe_every_ten_minutes() {
    assert_eq!(rule_probe_interval(0), 600 * 1000);
}

#[test]
fn smart_rule_failures_back_off_up_to_ten_minutes() {
    let seconds: Vec<u64> = (1..=7)
        .map(|fails| rule_probe_interval(fails) / 1000)
        .collect();
    assert_eq!(seconds, vec![60, 120, 240, 480, 600, 600, 600]);
}

#[test]
fn expired_ejection_resets_failure_escalation() {
    let mut controller = Controller::default();
    let now: u64 = 100_000;
    controller
        .ejected
        .insert("recovered-node".into(), now - 1_000);
    controller.eject_counts.insert("recovered-node".into(), 4);

    controller.clear_eject_if_expired(now);

    assert!(!controller.ejected.contains_key("recovered-node"));
    assert!(!controller.eject_counts.contains_key("recovered-node"));
}

#[test]
fn a_new_node_stays_for_a_while() {
    let mut c = Controller::default();
    c.mark_switched(1_000);
    assert!(c.in_dwell(1_000 + MIN_DWELL_MS - 1));
    assert!(!c.in_dwell(1_000 + MIN_DWELL_MS));
    assert!(c.in_soft_cooldown(1_000 + COOLDOWN_MS - 1));
    assert!(!c.tick_gate(true, false, true, 1_001));
    assert_eq!(c.phase, Phase::Cooldown);
}

#[test]
fn ejected_nodes_are_left_out() {
    let mut c = Controller::default();
    c.eject("a", 0);
    assert_eq!(c.ejected_ids(1), vec!["a".to_string()]);
    let nodes = vec![node("a", None), node("b", None), node("c", None)];
    let picked = pick_candidates(
        &nodes,
        CoreKind::SingBox,
        Some("b"),
        &c.ejected_ids(1),
        &vec![1, 2, 3],
        TOP_K,
    );
    assert_eq!(picked, vec![2]);
}

#[test]
fn candidates_come_by_their_scores() {
    let nodes = vec![node("a", None), node("b", None), node("c", None)];
    let picked = pick_candidates(
        &nodes,
        CoreKind::SingBox,
        None,
        &vec![],
        &vec![30, 10, 20],
        2,
    );
    assert_eq!(picked, vec![1, 2]);
    assert_eq!(
        peers_of(
            &vec![node("a", Some(5)), node("b", None), node("c", Some(7))],
            CoreKind::SingBox,
            "a"
        ),
        vec![7]
    );
}

#[test]
fn small_gains_are_not_worth_a_change() {
    assert!(should_prefer(40, 100));
    assert!(!should_prefer(60, 100));
    assert!(!should_switch(Some(100), 60, false));
    assert!(should_switch(Some(100), 40, false));
    assert!(should_switch(Some(100), 400, true));
    // What is worth it one way is not worth it the other way.
    assert!(!(should_prefer(40, 100) && should_prefer(100, 40)));
}

#[test]
fn the_best_answer_has_the_lowest_score() {
    let results = vec![
        answer("a", Some(90)),
        answer("b", None),
        answer("c", Some(30)),
    ];
    assert_eq!(find_best(&results, &vec![9, 1, 3]), Some(2));
    assert_eq!(find_best(&vec![answer("b", None)], &vec![0]), None);
}

#[test]
fn a_failing_node_is_replaced() {
    let mut c = Controller::default();
    let now: u64 = 1_000_000;
    let (mut tick, action) = Tick::begin(&mut c, "cur".into(), true, false, true, now);
    assert_eq!(action, TickAction::Observe);
    let stats = PassiveNodeStats {
        total: 6,
        suspicious: 6,
        dests: 3,
        sus_dests: 3,
        consecutive_recent_sus: 6,
    };
    let action = tick.step(
        &mut c,
        TickEvent::Observed {
            stats,
            has_api: true,
        },
        now,
    );
    assert_eq!(action, TickAction::ProbeCurrent);
    let probe = CurrentProbe {
        failed: true,
        latency_ms: None,
    };
    let action = tick.step(
        &mut c,
        TickEvent::CurrentProbed {
            probe,
            peers: vec![],
        },
        now,
    );
    assert_eq!(action, TickAction::Choose);
    assert_eq!(
        tick.step(&mut c, TickEvent::Chosen(2), now),
        TickAction::ProbeCandidates
    );
    let action = tick.step(
        &mut c,
        TickEvent::Compared {
            results: vec![answer("x", None), answer("y", Some(50))],
            scores: vec![0, 50],
        },
        now,
    );
    assert_eq!(action, TickAction::Select(1, true));
    assert_eq!(
        tick.step(&mut c, TickEvent::Selected, now),
        TickAction::Stop
    );
    assert!(c.in_dwell(now + 1));
    assert_eq!(c.ejected_ids(now + 1), vec!["cur".to_string()]);
}

#[test]
fn a_disabled_switch_does_nothing() {
    let mut c = Controller::default();
    let (_, action) = Tick::begin(&mut c, "cur".into(), false, false, true, 0);
    assert_eq!(action, TickAction::Stop);
}

#[test]
fn the_first_choice_is_the_lowest_latency() {
    assert!(bootstrap_refusal(false, false, CoreKind::SingBox).is_some());
    assert!(bootstrap_refusal(true, true, CoreKind::SingBox).is_some());
    assert!(bootstrap_refusal(true, false, CoreKind::SingBox).is_none());
    let mut b = Bootstrap::new();
    b.absorb(&vec![answer("a", Some(90)), answer("b", Some(40))]);
    b.absorb(&vec![answer("c", Some(40)), answer("d", None)]);
    let r = b.conclude(Some("a".into()));
    assert!(r.switched);
    assert_eq!(r.message, "switched");
    assert_eq!(r.to_id.as_deref(), Some("b"));
    assert_eq!(r.latency_ms, Some(40));
    assert_eq!(r.probed, 4);
    assert_eq!(Bootstrap::new().conclude(None).message, "all probes failed");
}

fn gathered(pool: usize) -> ChoiceEvent {
    ChoiceEvent::Gathered {
        current_id: Some("cur".into()),
        served: true,
        has_api: true,
        pool,
    }
}

#[test]
fn a_choice_probes_batch_by_batch() {
    let mut c = Controller::default();
    let (mut choice, action) = Choice::begin(&mut c, true, false, CoreKind::SingBox, 0);
    assert!(matches!(action, ChoiceAction::Gather));
    assert_eq!(c.phase, Phase::Probing);
    assert!(matches!(choice.step(&mut c, gathered(20), 0), ChoiceAction::Ask));
    assert!(matches!(
        choice.step(&mut c, ChoiceEvent::StillOn(true), 0),
        ChoiceAction::Probe(0, 8)
    ));
    choice.step(&mut c, ChoiceEvent::Probed(vec![answer("a", Some(70))]), 0);
    // A node answered, but one batch is not enough.
    assert!(matches!(
        choice.step(&mut c, ChoiceEvent::StillOn(true), 0),
        ChoiceAction::Probe(8, 16)
    ));
    choice.step(&mut c, ChoiceEvent::Probed(vec![answer("b", Some(60))]), 0);
    match choice.step(&mut c, ChoiceEvent::StillOn(true), 0) {
        ChoiceAction::Select(id) => assert_eq!(id, "b"),
        other => panic!("{other:?}"),
    }
    match choice.step(&mut c, ChoiceEvent::Selected, 5) {
        ChoiceAction::Finish(r) => {
            assert!(r.switched);
            assert_eq!(r.from_id.as_deref(), Some("cur"));
            assert_eq!(r.probed, 2);
        }
        other => panic!("{other:?}"),
    }
    assert!(c.in_dwell(6));
}

#[test]
fn a_choice_goes_through_all_nodes_where_none_answers() {
    let mut c = Controller::default();
    let (mut choice, _) = Choice::begin(&mut c, true, false, CoreKind::SingBox, 0);
    choice.step(&mut c, gathered(9), 0);
    choice.step(&mut c, ChoiceEvent::StillOn(true), 0);
    choice.step(&mut c, ChoiceEvent::Probed(vec![answer("a", None)]), 0);
    assert!(matches!(
        choice.step(&mut c, ChoiceEvent::StillOn(true), 0),
        ChoiceAction::Probe(8, 9)
    ));
    choice.step(&mut c, ChoiceEvent::Probed(vec![answer("b", None)]), 0);
    match choice.step(&mut c, ChoiceEvent::StillOn(true), 0) {
        ChoiceAction::Finish(r) => assert_eq!(r.message, "all probes failed"),
        other => panic!("{other:?}"),
    }
    assert_eq!(c.phase, Phase::Fine);
}

#[test]
fn a_choice_can_be_turned_off() {
    let mut c = Controller::default();
    let (mut choice, _) = Choice::begin(&mut c, true, false, CoreKind::SingBox, 0);
    choice.step(&mut c, gathered(3), 0);
    match choice.step(&mut c, ChoiceEvent::StillOn(false), 0) {
        ChoiceAction::Finish(r) => {
            assert_eq!(r.message, "cancelled");
            assert!(!r.switched);
        }
        other => panic!("{other:?}"),
    }
    let (_, action) = Choice::begin(&mut c, true, false, CoreKind::Xray, 0);
    match action {
        ChoiceAction::Finish(r) => {
            assert_eq!(r.message, "smart switch requires the sing-box core");
        }
        other => panic!("{other:?}"),
    }
}

#[test]
fn a_choice_needs_nodes_and_a_controller() {
    let end = |served: bool, has_api: bool| {
        let mut c = Controller::default();
        let (mut choice, _) = Choice::begin(&mut c, true, false, CoreKind::Mihomo, 0);
        let event = ChoiceEvent::Gathered {
            current_id: None,
            served,
            has_api,
            pool: 0,
        };
        match choice.step(&mut c, event, 0) {
            ChoiceAction::Finish(r) => r.message,
            other => panic!("{other:?}"),
        }
    };
    assert_eq!(end(false, true), "no nodes");
    assert_eq!(end(true, false), "clash api unavailable");
    let nodes = vec![node("a", None), node("b", None)];
    let pool = gather_pool(
        &nodes,
        CoreKind::SingBox,
        &vec!["a".to_string()],
    );
    assert!(pool.served);
    assert_eq!(pool.at, vec![1]);
    assert!(!gather_pool(&vec![], CoreKind::SingBox, &vec![]).served);
}

#[test]
fn a_rule_selects_the_best_of_its_pool() {
    let mut states = RuleStates::new();
    let (pass, action) = RulePass::begin(&states, "r".into(), true, 0);
    assert!(matches!(action, PassAction::Probe));
    let probed = PassEvent::Probed(vec![answer("a", Some(90)), answer("b", Some(30))]);
    let (pass, action) = pass.step(&mut states, probed, 0);
    match action {
        PassAction::Select(id) => assert_eq!(id, "b"),
        other => panic!("{other:?}"),
    }
    let (_, action) = pass.step(&mut states, PassEvent::Selected, 0);
    assert!(matches!(action, PassAction::Stop));
    assert!(!states.rule_due("r", 0));
    // Nothing is probed before its time, or without a pool.
    let (_, action) = RulePass::begin(&states, "r".into(), true, 1);
    assert!(matches!(action, PassAction::Stop));
    let (_, action) = RulePass::begin(&states, "other".into(), false, 1);
    assert!(matches!(action, PassAction::Stop));
}

#[test]
fn a_rule_notes_what_fails() {
    let mut states = RuleStates::new();
    let (pass, _) = RulePass::begin(&states, "r".into(), true, 0);
    let (_, action) = pass.step(&mut states, PassEvent::NotProbed("no core".into()), 0);
    match action {
        PassAction::Fail(e) => assert_eq!(e, "no core"),
        other => panic!("{other:?}"),
    }
    assert!(!states.rule_due("r", 59_999));
    assert!(states.rule_due("r", 60_000));
    let (pass, _) = RulePass::begin(&states, "r".into(), true, 60_000);
    let probed = PassEvent::Probed(vec![answer("a", Some(90))]);
    let (pass, _) = pass.step(&mut states, probed, 60_000);
    let (_, action) = pass.step(&mut states, PassEvent::Missing, 60_000);
    match action {
        PassAction::Fail(e) => assert_eq!(e, "node a missing"),
        other => panic!("{other:?}"),
    }
}

#[test]
fn rules_keep_a_node_that_is_good_enough() {
    let mut states = RuleStates::new();
    assert!(states.rule_due("r", 0));
    assert!(matches!(
        states.rule_probed("r", Some(("a", 100)), 0),
        RuleStep::Select
    ));
    states.rule_selected("r", "a".into(), 100, 0);
    assert!(!states.rule_due("r", 1));
    assert!(matches!(
        states.rule_probed("r", Some(("b", 90)), 600_000),
        RuleStep::Kept
    ));
    assert!(matches!(
        states.rule_probed("r", Some(("b", 20)), 1_200_000),
        RuleStep::Select
    ));
    assert!(matches!(states.rule_probed("r", None, 1_300_000), RuleStep::Failed));
    // A failure is tried again after a minute.
    assert!(!states.rule_due("r", 1_359_999));
    assert!(states.rule_due("r", 1_360_000));
    states.retain_rules(&vec![]);
    assert!(states.rule_due("r", 1_300_001));
}

#[test]
fn pools_hold_the_nodes_that_the_rule_names() {
    let mut rule = Rule::new(RuleType::DomainSuffix, "x.com".into(), RuleTarget::Smart, 1);
    rule.smart_include = vec!["hk".into()];
    let nodes = vec![node("HK-01", Some(90)), node("JP-01", None), node("HK-02", Some(30))];
    assert_eq!(
        pool_candidates(&rule, &nodes, CoreKind::SingBox, &vec![]),
        vec![2, 0]
    );
    assert!(has_pool(&rule, &nodes, CoreKind::SingBox));
    assert!(!has_pool(&rule, &vec![node("JP-01", None)], CoreKind::SingBox));
}

// ---- downloads and launches ----

#[test]
fn downloads_fall_back_to_the_direct_way() {
    let (d, action) = Refresh::begin(true);
    assert!(matches!(action, RefreshAction::Fetch { through_core: true }));
    let (d, action) = d.step(RefreshEvent::FetchFailed("a".into()));
    assert!(matches!(action, RefreshAction::Fetch { through_core: false }));
    let (_, action) = d.step(RefreshEvent::FetchFailed("b".into()));
    match action {
        RefreshAction::Fail(e) => {
            assert_eq!(e, "代理下载失败: a; 直连下载失败: b");
        }
        other => panic!("{other:?}"),
    }
}

#[test]
fn a_download_is_read_before_it_is_written() {
    let (d, _) = Refresh::begin(false);
    let (d, action) = d.step(RefreshEvent::Fetched(
        br#"{"version":3,"rules":[{"domain":["a","b"]}]}"#.to_vec(),
    ));
    assert!(matches!(action, RefreshAction::Write(RuleSetFileFormat::Source)));
    let (_, action) = d.step(RefreshEvent::Written);
    assert!(matches!(
        action,
        RefreshAction::Complete {
            format: RuleSetFileFormat::Source,
            count: 2,
            contains_ip: false
        }
    ));
    let (d, _) = Refresh::begin(false);
    let (_, action) = d.step(RefreshEvent::Fetched(b"<html>".to_vec()));
    assert!(matches!(action, RefreshAction::Fail(_)));
    let (d, _) = Refresh::begin(false);
    let (d, action) = d.step(RefreshEvent::Fetched(vec![0x53, 0x52, 0x53, 0x02]));
    assert!(matches!(action, RefreshAction::ReadBinary));
    let (d, action) = d.step(RefreshEvent::BinaryRead(BinaryScan {
        display_count: 7,
        has_adguard: true,
    }));
    assert!(matches!(action, RefreshAction::Write(RuleSetFileFormat::Binary)));
    let (_, action) = d.step(RefreshEvent::Written);
    assert!(matches!(action, RefreshAction::Complete { count: 7, .. }));
}

#[test]
fn a_launch_that_fails_leaves_no_core() {
    let mut l = Launch::new(
        Launched::Generated(CoreKind::SingBox),
        false,
        false,
        "127.0.0.1".into(),
        9090,
    );
    assert!(matches!(l.step(LaunchEvent::Prepared), LaunchAction::Start));
    assert!(matches!(
        l.step(LaunchEvent::Started),
        LaunchAction::Wait(WaitStep::Again)
    ));
    assert!(matches!(
        l.step(LaunchEvent::Wait(WaitEvent::Round(0))),
        LaunchAction::Wait(WaitStep::Ask)
    ));
    assert!(matches!(
        l.step(LaunchEvent::Wait(WaitEvent::Round(6_000))),
        LaunchAction::ReadLog
    ));
    match l.step(LaunchEvent::Said("bad config".into())) {
        LaunchAction::StopAndFail(e) => {
            assert!(format!("{e:?}").contains("127.0.0.1:9090"));
            assert!(format!("{e:?}").contains("bad config"));
        }
        other => panic!("{other:?}"),
    }
}

#[test]
fn a_launch_ends_with_a_session() {
    let mut l = Launch::new(Launched::Profile(true), false, false, "h".into(), 1);
    l.step(LaunchEvent::Prepared);
    l.step(LaunchEvent::Started);
    assert!(matches!(
        l.step(LaunchEvent::Wait(WaitEvent::Asked(true))),
        LaunchAction::Ready
    ));
}
