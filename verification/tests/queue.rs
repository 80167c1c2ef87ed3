use satelite::rule_apply::{is_pending, ApplyEnd, RuleApplyQueue};

#[test]
fn different_rule_sets_share_one_worker_and_one_batch() {
    let mut queue = RuleApplyQueue::default();
    assert!(queue.enqueue_toggle("a".into(), true));
    assert!(!queue.enqueue_toggle("b".into(), false));
    assert!(!queue.enqueue_toggle("c".into(), true));
    let revision = queue.revision();
    let batch = queue.take_if_unchanged(revision).unwrap();
    assert_eq!(batch.toggles.len(), 3);
    assert!(queue.worker_running);
    assert!(queue.finish_if_empty());
    assert!(!queue.worker_running);
}

#[test]
fn latest_value_wins_before_restart() {
    let mut queue = RuleApplyQueue::default();
    queue.enqueue_toggle("same".into(), true);
    let stale_revision = queue.revision();
    queue.enqueue_toggle("same".into(), false);
    assert!(queue.take_if_unchanged(stale_revision).is_none());
    let batch = queue.take_if_unchanged(queue.revision()).unwrap();
    assert_eq!(batch.toggles.get("same"), Some(&false));
}

#[test]
fn change_during_restart_forms_only_next_batch() {
    let mut queue = RuleApplyQueue::default();
    queue.enqueue_toggle("a".into(), true);
    let first = queue.take_if_unchanged(queue.revision()).unwrap();
    assert_eq!(first.toggles.len(), 1);
    assert!(!queue.enqueue_toggle("b".into(), true));
    assert!(!queue.finish_if_empty());
    let second = queue.take_if_unchanged(queue.revision()).unwrap();
    assert_eq!(second.toggles.keys(), vec![&"b".to_string()]);
}

#[test]
fn busy_retry_preserves_newer_value() {
    let mut queue = RuleApplyQueue::default();
    queue.enqueue_toggle("a".into(), true);
    let old = queue.take_if_unchanged(queue.revision()).unwrap();
    queue.enqueue_toggle("a".into(), false);
    queue.requeue_older_batch(old);
    let next = queue.take_if_unchanged(queue.revision()).unwrap();
    assert_eq!(next.toggles.get("a"), Some(&false));
}

#[test]
fn stale_terminal_event_is_suppressed_for_changed_id() {
    let mut queue = RuleApplyQueue::default();
    queue.enqueue_toggle("a".into(), true);
    queue.enqueue_toggle("b".into(), true);
    let first = queue.take_if_unchanged(queue.revision()).unwrap();
    queue.enqueue_toggle("a".into(), false);
    let terminal = queue.terminal_subset(&first.toggles);
    assert!(!terminal.contains_key("a"));
    assert_eq!(terminal.get("b"), Some(&true));
}

#[test]
fn remote_updates_and_toggles_share_one_batch() {
    let mut queue = RuleApplyQueue::default();
    assert!(queue.enqueue_restart(Vec::new(), false));
    assert!(!queue.enqueue_restart(Vec::new(), false));
    assert!(!queue.enqueue_toggle("a".into(), true));

    let batch = queue.take_if_unchanged(queue.revision()).unwrap();
    assert_eq!(batch.toggles.get("a"), Some(&true));
    assert!(queue.finish_if_empty());
}

#[test]
fn config_sources_share_one_worker_and_debounced_batch() {
    let mut queue = RuleApplyQueue::default();
    // Rule edit, DNS save and settings save all request the same generic
    // restart while a toggle and remote cleanup arrive in the same window.
    assert!(queue.enqueue_restart(Vec::new(), false));
    assert!(!queue.enqueue_restart(Vec::new(), false));
    assert!(!queue.enqueue_restart(Vec::new(), false));
    assert!(!queue.enqueue_toggle("rule-set".into(), true));
    let old_cache = "old-remote.json".to_string();
    assert!(!queue.enqueue_restart(vec![old_cache.clone()], false));

    let batch = queue.take_if_unchanged(queue.revision()).unwrap();
    assert_eq!(batch.toggles.get("rule-set"), Some(&true));
    assert_eq!(batch.cleanup_after_apply, vec![old_cache]);
    assert!(batch.generic_change);
    assert!(queue.finish_if_empty());
}

#[test]
fn remote_update_during_restart_forms_one_next_batch() {
    let mut queue = RuleApplyQueue::default();
    queue.enqueue_restart(Vec::new(), false);
    let first = queue.take_if_unchanged(queue.revision()).unwrap();
    assert!(first.toggles.is_empty());

    assert!(!queue.enqueue_restart(Vec::new(), false));
    assert!(!queue.enqueue_restart(Vec::new(), false));
    assert!(!queue.finish_if_empty());
    let second = queue.take_if_unchanged(queue.revision()).unwrap();
    assert!(second.toggles.is_empty());
    assert!(queue.finish_if_empty());
}

#[test]
fn busy_retry_keeps_remote_cache_cleanup() {
    let mut queue = RuleApplyQueue::default();
    let old = "old-rule.json".to_string();
    queue.enqueue_restart(vec![old.clone()], false);
    let batch = queue.take_if_unchanged(queue.revision()).unwrap();
    queue.requeue_older_batch(batch);

    let retried = queue.take_if_unchanged(queue.revision()).unwrap();
    assert_eq!(retried.cleanup_after_apply, vec![old]);
}

#[test]
fn forced_restart_flag_flows_to_the_batch_and_survives_requeue() {
    let mut queue = RuleApplyQueue::default();
    // A regular queued restart stays non-forced (must never start a
    // stopped core just to apply config).
    assert!(queue.enqueue_restart(Vec::new(), false));
    let plain = queue.take_if_unchanged(queue.revision()).unwrap();
    assert!(!plain.force_restart);
    assert!(queue.finish_if_empty());

    // A watchdog batch carries the force flag...
    assert!(queue.enqueue_restart(Vec::new(), true));
    let batch = queue.take_if_unchanged(queue.revision()).unwrap();
    assert!(batch.force_restart);

    // ...and keeps it when the worker hits a busy core and requeues.
    queue.requeue_older_batch(batch);
    let retried = queue.take_if_unchanged(queue.revision()).unwrap();
    assert!(retried.force_restart);
}

#[test]
fn a_change_has_a_worker_until_it_is_applied() {
    let mut queue = RuleApplyQueue::default();
    assert!(!is_pending(&queue));
    queue.enqueue_toggle("a".into(), true);
    assert!(is_pending(&queue));
    assert!(queue.is_running());
    assert!(!queue.finish_if_empty());
    let batch = queue.take_if_unchanged(queue.revision()).unwrap();
    let outcome = queue.restart_ended(batch, None);
    assert!(matches!(outcome.end, ApplyEnd::Applied));
    assert!(queue.finish_if_empty());
    assert!(!is_pending(&queue));
}
