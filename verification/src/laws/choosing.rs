//! The choice of the best node: of the whole list when the user asks, and for the rules that
//! have a pool of their own.

use crate::core_kind::CoreKind;
use crate::domain::node::ProxyNode;
use crate::domain::rule::{
    keyword_hits, name_allowed, rule_views, RuleModel, RuleSet, RuleSetStrategy, RuleTarget,
};
use crate::laws::switching::law_best_answer_is_the_best;
use crate::services::latency::LatencyResult;
use crate::smart_bootstrap::{best_after, choice_refusal, count_added, found};
use crate::smart_choice::{next_choice, ChoiceEvent, ChoiceModel, ChoiceState, ChoiceStep};
use crate::smart_rule_pass::{best_answer, next_pass, PassEvent, PassState, PassStep};
use crate::smart_rules::{
    failed_state, is_rule_due, is_smart_rule, pool_members, rule_noted, rule_step, rules_of_set,
    smart_rules, States,
};
use crate::smart_switch::{
    answer_scores, best_result, plain_score, ControllerModel, Phase, Signal, Verdict,
};
use crate::smart_tick::{next_tick, CurrentProbe, TickEvent, TickState};
use crate::text::{opt_view, trimmed, views};
use vstd::prelude::*;

verus! {

// ---------------------------------------------------------------------------
// The choice among all nodes
// ---------------------------------------------------------------------------
/// A choice needs a running core that is not of the user's own making, and not Xray.
pub proof fn law_choice_needs_a_core(running: bool, custom: bool, kind: CoreKind)
    ensures
        choice_refusal(running, custom, kind) is None <==> running && !custom && kind
            != CoreKind::Xray,
{
}

/// A choice begins where the core serves a node and has a controller; else it ends with
/// nothing selected, and says so.
pub proof fn law_choice_begins_with_nodes(
    c: ControllerModel,
    s: ChoiceModel,
    current_id: Option<String>,
    served: bool,
    has_api: bool,
    pool: usize,
    now_ms: u64,
)
    requires
        s.state is Gathering,
    ensures
        ({
            let n = next_choice(
                c,
                s,
                ChoiceEvent::Gathered { current_id, served, has_api, pool },
                now_ms,
            );
            &&& n.choice.current == opt_view(current_id) && n.choice.pool == pool
            &&& n.action is Ask <==> served && has_api
            &&& n.action is Finish <==> !(served && has_api)
            &&& n.action is Finish ==> !(n.action->Finish_0).switched && (n.action->Finish_0).to is None
                && (n.action->Finish_0).from == opt_view(current_id) && n.ctrl.phase == Phase::Fine
        }),
{
}

/// A choice probes eight nodes at a time. It ends with the pool, or after two batches once a
/// node has answered; then it selects the best, stays with it where it is selected already,
/// and says where none answered.
pub proof fn law_choice_ends_with_an_answer(
    c: ControllerModel,
    s: ChoiceModel,
    done: usize,
    batches: usize,
    now_ms: u64,
)
    requires
        s.state == ChoiceState::Asking(done, batches),
    ensures
        ({
            let n = next_choice(c, s, ChoiceEvent::StillOn(true), now_ms);
            let more = done < s.pool && !(s.best is Some && batches >= 2);
            &&& n.action is Probe <==> more
            &&& more ==> n.action->Probe_0 == done && n.action->Probe_1 == if done + 8 < s.pool {
                done + 8
            } else {
                s.pool as int
            }
            &&& !more && s.best is None ==> n.action is Finish && !(n.action->Finish_0).switched
                && n.ctrl == (ControllerModel { phase: Phase::Fine, ..c })
            &&& !more && s.best is Some && s.current == Some((s.best->0).0) ==> {
                &&& n.action is Finish && !(n.action->Finish_0).switched
                &&& (n.action->Finish_0).latency_ms == Some((s.best->0).2)
                &&& n.ctrl.last_switch == Some(now_ms) && n.ctrl.fails == 0 && n.ctrl.phase
                    == Phase::Fine && n.ctrl.last_health_probe == Some(now_ms)
                &&& n.ctrl.ejected == c.ejected
            }
            &&& !more && s.best is Some && s.current != Some((s.best->0).0) ==> n.action
                == ChoiceStep::Select((s.best->0).0) && n.ctrl == c
        }),
{
}

/// Once the node is selected the choice tells of it, and the change is noted as any other is.
pub proof fn law_choice_tells_what_it_selected(c: ControllerModel, s: ChoiceModel, now_ms: u64)
    requires
        s.state is Selecting,
        s.best is Some,
        s.current != Some((s.best->0).0),
    ensures
        ({
            let n = next_choice(c, s, ChoiceEvent::Selected, now_ms);
            &&& n.action is Finish
            &&& (n.action->Finish_0).switched
            &&& (n.action->Finish_0).to == Some((s.best->0).0)
            &&& (n.action->Finish_0).to_name == Some((s.best->0).1)
            &&& (n.action->Finish_0).latency_ms == Some((s.best->0).2)
            &&& (n.action->Finish_0).from == s.current
            &&& (n.action->Finish_0).probed == s.probed
            &&& n.ctrl.last_switch == Some(now_ms) && n.ctrl.last_health_probe == Some(now_ms)
            &&& n.ctrl.fails == 0 && n.ctrl.phase == Phase::Cooldown
            &&& n.ctrl.ejected == c.ejected && n.ctrl.eject_counts == c.eject_counts
            &&& n.choice.state is Over
        }),
{
}

/// A probe or a selection that fails ends the choice with its reason, and changes nothing.
pub proof fn law_failed_choice_changes_nothing(
    c: ControllerModel,
    s: ChoiceModel,
    error: String,
    now_ms: u64,
)
    ensures
        s.state is Probing ==> next_choice(c, s, ChoiceEvent::NotProbed(error), now_ms).action
            == ChoiceStep::Fail(error@),
        s.state is Selecting ==> next_choice(c, s, ChoiceEvent::NotSelected(error), now_ms).action
            == ChoiceStep::Fail(error@),
        next_choice(c, s, ChoiceEvent::NotProbed(error), now_ms).ctrl == c,
        next_choice(c, s, ChoiceEvent::NotSelected(error), now_ms).ctrl == c,
{
}

/// A batch adds its answers: each result counts as a probe, and the best so far is one of the
/// results or what was the best before.
pub proof fn law_best_is_one_of_the_answers(
    best: Option<(Seq<char>, Seq<char>, u32)>,
    results: Seq<LatencyResult>,
)
    ensures
        best_after(best, results) == best || exists|i: int|
            0 <= i < results.len() && (#[trigger] results[i]).latency_ms is Some && best_after(
                best,
                results,
            ) == Some((results[i].id@, results[i].name@, results[i].latency_ms->0)),
        best is Some ==> best_after(best, results) is Some,
        (forall|i: int| 0 <= i < results.len() ==> (#[trigger] results[i]).latency_ms is None)
            ==> best_after(best, results) == best,
        (best is Some && forall|i: int|
            0 <= i < results.len() ==> ((#[trigger] results[i]).latency_ms is None
                || results[i].latency_ms->0 >= (best->0).2)) ==> best_after(best, results) == best,
    decreases results.len(),
{
    if results.len() > 0 {
        let t = results.drop_last();
        law_best_is_one_of_the_answers(best, t);
        let last = results.len() - 1;
        assert(results[last] == results.last());
        assert forall|i: int| 0 <= i < t.len() implies t[i] == results[i] by {}
        let b = best_after(best, t);
        if b != best {
            let i = choose|i: int|
                0 <= i < t.len() && (#[trigger] t[i]).latency_ms is Some && b == Some(
                    (t[i].id@, t[i].name@, t[i].latency_ms->0),
                );
            assert(results[i].latency_ms is Some);
        }
    }
}

/// Each result of a batch counts.
pub proof fn law_each_result_counts(probed: u32, n: nat)
    requires
        probed + n <= u32::MAX,
    ensures
        count_added(probed, n) == probed + n,
{
}

/// A node that was measured scores its latency; one that was not scores worse than any real
/// latency.
pub proof fn law_scores_are_latencies(a: Option<u32>, b: Option<u32>)
    ensures
        a matches Some(ms) ==> plain_score(a) == ms,
        a is Some && b is Some && a->0 < b->0 ==> plain_score(a) < plain_score(b),
        a is None && b is Some && b->0 < 800 ==> plain_score(a) > plain_score(b),
{
}

// ---------------------------------------------------------------------------
// Rules with a pool of their own
// ---------------------------------------------------------------------------
/// A rule's pool is probed every ten minutes; after a failure after one minute, then two,
/// four and eight; and not within 210 seconds of a change.
pub proof fn law_pools_are_probed_in_time(m: States, id: Seq<char>, now_ms: u64)
    ensures
        !m.contains_key(id) ==> is_rule_due(m, id, now_ms),
        m.contains_key(id) ==> {
            let s = m[id];
            let span = if s.consecutive_probe_fails == 1 {
                60000
            } else if s.consecutive_probe_fails == 2 {
                120000
            } else if s.consecutive_probe_fails == 3 {
                240000
            } else if s.consecutive_probe_fails == 4 {
                480000
            } else {
                600000int
            };
            is_rule_due(m, id, now_ms) <==> now_ms - s.last_probe >= span && (s.last_switch is None
                || now_ms - s.last_switch->0 >= 210000)
        },
{
}

/// A probe that failed is counted, and what was known of the rule's node stays.
pub proof fn law_pool_failures_are_counted(m: States, id: Seq<char>, now_ms: u64)
    ensures
        ({
            let s = failed_state(m, id, now_ms);
            &&& s.last_probe == now_ms
            &&& !m.contains_key(id) ==> s.consecutive_probe_fails == 1 && s.last_node_id is None
                && s.last_latency_ms is None && s.last_switch is None
            &&& m.contains_key(id) ==> s.last_node_id == m[id].last_node_id && s.last_latency_ms
                == m[id].last_latency_ms && s.last_switch == m[id].last_switch
            &&& m.contains_key(id) && m[id].consecutive_probe_fails < u32::MAX
                ==> s.consecutive_probe_fails == m[id].consecutive_probe_fails + 1
        }),
{
}

/// A rule's node is left only for one that is faster by more than 50 milliseconds, or by 50
/// where its own latency is at most 200: the same gain as for the selected node.
pub proof fn law_rule_moves_for_a_gain(m: States, id: Seq<char>, node: Seq<char>, ms: u32)
    ensures
        rule_step(m, id, None) is Failed,
        ({
            let step = rule_step(m, id, Some((node, ms)));
            let known = m.contains_key(id) && m[id].last_latency_ms is Some;
            let gain = m[id].last_latency_ms->0 - ms;
            &&& !(step is Failed)
            &&& !m.contains_key(id) ==> step is Select
            &&& m.contains_key(id) && opt_view(m[id].last_node_id) == Some(node) ==> step is Kept
            &&& m.contains_key(id) && opt_view(m[id].last_node_id) != Some(node) && !known
                ==> step is Select
            &&& known && opt_view(m[id].last_node_id) != Some(node) ==> (step is Select <==> gain
                > 50 || (gain == 50 && m[id].last_latency_ms->0 <= 200))
        }),
{
}

/// What a probe of a rule's pool is noted as: failures are counted, an answer ends their row,
/// and the latency is new only where it is of the rule's own node.
pub proof fn law_pool_probes_are_noted(
    m: States,
    id: Seq<char>,
    other: Seq<char>,
    best: Option<(Seq<char>, u32)>,
    now_ms: u64,
)
    requires
        other != id,
    ensures
        ({
            let after = rule_noted(m, id, best, now_ms);
            &&& after.contains_key(other) == m.contains_key(other)
            &&& m.contains_key(other) ==> after[other] == m[other]
            &&& rule_step(m, id, best) is Select ==> after == m
            &&& rule_step(m, id, best) is Kept ==> {
                &&& after.contains_key(id)
                &&& after[id].last_probe == now_ms && after[id].consecutive_probe_fails == 0
                &&& after[id].last_switch == m[id].last_switch
                &&& after[id].last_node_id == m[id].last_node_id
                &&& opt_view(m[id].last_node_id) == Some((best->0).0) ==> after[id].last_latency_ms
                    == Some((best->0).1)
                &&& opt_view(m[id].last_node_id) != Some((best->0).0) ==> after[id].last_latency_ms
                    == m[id].last_latency_ms
            }
            &&& best is None ==> after.contains_key(id) && after[id].last_probe == now_ms
                && after[id].consecutive_probe_fails > 0
        }),
{
}

/// The answer that counts for a rule is the lowest.
pub proof fn law_rule_takes_the_lowest_answer(results: Seq<LatencyResult>, x: int)
    requires
        0 <= x < results.len(),
        results[x].latency_ms is Some,
    ensures
        best_answer(results) is Some,
        (best_answer(results)->0).1 <= results[x].latency_ms->0,
        exists|b: int|
            0 <= b < results.len() && (#[trigger] results[b]).latency_ms is Some && best_answer(results)
                == Some((results[b].id@, results[b].latency_ms->0)),
{
    let scores = answer_scores(results);
    law_best_answer_is_the_best(results, scores, x);
    let b = best_result(results, scores)->0;
    assert(scores[b] == results[b].latency_ms->0 && scores[x] == results[x].latency_ms->0);
    assert(results[b].latency_ms is Some);
}

/// A pass over a rule selects the lowest answer where the rule moves, and notes the node only
/// once it is selected.
pub proof fn law_pass_selects_what_answered(
    m: States,
    id: Seq<char>,
    results: Vec<LatencyResult>,
    node: String,
    ms: u32,
    now_ms: u64,
)
    ensures
        ({
            let n = next_pass(m, id, PassState::Probing, PassEvent::Probed(results), now_ms);
            &&& n.action is Select <==> rule_step(m, id, best_answer(results@)) is Select
            &&& n.action is Select ==> n.action == PassStep::Select((best_answer(results@)->0).0)
                && n.states == m && !n.over
            &&& !(n.action is Select) ==> n.over && n.action is Stop
        }),
        ({
            let n = next_pass(m, id, PassState::Selecting(node, ms), PassEvent::Selected, now_ms);
            &&& n.over && n.states.contains_key(id)
            &&& n.states[id].last_switch == Some(now_ms) && n.states[id].last_probe == now_ms
            &&& n.states[id].last_node_id == Some(node) && n.states[id].last_latency_ms == Some(ms)
            &&& n.states[id].consecutive_probe_fails == 0
        }),
        next_pass(m, id, PassState::Selecting(node, ms), PassEvent::Missing, now_ms).states == m,
{
}

/// The rules that have a pool are the sets that filter, and in smart sets the rules that are
/// on and point at the pool; of sets that are off there are none.
pub proof fn law_smart_rules_are_on(s: RuleSet, r: RuleModel)
    ensures
        !s.enabled ==> rules_of_set(s).len() == 0,
        s.enabled && s.strategy == RuleSetStrategy::Filter ==> rules_of_set(s).len() == 1
            && rules_of_set(s)[0].id == s.id@ && rules_of_set(s)[0].smart_include == views(
            s.smart_include@,
        ) && rules_of_set(s)[0].smart_exclude == views(s.smart_exclude@)
            && rules_of_set(s)[0].target == RuleTarget::Smart,
        s.enabled && s.strategy == RuleSetStrategy::Smart ==> (rules_of_set(s).contains(r)
            <==> rule_views(s.rules@).contains(r) && r.enabled && r.target == RuleTarget::Smart),
        s.enabled && s.strategy != RuleSetStrategy::Smart && s.strategy != RuleSetStrategy::Filter
            ==> rules_of_set(s).len() == 0,
{
    lemma_filter_members(rule_views(s.rules@), is_smart_rule(), r);
}

proof fn lemma_filter_members<A>(s: Seq<A>, p: spec_fn(A) -> bool, x: A)
    ensures
        s.filter(p).contains(x) <==> s.contains(x) && p(x),
    decreases s.len(),
{
    reveal(Seq::filter);
    if s.len() > 0 {
        let t = s.drop_last();
        lemma_filter_members(t, p, x);
        let before = t.filter(p);
        let all = before.push(s.last());
        assert(s[s.len() - 1] == s.last());
        assert(all[before.len() as int] == s.last());
        if before.contains(x) {
            let k = choose|k: int| 0 <= k < before.len() && before[k] == x;
            assert(all[k] == x);
        }
        if all.contains(x) && !before.contains(x) {
            let k = choose|k: int| 0 <= k < all.len() && all[k] == x;
            if k < before.len() {
                assert(before[k] == x);
            }
        }
        if t.contains(x) {
            let k = choose|k: int| 0 <= k < t.len() && t[k] == x;
            assert(s[k] == x);
        }
        if s.contains(x) && !t.contains(x) {
            let k = choose|k: int| 0 <= k < s.len() && s[k] == x;
            if k < t.len() {
                assert(t[k] == x);
            }
        }
    }
}

/// The rules of all sets stand in the order of the sets.
pub proof fn law_smart_rules_follow_the_sets(sets: Seq<RuleSet>, x: int, k: int)
    requires
        0 <= x < sets.len(),
        0 <= k < rules_of_set(sets[x]).len(),
    ensures
        smart_rules(sets.take(x)).len() + k < smart_rules(sets).len(),
        smart_rules(sets)[smart_rules(sets.take(x)).len() + k] == rules_of_set(sets[x])[k],
    decreases sets.len(),
{
    let t = sets.drop_last();
    if x < t.len() {
        assert(t[x] == sets[x]);
        assert(t.take(x) =~= sets.take(x));
        law_smart_rules_follow_the_sets(t, x, k);
    } else {
        assert(sets.take(x) =~= t);
    }
}

/// A rule's pool holds the nodes that the core serves, whose names pass its keywords, and
/// that are not left out.
pub proof fn law_pool_holds_what_passes(
    nodes: Seq<ProxyNode>,
    kind: CoreKind,
    wanted: Seq<Seq<char>>,
    unwanted: Seq<Seq<char>>,
    ejected: Seq<Seq<char>>,
    i: int,
)
    ensures
        pool_members(nodes, kind, wanted, unwanted, ejected).contains(i) <==> 0 <= i < nodes.len()
            && kind.serves_node(nodes[i]) && name_allowed(nodes[i].name@, wanted, unwanted)
            && !ejected.contains(nodes[i].id@),
    decreases nodes.len(),
{
    if nodes.len() > 0 {
        let t = nodes.drop_last();
        law_pool_holds_what_passes(t, kind, wanted, unwanted, ejected, i);
        let before = pool_members(t, kind, wanted, unwanted, ejected);
        let last = nodes.len() - 1;
        let all = before.push(last);
        assert(all[before.len() as int] == last);
        if before.contains(i) {
            let k = choose|k: int| 0 <= k < before.len() && before[k] == i;
            assert(all[k] == i);
        }
        if all.contains(i) && !before.contains(i) {
            let k = choose|k: int| 0 <= k < all.len() && all[k] == i;
            if k < before.len() {
                assert(before[k] == i);
            }
        }
        if 0 <= i < t.len() {
            assert(t[i] == nodes[i]);
        }
    }
}

/// A name passes where it holds no unwanted keyword, and a wanted one where there are any:
/// one more unwanted keyword never lets a name in, and without keywords every name passes.
pub proof fn law_keywords_only_narrow(
    name: Seq<char>,
    wanted: Seq<Seq<char>>,
    unwanted: Seq<Seq<char>>,
    word: Seq<char>,
)
    ensures
        name_allowed(name, Seq::empty(), Seq::empty()),
        name_allowed(name, wanted, unwanted.push(word)) <==> name_allowed(name, wanted, unwanted)
            && !keyword_hits(name, word),
        trimmed(word).len() == 0 ==> name_allowed(name, wanted.push(word), unwanted)
            == name_allowed(name, wanted, unwanted),
        keyword_hits(name, word) ==> (name_allowed(name, wanted.push(word), unwanted) <==> forall|
            i: int,
        |
            0 <= i < unwanted.len() ==> !keyword_hits(name, #[trigger] unwanted[i])),
        name_allowed(name, seq![word], Seq::empty()) <==> trimmed(word).len() == 0 || keyword_hits(
            name,
            word,
        ),
{
    let more = unwanted.push(word);
    assert(more[unwanted.len() as int] == word);
    assert forall|i: int| 0 <= i < unwanted.len() implies more[i] == unwanted[i] by {}
    if name_allowed(name, wanted, more) {
        assert forall|i: int| 0 <= i < unwanted.len() implies !keyword_hits(
            name,
            #[trigger] unwanted[i],
        ) by {
            assert(!keyword_hits(name, more[i]));
        }
    }
    let w = wanted.push(word);
    assert(w[wanted.len() as int] == word);
    assert forall|i: int| 0 <= i < wanted.len() implies w[i] == wanted[i] by {}
    if forall|i: int| 0 <= i < w.len() ==> trimmed(#[trigger] w[i]).len() == 0 {
        assert forall|i: int| 0 <= i < wanted.len() implies trimmed(#[trigger] wanted[i]).len()
            == 0 by {
            assert(trimmed(w[i]).len() == 0);
        }
    }
    if exists|i: int| 0 <= i < wanted.len() && keyword_hits(name, #[trigger] wanted[i]) {
        let i = choose|i: int| 0 <= i < wanted.len() && keyword_hits(name, #[trigger] wanted[i]);
        assert(keyword_hits(name, w[i]));
    }
    if exists|i: int| 0 <= i < w.len() && keyword_hits(name, #[trigger] w[i]) {
        let i = choose|i: int| 0 <= i < w.len() && keyword_hits(name, #[trigger] w[i]);
        if i < wanted.len() {
            assert(keyword_hits(name, wanted[i]));
        }
    }
    let one = seq![word];
    assert(one[0] == word);
}

// ---------------------------------------------------------------------------
// One look at the selected node
// ---------------------------------------------------------------------------
/// A look that chose no candidates is over; one that chose some probes them.
pub proof fn law_look_probes_what_it_chose(
    c: ControllerModel,
    current: Seq<char>,
    s: Signal,
    v: Verdict,
    probe: CurrentProbe,
    n: usize,
    now_ms: u64,
)
    ensures
        ({
            let next = next_tick(
                c,
                current,
                TickState::Choosing(s, v, probe),
                TickEvent::Chosen(n),
                now_ms,
            );
            &&& n == 0 <==> next.action is Stop
            &&& n > 0 <==> next.action is ProbeCandidates
            &&& n > 0 ==> next.ctrl == c && next.state == TickState::Comparing(s, v, probe)
            &&& n == 0 ==> next.state is Over
        }),
{
}

/// Connections are closed with a selection exactly where the selected node failed.
pub proof fn law_connections_close_with_a_failed_node(
    c: ControllerModel,
    current: Seq<char>,
    s: TickState,
    e: TickEvent,
    now_ms: u64,
)
    requires
        next_tick(c, current, s, e, now_ms).action is Select,
    ensures
        s is Comparing,
        next_tick(c, current, s, e, now_ms).action->Select_1 == (s->Comparing_1).hard_fail,
        next_tick(c, current, s, e, now_ms).state == TickState::Selecting(
            s->Comparing_2,
            s->Comparing_1,
        ),
{
}

/// The result of a choice says what became of it.
pub proof fn law_choices_say_what_became_of_them(
    from: Option<Seq<char>>,
    probed: u32,
    best: (Seq<char>, Seq<char>, u32),
)
    ensures
        from == Some(best.0) ==> found(from, probed, best).message == "already best"@ && !found(
            from,
            probed,
            best,
        ).switched,
        from != Some(best.0) ==> found(from, probed, best).message == "switched"@ && found(
            from,
            probed,
            best,
        ).switched,
        found(from, probed, best).to == Some(best.0) && found(from, probed, best).latency_ms == Some(
            best.2,
        ) && found(from, probed, best).probed == probed,
{
}

/// The rule that stands for a set that filters is on.
pub proof fn law_filtering_sets_are_one_rule(s: RuleSet)
    requires
        s.enabled,
        s.strategy == RuleSetStrategy::Filter,
    ensures
        rules_of_set(s).len() == 1,
        rules_of_set(s)[0].enabled,
{
}

} // verus!
