//! What is stored: settings of older stores, the pages of DNS rules and hosts, and the lists
//! of nodes and rules that are in force.

use crate::domain::dns::{
    action_named, ensured_sets, flat_hosts, has_set, hosts_columns, hosts_line, hosts_rows_of,
    line_rule, listed_rules, matcher_named, migrated_sets, pairs_of_rows, reset_sets, row_pairs,
    rules_of_list, set_pos, set_views, system_entries, with_factory_sets, with_factory_shape,
    DnsAction, DnsMode, DnsRuleModel, DnsRuleSetKind, DnsRuleSetModel, DnsSettings, DomainMatcher,
    HostsConfig, HostsEntryModel,
};
use crate::domain::rule::{Rule, RuleSet};
use crate::domain::settings::{
    capture_migrated, final_target, select_migrated, AppSettings, AutoSelectMode, CaptureMode,
};
use crate::domain::subscription::Subscription;
use crate::order::{is_stable_order, law_items_have_an_order, order_of};
use crate::services::latency::LatencyResult;
use crate::storage::{
    enabled_rules, is_enabled, place_keys, rule_on, rules_in_place, stored_pos, subscription_name,
    tag_infos, with_latencies, with_latency, StoredNode,
};
use crate::text::{
    after_char, before_char, is_space, lemma_char_pos_is, lemma_trimmed_same, lowered, pieces,
    trimmed,
};
use vstd::prelude::*;

verus! {

// ---------------------------------------------------------------------------
// Settings of older stores
// ---------------------------------------------------------------------------
/// A store whose only sign of the network interface is its old switch captures by it; any
/// other keeps its mode; and the switch follows the mode.
pub proof fn law_capture_mode_is_taken_over(s: AppSettings)
    ensures
        s.capture_mode == CaptureMode::Off && s.tun_enabled ==> capture_migrated(s).capture_mode
            == CaptureMode::Tun,
        s.capture_mode == CaptureMode::Off && !s.tun_enabled ==> capture_migrated(s).capture_mode
            == CaptureMode::Off,
        s.capture_mode != CaptureMode::Off ==> capture_migrated(s).capture_mode == s.capture_mode,
        capture_migrated(s).auto_select == s.auto_select && capture_migrated(s).mixed_port
            == s.mixed_port && capture_migrated(s).current_node_id == s.current_node_id,
{
}

/// A store with the old switch of the automatic change has the mode of that name; any other
/// mode stays.
pub proof fn law_select_mode_is_taken_over(s: AppSettings)
    ensures
        s.auto_select == AutoSelectMode::Off && s.smart_switch ==> select_migrated(s).auto_select
            == AutoSelectMode::Smart,
        s.auto_select == AutoSelectMode::Off && !s.smart_switch ==> select_migrated(s).auto_select
            == AutoSelectMode::Off,
        s.auto_select != AutoSelectMode::Off ==> select_migrated(s).auto_select == s.auto_select,
        select_migrated(s).capture_mode == s.capture_mode && select_migrated(s).tun_enabled
            == s.tun_enabled,
{
}

/// What no rule matches goes to the proxy unless the store says direct or block.
pub proof fn law_unmatched_traffic_has_a_target(s: Seq<char>)
    ensures
        final_target(s) == "direct"@ <==> lowered(s) == "direct"@,
        final_target(s) == "block"@ <==> lowered(s) == "block"@,
        final_target(s) == "proxy"@ || final_target(s) == "direct"@ || final_target(s) == "block"@,
{
    reveal_strlit("direct");
    reveal_strlit("block");
    reveal_strlit("proxy");
    assert("direct"@.len() == 6 && "block"@.len() == 5 && "proxy"@.len() == 5);
    assert("block"@[0] == 'b' && "proxy"@[0] == 'p');
}

// ---------------------------------------------------------------------------
// The DNS page
// ---------------------------------------------------------------------------
/// The words of actions and matchers, in any case.
pub proof fn law_words_of_the_dns_page(raw: Seq<char>)
    ensures
        ({
            let k = lowered(trimmed(raw));
            &&& k == "local"@ || k == "system"@ <==> action_named(raw) == Some(DnsAction::Local)
            &&& k == "domestic"@ || k == "cn"@ <==> action_named(raw) == Some(DnsAction::Domestic)
            &&& k == "remote"@ || k == "proxy"@ <==> action_named(raw) == Some(DnsAction::Remote)
            &&& k == "block"@ || k == "reject"@ <==> action_named(raw) == Some(DnsAction::Block)
            &&& k == "domain"@ <==> matcher_named(raw) == Some(DomainMatcher::Domain)
            &&& k == "domain-suffix"@ || k == "suffix"@ <==> matcher_named(raw) == Some(
                DomainMatcher::DomainSuffix,
            )
            &&& k == "domain-keyword"@ || k == "keyword"@ <==> matcher_named(raw) == Some(
                DomainMatcher::DomainKeyword,
            )
        }),
{
    reveal_strlit("local");
    reveal_strlit("system");
    reveal_strlit("domestic");
    reveal_strlit("cn");
    reveal_strlit("remote");
    reveal_strlit("proxy");
    reveal_strlit("block");
    reveal_strlit("reject");
    reveal_strlit("domain");
    reveal_strlit("domain-suffix");
    reveal_strlit("suffix");
    reveal_strlit("domain-keyword");
    reveal_strlit("keyword");
    assert("local"@.len() == 5 && "proxy"@.len() == 5 && "block"@.len() == 5);
    assert("local"@[0] == 'l' && "proxy"@[0] == 'p' && "block"@[0] == 'b');
    assert("system"@.len() == 6 && "remote"@.len() == 6 && "reject"@.len() == 6);
    assert("system"@[0] == 's' && "remote"@[2] == 'm' && "reject"@[2] == 'j');
    assert("domestic"@.len() == 8 && "cn"@.len() == 2);
    assert("domain"@.len() == 6 && "domain-suffix"@.len() == 13 && "domain-keyword"@.len() == 14);
    assert("suffix"@.len() == 6 && "suffix"@[0] == 's' && "domain"@[0] == 'd');
    assert("keyword"@.len() == 7);
}

proof fn lemma_first_piece(a: Seq<char>, c: char, rest: Seq<char>)
    requires
        !a.contains(c),
    ensures
        pieces(a.push(c) + rest, c) == seq![a] + pieces(rest, c),
{
    let s = a.push(c) + rest;
    let n = a.len() as int;
    assert(s[n] == c);
    assert forall|j: int| 0 <= j < n implies s[j] != c by {
        assert(s[j] == a[j]);
        assert(a.contains(a[j]));
    }
    lemma_char_pos_is(s, c, n);
    assert(s.contains(c));
    assert(before_char(s, c) =~= a);
    assert(after_char(s, c) =~= rest);
}

/// A word that can stand between commas: it holds none, and no white space at its ends.
pub open spec fn is_column(s: Seq<char>) -> bool {
    s.len() > 0 && !s.contains(',') && !is_space(s[0]) && !is_space(s.last())
}

/// A line of three columns is a rule: how it matches, what, and where queries go; a line of
/// two is one that is resolved here; a bare domain is matched by its suffix.
pub proof fn law_lines_of_the_dns_page(
    kind: Seq<char>,
    payload: Seq<char>,
    action: Seq<char>,
)
    requires
        is_column(kind),
        is_column(payload),
        is_column(action),
        kind[0] != '#',
        payload[0] != '#',
    ensures
        ({
            let line = kind.push(',') + payload.push(',') + action;
            &&& matcher_named(kind) is None ==> line_rule(line) is None
            &&& matcher_named(kind) is Some && action_named(action) is Some ==> line_rule(line)
                == Some((matcher_named(kind)->0, payload, action_named(action)->0))
            &&& matcher_named(kind) is Some && action_named(action) is None ==> line_rule(line)
                == Some((matcher_named(kind)->0, payload, DnsAction::Local))
        }),
        ({
            let line = kind.push(',') + payload;
            matcher_named(kind) is Some ==> line_rule(line) == Some(
                (matcher_named(kind)->0, payload, DnsAction::Local),
            )
        }),
        (forall|i: int| 0 <= i < payload.len() ==> !is_space(#[trigger] payload[i])) ==> line_rule(
            payload,
        ) == Some((DomainMatcher::DomainSuffix, payload, DnsAction::Local)),
{
    lemma_trimmed_same(kind);
    lemma_trimmed_same(payload);
    lemma_trimmed_same(action);
    let line = kind.push(',') + payload.push(',') + action;
    let rest = payload.push(',') + action;
    assert(line =~= kind.push(',') + rest);
    lemma_first_piece(kind, ',', rest);
    lemma_first_piece(payload, ',', action);
    assert(pieces(action, ',') == seq![action]);
    let parts = pieces(line, ',');
    assert(parts =~= seq![kind, payload, action]);
    assert(line[0] == kind[0]);
    assert(line.last() == action.last());
    lemma_trimmed_same(line);
    assert(line[kind.len() as int] == ',');
    assert(line.contains(','));
    let two = kind.push(',') + payload;
    lemma_first_piece(kind, ',', payload);
    assert(pieces(payload, ',') == seq![payload]);
    assert(pieces(two, ',') =~= seq![kind, payload]);
    assert(two[0] == kind[0]);
    assert(two.last() == payload.last());
    lemma_trimmed_same(two);
    assert(two[kind.len() as int] == ',');
    assert(two.contains(','));
}

/// Blank lines and remarks are no rules.
pub proof fn law_remarks_are_no_rules(raw: Seq<char>)
    requires
        trimmed(raw).len() == 0 || trimmed(raw)[0] == '#',
    ensures
        line_rule(raw) is None,
{
}

/// A list has the rules of its lines, in their order, and all of them are on.
pub proof fn law_lists_have_the_rules_of_their_lines(lines: Seq<Seq<char>>, stem: Seq<char>)
    ensures
        listed_rules(lines, stem).len() <= lines.len(),
        forall|k: int|
            0 <= k < listed_rules(lines, stem).len() ==> {
                let r = #[trigger] listed_rules(lines, stem)[k];
                r.enabled && exists|i: int|
                    k <= i < lines.len() && line_rule(#[trigger] lines[i]) == Some(
                        (r.matcher, r.payload, r.action),
                    )
            },
        (forall|i: int| 0 <= i < lines.len() ==> line_rule(#[trigger] lines[i]) is Some)
            ==> listed_rules(lines, stem).len() == lines.len(),
    decreases lines.len(),
{
    if lines.len() > 0 {
        let t = lines.drop_last();
        let last = lines.len() - 1;
        law_lists_have_the_rules_of_their_lines(t, stem);
        let before = listed_rules(t, stem);
        let all = listed_rules(lines, stem);
        assert(lines[last] == lines.last());
        assert forall|k: int| 0 <= k < all.len() implies {
            let r = #[trigger] all[k];
            r.enabled && exists|i: int|
                k <= i < lines.len() && line_rule(#[trigger] lines[i]) == Some(
                    (r.matcher, r.payload, r.action),
                )
        } by {
            let r = all[k];
            if k < before.len() {
                assert(r == before[k]);
                let i = choose|i: int|
                    k <= i < t.len() && line_rule(#[trigger] t[i]) == Some(
                        (r.matcher, r.payload, r.action),
                    );
                assert(lines[i] == t[i]);
            } else {
                assert(line_rule(lines[last]) == Some((r.matcher, r.payload, r.action)));
            }
        }
        if forall|i: int| 0 <= i < lines.len() ==> line_rule(#[trigger] lines[i]) is Some {
            assert forall|i: int| 0 <= i < t.len() implies line_rule(#[trigger] t[i]) is Some by {
                assert(lines[i] == t[i]);
            }
        }
    }
}

/// In a hosts file, what follows a number sign does not count.
pub proof fn law_remarks_in_hosts_do_not_count(line: Seq<char>, remark: Seq<char>)
    requires
        !line.contains('#'),
    ensures
        hosts_line(line.push('#') + remark) == trimmed(line),
        hosts_line(line) == trimmed(line),
{
    let s = line.push('#') + remark;
    let n = line.len() as int;
    assert(s[n] == '#');
    assert forall|j: int| 0 <= j < n implies s[j] != '#' by {
        assert(s[j] == line[j]);
        assert(line.contains(line[j]));
    }
    lemma_char_pos_is(s, '#', n);
    assert(before_char(s, '#') =~= line);
    assert forall|j: int| 0 <= j < n implies line[j] != '#' by {
        assert(line.contains(line[j]));
    }
    lemma_char_pos_is(line, '#', n);
    assert(before_char(line, '#') =~= line);
}

/// A row of hosts gives each of its names, in small letters, the address in front.
pub proof fn law_hosts_rows_name_an_address(row: Seq<Seq<char>>, k: int)
    requires
        1 <= k < row.len(),
        trimmed(row[k]).len() > 0,
    ensures
        row_pairs(row).contains((lowered(trimmed(row[k])), trimmed(row[0]))),
    decreases row.len(),
{
    let t = row.drop_last();
    let before = row_pairs(t);
    let all = row_pairs(row);
    let pair = (lowered(trimmed(row[k])), trimmed(row[0]));
    if k < t.len() {
        assert(t[k] == row[k] && t[0] == row[0]);
        law_hosts_rows_name_an_address(t, k);
        let i = choose|i: int| 0 <= i < before.len() && before[i] == pair;
        assert(all[i] == pair);
    } else {
        assert(all[before.len() as int] == pair);
    }
}

/// The names of a row have no other address.
pub proof fn law_hosts_rows_name_one_address(row: Seq<Seq<char>>, i: int)
    requires
        0 <= i < row_pairs(row).len(),
    ensures
        row.len() >= 2,
        row_pairs(row)[i].1 == trimmed(row[0]),
        exists|k: int|
            1 <= k < row.len() && lowered(trimmed(#[trigger] row[k])) == row_pairs(row)[i].0,
    decreases row.len(),
{
    let t = row.drop_last();
    let before = row_pairs(t);
    if i < before.len() {
        law_hosts_rows_name_one_address(t, i);
        assert(row_pairs(row)[i] == before[i]);
        assert(t[0] == row[0]);
        let k = choose|k: int|
            1 <= k < t.len() && lowered(trimmed(#[trigger] t[k])) == before[i].0;
        assert(row[k] == t[k]);
    } else {
        let k = row.len() - 1;
        assert(lowered(trimmed(row[k])) == row_pairs(row)[i].0);
    }
}

/// A page that is put into shape keeps the sets of the user as they are.
pub proof fn law_sets_of_the_user_stay(d: DnsSettings, list: Option<Seq<char>>, x: int)
    requires
        0 <= x < set_views(d.rule_sets@).len(),
        set_views(d.rule_sets@)[x].id != "builtin-dns"@,
        set_views(d.rule_sets@)[x].id != "system-hosts"@,
    ensures
        !d.unified_rules || set_views(d.rule_sets@)[x].kind == DnsRuleSetKind::Hosts ==> ensured_sets(
            d,
            list,
        ).contains(set_views(d.rule_sets@)[x]),
{
    let sets = set_views(d.rule_sets@);
    let s = sets[x];
    if d.unified_rules {
        let p = |s: DnsRuleSetModel| s.kind == DnsRuleSetKind::Hosts;
        lemma_filter_keeps(sets, p, x);
        let kept = sets.filter(p);
        let all = ensured_sets(d, list);
        if p(s) {
            let i = choose|i: int| 0 <= i < kept.len() && kept[i] == s;
            if has_set(kept, "system-hosts"@) {
                assert(all[i] == s);
            } else {
                assert(all[i + 1] == s);
            }
        }
    } else {
        lemma_factory_ids();
        let a = if has_set(sets, "builtin-dns"@) {
            sets
        } else {
            seq![crate::domain::dns::builtin_set(rules_of_list(list), false)] + sets
        };
        let i = if has_set(sets, "builtin-dns"@) {
            x
        } else {
            x + 1
        };
        assert(a[i] == s);
        let b = with_factory_sets(sets, list);
        let j = if has_set(a, "system-hosts"@) {
            i
        } else if i == 0 {
            0
        } else {
            i + 1
        };
        assert(b[j] == s);
        lemma_factory_sets_are_there(sets, list);
        lemma_shape_keeps(b, j);
    }
}

proof fn lemma_factory_sets_are_there(sets: Seq<DnsRuleSetModel>, list: Option<Seq<char>>)
    requires
        sets.len() > 0,
    ensures
        has_set(with_factory_sets(sets, list), "builtin-dns"@),
        has_set(with_factory_sets(sets, list), "system-hosts"@),
{
    let first = crate::domain::dns::builtin_set(rules_of_list(list), false);
    let a = if has_set(sets, "builtin-dns"@) {
        sets
    } else {
        seq![first] + sets
    };
    if !has_set(sets, "builtin-dns"@) {
        assert(a[0] == first);
    }
    assert(has_set(a, "builtin-dns"@));
    let i = choose|i: int| 0 <= i < a.len() && (#[trigger] a[i]).id == "builtin-dns"@;
    let b = with_factory_sets(sets, list);
    if !has_set(a, "system-hosts"@) {
        let at = if i < 1 {
            i
        } else {
            i + 1
        };
        assert(b[at] == a[i]);
        assert(b[1].id == "system-hosts"@);
    }
}

proof fn lemma_factory_ids()
    ensures
        "builtin-dns"@ != "system-hosts"@,
{
    reveal_strlit("builtin-dns");
    reveal_strlit("system-hosts");
    assert("builtin-dns"@.len() == 11 && "system-hosts"@.len() == 12);
}

proof fn lemma_pos_has_id(sets: Seq<DnsRuleSetModel>, id: Seq<char>)
    ensures
        0 <= set_pos(sets, id) <= sets.len(),
        set_pos(sets, id) < sets.len() ==> sets[set_pos(sets, id)].id == id,
        has_set(sets, id) ==> set_pos(sets, id) < sets.len(),
    decreases sets.len(),
{
    if sets.len() > 0 && sets[0].id != id {
        let t = sets.drop_first();
        lemma_pos_has_id(t, id);
        if has_set(sets, id) {
            let i = choose|i: int| 0 <= i < sets.len() && (#[trigger] sets[i]).id == id;
            assert(t[i - 1].id == id);
        }
    }
}

proof fn lemma_shape_keeps(sets: Seq<DnsRuleSetModel>, j: int)
    requires
        0 <= j < sets.len(),
        sets[j].id != "builtin-dns"@,
        sets[j].id != "system-hosts"@,
        has_set(sets, "builtin-dns"@),
        has_set(sets, "system-hosts"@),
    ensures
        with_factory_shape(sets).contains(sets[j]),
{
    lemma_factory_ids();
    let b = set_pos(sets, "builtin-dns"@);
    lemma_pos_has_id(sets, "builtin-dns"@);
    let x = sets.update(b, crate::domain::dns::builtin_set(sets[b].dns_rules, sets[b].enabled));
    let s = set_pos(x, "system-hosts"@);
    let h = choose|h: int| 0 <= h < sets.len() && (#[trigger] sets[h]).id == "system-hosts"@;
    assert(x[h].id == "system-hosts"@);
    assert(has_set(x, "system-hosts"@));
    lemma_pos_has_id(x, "system-hosts"@);
    assert(with_factory_shape(sets)[j] == sets[j]);
}

proof fn lemma_filter_keeps<A>(s: Seq<A>, p: spec_fn(A) -> bool, x: int)
    requires
        0 <= x < s.len(),
    ensures
        p(s[x]) ==> s.filter(p).contains(s[x]),
    decreases s.len(),
{
    reveal(Seq::filter);
    if p(s[x]) {
        let t = s.drop_last();
        let before = t.filter(p);
        if x < t.len() {
            lemma_filter_keeps(t, p, x);
            assert(t[x] == s[x]);
            let k = choose|k: int| 0 <= k < before.len() && before[k] == s[x];
            assert(s.filter(p)[k] == s[x]);
        } else {
            assert(s.filter(p)[before.len() as int] == s[x]);
        }
    }
}

/// A reset gives the shipped set its rules back, and leaves the other sets and its switch.
pub proof fn law_reset_touches_the_shipped_set(
    sets: Seq<DnsRuleSetModel>,
    list: Option<Seq<char>>,
    x: int,
)
    requires
        0 <= x < sets.len(),
        has_set(sets, "builtin-dns"@),
    ensures
        reset_sets(sets, list).len() == sets.len(),
        sets[x].id != "builtin-dns"@ ==> reset_sets(sets, list)[x] == sets[x],
        x == set_pos(sets, "builtin-dns"@) ==> reset_sets(sets, list)[x].enabled == sets[x].enabled
            && reset_sets(sets, list)[x].dns_rules == rules_of_list(list) && reset_sets(
            sets,
            list,
        )[x].builtin && !reset_sets(sets, list)[x].read_only,
{
    lemma_pos_has_id(sets, "builtin-dns"@);
}

// ---------------------------------------------------------------------------
// Nodes and rules in force
// ---------------------------------------------------------------------------
/// A result is noted on the node of its id, the first that has it, and on no other.
pub proof fn law_latency_is_noted_on_its_node(
    nodes: Seq<StoredNode>,
    id: Seq<char>,
    ms: Option<u32>,
    at: i64,
    x: int,
)
    requires
        0 <= x < nodes.len(),
    ensures
        with_latency(nodes, id, ms, at).len() == nodes.len(),
        ({
            let after = with_latency(nodes, id, ms, at)[x];
            &&& nodes[x].node.id@ != id ==> after == nodes[x]
            &&& after.subscription_id == nodes[x].subscription_id
            &&& after.node.id == nodes[x].node.id && after.node.name == nodes[x].node.name
                && after.node.server == nodes[x].node.server && after.node.config
                == nodes[x].node.config
            &&& nodes[x].node.id@ == id && (forall|j: int|
                0 <= j < x ==> (#[trigger] nodes[j]).node.id@ != id) ==> after.node.latency_ms == ms
                && after.node.latency_at == Some(at)
        }),
{
    if exists|i: int| 0 <= i < nodes.len() && (#[trigger] nodes[i]).node.id@ == id {
        let w = choose|i: int| 0 <= i < nodes.len() && (#[trigger] nodes[i]).node.id@ == id;
        lemma_first_stored(nodes, id, w);
        let p = stored_pos(nodes, id)->0;
        if nodes[x].node.id@ == id && forall|j: int|
            0 <= j < x ==> (#[trigger] nodes[j]).node.id@ != id {
            assert(p == x) by {
                if p < x {
                    assert(nodes[p].node.id@ != id);
                }
                if x < p {
                    assert(nodes[x].node.id@ != id);
                }
            }
        }
    }
}

proof fn lemma_first_stored(nodes: Seq<StoredNode>, id: Seq<char>, w: int)
    requires
        0 <= w < nodes.len(),
        nodes[w].node.id@ == id,
    ensures
        ({
            let p = stored_pos(nodes, id);
            &&& p is Some
            &&& 0 <= p->0 < nodes.len()
            &&& nodes[p->0].node.id@ == id
            &&& forall|j: int| 0 <= j < p->0 ==> (#[trigger] nodes[j]).node.id@ != id
        }),
    decreases w,
{
    if exists|j: int| 0 <= j < w && (#[trigger] nodes[j]).node.id@ == id {
        let j = choose|j: int| 0 <= j < w && (#[trigger] nodes[j]).node.id@ == id;
        lemma_first_stored(nodes, id, j);
    } else {
        assert(nodes[w].node.id@ == id && forall|j: int|
            0 <= j < w ==> (#[trigger] nodes[j]).node.id@ != id);
    }
}

/// A batch of results leaves nodes that it does not name, and has as many nodes.
pub proof fn law_results_touch_their_nodes(
    nodes: Seq<StoredNode>,
    results: Seq<LatencyResult>,
    x: int,
)
    requires
        0 <= x < nodes.len(),
    ensures
        with_latencies(nodes, results).len() == nodes.len(),
        with_latencies(nodes, results)[x].node.id == nodes[x].node.id,
        (forall|i: int| 0 <= i < results.len() ==> (#[trigger] results[i]).id@ != nodes[x].node.id@)
            ==> with_latencies(nodes, results)[x] == nodes[x],
    decreases results.len(),
{
    if results.len() > 0 {
        let t = results.drop_last();
        law_results_touch_their_nodes(nodes, t, x);
        let before = with_latencies(nodes, t);
        let r = results.last();
        law_latency_is_noted_on_its_node(before, r.id@, r.latency_ms, r.tested_at, x);
        assert(results[results.len() - 1] == r);
        if forall|i: int|
            0 <= i < results.len() ==> (#[trigger] results[i]).id@ != nodes[x].node.id@ {
            assert forall|i: int| 0 <= i < t.len() implies (#[trigger] t[i]).id@
                != nodes[x].node.id@ by {
                assert(results[i] == t[i]);
            }
        }
    }
}

/// The rules in force are those that are on, of sets that are on.
pub proof fn law_rules_in_force_are_on(sets: Seq<RuleSet>, r: Rule)
    ensures
        enabled_rules(sets).contains(r) <==> r.enabled && exists|x: int|
            0 <= x < sets.len() && (#[trigger] sets[x]).enabled && sets[x].rules@.contains(r),
    decreases sets.len(),
{
    if sets.len() > 0 {
        let t = sets.drop_last();
        let last = sets.len() - 1;
        law_rules_in_force_are_on(t, r);
        let before = enabled_rules(t);
        let own = sets.last().rules@.filter(rule_on());
        let all = enabled_rules(sets);
        assert(sets[last] == sets.last());
        lemma_filter_members(sets.last().rules@, rule_on(), r);
        lemma_sum_members(before, own, r);
        if exists|x: int|
            0 <= x < t.len() && (#[trigger] t[x]).enabled && t[x].rules@.contains(r) {
            let x = choose|x: int|
                0 <= x < t.len() && (#[trigger] t[x]).enabled && t[x].rules@.contains(r);
            assert(sets[x] == t[x]);
        }
        if exists|x: int|
            0 <= x < sets.len() && (#[trigger] sets[x]).enabled && sets[x].rules@.contains(r) {
            let x = choose|x: int|
                0 <= x < sets.len() && (#[trigger] sets[x]).enabled && sets[x].rules@.contains(r);
            if x < last {
                assert(t[x] == sets[x]);
            }
        }
    }
}

proof fn lemma_sum_members<A>(a: Seq<A>, b: Seq<A>, x: A)
    ensures
        (a + b).contains(x) <==> a.contains(x) || b.contains(x),
{
    if a.contains(x) {
        let i = choose|i: int| 0 <= i < a.len() && a[i] == x;
        assert((a + b)[i] == x);
    }
    if b.contains(x) {
        let i = choose|i: int| 0 <= i < b.len() && b[i] == x;
        assert((a + b)[a.len() + i] == x);
    }
    if (a + b).contains(x) {
        let i = choose|i: int| 0 <= i < (a + b).len() && (a + b)[i] == x;
        if i < a.len() {
            assert(a[i] == x);
        } else {
            assert(b[i - a.len()] == x);
        }
    }
}

proof fn lemma_filter_members<A>(s: Seq<A>, p: spec_fn(A) -> bool, x: A)
    ensures
        s.filter(p).contains(x) <==> s.contains(x) && p(x),
    decreases s.len(),
{
    reveal(Seq::filter);
    if s.len() > 0 {
        let t = s.drop_last();
        lemma_filter_members(t, p, x);
        assert(s =~= t + seq![s.last()]);
        lemma_sum_members(t, seq![s.last()], x);
        lemma_sum_members(t.filter(p), seq![s.last()], x);
        assert(t.filter(p).push(s.last()) =~= t.filter(p) + seq![s.last()]);
        assert(seq![s.last()].contains(x) <==> x == s.last()) by {
            assert(seq![s.last()][0] == s.last());
        }
    }
}

/// Rules in force stand by their place; of two in the same place the one of the earlier set
/// comes first.
pub proof fn law_rules_stand_in_their_place(sets: Seq<RuleSet>, i: int, j: int)
    requires
        0 <= i < j < rules_in_place(sets).len(),
    ensures
        rules_in_place(sets)[i].ord <= rules_in_place(sets)[j].ord,
        rules_in_place(sets).len() == enabled_rules(sets).len(),
{
    let all = enabled_rules(sets);
    let keys = place_keys(all);
    law_items_have_an_order(keys);
    let p = order_of(keys);
    assert(is_stable_order(keys, p));
    assert(crate::order::item_before(keys, p[i], p[j]));
    assert(keys[p[i]].rank == all[p[i]].ord && keys[p[j]].rank == all[p[j]].ord);
}

/// A tag is of a node of a subscription that is on; it tells the node's name and its
/// subscription's.
pub proof fn law_tags_are_of_nodes_in_force(nodes: Seq<StoredNode>, subs: Seq<Subscription>, tag: Seq<char>)
    ensures
        tag_infos(nodes, subs).contains_key(tag) <==> exists|i: int|
            0 <= i < nodes.len() && crate::domain::node::node_tag((#[trigger] nodes[i]).node.id@)
                == tag && is_enabled(subs, nodes[i].subscription_id@),
        tag_infos(nodes, subs).contains_key(tag) ==> exists|i: int|
            0 <= i < nodes.len() && crate::domain::node::node_tag((#[trigger] nodes[i]).node.id@)
                == tag && is_enabled(subs, nodes[i].subscription_id@) && tag_infos(nodes, subs)[tag].name
                == nodes[i].node.name@ && tag_infos(nodes, subs)[tag].subscription
                == subscription_name(subs, nodes[i].subscription_id@),
    decreases nodes.len(),
{
    if nodes.len() > 0 {
        let t = nodes.drop_last();
        let last = nodes.len() - 1;
        law_tags_are_of_nodes_in_force(t, subs, tag);
        let n = nodes.last();
        assert(nodes[last] == n);
        let before = tag_infos(t, subs);
        if before.contains_key(tag) {
            let i = choose|i: int|
                0 <= i < t.len() && crate::domain::node::node_tag((#[trigger] t[i]).node.id@) == tag
                    && is_enabled(subs, t[i].subscription_id@) && before[tag].name
                    == t[i].node.name@ && before[tag].subscription == subscription_name(
                    subs,
                    t[i].subscription_id@,
                );
            assert(nodes[i] == t[i]);
        }
        if exists|i: int|
            0 <= i < nodes.len() && crate::domain::node::node_tag((#[trigger] nodes[i]).node.id@)
                == tag && is_enabled(subs, nodes[i].subscription_id@) {
            let i = choose|i: int|
                0 <= i < nodes.len() && crate::domain::node::node_tag((#[trigger] nodes[i]).node.id@)
                    == tag && is_enabled(subs, nodes[i].subscription_id@);
            if i < last {
                assert(t[i] == nodes[i]);
            }
        }
    }
}

/// The name of a subscription is that of one with its id.
pub proof fn law_subscriptions_are_named_by_id(subs: Seq<Subscription>, x: int)
    requires
        0 <= x < subs.len(),
        forall|j: int| x < j < subs.len() ==> (#[trigger] subs[j]).id@ != subs[x].id@,
    ensures
        subscription_name(subs, subs[x].id@) == subs[x].name@,
    decreases subs.len(),
{
    if x < subs.len() - 1 {
        let t = subs.drop_last();
        assert(subs[subs.len() - 1].id@ != subs[x].id@);
        assert(t[x] == subs[x]);
        assert forall|j: int| x < j < t.len() implies (#[trigger] t[j]).id@ != t[x].id@ by {
            assert(subs[j].id@ != subs[x].id@);
        }
        law_subscriptions_are_named_by_id(t, x);
    }
}

/// The rows of a hosts file are its lines with an address and a name at least.
pub proof fn law_hosts_rows_have_two_columns(lines: Seq<Seq<char>>, line: Seq<char>)
    ensures
        hosts_columns(line).len() >= 2 ==> hosts_rows_of(lines.push(line)) == hosts_rows_of(
            lines,
        ).push(hosts_columns(line)),
        hosts_columns(line).len() < 2 ==> hosts_rows_of(lines.push(line)) == hosts_rows_of(lines),
{
    assert(lines.push(line).drop_last() =~= lines);
}

/// Rows that do not begin with an address name nothing.
pub proof fn law_hosts_need_an_address(
    rows: Seq<Seq<Seq<char>>>,
    row: Seq<Seq<char>>,
    is_address: Seq<bool>,
)
    requires
        is_address.len() == rows.len() + 1,
    ensures
        is_address.last() ==> pairs_of_rows(rows.push(row), is_address) == pairs_of_rows(
            rows,
            is_address,
        ) + row_pairs(row),
        !is_address.last() ==> pairs_of_rows(rows.push(row), is_address) == pairs_of_rows(
            rows,
            is_address,
        ),
{
    assert(rows.push(row).drop_last() =~= rows);
}

/// A store without sets has its rules and hosts in sets from then on, each with its old
/// switch.
pub proof fn law_old_pages_become_sets(
    rules: Seq<DnsRuleModel>,
    rules_enabled: bool,
    hosts: HostsConfig,
)
    ensures
        ({
            let sets = migrated_sets(rules, rules_enabled, hosts);
            &&& sets.len() == if hosts.entries@.len() == 0 {
                2int
            } else {
                3
            }
            &&& sets[0].kind == DnsRuleSetKind::Dns && sets[0].dns_rules == rules && sets[0].enabled
                == rules_enabled
            &&& sets[1].kind == DnsRuleSetKind::Hosts && sets[1].read_only && (sets[1].enabled
                <==> hosts.enabled && hosts.include_system)
            &&& hosts.entries@.len() > 0 ==> sets[2].kind == DnsRuleSetKind::Hosts
                && !sets[2].read_only && sets[2].enabled == hosts.enabled && sets[2].hosts.len()
                == hosts.entries@.len()
        }),
{
}

/// The hosts that are asked are those of the sets that are on; the system's set is read from
/// its own file.
pub proof fn law_asked_hosts_are_of_sets_that_are_on(
    sets: Seq<DnsRuleSetModel>,
    set: DnsRuleSetModel,
    system: Seq<HostsEntryModel>,
)
    ensures
        !set.enabled || set.kind != DnsRuleSetKind::Hosts ==> flat_hosts(sets.push(set), system)
            == flat_hosts(sets, system),
        set.enabled && set.kind == DnsRuleSetKind::Hosts && set.id != "system-hosts"@ ==> flat_hosts(
            sets.push(set),
            system,
        ) == flat_hosts(sets, system) + set.hosts,
        set.enabled && set.kind == DnsRuleSetKind::Hosts && set.id == "system-hosts"@ ==> flat_hosts(
            sets.push(set),
            system,
        ) == flat_hosts(sets, system) + system,
{
    assert(sets.push(set).drop_last() =~= sets);
}

/// The rules of a store without a list: the names of local networks are resolved here.
pub proof fn law_local_names_are_resolved_here(i: int)
    requires
        0 <= i < rules_of_list(None).len(),
    ensures
        rules_of_list(None).len() == 4,
        rules_of_list(None)[i].enabled,
        rules_of_list(None)[i].matcher == DomainMatcher::DomainSuffix,
        rules_of_list(None)[i].action == DnsAction::Local,
        rules_of_list(None)[0].payload == "local"@ && rules_of_list(None)[1].payload == "lan"@,
        rules_of_list(None)[2].payload == "internal"@ && rules_of_list(None)[3].payload == "corp"@,
{
}

/// The entries of the system's file are on, and name what the file names.
pub proof fn law_system_entries_are_on(pairs: Seq<(String, String)>, prefix: Seq<char>, i: int)
    requires
        0 <= i < pairs.len(),
    ensures
        system_entries(pairs, prefix).len() == pairs.len(),
        system_entries(pairs, prefix)[i].enabled,
        system_entries(pairs, prefix)[i].domain == pairs[i].0@,
        system_entries(pairs, prefix)[i].addr == pairs[i].1@,
{
}

/// Shipped sets that a page lacks are added, and are off; a reset of one that is not there adds
/// it, and it is on.
pub proof fn law_added_sets_are_off(sets: Seq<DnsRuleSetModel>, list: Option<Seq<char>>)
    requires
        sets.len() > 0,
        !has_set(sets, "builtin-dns"@),
        !has_set(sets, "system-hosts"@),
    ensures
        ({
            let all = with_factory_sets(sets, list);
            &&& all.len() == sets.len() + 2
            &&& all[0].id == "builtin-dns"@ && !all[0].enabled && all[0].dns_rules == rules_of_list(
                list,
            )
            &&& all[1].id == "system-hosts"@ && !all[1].enabled
            &&& all.skip(2) == sets
        }),
        reset_sets(sets, list).len() == sets.len() + 1,
        reset_sets(sets, list)[0].enabled,
        reset_sets(sets, list).skip(1) == sets,
{
    lemma_factory_ids();
    let first = crate::domain::dns::builtin_set(rules_of_list(list), false);
    let a = seq![first] + sets;
    assert(!has_set(a, "system-hosts"@)) by {
        if has_set(a, "system-hosts"@) {
            let i = choose|i: int| 0 <= i < a.len() && (#[trigger] a[i]).id == "system-hosts"@;
            if i > 0 {
                assert(sets[i - 1].id == "system-hosts"@);
            }
        }
    }
    assert(with_factory_sets(sets, list).skip(2) =~= sets);
    assert(reset_sets(sets, list).skip(1) =~= sets);
}

/// A page of an old store has its rules on where its switch or its old mode says so.
pub proof fn law_old_modes_turn_rules_on(d: DnsSettings, list: Option<Seq<char>>)
    requires
        d.rule_sets@.len() == 0,
        !d.unified_rules,
    ensures
        ensured_sets(d, list).len() >= 2,
        ensured_sets(d, list)[0].kind == DnsRuleSetKind::Dns,
        ensured_sets(d, list)[0].enabled <==> d.rules_enabled || d.mode == DnsMode::Rules,
{
    lemma_factory_ids();
    let base = migrated_sets(
        crate::domain::dns::dns_rule_views(d.rules@),
        d.rules_enabled || d.mode == DnsMode::Rules,
        d.hosts,
    );
    assert(set_views(d.rule_sets@).len() == 0);
    assert(base[0].id == "builtin-dns"@ && base[1].id == "system-hosts"@);
    assert(has_set(base, "builtin-dns"@) && has_set(base, "system-hosts"@));
    assert(with_factory_sets(base, list) == base);
    assert(set_pos(base, "builtin-dns"@) == 0);
    let x = base.update(0, crate::domain::dns::builtin_set(base[0].dns_rules, base[0].enabled));
    lemma_pos_has_id(x, "system-hosts"@);
    assert(x[1].id == "system-hosts"@);
    assert(set_pos(x, "system-hosts"@) != 0);
}

/// Columns of a hosts file are parted by the white space of ASCII alone.
pub proof fn law_columns_are_parted_by_plain_blanks(w: Seq<char>)
    requires
        w.len() > 0,
        !is_space(w[0]),
        !is_space(w.last()),
        !w.contains('#'),
        forall|i: int|
            0 <= i < w.len() ==> #[trigger] w[i] != ' ' && w[i] != '\t' && w[i] != '\n' && w[i]
                != '\u{c}' && w[i] != '\r',
    ensures
        hosts_columns(w) == seq![w],
{
    law_remarks_in_hosts_do_not_count(w, Seq::empty());
    lemma_trimmed_same(w);
    let p = crate::text::separators(true);
    assert forall|j: int| 0 <= j < w.len() implies !p(#[trigger] w[j]) by {}
    crate::text::lemma_words_step(w, p, 0, w.len() as int);
    assert(w.subrange(0, w.len() as int) =~= w);
    let none = w.skip(w.len() as int);
    assert(none.len() == 0);
    assert(crate::text::words(none, p) =~= Seq::empty());
    assert(hosts_columns(w) =~= seq![w]);
}

/// The kinds of actions that stores may hold.
pub proof fn law_stored_actions_are_known(kind: Seq<char>)
    ensures
        kind == "local"@ || kind == "system"@ <==> DnsAction::of_kind(kind) == Some(
            DnsAction::Local,
        ),
        kind == "domestic"@ <==> DnsAction::of_kind(kind) == Some(DnsAction::Domestic),
        kind == "remote"@ || kind == "fake_ip"@ || kind == "server"@ <==> DnsAction::of_kind(kind)
            == Some(DnsAction::Remote),
        kind == "block"@ <==> DnsAction::of_kind(kind) == Some(DnsAction::Block),
{
    reveal_strlit("local");
    reveal_strlit("system");
    reveal_strlit("domestic");
    reveal_strlit("remote");
    reveal_strlit("fake_ip");
    reveal_strlit("server");
    reveal_strlit("block");
    assert("local"@.len() == 5 && "block"@.len() == 5 && "local"@[0] == 'l' && "block"@[0] == 'b');
    assert("system"@.len() == 6 && "remote"@.len() == 6 && "server"@.len() == 6);
    assert("system"@[1] == 'y' && "remote"@[0] == 'r' && "server"@[1] == 'e');
    assert("domestic"@.len() == 8 && "fake_ip"@.len() == 7);
}

} // verus!
