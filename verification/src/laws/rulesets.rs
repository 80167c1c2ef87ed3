//! Rules and rule sets: what they say, when they are downloaded again, and how they are
//! applied.

use crate::domain::rule::{
    any_holds_ip_cidr, builtin_pos, clash_line, display_rows, fields_rows, holds_ip_cidr,
    holds_trimmed_word, holds_word, interval_name, interval_secs, is_complex, marked, overlap, rule_text,
    shipped_set, supported, tidy_keywords, RemoteRuleSetConfig, RuleModel, RuleSet,
    RuleSetDnsStrategy, RuleSetStrategy, RuleTarget, RuleType,
};
use crate::json::{json_parsed, JsonModel};
use crate::launch::Launched;
use crate::refresh::{after_refresh, next_refresh, RefreshEvent, RefreshState, RefreshStep};
use crate::remote_rule_auto::{
    begins_binary, healed, is_due, is_orphan, is_safe_char, remote_of, rows_of_rules, rules_of,
    safe_name, scan_of, set_pos, unscanned_file, verdict_of, with_remote, BinaryScan, CacheEntry, CacheReading,
    RuleSetFileFormat,
};
use crate::rule_apply::{
    end_of_restart, restart_asked, settled_toggles, toggled, whole_batch, ApplyEnd, QueueModel,
    Toggles,
};
use crate::runtime::CoreState;
use crate::start::WaitFor;
use crate::text::{has_prefix, has_suffix, holds_text, lowered, opt_view, trimmed, unicode_lowered};
use crate::watchdog::{is_recent, revives, CoreWatch};
use vstd::prelude::*;

verus! {

// ---------------------------------------------------------------------------
// When sets are downloaded again
// ---------------------------------------------------------------------------
proof fn lemma_interval_names()
    ensures
        "1h"@ != "12h"@,
        "1h"@ != "24h"@,
        "12h"@ != "24h"@,
        "disabled"@ != "1h"@,
        "disabled"@ != "12h"@,
        "disabled"@ != "24h"@,
{
    reveal_strlit("1h");
    reveal_strlit("12h");
    reveal_strlit("24h");
    reveal_strlit("disabled");
    assert("1h"@.len() == 2 && "12h"@.len() == 3 && "24h"@.len() == 3 && "disabled"@.len() == 8);
    assert("12h"@[0] == '1' && "24h"@[0] == '2');
}

/// An interval is so many hours; one that is known and not off has its time, and no other has.
pub proof fn law_intervals_are_hours(value: Seq<char>)
    ensures
        lowered(trimmed(value)) == "1h"@ <==> interval_secs(value) == Some((1 * 3600) as i64),
        lowered(trimmed(value)) == "12h"@ <==> interval_secs(value) == Some((12 * 3600) as i64),
        lowered(trimmed(value)) == "24h"@ <==> interval_secs(value) == Some((24 * 3600) as i64),
        interval_secs(value) is Some <==> interval_name(value) is Some && interval_name(value)->0
            != "disabled"@,
        interval_name(value) is Some ==> interval_name(value)->0 == lowered(trimmed(value)),
{
    lemma_interval_names();
}

/// A downloaded set is due where it is updated at all and its download was left behind, has
/// no file, or was tried as long ago as the interval; and it stays due until it is tried.
pub proof fn law_sets_are_due_in_time(s: RuleSet, now: i64, later: i64)
    requires
        now <= later,
        i64::MIN / 2 <= now,
        later <= i64::MAX / 2,
        s.remote matches Some(r) ==> (r.last_attempt matches Some(t) ==> i64::MIN / 2 <= t <= i64::MAX
            / 2),
    ensures
        s.remote is None ==> !is_due(s, now),
        is_due(s, now) ==> is_due(s, later),
        s.remote matches Some(r) ==> {
            &&& interval_secs(r.update_interval@) is None ==> !is_due(s, now)
            &&& interval_secs(r.update_interval@) is Some && r.local_path is None ==> is_due(s, now)
            &&& interval_secs(r.update_interval@) is Some && r.download_status@ == "downloading"@
                ==> is_due(s, now)
            &&& interval_secs(r.update_interval@) is Some && r.local_path is Some
                && r.download_status@ != "downloading"@ && r.last_attempt is Some ==> (is_due(s, now)
                <==> now - r.last_attempt->0 >= interval_secs(r.update_interval@)->0)
        },
{
}

/// The name of a set's file holds only letters, digits, dashes and underscores, is as long as
/// the id, and is the id where that holds no others.
pub proof fn law_file_names_are_safe(id: Seq<char>)
    ensures
        safe_name(id).len() == id.len(),
        forall|i: int|
            0 <= i < id.len() ==> {
                let c = #[trigger] safe_name(id)[i];
                'a' <= c <= 'z' || 'A' <= c <= 'Z' || '0' <= c <= '9' || c == '-' || c == '_'
            },
        (forall|i: int| 0 <= i < id.len() ==> is_safe_char(#[trigger] id[i])) ==> safe_name(id)
            == id,
        safe_name(safe_name(id)) == safe_name(id),
{
    assert(safe_name(safe_name(id)) =~= safe_name(id));
    if forall|i: int| 0 <= i < id.len() ==> is_safe_char(#[trigger] id[i]) {
        assert(safe_name(id) =~= id);
    }
}

/// A file of the cache is removed where it is the file of a set and none refers to it.
pub proof fn law_files_in_use_stay(e: CacheEntry)
    ensures
        is_orphan(e) ==> e.is_file && !e.referenced,
        e.is_file && !e.referenced && (opt_view(e.extension) == Some("srs"@) || opt_view(e.extension)
            == Some("json"@)) ==> is_orphan(e),
        e.extension is None ==> !is_orphan(e),
{
}

// ---------------------------------------------------------------------------
// What a downloaded set holds
// ---------------------------------------------------------------------------
/// A set is taken where it has rules: as many rows as these have together, at least one each.
pub proof fn law_sets_have_rules(parsed: Result<JsonModel, Seq<char>>)
    ensures
        scan_of(parsed) is Ok ==> parsed is Ok && rules_of(parsed->Ok_0) is Some && {
            let rules = rules_of(parsed->Ok_0)->0;
            &&& rules.len() > 0
            &&& scan_of(parsed)->Ok_0.0 == rows_of_rules(rules)
            &&& scan_of(parsed)->Ok_0.0 >= rules.len()
            &&& scan_of(parsed)->Ok_0.1 == any_holds_ip_cidr(rules)
        },
        parsed is Err ==> scan_of(parsed) is Err && verdict_of(parsed) is None,
        parsed is Ok && rules_of(parsed->Ok_0) is None ==> scan_of(parsed) is Err,
{
    if scan_of(parsed) is Ok {
        lemma_rows_at_least(rules_of(parsed->Ok_0)->0);
    }
}

proof fn lemma_rows_at_least(rules: Seq<JsonModel>)
    ensures
        rows_of_rules(rules) >= rules.len(),
    decreases rules.len(),
{
    if rules.len() > 0 {
        lemma_rows_at_least(rules.drop_last());
    }
}

/// One more rule has its rows more.
pub proof fn law_rows_add_up(rules: Seq<JsonModel>, rule: JsonModel)
    requires
        display_rows(rule) <= usize::MAX,
    ensures
        rows_of_rules(rules.push(rule)) == rows_of_rules(rules) + display_rows(rule),
        display_rows(rule) >= 1,
{
    assert(rules.push(rule).drop_last() =~= rules);
}

/// A plain rule has a row for each value that it names, whatever it is called; turning it
/// round adds none.
pub proof fn law_rows_are_values(fields: Seq<(Seq<char>, JsonModel)>, name: Seq<char>, v: JsonModel)
    ensures
        fields_rows(Seq::empty()) == 0,
        name != "invert"@ ==> fields_rows(fields.push((name, v))) == fields_rows(fields) + match v {
            JsonModel::List(items) => items.len(),
            _ => 1,
        },
        name == "invert"@ ==> fields_rows(fields.push((name, v))) == fields_rows(fields),
        is_complex(JsonModel::Object(fields)) ==> display_rows(JsonModel::Object(fields)) == 1,
        !is_complex(JsonModel::Object(fields)) && fields_rows(fields) > 0 ==> display_rows(
            JsonModel::Object(fields),
        ) == fields_rows(fields),
{
    assert(fields.push((name, v)).drop_last() =~= fields);
}

/// A set holds addresses where one of its rules names any, at any depth.
pub proof fn law_addresses_are_found(rules: Seq<JsonModel>, x: int, fields: Seq<(Seq<char>, JsonModel)>, k: int)
    requires
        0 <= x < rules.len(),
        rules[x] == JsonModel::Object(fields),
        0 <= k < fields.len(),
        fields[k].0 == "ip_cidr"@ || holds_ip_cidr(fields[k].1),
    ensures
        any_holds_ip_cidr(rules),
{
    assert(holds_ip_cidr(rules[x]));
}

/// A set of plain rules that name no addresses holds none.
pub proof fn law_no_addresses_are_made_up(rules: Seq<JsonModel>)
    requires
        forall|x: int|
            0 <= x < rules.len() ==> (#[trigger] rules[x]) is Object && forall|k: int|
                0 <= k < rules[x]->Object_0.len() ==> (#[trigger] rules[x]->Object_0[k]).0
                    != "ip_cidr"@ && !(rules[x]->Object_0[k].1 is Object)
                    && !(rules[x]->Object_0[k].1 is List),
    ensures
        !any_holds_ip_cidr(rules),
{
    assert forall|x: int| 0 <= x < rules.len() implies !holds_ip_cidr(#[trigger] rules[x]) by {
        let fields = rules[x]->Object_0;
        assert forall|k: int| 0 <= k < fields.len() implies !((#[trigger] fields[k]).0 == "ip_cidr"@
            || holds_ip_cidr(fields[k].1)) by {
            assert(rules[x]->Object_0[k].0 != "ip_cidr"@);
        }
    }
}

/// Where it was not noted whether a set holds addresses, its file tells; a file that tells
/// nothing changes nothing.
pub proof fn law_files_tell_of_addresses(s: RuleSet, reading: CacheReading, b: bool)
    requires
        unscanned_file(s) is Some,
    ensures
        reading is Missing ==> healed(s, reading) == s,
        s.remote is Some,
        s.remote->0.format@ == "binary"@ && reading == CacheReading::Binary(Some(b)) ==> healed(
            s,
            reading,
        ).remote is Some && healed(s, reading).remote->0.contains_ip == Some(b),
        s.remote->0.format@ != "binary"@ && reading is Binary ==> healed(s, reading) == s,
        s.remote->0.format@ == "binary"@ && reading is Bytes ==> healed(s, reading) == s,
        s.remote->0.format@ != "binary"@ ==> (reading matches CacheReading::Bytes(x) ==> (
        verdict_of(json_parsed(x@)) is Some ==> healed(s, reading).remote is Some && healed(
            s,
            reading,
        ).remote->0.contains_ip == verdict_of(json_parsed(x@)))),
{
}

// ---------------------------------------------------------------------------
// A download
// ---------------------------------------------------------------------------
/// A download that failed through the core is tried once more without it; then it fails.
pub proof fn law_downloads_are_tried_both_ways(first_error: Option<String>, x: String)
    ensures
        ({
            let s = RefreshState::Fetching { through_core: true, first_error };
            &&& next_refresh(s, RefreshEvent::FetchFailed(x)) == RefreshStep::Fetch(false)
            &&& after_refresh(s, RefreshEvent::FetchFailed(x)) == (RefreshState::Fetching {
                through_core: false,
                first_error: Some(x),
            })
        }),
        next_refresh(
            RefreshState::Fetching { through_core: false, first_error },
            RefreshEvent::FetchFailed(x),
        ) is Fail,
{
}

/// What was fetched is written as what it is: a set with rules as such, with its own rows and
/// whether it holds addresses; a binary one once its structure was read; and nothing else.
pub proof fn law_downloads_are_written_as_they_are(
    through_core: bool,
    first_error: Option<String>,
    bytes: Vec<u8>,
)
    ensures
        ({
            let s = RefreshState::Fetching { through_core, first_error };
            let e = RefreshEvent::Fetched(bytes);
            let scan = scan_of(json_parsed(bytes@));
            &&& scan is Ok ==> next_refresh(s, e) == RefreshStep::Write(RuleSetFileFormat::Source)
                && after_refresh(s, e) == (RefreshState::WritingSource {
                count: scan->Ok_0.0,
                contains_ip: scan->Ok_0.1,
            }) && next_refresh(after_refresh(s, e), RefreshEvent::Written) == RefreshStep::Complete(
                RuleSetFileFormat::Source,
                scan->Ok_0.0,
                scan->Ok_0.1,
            )
            &&& scan is Err && bytes@.len() >= 3 && bytes@[0] == 83 && bytes@[1] == 82 && bytes@[2]
                == 83 ==> next_refresh(s, e) is ReadBinary
            &&& scan is Err && !begins_binary(bytes@) ==> next_refresh(s, e) is Fail && after_refresh(
                s,
                e,
            ) is Over
        }),
{
}

/// A binary set with filter lines, or without a core at hand, is noted as its structure says
/// and as holding no addresses; any other is taken apart, and removed where that fails.
pub proof fn law_binary_sets_are_taken_apart(b: BinaryScan, bytes: Vec<u8>, x: String)
    ensures
        next_refresh(RefreshState::ReadingBinary, RefreshEvent::BinaryRead(b)) == RefreshStep::Write(
            RuleSetFileFormat::Binary,
        ),
        next_refresh(RefreshState::WritingBinary(b), RefreshEvent::Written) == if b.has_adguard {
            RefreshStep::Complete(RuleSetFileFormat::Binary, b.display_count, false)
        } else {
            RefreshStep::TakeApart
        },
        next_refresh(RefreshState::TakingApart(b), RefreshEvent::NoCore) == RefreshStep::Complete(
            RuleSetFileFormat::Binary,
            b.display_count,
            false,
        ),
        next_refresh(RefreshState::TakingApart(b), RefreshEvent::NotTakenApart(x))
            == RefreshStep::RemoveAndFail(x@),
        scan_of(json_parsed(bytes@)) is Ok ==> next_refresh(
            RefreshState::TakingApart(b),
            RefreshEvent::TakenApart(bytes),
        ) == RefreshStep::Complete(
            RuleSetFileFormat::Binary,
            scan_of(json_parsed(bytes@))->Ok_0.0,
            scan_of(json_parsed(bytes@))->Ok_0.1,
        ),
{
}

// ---------------------------------------------------------------------------
// Rules
// ---------------------------------------------------------------------------
/// Traffic that goes direct is resolved here, what goes to the proxy is resolved there, and
/// what is refused needs no resolver; a set routes as its target says.
pub proof fn law_sets_route_as_their_target(t: RuleTarget)
    ensures
        RuleSetStrategy::of_target(RuleTarget::Direct).dns_advice() == Some(
            RuleSetDnsStrategy::Local,
        ),
        RuleSetStrategy::of_target(RuleTarget::Block).dns_advice() is None,
        !(t is Direct) && !(t is Block) ==> RuleSetStrategy::of_target(t).dns_advice() == Some(
            RuleSetDnsStrategy::Remote,
        ),
        RuleSetStrategy::of_target(t) is Node <==> t is Node,
        RuleSetStrategy::of_target(t) is Chain <==> t is Chain,
        RuleSetStrategy::of_target(t) is Filter <==> t is Smart,
        !(RuleSetStrategy::of_target(t) is Smart),
        t.tag() == "direct"@ <==> t is Direct,
        t.tag() == "block"@ <==> t is Block,
        t.clash_name() == "DIRECT"@ <==> t is Direct,
        t.clash_name() == "REJECT"@ <==> t is Block,
{
    reveal_strlit("direct");
    reveal_strlit("block");
    reveal_strlit("proxy");
    reveal_strlit("DIRECT");
    reveal_strlit("REJECT");
    reveal_strlit("PROXY");
    assert("direct"@.len() == 6 && "block"@.len() == 5 && "proxy"@.len() == 5);
    assert("block"@[0] == 'b' && "proxy"@[0] == 'p');
    assert("DIRECT"@.len() == 6 && "REJECT"@.len() == 6 && "PROXY"@.len() == 5);
    assert("DIRECT"@[0] == 'D' && "REJECT"@[0] == 'R');
}

/// A rule is listed as its type, payload and target; one that is off as a remark; and one on
/// addresses says that names are not resolved for it.
pub proof fn law_rules_are_listed(r: RuleModel)
    ensures
        has_prefix(clash_line(r), "# disabled: "@) <==> !r.enabled,
        r.enabled ==> has_prefix(clash_line(r), r.rule_type.clash_name() + ","@ + trimmed(r.payload)),
        r.enabled && !(r.rule_type is IpCidr) ==> has_suffix(clash_line(r), r.target.clash_name()),
        r.enabled && r.rule_type is IpCidr ==> has_suffix(
            clash_line(r),
            r.target.clash_name() + ",no-resolve"@,
        ),
{
    let head = r.rule_type.clash_name() + ","@ + trimmed(r.payload);
    let columns = head + ","@ + r.target.clash_name();
    let line = clash_line(r);
    reveal_strlit("# disabled: ");
    reveal_strlit("DOMAIN");
    reveal_strlit("DOMAIN-SUFFIX");
    reveal_strlit("DOMAIN-KEYWORD");
    reveal_strlit("IP-CIDR");
    reveal_strlit("PROCESS-NAME");
    reveal_strlit("GEOIP");
    assert(r.rule_type.clash_name()[0] != '#');
    if r.enabled {
        assert(line[0] == r.rule_type.clash_name()[0]);
        if has_prefix(line, "# disabled: "@) {
            assert(line.subrange(0, 12)[0] == "# disabled: "@[0]);
        }
        assert(line.subrange(0, head.len() as int) =~= head);
        if r.rule_type is IpCidr {
            let tail = r.target.clash_name() + ",no-resolve"@;
            assert(line.subrange(line.len() - tail.len(), line.len() as int) =~= tail);
        } else {
            let tail = r.target.clash_name();
            assert(line.subrange(line.len() - tail.len(), line.len() as int) =~= tail);
        }
    } else {
        assert(line.subrange(0, 12) =~= "# disabled: "@);
    }
}

/// Two rules that differ in their payload alone have different texts.
pub proof fn law_payloads_tell_rules_apart(
    rule_type: RuleType,
    a: Seq<char>,
    b: Seq<char>,
    target: RuleTarget,
)
    requires
        trimmed(a) != trimmed(b),
    ensures
        rule_text(rule_type, a, target, None, Seq::empty(), Seq::empty(), None) != rule_text(
            rule_type,
            b,
            target,
            None,
            Seq::empty(),
            Seq::empty(),
            None,
        ),
{
    let ta = rule_text(rule_type, a, target, None, Seq::empty(), Seq::empty(), None);
    let tb = rule_text(rule_type, b, target, None, Seq::empty(), Seq::empty(), None);
    let head = rule_type.name() + "|"@;
    if ta == tb {
        assert(ta.len() == tb.len());
        let n = trimmed(a).len() as int;
        assert(n == trimmed(b).len());
        assert(ta.subrange(head.len() as int, head.len() + n) =~= trimmed(a));
        assert(tb.subrange(head.len() as int, head.len() + n) =~= trimmed(b));
    }
}

/// Rules on countries are left out, and no others.
pub proof fn law_only_country_rules_are_dropped(rules: Seq<RuleModel>, r: RuleModel)
    ensures
        supported(rules).contains(r) <==> rules.contains(r) && !(r.rule_type is Geoip),
        supported(rules).len() <= rules.len(),
{
    lemma_filtered(rules, |r: RuleModel| r.rule_type != RuleType::Geoip, r);
}

proof fn lemma_filtered<A>(s: Seq<A>, p: spec_fn(A) -> bool, x: A)
    ensures
        s.filter(p).contains(x) <==> s.contains(x) && p(x),
        s.filter(p).len() <= s.len(),
    decreases s.len(),
{
    reveal(Seq::filter);
    if s.len() > 0 {
        let t = s.drop_last();
        lemma_filtered(t, p, x);
        let before = t.filter(p);
        let all = before.push(s.last());
        assert(s[s.len() - 1] == s.last());
        assert(all[before.len() as int] == s.last());
        if before.contains(x) {
            let k = choose|k: int| 0 <= k < before.len() && before[k] == x;
            assert(all[k] == x);
        }
        if all.contains(x) && !before.contains(x) {
            let k = choose|k: int| 0 <= k < all.len() && all[k] == x;
            if k < before.len() {
                assert(before[k] == x);
            }
        }
        if t.contains(x) {
            let k = choose|k: int| 0 <= k < t.len() && t[k] == x;
            assert(s[k] == x);
        }
        if s.contains(x) && !t.contains(x) {
            let k = choose|k: int| 0 <= k < s.len() && s[k] == x;
            if k < t.len() {
                assert(t[k] == x);
            }
        }
    }
}

/// Tidied keywords hold each of those that are not blank, in some case, and no others.
pub proof fn law_tidy_keywords_are_all(raw: Seq<Seq<char>>, x: int)
    requires
        0 <= x < raw.len(),
    ensures
        trimmed(raw[x]).len() > 0 ==> holds_word(tidy_keywords(raw), trimmed(raw[x])),
        forall|k: int|
            0 <= k < tidy_keywords(raw).len() ==> exists|i: int|
                0 <= i < raw.len() && trimmed(#[trigger] raw[i]) == #[trigger] tidy_keywords(raw)[k],
    decreases raw.len(),
{
    lemma_tidy(raw);
}

proof fn lemma_tidy(raw: Seq<Seq<char>>)
    ensures
        forall|x: int|
            0 <= x < raw.len() && trimmed(#[trigger] raw[x]).len() > 0 ==> holds_word(
                tidy_keywords(raw),
                trimmed(raw[x]),
            ),
        forall|k: int|
            0 <= k < tidy_keywords(raw).len() ==> exists|i: int|
                0 <= i < raw.len() && trimmed(#[trigger] raw[i]) == #[trigger] tidy_keywords(raw)[k],
    decreases raw.len(),
{
    if raw.len() > 0 {
        let t = raw.drop_last();
        let last = raw.len() - 1;
        lemma_tidy(t);
        let before = tidy_keywords(t);
        let all = tidy_keywords(raw);
        assert(raw[last] == raw.last());
        assert forall|w: Seq<char>| holds_word(before, w) implies holds_word(all, w) by {
            let i = choose|i: int|
                0 <= i < before.len() && unicode_lowered(#[trigger] before[i])
                    == unicode_lowered(w);
            assert(all[i] == before[i]);
        }
        assert forall|x: int| 0 <= x < raw.len() && trimmed(#[trigger] raw[x]).len() > 0 implies holds_word(
            all,
            trimmed(raw[x]),
        ) by {
            if x < last {
                assert(t[x] == raw[x]);
            } else if !holds_word(before, trimmed(raw[x])) {
                assert(all[before.len() as int] == trimmed(raw[x]));
            }
        }
        assert forall|k: int| 0 <= k < all.len() implies exists|i: int|
            0 <= i < raw.len() && trimmed(#[trigger] raw[i]) == #[trigger] all[k] by {
            if k < before.len() {
                assert(all[k] == before[k]);
                let i = choose|i: int| 0 <= i < t.len() && trimmed(#[trigger] t[i]) == before[k];
                assert(trimmed(raw[i]) == all[k]);
            } else {
                assert(trimmed(raw[last]) == all[k]);
            }
        }
    }
}

/// The keywords told of as on both lists are wanted ones that are unwanted too.
pub proof fn law_overlap_is_on_both_lists(wanted: Seq<Seq<char>>, unwanted: Seq<Seq<char>>, k: int)
    requires
        0 <= k < overlap(wanted, unwanted).len(),
    ensures
        holds_trimmed_word(unwanted, overlap(wanted, unwanted)[k]),
        exists|i: int|
            0 <= i < wanted.len() && trimmed(#[trigger] wanted[i]) == overlap(wanted, unwanted)[k],
    decreases wanted.len(),
{
    let t = wanted.drop_last();
    let before = overlap(t, unwanted);
    let last = wanted.len() - 1;
    assert(wanted[last] == wanted.last());
    if k < before.len() {
        law_overlap_is_on_both_lists(t, unwanted, k);
        assert(overlap(wanted, unwanted)[k] == before[k]);
        let i = choose|i: int| 0 <= i < t.len() && trimmed(#[trigger] t[i]) == before[k];
        assert(wanted[i] == t[i]);
    } else {
        assert(trimmed(wanted[last]) == overlap(wanted, unwanted)[k]);
    }
}

/// Each wanted keyword that is unwanted too is told of.
pub proof fn law_overlap_is_told(wanted: Seq<Seq<char>>, unwanted: Seq<Seq<char>>, x: int)
    requires
        0 <= x < wanted.len(),
    ensures
        unicode_lowered(trimmed(wanted[x])).len() > 0 && holds_trimmed_word(
            unwanted,
            trimmed(wanted[x]),
        ) ==> holds_word(overlap(wanted, unwanted), trimmed(wanted[x])),
    decreases wanted.len(),
{
    let t = wanted.drop_last();
    let before = overlap(t, unwanted);
    let all = overlap(wanted, unwanted);
    let w = trimmed(wanted[x]);
    if x < t.len() {
        assert(t[x] == wanted[x]);
        law_overlap_is_told(t, unwanted, x);
    }
    if holds_word(before, w) {
        let i = choose|i: int|
            0 <= i < before.len() && unicode_lowered(#[trigger] before[i])
                == unicode_lowered(w);
        assert(all[i] == before[i]);
    } else if unicode_lowered(w).len() > 0 && holds_trimmed_word(unwanted, w) {
        assert(wanted[x] == wanted.last());
        assert(all[before.len() as int] == w);
    }
}

/// The shipped sets: the one of foreign sites goes to the proxy, those of the country go
/// direct, and only one of them is of addresses.
pub proof fn law_shipped_sets_are_known(i: int)
    requires
        0 <= i < 3,
    ensures
        builtin_pos(shipped_set(i).id@) == Some(i),
        shipped_set(i).target is Proxy <==> shipped_set(i).id@ == "system-geolocation-not-cn"@,
        shipped_set(i).target is Proxy || shipped_set(i).target is Direct,
        shipped_set(i).ip_only <==> shipped_set(i).id@ == "system-geoip-cn"@,
{
    reveal_strlit("system-geolocation-not-cn");
    reveal_strlit("system-geoip-cn");
    reveal_strlit("system-geosite-cn");
    assert("system-geolocation-not-cn"@.len() == 25);
    assert("system-geoip-cn"@.len() == 15);
    assert("system-geosite-cn"@.len() == 17);
}

// ---------------------------------------------------------------------------
// Changes are applied
// ---------------------------------------------------------------------------
/// A change asks for a restart and is in the next batch; others' changes stay.
pub proof fn law_changes_are_in_the_next_batch(
    q: QueueModel,
    id: Seq<char>,
    enabled: bool,
    cleanup: Seq<Seq<char>>,
    force: bool,
)
    ensures
        ({
            let a = toggled(q, id, enabled);
            &&& a.restart_requested && a.worker_running
            &&& whole_batch(a).toggles.contains_key(id) && whole_batch(a).toggles[id] == enabled
            &&& forall|k: Seq<char>|
                k != id ==> (#[trigger] whole_batch(a).toggles.contains_key(k) <==> q.pending.contains_key(k))
            &&& whole_batch(a).cleanup == q.cleanup
            &&& whole_batch(a).generic_change == q.generic_change
        }),
        ({
            let a = restart_asked(q, cleanup, force);
            &&& a.restart_requested && a.worker_running
            &&& whole_batch(a).toggles == q.pending
            &&& whole_batch(a).generic_change
            &&& whole_batch(a).cleanup == q.cleanup + cleanup
            &&& whole_batch(a).force_restart <==> q.force_restart || force
        }),
{
}

/// The end of a restart is told only of sets that were not changed again meanwhile.
pub proof fn law_newer_changes_are_not_settled(q: QueueModel, batch: Toggles, k: Seq<char>)
    ensures
        settled_toggles(q, batch).contains_key(k) <==> batch.contains_key(k)
            && !q.pending.contains_key(k),
        settled_toggles(q, batch).contains_key(k) ==> settled_toggles(q, batch)[k] == batch[k],
{
}

/// A restart without an error is applied; one that found the core busy waits; any other
/// error is a failure.
pub proof fn law_busy_cores_are_waited_for(error: Seq<char>)
    ensures
        end_of_restart(None) == ApplyEnd::Applied,
        end_of_restart(Some(error)) == ApplyEnd::Busy <==> holds_text(error, "内核正在切换"@),
        end_of_restart(Some(error)) != ApplyEnd::Applied,
{
}

/// A core that exited by itself is started again, at most three times in ten minutes; one
/// that runs, was stopped, or is being changed is let be.
pub proof fn law_watchdog_revives_what_crashed(
    w: CoreWatch,
    now_ms: u64,
    now_running: bool,
    transitioning: bool,
    state: CoreState,
    allowed: bool,
)
    ensures
        revives(w, now_ms, now_running, transitioning, state, allowed) ==> w.was_running
            && !now_running && !transitioning && state == CoreState::Error && allowed,
        w.was_running && !now_running && !transitioning && state == CoreState::Error && allowed
            && w.attempts@.len() < 3 ==> revives(
            w,
            now_ms,
            now_running,
            transitioning,
            state,
            allowed,
        ),
        w.was_running && !now_running && !transitioning && state == CoreState::Error && allowed
            && (forall|i: int|
            0 <= i < w.attempts@.len() ==> now_ms - #[trigger] w.attempts@[i] >= 600000) ==> revives(
            w,
            now_ms,
            now_running,
            transitioning,
            state,
            allowed,
        ),
        w.attempts@.len() >= 3 && (forall|i: int|
            0 <= i < w.attempts@.len() ==> now_ms - #[trigger] w.attempts@[i] < 600000) ==> !revives(
            w,
            now_ms,
            now_running,
            transitioning,
            state,
            allowed,
        ),
{
    lemma_filter_ends(w.attempts@, is_recent(now_ms));
}

proof fn lemma_filter_ends(s: Seq<u64>, p: spec_fn(u64) -> bool)
    ensures
        s.filter(p).len() <= s.len(),
        (forall|i: int| 0 <= i < s.len() ==> p(#[trigger] s[i])) ==> s.filter(p).len() == s.len(),
        (forall|i: int| 0 <= i < s.len() ==> !p(#[trigger] s[i])) ==> s.filter(p).len() == 0,
    decreases s.len(),
{
    reveal(Seq::filter);
    if s.len() > 0 {
        let t = s.drop_last();
        lemma_filter_ends(t, p);
        assert(s[s.len() - 1] == s.last());
        assert forall|i: int| 0 <= i < t.len() implies t[i] == s[i] by {}
        if forall|i: int| 0 <= i < s.len() ==> p(#[trigger] s[i]) {
            assert forall|i: int| 0 <= i < t.len() implies p(#[trigger] t[i]) by {
                assert(p(s[i]));
            }
        }
        if forall|i: int| 0 <= i < s.len() ==> !p(#[trigger] s[i]) {
            assert forall|i: int| 0 <= i < t.len() implies !p(#[trigger] t[i]) by {
                assert(!p(s[i]));
            }
        }
    }
}

/// A core is waited for by what it has: Xray by its counters, a profile without a controller
/// by its process, and all others by their controller.
pub proof fn law_cores_are_waited_for_by_what_they_have(has_api: bool)
    ensures
        Launched::Generated(crate::core_kind::CoreKind::Xray).waits_for() == WaitFor::Counters,
        Launched::Generated(crate::core_kind::CoreKind::SingBox).waits_for() == WaitFor::Controller,
        Launched::Generated(crate::core_kind::CoreKind::Mihomo).waits_for() == WaitFor::Controller,
        Launched::Profile(has_api).waits_for() == if has_api {
            WaitFor::Controller
        } else {
            WaitFor::Process
        },
{
}

// ---------------------------------------------------------------------------
// The set of an id
// ---------------------------------------------------------------------------
/// The set of an id is the first that has it.
pub proof fn law_first_set_of_an_id(sets: Seq<RuleSet>, id: Seq<char>)
    ensures
        set_pos(sets, id) is Some <==> exists|i: int|
            0 <= i < sets.len() && (#[trigger] sets[i]).id@ == id,
        set_pos(sets, id) matches Some(p) ==> 0 <= p < sets.len() && sets[p].id@ == id && forall|
            j: int,
        | 0 <= j < p ==> (#[trigger] sets[j]).id@ != id,
    decreases sets.len(),
{
    if sets.len() > 0 {
        let t = sets.drop_last();
        let last = sets.len() - 1;
        law_first_set_of_an_id(t, id);
        assert(sets[last] == sets.last());
        assert forall|j: int| 0 <= j < t.len() implies t[j] == sets[j] by {}
        if exists|i: int| 0 <= i < t.len() && (#[trigger] t[i]).id@ == id {
            let i = choose|i: int| 0 <= i < t.len() && (#[trigger] t[i]).id@ == id;
            assert(sets[i].id@ == id);
        }
        if exists|i: int| 0 <= i < sets.len() && (#[trigger] sets[i]).id@ == id {
            let i = choose|i: int| 0 <= i < sets.len() && (#[trigger] sets[i]).id@ == id;
            if i < last {
                assert(t[i].id@ == id);
            }
        }
        if let Some(p) = set_pos(sets, id) {
            assert forall|j: int| 0 <= j < p implies (#[trigger] sets[j]).id@ != id by {
                assert(t[j].id@ != id);
            }
        }
    }
}

/// What is noted of a download is noted on its set, and the other sets stay.
pub proof fn law_downloads_are_noted_on_their_set(
    sets: Seq<RuleSet>,
    id: Seq<char>,
    remote: RemoteRuleSetConfig,
    x: int,
)
    requires
        0 <= x < sets.len(),
    ensures
        with_remote(sets, id, remote).len() == sets.len(),
        sets[x].id@ != id ==> with_remote(sets, id, remote)[x] == sets[x],
        set_pos(sets, id) == Some(x) ==> with_remote(sets, id, remote)[x].remote == Some(remote)
            && with_remote(sets, id, remote)[x].id == sets[x].id && with_remote(
            sets,
            id,
            remote,
        )[x].rules == sets[x].rules && with_remote(sets, id, remote)[x].enabled == sets[x].enabled,
        set_pos(sets, id) is Some ==> remote_of(with_remote(sets, id, remote), id) == Some(remote)
            || sets[set_pos(sets, id)->0].id@ != id,
{
    law_first_set_of_an_id(sets, id);
    if let Some(p) = set_pos(sets, id) {
        let after = with_remote(sets, id, remote);
        law_first_set_of_an_id(after, id);
        assert(after[p].id@ == id);
        let q = set_pos(after, id)->0;
        assert(q == p) by {
            if q < p {
                assert(after[q] == sets[q]);
            }
            if p < q {
                assert(after[p].id@ != id);
            }
        }
    }
}

/// Two rules that differ in their node, their chain or a keyword have different texts.
pub proof fn law_targets_tell_rules_apart(
    rule_type: RuleType,
    payload: Seq<char>,
    target: RuleTarget,
    a: Seq<char>,
    b: Seq<char>,
)
    requires
        a.len() > 0,
        b.len() > 0,
        a != b,
    ensures
        rule_text(rule_type, payload, target, Some(a), Seq::empty(), Seq::empty(), None)
            != rule_text(rule_type, payload, target, Some(b), Seq::empty(), Seq::empty(), None),
        rule_text(
            rule_type,
            payload,
            RuleTarget::Chain,
            None,
            Seq::empty(),
            Seq::empty(),
            Some(a),
        ) != rule_text(
            rule_type,
            payload,
            RuleTarget::Chain,
            None,
            Seq::empty(),
            Seq::empty(),
            Some(b),
        ),
        rule_text(rule_type, payload, RuleTarget::Smart, None, seq![a], Seq::empty(), None)
            != rule_text(rule_type, payload, RuleTarget::Smart, None, seq![b], Seq::empty(), None),
        rule_text(rule_type, payload, RuleTarget::Smart, None, seq![a], Seq::empty(), None)
            != rule_text(rule_type, payload, RuleTarget::Smart, None, Seq::empty(), seq![a], None),
{
    reveal_strlit("|");
    reveal_strlit("|c");
    reveal_strlit("|+");
    reveal_strlit("|-");
    let head = rule_type.name() + "|"@ + trimmed(payload) + "|"@;
    let none = Seq::<char>::empty();
    // The node.
    let h1 = head + target.name() + "|"@;
    let n1 = rule_text(rule_type, payload, target, Some(a), Seq::empty(), Seq::empty(), None);
    let n2 = rule_text(rule_type, payload, target, Some(b), Seq::empty(), Seq::empty(), None);
    assert(n1 =~= h1 + a);
    assert(n2 =~= h1 + b);
    lemma_same_head(h1, a, b);
    // The chain.
    let h2 = head + RuleTarget::Chain.name() + "|c"@;
    let c1 = rule_text(
        rule_type,
        payload,
        RuleTarget::Chain,
        None,
        Seq::empty(),
        Seq::empty(),
        Some(a),
    );
    let c2 = rule_text(
        rule_type,
        payload,
        RuleTarget::Chain,
        None,
        Seq::empty(),
        Seq::empty(),
        Some(b),
    );
    assert(c1 =~= h2 + a);
    assert(c2 =~= h2 + b);
    lemma_same_head(h2, a, b);
    // A wanted keyword.
    let h3 = head + RuleTarget::Smart.name() + "|+"@;
    let k1 = rule_text(rule_type, payload, RuleTarget::Smart, None, seq![a], Seq::empty(), None);
    let k2 = rule_text(rule_type, payload, RuleTarget::Smart, None, seq![b], Seq::empty(), None);
    reveal_with_fuel(marked, 2);
    assert(seq![a].drop_last() =~= Seq::empty());
    assert(seq![b].drop_last() =~= Seq::empty());
    assert(k1 =~= h3 + a);
    assert(k2 =~= h3 + b);
    lemma_same_head(h3, a, b);
    // Wanted or not.
    let k3 = rule_text(rule_type, payload, RuleTarget::Smart, None, Seq::empty(), seq![a], None);
    let h4 = head + RuleTarget::Smart.name() + "|-"@;
    assert(k3 =~= h4 + a);
    let at = (head + RuleTarget::Smart.name()).len() + 1 as int;
    assert(k1[at] == '+');
    assert(k3[at] == '-');
}

proof fn lemma_same_head(h: Seq<char>, a: Seq<char>, b: Seq<char>)
    requires
        a != b,
    ensures
        h + a != h + b,
{
    if h + a == h + b {
        assert((h + a).skip(h.len() as int) =~= a);
        assert((h + b).skip(h.len() as int) =~= b);
    }
}

/// An id of letters, digits, dashes and underscores is its own file name.
pub proof fn law_plain_ids_are_file_names(id: Seq<char>)
    requires
        forall|i: int|
            0 <= i < id.len() ==> {
                let c = #[trigger] id[i];
                'a' <= c <= 'z' || 'A' <= c <= 'Z' || '0' <= c <= '9' || c == '-' || c == '_'
            },
    ensures
        safe_name(id) == id,
{
    assert(safe_name(id) =~= id);
}

/// A rule is shown in rows of its own where it is plain: it joins no others and holds no
/// nested conditions.
pub proof fn law_plain_rules_are_taken_apart(fields: Seq<(Seq<char>, JsonModel)>)
    ensures
        (exists|i: int| 0 <= i < fields.len() && (#[trigger] fields[i]).0 == "type"@) ==> is_complex(
            JsonModel::Object(fields),
        ),
        (exists|i: int|
            0 <= i < fields.len() && (#[trigger] fields[i]).0 != "invert"@ && fields[i].1 is Object)
            ==> is_complex(JsonModel::Object(fields)),
        (forall|i: int|
            0 <= i < fields.len() ==> (#[trigger] fields[i]).0 != "type"@ && !(fields[i].1 is Object)
                && !(fields[i].1 is List)) ==> !is_complex(JsonModel::Object(fields)),
        is_complex(JsonModel::Null),
        is_complex(JsonModel::List(Seq::empty())),
{
    crate::laws::reading::law_first_field_of_a_name(fields, "type"@);
}

/// A file is scanned where the set has one and it was not noted what it holds.
pub proof fn law_files_are_scanned_once(s: RuleSet)
    ensures
        s.remote is None ==> unscanned_file(s) is None,
        s.remote matches Some(r) ==> {
            &&& r.contains_ip is Some ==> unscanned_file(s) is None
            &&& r.local_path is None ==> unscanned_file(s) is None
            &&& r.contains_ip is None && r.local_path is Some && trimmed(r.local_path->0@).len() > 0
                ==> unscanned_file(s) == Some(trimmed(r.local_path->0@))
        },
{
}

/// Bytes that do not begin as a binary set does are none.
pub proof fn law_other_bytes_are_no_binary_set(bytes: Seq<u8>)
    ensures
        bytes.len() < 3 ==> !begins_binary(bytes),
        bytes.len() >= 3 && (bytes[0] != 83 || bytes[1] != 82 || bytes[2] != 83) ==> !begins_binary(
            bytes,
        ),
{
}

} // verus!
