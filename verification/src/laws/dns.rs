//! The replay of queries: which resolver a domain goes to, in terms of what names it.

use crate::core_kind::CoreKind;
use crate::domain::dns::{
    final_name, flat_rules, DOMESTIC_DNS_POOL, DnsAction, DnsRuleModel, DnsRuleSet, DnsRuleSetKind,
    DomainMatcher, HostsEntryModel, REMOTE_DNS_POOL,
};
use crate::domain::rule::{
    RemoteRuleSetConfig, RuleModel, RuleSet, RuleSetDnsStrategy, RuleSetStrategy,
};
use crate::json::{json_parsed, JsonModel};
use crate::services::dns_items::{
    filter_domain, item_hit, named_keyword, named_suffix, remote_items, texts_of, with_field,
    with_fields, with_remote_rule, with_remote_rules, with_rule, Gathered, ItemKind, ItemsModel,
};
use crate::services::dns_path::{
    analyzer_of, bypass_name, bypassed, host_addrs, hosts_way, keyword_note, remote_source,
    rule_hit, set_info, walk_rules, walk_sets, way_of, wire_domain, AnalyzerModel, DnsDiagInput,
    DnsPathStrategy, RemoteContent, Walk,
};
use crate::text::{
    after_char, has_prefix, has_suffix, holds_text, is_space, lemma_char_pos, lemma_trim_end_take,
    lemma_trim_start_skip, lemma_trimmed_same, lowered, occurs_at, one_of, trim_start_by, trimmed,
};
use crate::web::ascii_domain;
use vstd::prelude::*;

verus! {

// ---------------------------------------------------------------------------
// Rules and sets decide where queries go
// ---------------------------------------------------------------------------
/// No set names the domain.
pub open spec fn no_set_names(a: AnalyzerModel, domain: Seq<char>) -> bool {
    forall|j: int| 0 <= j < a.sets.len() ==> item_hit((#[trigger] a.sets[j]).items, domain) is None
}

/// The rule at `x` is the first that is on and names the domain.
pub open spec fn first_rule(a: AnalyzerModel, domain: Seq<char>, x: int) -> bool {
    &&& 0 <= x < a.dns_rules.len()
    &&& a.dns_rules[x].enabled
    &&& rule_hit(a.dns_rules[x], domain) is Some
    &&& forall|j: int|
        0 <= j < x ==> !(#[trigger] a.dns_rules[j]).enabled || rule_hit(a.dns_rules[j], domain) is None
}

/// The set at `x` is the first that names the domain.
pub open spec fn first_set(a: AnalyzerModel, domain: Seq<char>, x: int) -> bool {
    &&& 0 <= x < a.sets.len()
    &&& item_hit(a.sets[x].items, domain) is Some
    &&& forall|j: int| 0 <= j < x ==> item_hit((#[trigger] a.sets[j]).items, domain) is None
}

proof fn lemma_sets_passed(a: AnalyzerModel, domain: Seq<char>, i: int, x: int, passed: Option<Seq<char>>)
    requires
        0 <= i <= x <= a.sets.len(),
        forall|j: int| i <= j < x ==> item_hit((#[trigger] a.sets[j]).items, domain) is None,
    ensures
        walk_sets(a, domain, i, passed) == walk_sets(a, domain, x, passed),
    decreases x - i,
{
    if i < x {
        lemma_sets_passed(a, domain, i + 1, x, passed);
        assert(item_hit(a.sets[i].items, domain) is None);
    }
}

proof fn lemma_rules_passed(a: AnalyzerModel, domain: Seq<char>, i: int, x: int, passed: Option<Seq<char>>)
    requires
        0 <= i <= x <= a.dns_rules.len(),
        forall|j: int|
            i <= j < x ==> !(#[trigger] a.dns_rules[j]).enabled || rule_hit(a.dns_rules[j], domain) is None,
    ensures
        walk_rules(a, domain, i, passed) == walk_rules(a, domain, x, passed),
    decreases x - i,
{
    if i < x {
        lemma_rules_passed(a, domain, i + 1, x, passed);
        assert(!a.dns_rules[i].enabled || rule_hit(a.dns_rules[i], domain) is None);
    }
}

/// Where neither sets nor hosts name a domain, the first rule that names it sends its queries
/// to the resolvers that the rule's action names. Those to the remote ones go through the
/// proxy, but under mihomo where nothing does.
pub proof fn law_rule_sends_where_it_says(a: AnalyzerModel, domain: Seq<char>, x: int)
    requires
        no_set_names(a, domain),
        hosts_way(a, domain) is None,
        first_rule(a, domain, x),
        a.dns_rules[x].action != DnsAction::Block,
        a.core == CoreKind::Mihomo ==> (rule_hit(a.dns_rules[x], domain)->0).0 != ItemKind::Keyword,
    ensures
        a.dns_rules[x].action == DnsAction::Local <==> way_of(a, domain).strategy
            == DnsPathStrategy::Local,
        a.dns_rules[x].action == DnsAction::Domestic <==> way_of(a, domain).strategy
            == DnsPathStrategy::Domestic,
        a.dns_rules[x].action == DnsAction::Remote <==> way_of(a, domain).strategy
            == DnsPathStrategy::Remote,
        way_of(a, domain).via_proxy <==> a.dns_rules[x].action == DnsAction::Remote && !(a.core
            == CoreKind::Mihomo && a.outbound_direct),
        way_of(a, domain).servers.len() > 0,
{
    lemma_sets_passed(a, domain, 0, a.sets.len() as int, None);
    lemma_rules_passed(a, domain, 0, x, None);
}

/// A rule that refuses decides under sing-box; the other cores pass it over.
pub proof fn law_refusing_rule_refuses_under_sing_box(a: AnalyzerModel, domain: Seq<char>, x: int)
    requires
        no_set_names(a, domain),
        hosts_way(a, domain) is None,
        first_rule(a, domain, x),
        a.dns_rules[x].action == DnsAction::Block,
    ensures
        a.core == CoreKind::SingBox ==> way_of(a, domain).strategy == DnsPathStrategy::Block
            && way_of(a, domain).servers.len() == 0 && !way_of(a, domain).via_proxy,
        a.core != CoreKind::SingBox ==> walk_rules(a, domain, 0, None) == walk_rules(
            a,
            domain,
            x + 1,
            None,
        ),
{
    lemma_sets_passed(a, domain, 0, a.sets.len() as int, None);
    lemma_rules_passed(a, domain, 0, x, None);
}

/// The first set that names a domain sends its queries to the resolvers that the set names,
/// but for hosts, which come first under the other cores.
pub proof fn law_set_sends_where_it_says(a: AnalyzerModel, domain: Seq<char>, x: int)
    requires
        first_set(a, domain, x),
        a.core == CoreKind::SingBox || hosts_way(a, domain) is None,
        !(a.core == CoreKind::SingBox && a.sets[x].block_route),
        a.core == CoreKind::Mihomo ==> (item_hit(a.sets[x].items, domain)->0).0
            != ItemKind::Keyword,
    ensures
        a.sets[x].dns_strategy == RuleSetDnsStrategy::Local <==> way_of(a, domain).strategy
            == DnsPathStrategy::Local,
        a.sets[x].dns_strategy == RuleSetDnsStrategy::Domestic <==> way_of(a, domain).strategy
            == DnsPathStrategy::Domestic,
        a.sets[x].dns_strategy == RuleSetDnsStrategy::Remote <==> way_of(a, domain).strategy
            == DnsPathStrategy::Remote,
        way_of(a, domain).via_proxy <==> a.sets[x].dns_strategy == RuleSetDnsStrategy::Remote
            && !(a.core == CoreKind::Mihomo && a.outbound_direct),
        way_of(a, domain).approx == a.sets[x].approx,
        way_of(a, domain).servers.len() > 0,
{
    lemma_sets_passed(a, domain, 0, x, None);
}

/// A set whose traffic is refused has its queries refused under sing-box.
pub proof fn law_refused_set_is_refused_under_sing_box(a: AnalyzerModel, domain: Seq<char>, x: int)
    requires
        first_set(a, domain, x),
        a.core == CoreKind::SingBox,
        a.sets[x].block_route,
    ensures
        way_of(a, domain).strategy == DnsPathStrategy::Block,
        way_of(a, domain).servers.len() == 0,
{
    lemma_sets_passed(a, domain, 0, x, None);
}

/// Mihomo passes a keyword over, and says so.
pub proof fn law_mihomo_passes_keywords_over(a: AnalyzerModel, domain: Seq<char>)
    requires
        a.core == CoreKind::Mihomo,
        hosts_way(a, domain) is None,
        !a.fakeip_active,
        forall|j: int|
            0 <= j < a.sets.len() ==> item_hit((#[trigger] a.sets[j]).items, domain) is None || (
            item_hit(a.sets[j].items, domain)->0).0 == ItemKind::Keyword,
        forall|j: int|
            0 <= j < a.dns_rules.len() ==> !(#[trigger] a.dns_rules[j]).enabled || rule_hit(
                a.dns_rules[j],
                domain,
            ) is None || (rule_hit(a.dns_rules[j], domain)->0).0 == ItemKind::Keyword,
    ensures
        a.dns_final == "local"@ ==> way_of(a, domain).strategy == DnsPathStrategy::Local,
        a.dns_final == "domestic"@ ==> way_of(a, domain).strategy == DnsPathStrategy::Domestic,
        a.dns_final == "remote"@ ==> way_of(a, domain).strategy == DnsPathStrategy::Remote,
{
    lemma_sets_through(a, domain, 0, None);
    let q = walk_sets(a, domain, 0, None)->Through_0;
    lemma_rules_through(a, domain, 0, q);
    lemma_final_names();
}

proof fn lemma_final_names()
    ensures
        "local"@ != "domestic"@,
        "local"@ != "remote"@,
        "domestic"@ != "remote"@,
{
    reveal_strlit("local");
    reveal_strlit("domestic");
    reveal_strlit("remote");
    assert("local"@.len() == 5);
    assert("domestic"@.len() == 8);
    assert("remote"@.len() == 6);
}

proof fn lemma_sets_through(a: AnalyzerModel, domain: Seq<char>, i: int, passed: Option<Seq<char>>)
    requires
        a.core == CoreKind::Mihomo,
        0 <= i,
        forall|j: int|
            0 <= j < a.sets.len() ==> item_hit((#[trigger] a.sets[j]).items, domain) is None || (
            item_hit(a.sets[j].items, domain)->0).0 == ItemKind::Keyword,
    ensures
        walk_sets(a, domain, i, passed) is Through,
    decreases a.sets.len() - i,
{
    if i < a.sets.len() {
        lemma_sets_through(a, domain, i + 1, passed);
        if let Some((_, hit)) = item_hit(a.sets[i].items, domain) {
            let by = "规则集「"@ + a.sets[i].name + "」（"@ + hit + "）"@;
            lemma_sets_through(a, domain, i + 1, Some(keyword_note(by)));
        }
    }
}

proof fn lemma_rules_through(a: AnalyzerModel, domain: Seq<char>, i: int, passed: Option<Seq<char>>)
    requires
        a.core == CoreKind::Mihomo,
        0 <= i,
        forall|j: int|
            0 <= j < a.dns_rules.len() ==> !(#[trigger] a.dns_rules[j]).enabled || rule_hit(
                a.dns_rules[j],
                domain,
            ) is None || (rule_hit(a.dns_rules[j], domain)->0).0 == ItemKind::Keyword,
    ensures
        walk_rules(a, domain, i, passed) is Through,
    decreases a.dns_rules.len() - i,
{
    if i < a.dns_rules.len() {
        lemma_rules_through(a, domain, i + 1, passed);
        if let Some((_, hit)) = rule_hit(a.dns_rules[i], domain) {
            let by = "DNS 规则（"@ + hit + "）"@;
            lemma_rules_through(a, domain, i + 1, Some(keyword_note(by)));
        }
    }
}

/// What nothing names gets a made-up address where those are given out, but under Xray and
/// for the suffixes that keep their own; else it goes to the resolver of last resort.
pub proof fn law_unnamed_queries_go_last(a: AnalyzerModel, domain: Seq<char>)
    requires
        no_set_names(a, domain),
        hosts_way(a, domain) is None,
        forall|j: int|
            0 <= j < a.dns_rules.len() ==> !(#[trigger] a.dns_rules[j]).enabled || rule_hit(
                a.dns_rules[j],
                domain,
            ) is None,
    ensures
        way_of(a, domain).strategy == DnsPathStrategy::FakeIp <==> a.fakeip_active && a.core
            != CoreKind::Xray && bypassed(a.bypass, domain) is None,
        a.fakeip_active && a.core == CoreKind::SingBox && bypassed(a.bypass, domain) is Some
            ==> way_of(a, domain).strategy == DnsPathStrategy::Local,
        !a.fakeip_active || a.core == CoreKind::Xray || (a.core == CoreKind::Mihomo && bypassed(
            a.bypass,
            domain,
        ) is Some) ==> {
            &&& a.dns_final == "local"@ ==> way_of(a, domain).strategy == DnsPathStrategy::Local
            &&& a.dns_final == "domestic"@ ==> way_of(a, domain).strategy
                == DnsPathStrategy::Domestic
            &&& a.dns_final == "remote"@ ==> way_of(a, domain).strategy == DnsPathStrategy::Remote
        },
        way_of(a, domain).via_proxy <==> way_of(a, domain).strategy == DnsPathStrategy::Remote
            && !(a.core == CoreKind::Mihomo && a.outbound_direct),
{
    lemma_sets_passed(a, domain, 0, a.sets.len() as int, None);
    lemma_rules_passed(a, domain, 0, a.dns_rules.len() as int, None);
    lemma_final_names();
}

/// The resolver of last resort has one of three names, however it is written.
pub proof fn law_last_resort_has_a_name(s: Seq<char>)
    ensures
        final_name(s) == "local"@ <==> lowered(trimmed(s)) == "local"@,
        final_name(s) == "domestic"@ <==> lowered(trimmed(s)) == "domestic"@ || lowered(trimmed(s))
            == "cn"@,
        final_name(s) == "remote"@ || final_name(s) == "local"@ || final_name(s) == "domestic"@,
{
    lemma_final_names();
    reveal_strlit("cn");
    reveal_strlit("local");
    assert("cn"@.len() == 2);
}

/// Made-up addresses are given out where the settings say so: mihomo needs them with a network
/// interface, Xray gives them out only with one.
pub proof fn law_made_up_addresses_are_asked_for(i: DnsDiagInput)
    ensures
        ({
            let a = analyzer_of(i);
            let on = i.dns.fake_ip.enabled;
            &&& a.core == CoreKind::SingBox ==> a.fakeip_active == on
            &&& a.core == CoreKind::Mihomo ==> (a.fakeip_active <==> on || i.tun_enabled)
            &&& a.core == CoreKind::Xray ==> (a.fakeip_active <==> on && i.tun_enabled)
            &&& a.outbound_direct <==> i.outbound_mode is Direct
        }),
{
}

// ---------------------------------------------------------------------------
// What names a domain
// ---------------------------------------------------------------------------
proof fn lemma_plain_name(p: Seq<char>)
    requires
        p.len() > 0,
        !is_space(p[0]),
        !is_space(p.last()),
        p[0] != '.',
        p[0] != '*',
    ensures
        trimmed(p) == p,
        trim_start_by(p, one_of(seq!['.'])) == p,
        trim_start_by(p, one_of(seq!['*'])) == p,
        trim_start_by(p, one_of(seq!['*', '.'])) == p,
{
    lemma_trimmed_same(p);
    assert(!seq!['.'].contains(p[0]));
    assert(!seq!['*'].contains(p[0]));
    assert(!seq!['*', '.'].contains(p[0]));
}

/// A rule names a domain exactly, by a suffix of whole labels, or by a part of it.
pub proof fn law_rule_names_domains(r: DnsRuleModel, domain: Seq<char>)
    requires
        r.payload.len() > 0,
        !is_space(r.payload[0]),
        !is_space(r.payload.last()),
        r.payload[0] != '.',
        r.payload[0] != '*',
    ensures
        ({
            let name = lowered(ascii_domain(r.payload));
            &&& r.matcher == DomainMatcher::Domain ==> (rule_hit(r, domain) is Some <==> domain
                == name)
            &&& r.matcher == DomainMatcher::DomainSuffix ==> (rule_hit(r, domain) is Some
                <==> domain == name || has_suffix(domain, "."@ + name))
            &&& r.matcher == DomainMatcher::DomainKeyword ==> (rule_hit(r, domain) is Some
                <==> holds_text(domain, r.payload))
            &&& rule_hit(r, domain) is Some ==> ((rule_hit(r, domain)->0).0 == ItemKind::Keyword
                <==> r.matcher == DomainMatcher::DomainKeyword)
        }),
{
    lemma_plain_name(r.payload);
}

/// A blank rule names nothing.
pub proof fn law_blank_rule_names_nothing(r: DnsRuleModel, domain: Seq<char>)
    requires
        trimmed(r.payload).len() == 0,
    ensures
        rule_hit(r, domain) is None,
{
}

/// `s` is the domain, or what follows one of its dots.
pub open spec fn is_parent(domain: Seq<char>, s: Seq<char>) -> bool {
    ||| s == domain
    ||| exists|k: int| 0 <= k < domain.len() && domain[k] == '.' && s == #[trigger] domain.skip(k + 1)
}

proof fn lemma_parent_step(domain: Seq<char>, s: Seq<char>)
    requires
        domain.contains('.'),
    ensures
        is_parent(domain, s) <==> s == domain || is_parent(after_char(domain, '.'), s),
{
    lemma_char_pos(domain, '.');
    let p = crate::text::char_pos(domain, '.');
    let rest = after_char(domain, '.');
    assert(rest == domain.skip(p + 1));
    if is_parent(domain, s) && s != domain {
        let k = choose|k: int|
            0 <= k < domain.len() && domain[k] == '.' && s == #[trigger] domain.skip(k + 1);
        if k > p {
            assert(rest[k - p - 1] == '.');
            assert(rest.skip(k - p - 1 + 1) =~= s);
        }
    }
    if is_parent(rest, s) && s != rest {
        let k = choose|k: int|
            0 <= k < rest.len() && rest[k] == '.' && s == #[trigger] rest.skip(k + 1);
        assert(domain[k + p + 1] == '.');
        assert(domain.skip(k + p + 1 + 1) =~= s);
    }
}

/// Items name a domain by a suffix where one of the suffixes is the domain or what follows one
/// of its dots; the longest such suffix is told.
pub proof fn law_suffix_is_of_whole_labels(suffixes: Seq<Seq<char>>, domain: Seq<char>)
    ensures
        named_suffix(suffixes, domain) is Some <==> exists|i: int|
            0 <= i < suffixes.len() && is_parent(domain, #[trigger] suffixes[i]),
        named_suffix(suffixes, domain) matches Some(s) ==> suffixes.contains(s) && is_parent(
            domain,
            s,
        ) && forall|i: int|
            0 <= i < suffixes.len() && is_parent(domain, #[trigger] suffixes[i])
                ==> suffixes[i].len() <= s.len(),
    decreases domain.len(),
{
    lemma_char_pos(domain, '.');
    assert forall|s: Seq<char>| is_parent(domain, s) implies s.len() <= domain.len() by {}
    if suffixes.contains(domain) {
        let i = choose|i: int| 0 <= i < suffixes.len() && suffixes[i] == domain;
        assert(is_parent(domain, suffixes[i]));
    } else if domain.contains('.') {
        let rest = after_char(domain, '.');
        law_suffix_is_of_whole_labels(suffixes, rest);
        assert forall|i: int| 0 <= i < suffixes.len() implies (is_parent(
            domain,
            #[trigger] suffixes[i],
        ) <==> is_parent(rest, suffixes[i])) by {
            lemma_parent_step(domain, suffixes[i]);
            assert(suffixes[i] != domain);
        }
        if let Some(s) = named_suffix(suffixes, domain) {
            lemma_parent_step(domain, s);
            let i = choose|i: int| 0 <= i < suffixes.len() && suffixes[i] == s;
            assert(is_parent(rest, suffixes[i]));
        }
        if exists|i: int| 0 <= i < suffixes.len() && is_parent(domain, #[trigger] suffixes[i]) {
            let i = choose|i: int|
                0 <= i < suffixes.len() && is_parent(domain, #[trigger] suffixes[i]);
            assert(is_parent(rest, suffixes[i]));
        }
    } else {
        assert forall|i: int| 0 <= i < suffixes.len() implies !is_parent(
            domain,
            #[trigger] suffixes[i],
        ) by {
            assert(suffixes[i] != domain);
            if is_parent(domain, suffixes[i]) {
                let k = choose|k: int|
                    0 <= k < domain.len() && domain[k] == '.' && suffixes[i]
                        == #[trigger] domain.skip(k + 1);
                assert(domain.contains('.'));
            }
        }
    }
}

/// Items name a domain by a keyword where one stands in it; the first such is told.
pub proof fn law_keyword_stands_in_the_domain(keywords: Seq<Seq<char>>, domain: Seq<char>)
    ensures
        named_keyword(keywords, domain) is Some <==> exists|i: int|
            0 <= i < keywords.len() && holds_text(domain, #[trigger] keywords[i]),
        named_keyword(keywords, domain) matches Some(k) ==> exists|i: int|
            0 <= i < keywords.len() && #[trigger] keywords[i] == k && holds_text(domain, k)
                && forall|j: int| 0 <= j < i ==> !holds_text(domain, #[trigger] keywords[j]),
    decreases keywords.len(),
{
    if keywords.len() > 0 {
        let t = keywords.drop_last();
        let last = keywords.len() - 1;
        law_keyword_stands_in_the_domain(t, domain);
        assert(keywords[last] == keywords.last());
        if let Some(k) = named_keyword(t, domain) {
            let i = choose|i: int|
                0 <= i < t.len() && #[trigger] t[i] == k && holds_text(domain, k) && forall|j: int|
                    0 <= j < i ==> !holds_text(domain, #[trigger] t[j]);
            assert(keywords[i] == t[i]);
            assert forall|j: int| 0 <= j < i implies !holds_text(domain, #[trigger] keywords[j]) by {
                assert(t[j] == keywords[j]);
            }
            assert(holds_text(domain, keywords[i]));
        } else {
            assert forall|j: int| 0 <= j < last implies !holds_text(domain, #[trigger] keywords[j]) by {
                assert(t[j] == keywords[j]);
            }
        }
    }
}

/// Items name a domain exactly before by a suffix, and by a suffix before by a keyword.
pub proof fn law_items_name_domains(items: ItemsModel, domain: Seq<char>)
    ensures
        item_hit(items, domain) is Some <==> items.exact.contains(domain) || (exists|i: int|
            0 <= i < items.suffix.len() && is_parent(domain, #[trigger] items.suffix[i])) || (exists|
            i: int,
        |
            0 <= i < items.keywords.len() && holds_text(domain, #[trigger] items.keywords[i])),
        item_hit(items, domain) matches Some(h) ==> {
            &&& h.0 == ItemKind::Exact <==> items.exact.contains(domain)
            &&& h.0 == ItemKind::Keyword <==> !items.exact.contains(domain) && !(exists|i: int|
                0 <= i < items.suffix.len() && is_parent(domain, #[trigger] items.suffix[i]))
        },
{
    law_suffix_is_of_whole_labels(items.suffix, domain);
    law_keyword_stands_in_the_domain(items.keywords, domain);
}

/// A rule of a set adds the domain it names to the items of its kind, and to no other.
pub proof fn law_set_rules_name_domains(items: ItemsModel, r: RuleModel)
    requires
        r.payload.len() > 0,
        !is_space(r.payload[0]),
        !is_space(r.payload.last()),
        r.payload[0] != '.',
        r.payload[0] != '*',
        ascii_domain(r.payload).len() > 0,
    ensures
        ({
            let after = with_rule(items, r);
            let name = lowered(ascii_domain(r.payload));
            &&& !r.enabled ==> after == items
            &&& r.enabled && r.rule_type is Domain ==> after.exact == items.exact.push(name)
                && after.suffix == items.suffix && after.keywords == items.keywords
            &&& r.enabled && r.rule_type is DomainSuffix ==> after.suffix == items.suffix.push(name)
                && after.exact == items.exact && after.keywords == items.keywords
            &&& r.enabled && r.rule_type is DomainKeyword ==> after.keywords
                == items.keywords.push(r.payload) && after.exact == items.exact && after.suffix
                == items.suffix
            &&& !(r.rule_type is Domain || r.rule_type is DomainSuffix
                || r.rule_type is DomainKeyword) ==> after == items
        }),
{
    lemma_plain_name(r.payload);
}

/// A set that is off takes no part; one that is edited here takes part with its own resolver.
pub proof fn law_sets_take_part(core: CoreKind, s: RuleSet, c: RemoteContent)
    ensures
        !s.enabled ==> set_info(core, s, c) is None,
        set_info(core, s, c) matches Some(m) ==> m.name == s.name@ && m.dns_strategy
            == s.dns_strategy && !m.items.is_empty(),
        set_info(core, s, c) matches Some(m) ==> (s.remote is None || core == CoreKind::SingBox
            ==> (m.block_route <==> s.strategy == RuleSetStrategy::Block)),
        set_info(core, s, c) matches Some(m) ==> (s.remote is Some && core != CoreKind::SingBox
            ==> !m.block_route && m.approx),
        s.remote is Some && core != CoreKind::SingBox && s.id@ != "system-geosite-cn"@ && s.id@
            != "system-geolocation-not-cn"@ ==> set_info(core, s, c) is None,
{
}

/// Hosts answer with the addresses of the entries that are on and name the very domain.
pub proof fn law_hosts_name_the_very_domain(hosts: Seq<HostsEntryModel>, domain: Seq<char>, addr: Seq<char>)
    ensures
        host_addrs(hosts, domain).contains(addr) <==> exists|i: int|
            0 <= i < hosts.len() && (#[trigger] hosts[i]).enabled && lowered(
                ascii_domain(trimmed(hosts[i].domain)),
            ) == domain && trimmed(hosts[i].addr) == addr && addr.len() > 0,
        host_addrs(hosts, domain).len() <= hosts.len(),
    decreases hosts.len(),
{
    if hosts.len() > 0 {
        let t = hosts.drop_last();
        let last = hosts.len() - 1;
        law_hosts_name_the_very_domain(t, domain, addr);
        let before = host_addrs(t, domain);
        let h = hosts.last();
        assert(hosts[last] == h);
        assert forall|i: int| 0 <= i < t.len() implies t[i] == hosts[i] by {}
        let x = trimmed(h.addr);
        let all = before.push(x);
        if before.contains(addr) {
            let k = choose|k: int| 0 <= k < before.len() && before[k] == addr;
            assert(all[k] == addr);
            let i = choose|i: int|
                0 <= i < t.len() && (#[trigger] t[i]).enabled && lowered(
                    ascii_domain(trimmed(t[i].domain)),
                ) == domain && trimmed(t[i].addr) == addr && addr.len() > 0;
            assert(hosts[i].enabled);
        }
        assert(all[before.len() as int] == x);
        if all.contains(addr) && !before.contains(addr) {
            let k = choose|k: int| 0 <= k < all.len() && all[k] == addr;
            if k < before.len() {
                assert(before[k] == addr);
            }
        }
        if exists|i: int|
            0 <= i < hosts.len() && (#[trigger] hosts[i]).enabled && lowered(
                ascii_domain(trimmed(hosts[i].domain)),
            ) == domain && trimmed(hosts[i].addr) == addr && addr.len() > 0 {
            let i = choose|i: int|
                0 <= i < hosts.len() && (#[trigger] hosts[i]).enabled && lowered(
                    ascii_domain(trimmed(hosts[i].domain)),
                ) == domain && trimmed(hosts[i].addr) == addr && addr.len() > 0;
            if i < t.len() {
                assert(t[i].enabled);
            }
        }
    }
}

/// Hosts decide where they are on and have an address.
pub proof fn law_hosts_decide(a: AnalyzerModel, domain: Seq<char>)
    ensures
        hosts_way(a, domain) is Some <==> a.hosts_enabled && host_addrs(a.hosts, domain).len() > 0,
        hosts_way(a, domain) matches Some(p) ==> p.strategy == DnsPathStrategy::Hosts
            && !p.via_proxy && p.servers.len() == host_addrs(a.hosts, domain).len(),
{
}

/// A domain keeps its own addresses where the list names it or what follows one of its dots.
pub proof fn law_kept_addresses_are_of_whole_labels(bypass: Seq<Seq<char>>, domain: Seq<char>)
    requires
        lowered(domain) == domain,
    ensures
        bypassed(bypass, domain) is Some <==> exists|i: int|
            0 <= i < bypass.len() && bypass_name(#[trigger] bypass[i]).len() > 0 && is_parent(
                domain,
                bypass_name(bypass[i]),
            ),
    decreases domain.len(),
{
    lemma_char_pos(domain, '.');
    if crate::services::dns_path::holds_bypass(bypass, domain) {
        let i = choose|i: int|
            0 <= i < bypass.len() && bypass_name(#[trigger] bypass[i]) == domain;
        assert(is_parent(domain, bypass_name(bypass[i])));
    } else if domain.contains('.') {
        let rest = after_char(domain, '.');
        assert(lowered(rest) =~= rest) by {
            let p = crate::text::char_pos(domain, '.');
            assert forall|k: int| 0 <= k < rest.len() implies lowered(rest)[k] == rest[k] by {
                assert(lowered(domain)[k + p + 1] == domain[k + p + 1]);
            }
        }
        law_kept_addresses_are_of_whole_labels(bypass, rest);
        assert forall|i: int|
            0 <= i < bypass.len() && bypass_name(#[trigger] bypass[i]).len() > 0 implies (is_parent(
            domain,
            bypass_name(bypass[i]),
        ) <==> is_parent(rest, bypass_name(bypass[i]))) by {
            lemma_parent_step(domain, bypass_name(bypass[i]));
        }
    } else {
        assert forall|i: int|
            0 <= i < bypass.len() && bypass_name(#[trigger] bypass[i]).len() > 0 implies !is_parent(
            domain,
            bypass_name(bypass[i]),
        ) by {
            if is_parent(domain, bypass_name(bypass[i])) && bypass_name(bypass[i]) != domain {
                let k = choose|k: int|
                    0 <= k < domain.len() && domain[k] == '.' && bypass_name(bypass[i])
                        == #[trigger] domain.skip(k + 1);
                assert(domain.contains('.'));
            }
        }
    }
}

/// The rules that are asked are those of the sets that are on, in their order.
pub proof fn law_asked_rules_are_of_sets_that_are_on(sets: Seq<DnsRuleSet>, x: int, k: int)
    requires
        0 <= x < sets.len(),
        0 <= k < sets[x].dns_rules@.len(),
        sets[x].enabled,
        sets[x].kind == DnsRuleSetKind::Dns,
    ensures
        flat_rules(sets.take(x)).len() + k < flat_rules(sets).len(),
        flat_rules(sets)[flat_rules(sets.take(x)).len() + k] == sets[x].dns_rules@[k],
    decreases sets.len(),
{
    let t = sets.drop_last();
    if x < t.len() {
        assert(t[x] == sets[x]);
        assert(t.take(x) =~= sets.take(x));
        law_asked_rules_are_of_sets_that_are_on(t, x, k);
    } else {
        assert(sets.take(x) =~= t);
    }
}

/// No rule is asked of a set that is off.
pub proof fn law_no_rule_is_asked_of_a_set_that_is_off(sets: Seq<DnsRuleSet>, i: int)
    requires
        0 <= i < flat_rules(sets).len(),
    ensures
        exists|x: int|
            0 <= x < sets.len() && (#[trigger] sets[x]).enabled && sets[x].kind
                == DnsRuleSetKind::Dns && sets[x].dns_rules@.contains(flat_rules(sets)[i]),
    decreases sets.len(),
{
    let t = sets.drop_last();
    let before = flat_rules(t);
    if i < before.len() {
        law_no_rule_is_asked_of_a_set_that_is_off(t, i);
        let x = choose|x: int|
            0 <= x < t.len() && (#[trigger] t[x]).enabled && t[x].kind == DnsRuleSetKind::Dns
                && t[x].dns_rules@.contains(before[i]);
        assert(sets[x] == t[x]);
    } else {
        let x = sets.len() - 1;
        assert(sets[x] == sets.last());
        assert(sets[x].dns_rules@[i - before.len()] == flat_rules(sets)[i]);
    }
}

// ---------------------------------------------------------------------------
// Downloaded sets
// ---------------------------------------------------------------------------
/// Each field of a downloaded rule adds its texts to the items of its kind; lines of an ad
/// filter and patterns make the set only about right; other fields add nothing.
pub proof fn law_downloaded_fields_name_domains(g: Gathered, name: Seq<char>, texts: Seq<JsonModel>)
    ensures
        ({
            let v = JsonModel::List(texts);
            let after = with_field(g, name, v);
            &&& name == "domain"@ ==> after.items.exact.len() == g.items.exact.len() + texts_of(
                texts,
            ).len() && after.items.suffix == g.items.suffix && after.items.keywords
                == g.items.keywords && after.approx == g.approx
            &&& name == "domain_suffix"@ ==> after.items.suffix.len() == g.items.suffix.len()
                + texts_of(texts).len() && after.items.exact == g.items.exact && after.items.keywords
                == g.items.keywords && after.approx == g.approx
            &&& name == "domain_keyword"@ ==> after.items.keywords == g.items.keywords + texts_of(
                texts,
            ) && after.items.exact == g.items.exact && after.items.suffix == g.items.suffix
                && after.approx == g.approx
            &&& name == "domain_regex"@ ==> after.approx && after.items == g.items
            &&& name == "ad_guard_domain"@ ==> after.approx && after.items.exact == g.items.exact
                && after.items.keywords == g.items.keywords
            &&& name != "domain"@ && name != "domain_suffix"@ && name != "domain_keyword"@ && name
                != "domain_regex"@ && name != "ad_guard_domain"@ ==> after == g
            &&& g.approx ==> after.approx
        }),
        forall|i: int|
            0 <= i < texts_of(texts).len() ==> with_field(
                g,
                "domain"@,
                JsonModel::List(texts),
            ).items.exact[g.items.exact.len() + i] == lowered(#[trigger] texts_of(texts)[i]),
        forall|i: int|
            0 <= i < texts_of(texts).len() ==> with_field(
                g,
                "domain_suffix"@,
                JsonModel::List(texts),
            ).items.suffix[g.items.suffix.len() + i] == lowered(#[trigger] texts_of(texts)[i]),
{
    reveal_strlit("domain");
    reveal_strlit("domain_suffix");
    reveal_strlit("domain_keyword");
    reveal_strlit("domain_regex");
    reveal_strlit("ad_guard_domain");
    assert("domain"@.len() == 6 && "domain_suffix"@.len() == 13 && "domain_keyword"@.len() == 14
        && "domain_regex"@.len() == 12 && "ad_guard_domain"@.len() == 15);
}

/// A downloaded rule about other queries than those for addresses names no domain; a rule that
/// is joined or turned round makes the set only about right.
pub proof fn law_rules_of_other_queries_do_not_count(g: Gathered, fields: Seq<(Seq<char>, JsonModel)>)
    ensures
        ({
            let rule = JsonModel::Object(fields);
            let after = with_remote_rule(g, rule);
            &&& rule.field("query_type"@) matches Some(q) ==> (q matches JsonModel::List(types) ==> (
            forall|i: int|
                0 <= i < types.len() ==> #[trigger] types[i] != JsonModel::Number(Some(1)))
                ==> after.items == g.items)
            &&& rule.field("type"@) is Some && rule.field("query_type"@) is None && fields.len() == 0
                ==> after.approx
        }),
        with_remote_rule(g, JsonModel::Null) == g,
{
}

/// A line of an ad filter names its domain: without the bars in front and the mark behind.
pub proof fn law_filter_lines_name_domains(d: Seq<char>)
    requires
        d.len() > 0,
        !is_space(d[0]),
        !is_space(d.last()),
        d[0] != '|',
        d.last() != '^',
    ensures
        filter_domain(seq!['|', '|'] + d + seq!['^']) == lowered(d),
        filter_domain(d) == lowered(d),
{
    let s = seq!['|', '|'] + d + seq!['^'];
    let bar = one_of(seq!['|']);
    let mark = one_of(seq!['^']);
    assert(seq!['|'].contains('|')) by {
        assert(seq!['|'][0] == '|');
    }
    assert(seq!['^'].contains('^')) by {
        assert(seq!['^'][0] == '^');
    }
    assert(!bar(d[0]));
    assert(!mark(d.last()));
    assert forall|j: int| 0 <= j < 2 implies bar(#[trigger] s[j]) by {}
    assert(s[2] == d[0]);
    lemma_trim_start_skip(s, bar, 2);
    let t = s.skip(2);
    assert(t =~= d + seq!['^']);
    assert(t[d.len() - 1] == d.last());
    lemma_trim_end_take(t, mark, d.len() as int);
    assert(t.take(d.len() as int) =~= d);
    lemma_trimmed_same(d);
    lemma_trim_start_skip(d, bar, 0);
    assert(d.skip(0) =~= d);
    lemma_trim_end_take(d, mark, d.len() as int);
    assert(d.take(d.len() as int) =~= d);
}

/// The file of a downloaded set is read where it has one, as what its format says.
pub proof fn law_files_are_read_by_their_format(r: RemoteRuleSetConfig, c: RemoteContent)
    ensures
        r.local_path is None ==> remote_source(r, c) is None,
        c is Missing ==> remote_source(r, c) is None,
        r.format@ == "binary"@ && c is Bytes ==> remote_source(r, c) is None,
        r.format@ != "binary"@ && c is Rules ==> remote_source(r, c) is None,
        r.local_path is Some && trimmed(r.local_path->0@).len() > 0 && r.format@ == "binary"@ ==> (
        c matches RemoteContent::Rules(v) ==> remote_source(r, c) == Some(v@)),
        r.local_path is Some && trimmed(r.local_path->0@).len() > 0 && r.format@ != "binary"@ ==> (
        c matches RemoteContent::Bytes(b) ==> (json_parsed(b@) matches Ok(v) ==> remote_source(r, c)
            == Some(v))),
{
}

// ---------------------------------------------------------------------------
// What is shown of a way
// ---------------------------------------------------------------------------
/// A query that goes to the remote or the domestic resolvers goes to those of the pools, the
/// first of them first.
pub proof fn law_pools_have_their_resolvers(a: AnalyzerModel, domain: Seq<char>, x: int)
    requires
        first_set(a, domain, x),
        a.core == CoreKind::SingBox || hosts_way(a, domain) is None,
        !(a.core == CoreKind::SingBox && a.sets[x].block_route),
        a.core == CoreKind::Mihomo ==> (item_hit(a.sets[x].items, domain)->0).0
            != ItemKind::Keyword,
    ensures
        a.sets[x].dns_strategy == RuleSetDnsStrategy::Remote ==> has_prefix(
            way_of(a, domain).servers[0],
            REMOTE_DNS_POOL@[0]@,
        ),
        a.sets[x].dns_strategy == RuleSetDnsStrategy::Domestic ==> has_prefix(
            way_of(a, domain).servers[0],
            DOMESTIC_DNS_POOL@[0]@,
        ),
        a.sets[x].dns_strategy != RuleSetDnsStrategy::Local ==> way_of(a, domain).servers.len()
            == if a.core == CoreKind::Mihomo {
            2int
        } else {
            1
        },
        holds_text(way_of(a, domain).matched_by, a.sets[x].name),
{
    lemma_sets_passed(a, domain, 0, x, None);
    let w = way_of(a, domain);
    let r = REMOTE_DNS_POOL@[0]@;
    let d = DOMESTIC_DNS_POOL@[0]@;
    if a.sets[x].dns_strategy == RuleSetDnsStrategy::Remote {
        assert(w.servers[0].subrange(0, r.len() as int) =~= r);
    }
    if a.sets[x].dns_strategy == RuleSetDnsStrategy::Domestic {
        assert(w.servers[0].subrange(0, d.len() as int) =~= d);
    }
    let head = "规则集「"@;
    let n = head.len() as int;
    let name = a.sets[x].name;
    assert(w.matched_by.subrange(n, n + name.len()) =~= name);
    assert(occurs_at(w.matched_by, name, n));
}

/// A domain is asked for in small letters and without dots behind.
pub proof fn law_domains_are_asked_for_plainly(d: Seq<char>)
    requires
        d.len() > 0,
        !is_space(d[0]),
        !is_space(d.last()),
        d.last() != '.',
    ensures
        wire_domain(d) == lowered(ascii_domain(d)),
        wire_domain(d.push('.')) == wire_domain(d),
{
    let dot = one_of(seq!['.']);
    assert(seq!['.'].contains('.')) by {
        assert(seq!['.'][0] == '.');
    }
    assert(!dot(d.last()));
    lemma_trimmed_same(d);
    lemma_trim_end_take(d, dot, d.len() as int);
    assert(d.take(d.len() as int) =~= d);
    let e = d.push('.');
    assert(!is_space('.'));
    lemma_trimmed_same(e);
    assert(e[d.len() - 1] == d.last());
    lemma_trim_end_take(e, dot, d.len() as int);
    assert(e.take(d.len() as int) =~= d);
}

/// A downloaded rule without conditions on queries adds its fields; where it joins others or is
/// turned round the set is only about right, and stays so.
pub proof fn law_downloaded_rules_add_their_fields(g: Gathered, fields: Seq<(Seq<char>, JsonModel)>)
    ensures
        ({
            let rule = JsonModel::Object(fields);
            let after = with_remote_rule(g, rule);
            &&& rule.field("type"@) is None && rule.field("invert"@) is None && rule.field(
                "query_type"@,
            ) is None ==> after == with_fields(g, fields)
            &&& rule.field("query_type"@) matches Some(q) ==> (!(q is List) && rule.field(
                "type"@,
            ) is None && rule.field("invert"@) is None ==> after == with_fields(g, fields))
            &&& rule.field("type"@) is Some ==> after.approx
            &&& rule.field("invert"@) == Some(JsonModel::Bool(true)) ==> after.approx
            &&& g.approx ==> after.approx
        }),
{
    let rule = JsonModel::Object(fields);
    let h = Gathered { approx: g.approx || crate::services::dns_items::is_compound(rule), ..g };
    lemma_fields_keep_approx(h, fields);
    assert(g == (Gathered { approx: g.approx, ..g }));
}

proof fn lemma_fields_keep_approx(g: Gathered, fields: Seq<(Seq<char>, JsonModel)>)
    ensures
        g.approx ==> with_fields(g, fields).approx,
    decreases fields.len(),
{
    if fields.len() > 0 {
        lemma_fields_keep_approx(g, fields.drop_last());
    }
}

/// A downloaded set begins with nothing, and takes its rules one after the other.
pub proof fn law_downloaded_sets_are_their_rules(
    g: Gathered,
    rules: Seq<JsonModel>,
    rule: JsonModel,
    v: JsonModel,
)
    ensures
        with_remote_rules(g, rules.push(rule)) == with_remote_rule(
            with_remote_rules(g, rules),
            rule,
        ),
        v.field("rules"@) == Some(JsonModel::List(Seq::empty())) ==> remote_items(v) is Some
            && !remote_items(v)->0.approx && remote_items(v)->0.items.is_empty(),
        v.field("rules"@) is None ==> remote_items(v) is None,
        v.field("rules"@) == Some(JsonModel::List(rules)) ==> remote_items(v) == Some(
            with_remote_rules(
                Gathered {
                    items: ItemsModel {
                        exact: Seq::empty(),
                        suffix: Seq::empty(),
                        keywords: Seq::empty(),
                    },
                    approx: false,
                },
                rules,
            ),
        ),
{
    assert(rules.push(rule).drop_last() =~= rules);
}

/// The two shipped sets take part under every core.
pub proof fn law_shipped_sets_take_part(core: CoreKind, s: RuleSet, r: RemoteRuleSetConfig, c: RemoteContent)
    requires
        s.enabled,
        s.remote == Some(r),
        s.id@ == "system-geosite-cn"@ || s.id@ == "system-geolocation-not-cn"@,
        remote_source(r, c) is Some,
        remote_items(remote_source(r, c)->0) is Some,
        !remote_items(remote_source(r, c)->0)->0.items.is_empty(),
    ensures
        set_info(core, s, c) is Some,
        set_info(core, s, c)->0.items == remote_items(remote_source(r, c)->0)->0.items,
{
}

/// Only what was decided by a copy of the core's own data is told as such.
pub proof fn law_other_ways_are_certain(a: AnalyzerModel, domain: Seq<char>)
    requires
        no_set_names(a, domain),
    ensures
        !way_of(a, domain).approx,
{
    lemma_sets_passed(a, domain, 0, a.sets.len() as int, None);
    lemma_rules_are_certain(a, domain, 0, None);
}

proof fn lemma_rules_are_certain(a: AnalyzerModel, domain: Seq<char>, i: int, passed: Option<Seq<char>>)
    requires
        0 <= i,
    ensures
        walk_rules(a, domain, i, passed) matches Walk::Found(p) ==> !p.approx,
    decreases a.dns_rules.len() - i,
{
    if i < a.dns_rules.len() {
        lemma_rules_are_certain(a, domain, i + 1, passed);
        if let Some((_, hit)) = rule_hit(a.dns_rules[i], domain) {
            let by = "DNS 规则（"@ + hit + "）"@;
            lemma_rules_are_certain(a, domain, i + 1, Some(keyword_note(by)));
        }
    }
}

} // verus!
