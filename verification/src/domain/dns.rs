//! DNS settings: the rules and host entries of the DNS page, and the resolvers.

use crate::text::{
    concat2, concat3, contains_char, decimal, decimal_of, is_space, lines, lower, lowered, pieces,
    same, separators, split, split_words, text_lines, trim, trimmed, views, words, chars_of,
    space_char, before_char, split_once, str_view,
};
use vstd::prelude::*;

verus! {

/// The remote resolvers: DNS over HTTPS, reached through the proxy. All cores
/// share the pool, so switching cores never changes which servers answer.
pub const REMOTE_DNS_POOL: [&'static str; 2] = [
    "https://1.1.1.1/dns-query",
    "https://8.8.8.8/dns-query",
];

/// The domestic resolvers: plain UDP, always reached directly.
pub const DOMESTIC_DNS_POOL: [&'static str; 2] = ["223.5.5.5", "119.29.29.29"];

/// A resolution mode that older stores may hold.
#[derive(Debug, Clone, Copy, PartialEq, Eq, Structural)]
pub enum DnsMode {
    Local,
    SmartLocal,
    SmartCn,
    Rules,
}

impl Default for DnsMode {
    fn default() -> (r: Self)
        ensures
            r == DnsMode::Local,
    {
        DnsMode::Local
    }
}

#[derive(Debug, Clone, Copy, PartialEq, Eq, Structural)]
pub enum DomainMatcher {
    Domain,
    DomainSuffix,
    DomainKeyword,
}

impl Default for DomainMatcher {
    fn default() -> (r: Self)
        ensures
            r == DomainMatcher::DomainSuffix,
    {
        DomainMatcher::DomainSuffix
    }
}

/// Where a DNS rule sends the query.
#[derive(Debug, Clone, Copy, PartialEq, Eq, Structural)]
pub enum DnsAction {
    /// To the system's resolver.
    Local,
    /// To the domestic resolvers.
    Domestic,
    /// To the remote resolvers.
    Remote,
    /// Nowhere: the query is rejected.
    Block,
}

impl Default for DnsAction {
    fn default() -> (r: Self)
        ensures
            r == DnsAction::Local,
    {
        DnsAction::Local
    }
}

impl DnsAction {
    /// The action that a stored `kind` stands for. Kinds that are no longer
    /// offered stand for the action that took their place.
    pub open spec fn of_kind(kind: Seq<char>) -> Option<DnsAction> {
        if kind == "local"@ || kind == "system"@ {
            Some(DnsAction::Local)
        } else if kind == "domestic"@ {
            Some(DnsAction::Domestic)
        } else if kind == "remote"@ || kind == "fake_ip"@ || kind == "server"@ {
            Some(DnsAction::Remote)
        } else if kind == "block"@ {
            Some(DnsAction::Block)
        } else {
            None
        }
    }

    /// Reads a stored `kind`; `None` for one that was never in use.
    pub fn from_wire(kind: &str) -> (r: Option<DnsAction>)
        ensures
            r == DnsAction::of_kind(kind@),
    {
        if same(kind, "local") || same(kind, "system") {
            Some(DnsAction::Local)
        } else if same(kind, "domestic") {
            Some(DnsAction::Domestic)
        } else if same(kind, "remote") || same(kind, "fake_ip") || same(kind, "server") {
            Some(DnsAction::Remote)
        } else if same(kind, "block") {
            Some(DnsAction::Block)
        } else {
            None
        }
    }

    /// The `kind` under which the action is stored.
    pub open spec fn kind(self) -> Seq<char> {
        match self {
            DnsAction::Local => "local"@,
            DnsAction::Domestic => "domestic"@,
            DnsAction::Remote => "remote"@,
            DnsAction::Block => "block"@,
        }
    }

    pub fn wire_kind(self) -> (r: &'static str)
        ensures
            r@ == self.kind(),
    {
        match self {
            DnsAction::Local => "local",
            DnsAction::Domestic => "domestic",
            DnsAction::Remote => "remote",
            DnsAction::Block => "block",
        }
    }
}

/// An action that was stored is read back.
pub proof fn law_dns_action_reads_back(a: DnsAction)
    ensures
        DnsAction::of_kind(a.kind()) == Some(a),
{
    reveal_strlit("local");
    reveal_strlit("system");
    reveal_strlit("domestic");
    reveal_strlit("remote");
    reveal_strlit("fake_ip");
    reveal_strlit("server");
    reveal_strlit("block");
    assert("domestic"@.len() != "local"@.len());
    assert("domestic"@.len() != "system"@.len());
    assert("remote"@.len() == "system"@.len() && "remote"@[0] != "system"@[0]);
    assert("block"@.len() == "local"@.len() && "block"@[0] != "local"@[0]);
}

#[derive(Debug)]
pub struct DnsRule {
    pub id: String,
    pub enabled: bool,
    pub matcher: DomainMatcher,
    pub payload: String,
    pub action: DnsAction,
}

pub struct DnsRuleModel {
    pub id: Seq<char>,
    pub enabled: bool,
    pub matcher: DomainMatcher,
    pub payload: Seq<char>,
    pub action: DnsAction,
}

impl View for DnsRule {
    type V = DnsRuleModel;

    open spec fn view(&self) -> DnsRuleModel {
        DnsRuleModel {
            id: self.id@,
            enabled: self.enabled,
            matcher: self.matcher,
            payload: self.payload@,
            action: self.action,
        }
    }
}

impl Clone for DnsRule {
    fn clone(&self) -> (r: Self)
        ensures
            r == *self,
    {
        DnsRule {
            id: self.id.clone(),
            enabled: self.enabled,
            matcher: self.matcher,
            payload: self.payload.clone(),
            action: self.action,
        }
    }
}

/// The models of a sequence of rules.
pub open spec fn dns_rule_views(v: Seq<DnsRule>) -> Seq<DnsRuleModel> {
    Seq::new(v.len(), |i: int| v[i]@)
}

pub fn clone_dns_rules(v: &Vec<DnsRule>) -> (r: Vec<DnsRule>)
    ensures
        r@ == v@,
{
    let mut out: Vec<DnsRule> = Vec::new();
    for i in 0..v.len()
        invariant
            out@ == v@.take(i as int),
    {
        out.push(v[i].clone());
    }
    out
}

#[derive(Debug)]
pub struct FakeIpConfig {
    pub enabled: bool,
    pub inet4_range: String,
    pub inet6_enabled: bool,
    pub inet6_range: String,
    /// Domain suffixes that keep their real addresses.
    pub bypass: Vec<String>,
}

impl Clone for FakeIpConfig {
    fn clone(&self) -> (r: Self)
        ensures
            r.enabled == self.enabled,
            r.inet4_range == self.inet4_range,
            r.inet6_enabled == self.inet6_enabled,
            r.inet6_range == self.inet6_range,
            r.bypass@ == self.bypass@,
    {
        FakeIpConfig {
            enabled: self.enabled,
            inet4_range: self.inet4_range.clone(),
            inet6_enabled: self.inet6_enabled,
            inet6_range: self.inet6_range.clone(),
            bypass: crate::text::clone_strings(&self.bypass),
        }
    }
}

impl Default for FakeIpConfig {
    fn default() -> (r: Self)
        ensures
            r.enabled,
            r.inet4_range@ == "198.18.0.0/15"@,
            !r.inet6_enabled,
            r.inet6_range@ == "fc00::/18"@,
            views(r.bypass@) == seq!["local"@, "lan"@, "internal"@, "corp"@, "localhost"@],
    {
        FakeIpConfig {
            enabled: true,
            inet4_range: default_fakeip_v4(),
            inet6_enabled: false,
            inet6_range: default_fakeip_v6(),
            bypass: default_fakeip_bypass(),
        }
    }
}

/// A static mapping from a domain to an address.
#[derive(Debug)]
pub struct HostsEntry {
    pub id: String,
    pub enabled: bool,
    pub domain: String,
    /// An IPv4 or IPv6 address.
    pub addr: String,
}

pub struct HostsEntryModel {
    pub id: Seq<char>,
    pub enabled: bool,
    pub domain: Seq<char>,
    pub addr: Seq<char>,
}

impl View for HostsEntry {
    type V = HostsEntryModel;

    open spec fn view(&self) -> HostsEntryModel {
        HostsEntryModel {
            id: self.id@,
            enabled: self.enabled,
            domain: self.domain@,
            addr: self.addr@,
        }
    }
}

impl Clone for HostsEntry {
    fn clone(&self) -> (r: Self)
        ensures
            r == *self,
    {
        HostsEntry {
            id: self.id.clone(),
            enabled: self.enabled,
            domain: self.domain.clone(),
            addr: self.addr.clone(),
        }
    }
}

/// The models of a sequence of host entries.
pub open spec fn hosts_views(v: Seq<HostsEntry>) -> Seq<HostsEntryModel> {
    Seq::new(v.len(), |i: int| v[i]@)
}

pub fn clone_hosts(v: &Vec<HostsEntry>) -> (r: Vec<HostsEntry>)
    ensures
        r@ == v@,
{
    let mut out: Vec<HostsEntry> = Vec::new();
    for i in 0..v.len()
        invariant
            out@ == v@.take(i as int),
    {
        out.push(v[i].clone());
    }
    out
}

/// The static mappings. Where they are enabled, no other rule is asked first.
#[derive(Debug)]
pub struct HostsConfig {
    pub enabled: bool,
    /// The system's hosts file is read too.
    pub include_system: bool,
    pub entries: Vec<HostsEntry>,
}

impl Clone for HostsConfig {
    fn clone(&self) -> (r: Self)
        ensures
            r.enabled == self.enabled,
            r.include_system == self.include_system,
            r.entries@ == self.entries@,
    {
        HostsConfig {
            enabled: self.enabled,
            include_system: self.include_system,
            entries: clone_hosts(&self.entries),
        }
    }
}

impl Default for HostsConfig {
    fn default() -> (r: Self)
        ensures
            !r.enabled,
            !r.include_system,
            r.entries@.len() == 0,
    {
        HostsConfig { enabled: false, include_system: false, entries: Vec::new() }
    }
}

pub const BUILTIN_DNS_SET_ID: &'static str = "builtin-dns";

pub const SYSTEM_HOSTS_SET_ID: &'static str = "system-hosts";

#[derive(Debug, Clone, Copy, PartialEq, Eq, Structural)]
pub enum DnsRuleSetKind {
    Dns,
    Hosts,
}

/// A set of the DNS page, which can be switched on and off by itself. Sets are
/// asked in their order. The entries of the system's hosts file are not kept in
/// their set, but read when a configuration is built.
#[derive(Debug)]
pub struct DnsRuleSet {
    pub id: String,
    pub name: String,
    pub kind: DnsRuleSetKind,
    pub builtin: bool,
    pub read_only: bool,
    pub enabled: bool,
    pub dns_rules: Vec<DnsRule>,
    pub hosts: Vec<HostsEntry>,
}

impl Clone for DnsRuleSet {
    fn clone(&self) -> (r: Self)
        ensures
            r@ == self@,
    {
        DnsRuleSet {
            id: self.id.clone(),
            name: self.name.clone(),
            kind: self.kind,
            builtin: self.builtin,
            read_only: self.read_only,
            enabled: self.enabled,
            dns_rules: clone_dns_rules(&self.dns_rules),
            hosts: clone_hosts(&self.hosts),
        }
    }
}

pub struct DnsRuleSetModel {
    pub id: Seq<char>,
    pub name: Seq<char>,
    pub kind: DnsRuleSetKind,
    pub builtin: bool,
    pub read_only: bool,
    pub enabled: bool,
    pub dns_rules: Seq<DnsRuleModel>,
    pub hosts: Seq<HostsEntryModel>,
}

impl View for DnsRuleSet {
    type V = DnsRuleSetModel;

    open spec fn view(&self) -> DnsRuleSetModel {
        DnsRuleSetModel {
            id: self.id@,
            name: self.name@,
            kind: self.kind,
            builtin: self.builtin,
            read_only: self.read_only,
            enabled: self.enabled,
            dns_rules: dns_rule_views(self.dns_rules@),
            hosts: hosts_views(self.hosts@),
        }
    }
}

/// The models of a sequence of sets.
pub open spec fn set_views(v: Seq<DnsRuleSet>) -> Seq<DnsRuleSetModel> {
    Seq::new(v.len(), |i: int| v[i]@)
}

/// The set of DNS rules that always exists.
pub open spec fn builtin_set(rules: Seq<DnsRuleModel>, enabled: bool) -> DnsRuleSetModel {
    DnsRuleSetModel {
        id: "builtin-dns"@,
        name: "内置 DNS 规则"@,
        kind: DnsRuleSetKind::Dns,
        builtin: true,
        read_only: false,
        enabled,
        dns_rules: rules,
        hosts: Seq::empty(),
    }
}

/// The set that stands for the system's hosts file.
pub open spec fn system_set(enabled: bool) -> DnsRuleSetModel {
    DnsRuleSetModel {
        id: "system-hosts"@,
        name: "系统 Hosts"@,
        kind: DnsRuleSetKind::Hosts,
        builtin: true,
        read_only: true,
        enabled,
        dns_rules: Seq::empty(),
        hosts: Seq::empty(),
    }
}

/// The set that takes over the host entries of an older store.
pub open spec fn migrated_set(entries: Seq<HostsEntryModel>, enabled: bool) -> DnsRuleSetModel {
    DnsRuleSetModel {
        id: "migrated-hosts"@,
        name: "自定义 Hosts"@,
        kind: DnsRuleSetKind::Hosts,
        builtin: false,
        read_only: false,
        enabled,
        dns_rules: Seq::empty(),
        hosts: entries,
    }
}

impl DnsRuleSet {
    pub fn builtin_dns(rules: Vec<DnsRule>, enabled: bool) -> (r: Self)
        ensures
            r@ == builtin_set(dns_rule_views(rules@), enabled),
    {
        let set = DnsRuleSet {
            id: BUILTIN_DNS_SET_ID.to_owned(),
            name: "内置 DNS 规则".to_owned(),
            kind: DnsRuleSetKind::Dns,
            builtin: true,
            read_only: false,
            enabled,
            dns_rules: rules,
            hosts: Vec::new(),
        };
        proof {
            assert(set@.hosts =~= Seq::empty());
        }
        set
    }

    pub fn system_hosts(enabled: bool) -> (r: Self)
        ensures
            r@ == system_set(enabled),
    {
        let set = DnsRuleSet {
            id: SYSTEM_HOSTS_SET_ID.to_owned(),
            name: "系统 Hosts".to_owned(),
            kind: DnsRuleSetKind::Hosts,
            builtin: true,
            read_only: true,
            enabled,
            dns_rules: Vec::new(),
            hosts: Vec::new(),
        };
        proof {
            assert(set@.hosts =~= Seq::empty());
            assert(set@.dns_rules =~= Seq::empty());
        }
        set
    }
}

#[derive(Debug)]
pub struct DnsSettings {
    pub enabled: bool,
    pub mode: DnsMode,
    /// The switch of `rules`, for stores without sets.
    pub rules_enabled: bool,
    /// The rules of a store without sets.
    pub rules: Vec<DnsRule>,
    pub fake_ip: FakeIpConfig,
    /// The host entries of a store without sets.
    pub hosts: HostsConfig,
    /// The sets in their order; empty in a store that has none yet.
    pub rule_sets: Vec<DnsRuleSet>,
    /// The DNS rules have moved into the routing rule sets.
    pub unified_rules: bool,
    pub hijack: bool,
    pub cache: bool,
    /// The resolver of domains that no rule matches.
    pub dns_final: String,
}

impl Clone for DnsSettings {
    fn clone(&self) -> (r: Self)
        ensures
            r.enabled == self.enabled,
            r.mode == self.mode,
            r.rules_enabled == self.rules_enabled,
            r.rules@ == self.rules@,
            r.fake_ip.enabled == self.fake_ip.enabled,
            r.fake_ip.inet4_range == self.fake_ip.inet4_range,
            r.fake_ip.inet6_enabled == self.fake_ip.inet6_enabled,
            r.fake_ip.inet6_range == self.fake_ip.inet6_range,
            r.fake_ip.bypass@ == self.fake_ip.bypass@,
            r.hosts.enabled == self.hosts.enabled,
            r.hosts.include_system == self.hosts.include_system,
            r.hosts.entries@ == self.hosts.entries@,
            set_views(r.rule_sets@) == set_views(self.rule_sets@),
            r.unified_rules == self.unified_rules,
            r.hijack == self.hijack,
            r.cache == self.cache,
            r.dns_final == self.dns_final,
    {
        let mut sets: Vec<DnsRuleSet> = Vec::new();
        for i in 0..self.rule_sets.len()
            invariant
                sets@.len() == i,
                forall|j: int| 0 <= j < i ==> (#[trigger] sets@[j])@ == self.rule_sets@[j]@,
        {
            sets.push(self.rule_sets[i].clone());
        }
        proof {
            assert(set_views(sets@) =~= set_views(self.rule_sets@));
        }
        DnsSettings {
            enabled: self.enabled,
            mode: self.mode,
            rules_enabled: self.rules_enabled,
            rules: clone_dns_rules(&self.rules),
            fake_ip: self.fake_ip.clone(),
            hosts: self.hosts.clone(),
            rule_sets: sets,
            unified_rules: self.unified_rules,
            hijack: self.hijack,
            cache: self.cache,
            dns_final: self.dns_final.clone(),
        }
    }
}

impl Default for DnsSettings {
    /// The settings of a new store where the factory list cannot be read.
    fn default() -> (r: Self)
        ensures
            r.is_new(None),
    {
        DnsSettings::with_list(None)
    }
}

impl DnsSettings {
    /// The settings of a new store; `list` is the text of the factory list, where it could
    /// be read.
    pub open spec fn is_new(self, list: Option<Seq<char>>) -> bool {
        &&& self.enabled
        &&& self.mode == DnsMode::Local
        &&& !self.rules_enabled
        &&& dns_rule_views(self.rules@) == rules_of_list(list)
        &&& self.fake_ip.enabled
        &&& self.fake_ip.inet4_range@ == "198.18.0.0/15"@
        &&& !self.fake_ip.inet6_enabled
        &&& self.fake_ip.inet6_range@ == "fc00::/18"@
        &&& views(self.fake_ip.bypass@) == seq![
            "local"@,
            "lan"@,
            "internal"@,
            "corp"@,
            "localhost"@,
        ]
        &&& !self.hosts.enabled
        &&& !self.hosts.include_system
        &&& self.hosts.entries@.len() == 0
        &&& self.rule_sets@.len() == 0
        &&& !self.unified_rules
        &&& self.hijack
        &&& self.cache
        &&& self.dns_final@ == "remote"@
    }

    /// The settings of a new store; `list` is the text of the factory list, where it could
    /// be read.
    pub fn with_list(list: Option<&str>) -> (r: Self)
        ensures
            r.is_new(str_view(list)),
    {
        DnsSettings {
            enabled: true,
            mode: DnsMode::Local,
            rules_enabled: false,
            rules: default_rules(list),
            fake_ip: FakeIpConfig::default(),
            hosts: HostsConfig::default(),
            rule_sets: Vec::new(),
            unified_rules: false,
            hijack: true,
            cache: true,
            dns_final: default_dns_final(),
        }
    }
}

pub open spec fn has_set(sets: Seq<DnsRuleSetModel>, id: Seq<char>) -> bool {
    exists|i: int| 0 <= i < sets.len() && (#[trigger] sets[i]).id == id
}

/// The position of the first set of that id, or the number of sets.
pub open spec fn set_pos(sets: Seq<DnsRuleSetModel>, id: Seq<char>) -> int
    decreases sets.len(),
{
    if sets.len() == 0 || sets[0].id == id {
        0
    } else {
        1 + set_pos(sets.drop_first(), id)
    }
}

/// The sets of a store that has none: its rules, the system's hosts, and its host
/// entries where it has any.
pub open spec fn migrated_sets(
    rules: Seq<DnsRuleModel>,
    rules_enabled: bool,
    hosts: HostsConfig,
) -> Seq<DnsRuleSetModel> {
    let first = seq![
        builtin_set(rules, rules_enabled),
        system_set(hosts.enabled && hosts.include_system),
    ];
    if hosts.entries@.len() == 0 {
        first
    } else {
        first.push(migrated_set(hosts_views(hosts.entries@), hosts.enabled))
    }
}

/// The sets with both factory sets among them.
pub open spec fn with_factory_sets(
    sets: Seq<DnsRuleSetModel>,
    list: Option<Seq<char>>,
) -> Seq<DnsRuleSetModel> {
    let a = if has_set(sets, "builtin-dns"@) {
        sets
    } else {
        seq![builtin_set(rules_of_list(list), false)] + sets
    };
    if has_set(a, "system-hosts"@) {
        a
    } else {
        a.insert(1, system_set(false))
    }
}

/// The sets with the factory sets as they are shipped, but for their switches and
/// the rules of the first.
pub open spec fn with_factory_shape(sets: Seq<DnsRuleSetModel>) -> Seq<DnsRuleSetModel> {
    let b = set_pos(sets, "builtin-dns"@);
    let x = sets.update(b, builtin_set(sets[b].dns_rules, sets[b].enabled));
    let s = set_pos(x, "system-hosts"@);
    x.update(s, system_set(x[s].enabled))
}

/// The sets that `ensure_rule_sets` leaves.
pub open spec fn ensured_sets(d: DnsSettings, list: Option<Seq<char>>) -> Seq<DnsRuleSetModel> {
    let sets = set_views(d.rule_sets@);
    if d.unified_rules {
        let kept = sets.filter(|s: DnsRuleSetModel| s.kind == DnsRuleSetKind::Hosts);
        if has_set(kept, "system-hosts"@) {
            kept
        } else {
            seq![system_set(false)] + kept
        }
    } else {
        let base = if sets.len() == 0 {
            migrated_sets(
                dns_rule_views(d.rules@),
                d.rules_enabled || d.mode == DnsMode::Rules,
                d.hosts,
            )
        } else {
            sets
        };
        with_factory_shape(with_factory_sets(base, list))
    }
}

/// The rules of the enabled sets, one after the other.
pub open spec fn flat_rules(sets: Seq<DnsRuleSet>) -> Seq<DnsRule>
    decreases sets.len(),
{
    if sets.len() == 0 {
        Seq::empty()
    } else {
        let set = sets.last();
        let before = flat_rules(sets.drop_last());
        if set.enabled && set.kind == DnsRuleSetKind::Dns {
            before + set.dns_rules@
        } else {
            before
        }
    }
}

/// The entries of the system's hosts file.
pub open spec fn system_entries(pairs: Seq<(String, String)>, prefix: Seq<char>) -> Seq<
    HostsEntryModel,
> {
    Seq::new(
        pairs.len(),
        |i: int|
            HostsEntryModel {
                id: prefix + decimal(i as nat),
                enabled: true,
                domain: pairs[i].0@,
                addr: pairs[i].1@,
            },
    )
}

/// The entries of the enabled host sets, one after the other; those of the
/// system's set are read from its hosts file.
pub open spec fn flat_hosts(sets: Seq<DnsRuleSetModel>, system: Seq<HostsEntryModel>) -> Seq<
    HostsEntryModel,
>
    decreases sets.len(),
{
    if sets.len() == 0 {
        Seq::empty()
    } else {
        let set = sets.last();
        let before = flat_hosts(sets.drop_last(), system);
        if set.enabled && set.kind == DnsRuleSetKind::Hosts {
            if set.id == "system-hosts"@ {
                before + system
            } else {
                before + set.hosts
            }
        } else {
            before
        }
    }
}

/// The known value that `dns_final` stands for.
pub open spec fn final_name(s: Seq<char>) -> Seq<char> {
    let k = lowered(trimmed(s));
    if k == "local"@ {
        "local"@
    } else if k == "domestic"@ || k == "cn"@ {
        "domestic"@
    } else {
        "remote"@
    }
}

proof fn lemma_set_pos(sets: Seq<DnsRuleSetModel>, id: Seq<char>)
    ensures
        0 <= set_pos(sets, id) <= sets.len(),
        has_set(sets, id) <==> set_pos(sets, id) < sets.len(),
        set_pos(sets, id) < sets.len() ==> sets[set_pos(sets, id)].id == id,
        forall|j: int| 0 <= j < set_pos(sets, id) ==> (#[trigger] sets[j]).id != id,
    decreases sets.len(),
{
    if sets.len() > 0 && sets[0].id != id {
        let t = sets.drop_first();
        lemma_set_pos(t, id);
        assert forall|j: int| 0 <= j < set_pos(sets, id) implies (#[trigger] sets[j]).id != id by {
            if j > 0 {
                assert(t[j - 1] == sets[j]);
            }
        }
        if has_set(sets, id) {
            let k = choose|k: int| 0 <= k < sets.len() && (#[trigger] sets[k]).id == id;
            assert(t[k - 1].id == id);
        }
        if has_set(t, id) {
            let k = choose|k: int| 0 <= k < t.len() && (#[trigger] t[k]).id == id;
            assert(sets[k + 1].id == id);
        }
    } else if sets.len() > 0 {
        assert(sets[0].id == id);
    }
}

proof fn lemma_set_pos_is(sets: Seq<DnsRuleSetModel>, id: Seq<char>, k: int)
    requires
        0 <= k <= sets.len(),
        forall|j: int| 0 <= j < k ==> (#[trigger] sets[j]).id != id,
        k < sets.len() ==> sets[k].id == id,
    ensures
        set_pos(sets, id) == k,
        has_set(sets, id) <==> k < sets.len(),
{
    lemma_set_pos(sets, id);
    let p = set_pos(sets, id);
    if p < k {
        assert(sets[p].id == id);
    }
    if k < p {
        assert(sets[k].id != id);
    }
}

/// The position of the first set of that id, or the number of sets.
fn find_set(sets: &Vec<DnsRuleSet>, id: &str) -> (r: usize)
    ensures
        r == set_pos(set_views(sets@), id@),
        r <= sets@.len(),
        has_set(set_views(sets@), id@) <==> r < sets@.len(),
{
    let mut i: usize = 0;
    while i < sets.len()
        invariant
            i <= sets.len(),
            forall|j: int| 0 <= j < i ==> (#[trigger] set_views(sets@)[j]).id != id@,
        decreases sets.len() - i,
    {
        if same(sets[i].id.as_str(), id) {
            proof {
                assert(set_views(sets@)[i as int].id == id@);
                lemma_set_pos_is(set_views(sets@), id@, i as int);
            }
            return i;
        }
        proof {
            assert(set_views(sets@)[i as int].id != id@);
        }
        i += 1;
    }
    proof {
        lemma_set_pos_is(set_views(sets@), id@, i as int);
    }
    i
}

/// Keeps the host sets.
fn hosts_only(sets: Vec<DnsRuleSet>) -> (r: Vec<DnsRuleSet>)
    ensures
        set_views(r@) == set_views(sets@).filter(
            |s: DnsRuleSetModel| s.kind == DnsRuleSetKind::Hosts,
        ),
{
    let ghost keep = |s: DnsRuleSetModel| s.kind == DnsRuleSetKind::Hosts;
    let mut out: Vec<DnsRuleSet> = Vec::new();
    let mut i: usize = 0;
    proof {
        assert(set_views(sets@).take(0) =~= Seq::empty());
        reveal(Seq::filter);
        assert(set_views(out@) =~= Seq::empty());
    }
    while i < sets.len()
        invariant
            i <= sets.len(),
            keep == (|s: DnsRuleSetModel| s.kind == DnsRuleSetKind::Hosts),
            set_views(out@) == set_views(sets@).take(i as int).filter(keep),
        decreases sets.len() - i,
    {
        let ghost before = out@;
        let ghost whole = set_views(sets@).take(i + 1);
        proof {
            reveal(Seq::filter);
            assert(whole.drop_last() =~= set_views(sets@).take(i as int));
            assert(whole.last() == sets@[i as int]@);
        }
        if sets[i].kind == DnsRuleSetKind::Hosts {
            out.push(sets[i].clone());
            proof {
                assert(set_views(out@) =~= set_views(before).push(sets@[i as int]@));
            }
        }
        i += 1;
    }
    proof {
        assert(set_views(sets@).take(i as int) =~= set_views(sets@));
    }
    out
}

/// The sets of a store that has none.
fn sets_of_store(rules: &Vec<DnsRule>, rules_enabled: bool, hosts: &HostsConfig) -> (r: Vec<
    DnsRuleSet,
>)
    ensures
        set_views(r@) == migrated_sets(dns_rule_views(rules@), rules_enabled, *hosts),
{
    let mut sets: Vec<DnsRuleSet> = Vec::new();
    sets.push(DnsRuleSet::builtin_dns(clone_dns_rules(rules), rules_enabled));
    sets.push(DnsRuleSet::system_hosts(hosts.enabled && hosts.include_system));
    if hosts.entries.len() > 0 {
        sets.push(
            DnsRuleSet {
                id: "migrated-hosts".to_owned(),
                name: "自定义 Hosts".to_owned(),
                kind: DnsRuleSetKind::Hosts,
                builtin: false,
                read_only: false,
                enabled: hosts.enabled,
                dns_rules: Vec::new(),
                hosts: clone_hosts(&hosts.entries),
            },
        );
        proof {
            assert(sets@[2]@.dns_rules =~= Seq::empty());
        }
    }
    proof {
        assert(set_views(sets@) =~= migrated_sets(dns_rule_views(rules@), rules_enabled, *hosts));
    }
    sets
}

fn add_factory_sets(sets: &mut Vec<DnsRuleSet>, list: Option<&str>)
    ensures
        set_views(final(sets)@) == with_factory_sets(set_views(old(sets)@), str_view(list)),
        has_set(set_views(final(sets)@), "builtin-dns"@),
        has_set(set_views(final(sets)@), "system-hosts"@),
{
    proof {
        lemma_factory_sets_there(set_views(sets@), str_view(list));
    }
    let at: usize = find_set(sets, BUILTIN_DNS_SET_ID);
    if at == sets.len() {
        let ghost before = sets@;
        sets.insert(0, DnsRuleSet::builtin_dns(DnsSettings::factory_rules_base(list), false));
        proof {
            assert(set_views(sets@) =~= seq![builtin_set(rules_of_list(str_view(list)), false)] + set_views(
                before,
            ));
        }
    }
    let at: usize = find_set(sets, SYSTEM_HOSTS_SET_ID);
    if at == sets.len() {
        let ghost before = sets@;
        sets.insert(1, DnsRuleSet::system_hosts(false));
        proof {
            assert(set_views(sets@) =~= set_views(before).insert(1, system_set(false)));
        }
    }
}

fn shape_factory_sets(sets: &mut Vec<DnsRuleSet>)
    requires
        has_set(set_views(old(sets)@), "builtin-dns"@),
        has_set(set_views(old(sets)@), "system-hosts"@),
    ensures
        set_views(final(sets)@) == with_factory_shape(set_views(old(sets)@)),
{
    let ghost whole = set_views(sets@);
    let b: usize = find_set(sets, BUILTIN_DNS_SET_ID);
    let ghost x = whole.update(
        b as int,
        builtin_set(whole[b as int].dns_rules, whole[b as int].enabled),
    );
    proof {
        lemma_set_pos(whole, "builtin-dns"@);
        lemma_set_pos(whole, "system-hosts"@);
        lemma_set_ids_differ();
        let k = set_pos(whole, "system-hosts"@);
        assert(x[k].id == "system-hosts"@);
    }
    let ghost before = sets@[b as int];
    sets[b].name = "内置 DNS 规则".to_owned();
    sets[b].kind = DnsRuleSetKind::Dns;
    sets[b].builtin = true;
    sets[b].read_only = false;
    sets[b].hosts = Vec::new();
    proof {
        let after = sets@[b as int]@;
        assert(after.hosts =~= Seq::empty());
        assert(before@ == whole[b as int]);
        assert(after == builtin_set(whole[b as int].dns_rules, whole[b as int].enabled));
        assert(set_views(sets@) =~= x);
    }
    let s: usize = find_set(sets, SYSTEM_HOSTS_SET_ID);
    let enabled = sets[s].enabled;
    sets.set(s, DnsRuleSet::system_hosts(enabled));
    proof {
        assert(set_views(sets@) =~= x.update(s as int, system_set(x[s as int].enabled)));
    }
}

impl DnsSettings {
    /// The fields that the rule sets have nothing to do with are the same.
    pub open spec fn same_but_sets(self, other: DnsSettings) -> bool {
        &&& self.enabled == other.enabled
        &&& self.rules == other.rules
        &&& self.fake_ip == other.fake_ip
        &&& self.hosts == other.hosts
        &&& self.unified_rules == other.unified_rules
        &&& self.hijack == other.hijack
        &&& self.cache == other.cache
        &&& self.dns_final == other.dns_final
    }

    /// The mode `Rules` of an older store becomes the switch of its rules.
    pub fn migrate_legacy_rules_mode(&mut self)
        ensures
            final(self).same_but_sets(*old(self)),
            final(self).rule_sets == old(self).rule_sets,
            final(self).rules_enabled == (old(self).rules_enabled || old(self).mode
                == DnsMode::Rules),
            final(self).mode == if old(self).mode == DnsMode::Rules {
                DnsMode::Local
            } else {
                old(self).mode
            },
    {
        if self.mode == DnsMode::Rules {
            self.mode = DnsMode::Local;
            self.rules_enabled = true;
        }
    }

    /// Makes sets of the rules and host entries of a store that has none, and sees
    /// to it that the two factory sets are there.
    pub fn ensure_rule_sets(&mut self, list: Option<&str>)
        ensures
            final(self).same_but_sets(*old(self)),
            final(self).rules_enabled == (old(self).rules_enabled || old(self).mode
                == DnsMode::Rules),
            final(self).mode == if old(self).mode == DnsMode::Rules {
                DnsMode::Local
            } else {
                old(self).mode
            },
            set_views(final(self).rule_sets@) == ensured_sets(*old(self), str_view(list)),
    {
        let ghost start = *self;
        self.migrate_legacy_rules_mode();
        let mut sets: Vec<DnsRuleSet> = Vec::new();
        std::mem::swap(&mut sets, &mut self.rule_sets);
        if self.unified_rules {
            let mut kept = hosts_only(sets);
            let at: usize = find_set(&kept, SYSTEM_HOSTS_SET_ID);
            if at == kept.len() {
                let ghost before = kept@;
                kept.insert(0, DnsRuleSet::system_hosts(false));
                proof {
                    assert(set_views(kept@) =~= seq![system_set(false)] + set_views(before));
                }
            }
            self.rule_sets = kept;
            return ;
        }
        if sets.len() == 0 {
            sets = sets_of_store(&self.rules, self.rules_enabled, &self.hosts);
        }
        add_factory_sets(&mut sets, list);
        shape_factory_sets(&mut sets);
        self.rule_sets = sets;
    }

    /// The rules that are asked, in their order.
    pub fn enabled_dns_rules(&self) -> (r: Vec<DnsRule>)
        ensures
            r@ == if self.rule_sets@.len() == 0 {
                if self.rules_enabled {
                    self.rules@
                } else {
                    Seq::empty()
                }
            } else {
                flat_rules(self.rule_sets@)
            },
    {
        if self.rule_sets.len() == 0 {
            return if self.effective_rules_enabled() {
                clone_dns_rules(&self.rules)
            } else {
                Vec::new()
            };
        }
        let mut out: Vec<DnsRule> = Vec::new();
        for i in 0..self.rule_sets.len()
            invariant
                out@ == flat_rules(self.rule_sets@.take(i as int)),
        {
            let ghost whole = self.rule_sets@.take(i + 1);
            proof {
                assert(whole.drop_last() =~= self.rule_sets@.take(i as int));
            }
            let set = &self.rule_sets[i];
            if set.enabled && set.kind == DnsRuleSetKind::Dns {
                let mut more = clone_dns_rules(&set.dns_rules);
                out.append(&mut more);
            }
        }
        proof {
            assert(self.rule_sets@.take(self.rule_sets@.len() as int) =~= self.rule_sets@);
        }
        out
    }

    /// Whether any rule is asked at all.
    pub fn has_enabled_dns_sets(&self) -> (r: bool)
        ensures
            r == if self.rule_sets@.len() == 0 {
                self.rules_enabled
            } else {
                exists|i: int, j: int|
                    0 <= i < self.rule_sets@.len() && self.rule_sets@[i].enabled
                        && self.rule_sets@[i].kind == DnsRuleSetKind::Dns && 0 <= j
                        < self.rule_sets@[i].dns_rules@.len()
                        && #[trigger] self.rule_sets@[i].dns_rules@[j].enabled
            },
    {
        if self.rule_sets.len() == 0 {
            return self.effective_rules_enabled();
        }
        for i in 0..self.rule_sets.len()
            invariant
                self.rule_sets@.len() > 0,
                forall|k: int, j: int|
                    0 <= k < i && self.rule_sets@[k].enabled && self.rule_sets@[k].kind
                        == DnsRuleSetKind::Dns && 0 <= j < self.rule_sets@[k].dns_rules@.len()
                        ==> !(#[trigger] self.rule_sets@[k].dns_rules@[j].enabled),
        {
            let set = &self.rule_sets[i];
            if set.enabled && set.kind == DnsRuleSetKind::Dns {
                for j in 0..set.dns_rules.len()
                    invariant
                        i < self.rule_sets@.len(),
                        *set == self.rule_sets@[i as int],
                        set.enabled,
                        set.kind == DnsRuleSetKind::Dns,
                        forall|l: int| 0 <= l < j ==> !(#[trigger] set.dns_rules@[l].enabled),
                {
                    if set.dns_rules[j].enabled {
                        proof {
                            assert(self.rule_sets@[i as int].dns_rules@[j as int].enabled);
                        }
                        return true;
                    }
                }
            }
        }
        false
    }

    /// The host entries that answer, given what the system's hosts file holds.
    pub fn effective_hosts(&self, system_pairs: &Vec<(String, String)>) -> (r: HostsConfig)
        ensures
            self.rule_sets@.len() == 0 ==> {
                &&& r.enabled == self.hosts.enabled
                &&& r.include_system == self.hosts.include_system
                &&& r.entries@ == self.hosts.entries@
            },
            self.rule_sets@.len() > 0 ==> {
                &&& hosts_views(r.entries@) == flat_hosts(
                    set_views(self.rule_sets@),
                    system_entries(system_pairs@, "system-"@),
                )
                &&& r.enabled == (r.entries@.len() > 0)
                &&& !r.include_system
            },
    {
        if self.rule_sets.len() == 0 {
            return self.hosts.clone();
        }
        let ghost models = set_views(self.rule_sets@);
        let ghost system = system_entries(system_pairs@, "system-"@);
        let mut entries: Vec<HostsEntry> = Vec::new();
        proof {
            assert(hosts_views(entries@) =~= flat_hosts(models.take(0), system));
        }
        for i in 0..self.rule_sets.len()
            invariant
                models == set_views(self.rule_sets@),
                system == system_entries(system_pairs@, "system-"@),
                hosts_views(entries@) == flat_hosts(models.take(i as int), system),
        {
            let ghost whole = models.take(i + 1);
            let ghost before = entries@;
            proof {
                assert(whole.drop_last() =~= models.take(i as int));
            }
            let set = &self.rule_sets[i];
            if set.enabled && set.kind == DnsRuleSetKind::Hosts {
                if same(set.id.as_str(), SYSTEM_HOSTS_SET_ID) {
                    let mut more = entries_of_pairs(system_pairs, "system-");
                    let ghost added = more@;
                    entries.append(&mut more);
                    proof {
                        assert(hosts_views(entries@) =~= hosts_views(before) + hosts_views(added));
                    }
                } else {
                    let mut more = clone_hosts(&set.hosts);
                    let ghost added = more@;
                    entries.append(&mut more);
                    proof {
                        assert(hosts_views(entries@) =~= hosts_views(before) + hosts_views(added));
                    }
                }
            }
        }
        proof {
            assert(models.take(models.len() as int) =~= models);
        }
        HostsConfig { enabled: entries.len() > 0, include_system: false, entries }
    }

    /// Puts the factory rules back into their set, which keeps its switch.
    pub fn reset_builtin_dns_set(&mut self, list: Option<&str>)
        ensures
            final(self).same_but_sets(*old(self)),
            final(self).rules_enabled == old(self).rules_enabled,
            final(self).mode == old(self).mode,
            set_views(final(self).rule_sets@) == reset_sets(
                set_views(old(self).rule_sets@),
                str_view(list),
            ),
    {
        let at: usize = find_set(&self.rule_sets, BUILTIN_DNS_SET_ID);
        let ghost before = self.rule_sets@;
        if at < self.rule_sets.len() {
            let enabled = self.rule_sets[at].enabled;
            let set = DnsRuleSet::builtin_dns(DnsSettings::factory_rules_base(list), enabled);
            self.rule_sets.set(at, set);
            proof {
                assert(set_views(self.rule_sets@) =~= set_views(before).update(
                    at as int,
                    builtin_set(rules_of_list(str_view(list)), enabled),
                ));
            }
        } else {
            let set = DnsRuleSet::builtin_dns(DnsSettings::factory_rules_base(list), true);
            self.rule_sets.insert(0, set);
            proof {
                assert(set_views(self.rule_sets@) =~= seq![builtin_set(rules_of_list(str_view(list)), true)]
                    + set_views(before));
            }
        }
    }

    pub fn effective_rules_enabled(&self) -> (r: bool)
        ensures
            r == self.rules_enabled,
    {
        self.rules_enabled
    }

    /// `dns_final` as one of `local`, `domestic` and `remote`; what is unknown
    /// counts as `remote`.
    pub fn normalize_dns_final(&self) -> (r: &'static str)
        ensures
            r@ == final_name(self.dns_final@),
    {
        let k = lower(trim(self.dns_final.as_str()));
        if same(k.as_str(), "local") {
            "local"
        } else if same(k.as_str(), "domestic") || same(k.as_str(), "cn") {
            "domestic"
        } else {
            "remote"
        }
    }

    /// The rules of the factory list, whose text is handed in where it could be read.
    pub fn factory_rules_base(list: Option<&str>) -> (r: Vec<DnsRule>)
        ensures
            dns_rule_views(r@) == rules_of_list(str_view(list)),
    {
        default_rules(list)
    }
}

/// The sets with the factory rules in their set.
pub open spec fn reset_sets(sets: Seq<DnsRuleSetModel>, list: Option<Seq<char>>) -> Seq<
    DnsRuleSetModel,
> {
    if has_set(sets, "builtin-dns"@) {
        let at = set_pos(sets, "builtin-dns"@);
        sets.update(at, builtin_set(rules_of_list(list), sets[at].enabled))
    } else {
        seq![builtin_set(rules_of_list(list), true)] + sets
    }
}

proof fn lemma_set_ids_differ()
    ensures
        "builtin-dns"@ != "system-hosts"@,
        "migrated-hosts"@ != "system-hosts"@,
        "migrated-hosts"@ != "builtin-dns"@,
{
    reveal_strlit("builtin-dns");
    reveal_strlit("system-hosts");
    reveal_strlit("migrated-hosts");
    assert("builtin-dns"@.len() == 11);
    assert("system-hosts"@.len() == 12);
    assert("migrated-hosts"@.len() == 14);
}

proof fn lemma_factory_sets_there(sets: Seq<DnsRuleSetModel>, list: Option<Seq<char>>)
    ensures
        has_set(with_factory_sets(sets, list), "builtin-dns"@),
        has_set(with_factory_sets(sets, list), "system-hosts"@),
        with_factory_sets(sets, list).len() > 0,
{
    let a = if has_set(sets, "builtin-dns"@) {
        sets
    } else {
        seq![builtin_set(rules_of_list(list), false)] + sets
    };
    if !has_set(sets, "builtin-dns"@) {
        assert(a[0].id == "builtin-dns"@);
    }
    assert(has_set(a, "builtin-dns"@));
    let b = with_factory_sets(sets, list);
    if !has_set(a, "system-hosts"@) {
        assert(b[1] == system_set(false));
        let k = choose|k: int| 0 <= k < a.len() && (#[trigger] a[k]).id == "builtin-dns"@;
        if k == 0 {
            assert(b[0] == a[0]);
        } else {
            assert(b[k + 1] == a[k]);
        }
    }
}

proof fn lemma_shape_kept(sets: Seq<DnsRuleSetModel>)
    requires
        has_set(sets, "builtin-dns"@),
        has_set(sets, "system-hosts"@),
    ensures
        has_set(with_factory_shape(sets), "builtin-dns"@),
        has_set(with_factory_shape(sets), "system-hosts"@),
        with_factory_shape(with_factory_shape(sets)) == with_factory_shape(sets),
        with_factory_shape(sets).len() == sets.len(),
        forall|i: int|
            0 <= i < sets.len() ==> (#[trigger] with_factory_shape(sets)[i]).id == sets[i].id,
{
    lemma_set_ids_differ();
    let b = set_pos(sets, "builtin-dns"@);
    lemma_set_pos(sets, "builtin-dns"@);
    lemma_set_pos(sets, "system-hosts"@);
    let s = set_pos(sets, "system-hosts"@);
    let x = sets.update(b, builtin_set(sets[b].dns_rules, sets[b].enabled));
    lemma_set_pos_is(x, "system-hosts"@, s);
    let y = with_factory_shape(sets);
    assert(y[b].id == "builtin-dns"@);
    assert(y[s].id == "system-hosts"@);
    lemma_set_pos_is(y, "builtin-dns"@, b);
    lemma_set_pos_is(y, "system-hosts"@, s);
    let z = y.update(b, builtin_set(y[b].dns_rules, y[b].enabled));
    assert(z =~= y);
    assert(with_factory_shape(y) =~= y);
}

proof fn lemma_filter_all<A>(s: Seq<A>, p: spec_fn(A) -> bool)
    requires
        forall|i: int| 0 <= i < s.len() ==> p(#[trigger] s[i]),
    ensures
        s.filter(p) == s,
    decreases s.len(),
{
    reveal(Seq::filter);
    if s.len() > 0 {
        lemma_filter_all(s.drop_last(), p);
        assert(s.filter(p) =~= s);
    } else {
        assert(s.filter(p) =~= s);
    }
}

/// Once `ensure_rule_sets` has run, the set of the system's hosts file is there, as
/// it is shipped but for its switch where the store keeps DNS rules; there the
/// built-in set of DNS rules is there too.
pub proof fn law_factory_sets_exist(d: DnsSettings, list: Option<Seq<char>>)
    ensures
        has_set(ensured_sets(d, list), "system-hosts"@),
        !d.unified_rules ==> has_set(ensured_sets(d, list), "builtin-dns"@),
        !d.unified_rules ==> ({
            let sets = ensured_sets(d, list);
            let s = set_pos(sets, "system-hosts"@);
            sets[s] == system_set(sets[s].enabled)
        }),
        d.unified_rules ==> forall|i: int|
            0 <= i < ensured_sets(d, list).len() ==> (#[trigger] ensured_sets(d, list)[i]).kind
                == DnsRuleSetKind::Hosts,
{
    let sets = set_views(d.rule_sets@);
    let keep = |s: DnsRuleSetModel| s.kind == DnsRuleSetKind::Hosts;
    if d.unified_rules {
        let kept = sets.filter(keep);
        sets.filter_lemma(keep);
        if !has_set(kept, "system-hosts"@) {
            assert(ensured_sets(d, list)[0].id == "system-hosts"@);
        }
        assert forall|i: int| 0 <= i < ensured_sets(d, list).len() implies (#[trigger] ensured_sets(
            d,
            list,
        )[i]).kind == DnsRuleSetKind::Hosts by {
            if has_set(kept, "system-hosts"@) {
                assert(keep(kept[i]));
            } else if i > 0 {
                assert(keep(kept[i - 1]));
            }
        }
    } else {
        let base = if sets.len() == 0 {
            migrated_sets(
                dns_rule_views(d.rules@),
                d.rules_enabled || d.mode == DnsMode::Rules,
                d.hosts,
            )
        } else {
            sets
        };
        let f = with_factory_sets(base, list);
        lemma_factory_sets_there(base, list);
        lemma_shape_kept(f);
        lemma_set_ids_differ();
        lemma_set_pos(f, "builtin-dns"@);
        lemma_set_pos(f, "system-hosts"@);
        let b = set_pos(f, "builtin-dns"@);
        let s = set_pos(f, "system-hosts"@);
        let x = f.update(b, builtin_set(f[b].dns_rules, f[b].enabled));
        lemma_set_pos_is(x, "system-hosts"@, s);
        lemma_set_pos_is(with_factory_shape(f), "system-hosts"@, s);
    }
}

/// Running `ensure_rule_sets` again changes no set, whatever the factory list is by then.
pub proof fn law_ensure_rule_sets_is_idempotent(
    d: DnsSettings,
    e: DnsSettings,
    list: Option<Seq<char>>,
    later: Option<Seq<char>>,
)
    requires
        set_views(e.rule_sets@) == ensured_sets(d, list),
        e.unified_rules == d.unified_rules,
    ensures
        ensured_sets(e, later) == ensured_sets(d, list),
{
    let sets = ensured_sets(d, list);
    let keep = |s: DnsRuleSetModel| s.kind == DnsRuleSetKind::Hosts;
    law_factory_sets_exist(d, list);
    if d.unified_rules {
        assert forall|i: int| 0 <= i < sets.len() implies keep(#[trigger] sets[i]) by {}
        lemma_filter_all(sets, keep);
    } else {
        let old = set_views(d.rule_sets@);
        let base = if old.len() == 0 {
            migrated_sets(
                dns_rule_views(d.rules@),
                d.rules_enabled || d.mode == DnsMode::Rules,
                d.hosts,
            )
        } else {
            old
        };
        lemma_factory_sets_there(base, list);
        lemma_shape_kept(with_factory_sets(base, list));
        assert(sets.len() > 0);
        assert(with_factory_sets(sets, later) == sets);
    }
}

pub fn default_dns_final() -> (r: String)
    ensures
        r@ == "remote"@,
{
    "remote".to_owned()
}

pub fn default_fakeip_v4() -> (r: String)
    ensures
        r@ == "198.18.0.0/15"@,
{
    "198.18.0.0/15".to_owned()
}

pub fn default_fakeip_v6() -> (r: String)
    ensures
        r@ == "fc00::/18"@,
{
    "fc00::/18".to_owned()
}

pub fn default_fakeip_bypass() -> (r: Vec<String>)
    ensures
        views(r@) == seq!["local"@, "lan"@, "internal"@, "corp"@, "localhost"@],
{
    let mut v: Vec<String> = Vec::new();
    v.push("local".to_owned());
    v.push("lan".to_owned());
    v.push("internal".to_owned());
    v.push("corp".to_owned());
    v.push("localhost".to_owned());
    proof {
        assert(views(v@) =~= seq!["local"@, "lan"@, "internal"@, "corp"@, "localhost"@]);
    }
    v
}

pub open spec fn bypass_rule(suffix: Seq<char>) -> DnsRuleModel {
    DnsRuleModel {
        id: "bypass-"@ + suffix,
        enabled: true,
        matcher: DomainMatcher::DomainSuffix,
        payload: suffix,
        action: DnsAction::Local,
    }
}

/// The rules that stand in for an empty list.
pub open spec fn hardcoded_rules() -> Seq<DnsRuleModel> {
    seq![
        bypass_rule("local"@),
        bypass_rule("lan"@),
        bypass_rule("internal"@),
        bypass_rule("corp"@),
    ]
}

fn bypass(suffix: &str) -> (r: DnsRule)
    ensures
        r@ == bypass_rule(suffix@),
{
    DnsRule {
        id: concat2("bypass-", suffix),
        enabled: true,
        matcher: DomainMatcher::DomainSuffix,
        payload: suffix.to_owned(),
        action: DnsAction::Local,
    }
}

/// The rules that stand in for a list that is missing or empty.
pub fn hardcoded_default_rules() -> (r: Vec<DnsRule>)
    ensures
        dns_rule_views(r@) == hardcoded_rules(),
{
    let mut v: Vec<DnsRule> = Vec::new();
    v.push(bypass("local"));
    v.push(bypass("lan"));
    v.push(bypass("internal"));
    v.push(bypass("corp"));
    proof {
        assert(dns_rule_views(v@) =~= hardcoded_rules());
    }
    v
}

/// The rules of a list under the name of the shipped one, where it holds any.
pub open spec fn rules_of_list(text: Option<Seq<char>>) -> Seq<DnsRuleModel> {
    match text {
        Some(t) => {
            let parsed = listed_rules(text_lines(t), "builtin"@);
            if parsed.len() == 0 {
                hardcoded_rules()
            } else {
                parsed
            }
        },
        None => hardcoded_rules(),
    }
}

/// The rules of the factory list, whose text is handed in where it could be read.
pub fn default_rules(list: Option<&str>) -> (r: Vec<DnsRule>)
    ensures
        dns_rule_views(r@) == rules_of_list(str_view(list)),
{
    match list {
        Some(t) => {
            let parsed = parse_dns_whitelist_text(t, "builtin");
            if parsed.len() == 0 {
                hardcoded_default_rules()
            } else {
                parsed
            }
        },
        None => hardcoded_default_rules(),
    }
}

/// A line of a hosts file without its comment.
pub open spec fn hosts_line(line: Seq<char>) -> Seq<char> {
    trimmed(before_char(line, '#'))
}

/// The columns of a line of a hosts file.
pub open spec fn hosts_columns(line: Seq<char>) -> Seq<Seq<char>> {
    words(hosts_line(line), separators(true))
}

/// The lines of a hosts file that map anything: they have two columns or more.
pub open spec fn hosts_rows_of(lines: Seq<Seq<char>>) -> Seq<Seq<Seq<char>>>
    decreases lines.len(),
{
    if lines.len() == 0 {
        Seq::empty()
    } else {
        let before = hosts_rows_of(lines.drop_last());
        let row = hosts_columns(lines.last());
        if row.len() < 2 {
            before
        } else {
            before.push(row)
        }
    }
}

/// The mappings of one row: each name in small letters, to the address.
pub open spec fn row_pairs(row: Seq<Seq<char>>) -> Seq<(Seq<char>, Seq<char>)>
    decreases row.len(),
{
    if row.len() < 2 {
        Seq::empty()
    } else {
        let before = row_pairs(row.drop_last());
        let name = trimmed(row.last());
        if name.len() == 0 {
            before
        } else {
            before.push((lowered(name), trimmed(row[0])))
        }
    }
}

/// The mappings of the rows whose first column is an address.
pub open spec fn pairs_of_rows(rows: Seq<Seq<Seq<char>>>, is_address: Seq<bool>) -> Seq<
    (Seq<char>, Seq<char>),
>
    decreases rows.len(),
{
    if rows.len() == 0 {
        Seq::empty()
    } else {
        let before = pairs_of_rows(rows.drop_last(), is_address);
        if is_address[rows.len() - 1] {
            before + row_pairs(rows.last())
        } else {
            before
        }
    }
}

pub open spec fn row_views(rows: Seq<Vec<String>>) -> Seq<Seq<Seq<char>>> {
    Seq::new(rows.len(), |i: int| views(rows[i]@))
}

pub open spec fn pair_views(pairs: Seq<(String, String)>) -> Seq<(Seq<char>, Seq<char>)> {
    Seq::new(pairs.len(), |i: int| (pairs[i].0@, pairs[i].1@))
}

/// The rows of a hosts file: an address, white space, and the names that it
/// stands for; `#` starts a comment.
pub fn hosts_rows(text: &str) -> (r: Vec<Vec<String>>)
    ensures
        row_views(r@) == hosts_rows_of(text_lines(text@)),
        forall|i: int| 0 <= i < r@.len() ==> (#[trigger] r@[i])@.len() >= 2,
{
    let all = lines(text);
    let ghost models = views(all@);
    let mut out: Vec<Vec<String>> = Vec::new();
    proof {
        assert(row_views(out@) =~= hosts_rows_of(models.take(0)));
    }
    for i in 0..all.len()
        invariant
            models == views(all@),
            row_views(out@) == hosts_rows_of(models.take(i as int)),
            forall|k: int| 0 <= k < out@.len() ==> (#[trigger] out@[k])@.len() >= 2,
    {
        let ghost whole = models.take(i + 1);
        let ghost before = out@;
        proof {
            assert(whole.drop_last() =~= models.take(i as int));
            assert(whole.last() == all@[i as int]@);
        }
        let line = all[i].as_str();
        let head = match split_once(line, '#') {
            Some((a, _)) => a,
            None => {
                proof {
                    crate::text::lemma_char_pos(line@, '#');
                    assert(before_char(line@, '#') =~= line@);
                }
                line
            },
        };
        let row = split_words(trim(head), true);
        if row.len() >= 2 {
            let ghost cells = row@;
            out.push(row);
            proof {
                assert(row_views(out@) =~= row_views(before).push(views(cells)));
            }
        }
    }
    proof {
        assert(models.take(models.len() as int) =~= models);
    }
    out
}

/// The mappings of a hosts file, as pairs of domain and address. Of each of the
/// rows that `hosts_rows` finds, `is_address` says whether its first column is an
/// address; the others are left out.
pub fn parse_hosts_text(text: &str, is_address: &Vec<bool>) -> (r: Vec<(String, String)>)
    requires
        is_address@.len() == hosts_rows_of(text_lines(text@)).len(),
    ensures
        pair_views(r@) == pairs_of_rows(hosts_rows_of(text_lines(text@)), is_address@),
{
    let rows = hosts_rows(text);
    let ghost models = row_views(rows@);
    let mut out: Vec<(String, String)> = Vec::new();
    proof {
        assert(pair_views(out@) =~= pairs_of_rows(models.take(0), is_address@));
    }
    for i in 0..rows.len()
        invariant
            is_address@.len() == rows@.len(),
            models == row_views(rows@),
            forall|k: int| 0 <= k < rows@.len() ==> (#[trigger] rows@[k])@.len() >= 2,
            pair_views(out@) == pairs_of_rows(models.take(i as int), is_address@),
    {
        let ghost whole = models.take(i + 1);
        let ghost before = pair_views(out@);
        proof {
            assert(whole.drop_last() =~= models.take(i as int));
            assert(whole.last() == views(rows@[i as int]@));
        }
        if is_address[i] {
            let row = &rows[i];
            let ghost cells = views(row@);
            let addr = trim(row[0].as_str());
            proof {
                assert(before + row_pairs(cells.take(1)) =~= before);
            }
            for j in 1..row.len()
                invariant
                    row@.len() >= 2,
                    cells == views(row@),
                    addr@ == trimmed(cells[0]),
                    pair_views(out@) == before + row_pairs(cells.take(j as int)),
            {
                let ghost part = cells.take(j + 1);
                let ghost so_far = out@;
                proof {
                    assert(part.drop_last() =~= cells.take(j as int));
                    assert(part.last() == row@[j as int]@);
                    assert(part[0] == cells[0]);
                }
                let name = trim(row[j].as_str());
                if !name.is_empty() {
                    out.push((lower(name), addr.to_owned()));
                    proof {
                        assert(pair_views(out@) =~= pair_views(so_far).push(
                            (lowered(name@), addr@),
                        ));
                        assert(pair_views(out@) =~= before + row_pairs(part));
                    }
                }
            }
            proof {
                assert(cells.take(cells.len() as int) =~= cells);
            }
        }
    }
    proof {
        assert(models.take(models.len() as int) =~= models);
    }
    out
}

/// Entries for a list of mappings, numbered behind `prefix`.
fn entries_of_pairs(pairs: &Vec<(String, String)>, prefix: &str) -> (r: Vec<HostsEntry>)
    ensures
        hosts_views(r@) == system_entries(pairs@, prefix@),
{
    let mut out: Vec<HostsEntry> = Vec::new();
    for i in 0..pairs.len()
        invariant
            out@.len() == i,
            forall|j: int|
                0 <= j < i ==> (#[trigger] out@[j])@ == system_entries(pairs@, prefix@)[j],
    {
        let n = decimal_of(i as u64);
        out.push(
            HostsEntry {
                id: concat2(prefix, n.as_str()),
                enabled: true,
                domain: pairs[i].0.clone(),
                addr: pairs[i].1.clone(),
            },
        );
    }
    proof {
        assert(hosts_views(out@) =~= system_entries(pairs@, prefix@));
    }
    out
}

/// The mappings of the system's hosts file, as entries that can be shown.
pub fn read_system_hosts_entries(system_pairs: &Vec<(String, String)>) -> (r: Vec<HostsEntry>)
    ensures
        hosts_views(r@) == system_entries(system_pairs@, "sys-"@),
{
    entries_of_pairs(system_pairs, "sys-")
}

/// The action that a column of a list names, in any case.
pub open spec fn action_named(raw: Seq<char>) -> Option<DnsAction> {
    let k = lowered(trimmed(raw));
    if k == "local"@ || k == "system"@ {
        Some(DnsAction::Local)
    } else if k == "domestic"@ || k == "cn"@ {
        Some(DnsAction::Domestic)
    } else if k == "remote"@ || k == "proxy"@ {
        Some(DnsAction::Remote)
    } else if k == "block"@ || k == "reject"@ {
        Some(DnsAction::Block)
    } else {
        None
    }
}

pub fn parse_dns_action(raw: &str) -> (r: Option<DnsAction>)
    ensures
        r == action_named(raw@),
{
    let key = lower(trim(raw));
    let k = key.as_str();
    if same(k, "local") || same(k, "system") {
        Some(DnsAction::Local)
    } else if same(k, "domestic") || same(k, "cn") {
        Some(DnsAction::Domestic)
    } else if same(k, "remote") || same(k, "proxy") {
        Some(DnsAction::Remote)
    } else if same(k, "block") || same(k, "reject") {
        Some(DnsAction::Block)
    } else {
        None
    }
}

/// The matcher that a column of a list names, in any case.
pub open spec fn matcher_named(raw: Seq<char>) -> Option<DomainMatcher> {
    let k = lowered(trimmed(raw));
    if k == "domain"@ {
        Some(DomainMatcher::Domain)
    } else if k == "domain-suffix"@ || k == "suffix"@ {
        Some(DomainMatcher::DomainSuffix)
    } else if k == "domain-keyword"@ || k == "keyword"@ {
        Some(DomainMatcher::DomainKeyword)
    } else {
        None
    }
}

pub fn parse_dns_matcher(kind: &str) -> (r: Option<DomainMatcher>)
    ensures
        r == matcher_named(kind@),
{
    let key = lower(trim(kind));
    let k = key.as_str();
    if same(k, "domain") {
        Some(DomainMatcher::Domain)
    } else if same(k, "domain-suffix") || same(k, "suffix") {
        Some(DomainMatcher::DomainSuffix)
    } else if same(k, "domain-keyword") || same(k, "keyword") {
        Some(DomainMatcher::DomainKeyword)
    } else {
        None
    }
}

/// What a line of a list says, where it is a rule: `MATCHER,payload`,
/// `MATCHER,payload,ACTION`, or a bare suffix.
pub open spec fn line_rule(raw: Seq<char>) -> Option<(DomainMatcher, Seq<char>, DnsAction)> {
    let line = trimmed(raw);
    if line.len() == 0 || line[0] == '#' {
        None
    } else if line.contains(',') {
        let parts = pieces(line, ',');
        match matcher_named(trimmed(parts[0])) {
            Some(m) => {
                let payload = trimmed(trimmed(parts[1]));
                if parts.len() < 2 || payload.len() == 0 {
                    None
                } else {
                    let action = if parts.len() >= 3 {
                        match action_named(trimmed(parts[2])) {
                            Some(a) => a,
                            None => DnsAction::Local,
                        }
                    } else {
                        DnsAction::Local
                    };
                    Some((m, payload, action))
                }
            },
            None => None,
        }
    } else if exists|i: int| 0 <= i < line.len() && is_space(#[trigger] line[i]) {
        None
    } else {
        Some((DomainMatcher::DomainSuffix, line, DnsAction::Local))
    }
}

/// The rules of the lines of a list, numbered from one.
pub open spec fn listed_rules(lines: Seq<Seq<char>>, stem: Seq<char>) -> Seq<DnsRuleModel>
    decreases lines.len(),
{
    if lines.len() == 0 {
        Seq::empty()
    } else {
        let before = listed_rules(lines.drop_last(), stem);
        match line_rule(lines.last()) {
            Some((matcher, payload, action)) => before.push(
                DnsRuleModel {
                    id: "bundled-"@ + stem + "-"@ + decimal(before.len() + 1),
                    enabled: true,
                    matcher,
                    payload,
                    action,
                },
            ),
            None => before,
        }
    }
}

fn has_space(s: &str) -> (r: bool)
    ensures
        r == exists|i: int| 0 <= i < s@.len() && is_space(#[trigger] s@[i]),
{
    let v = chars_of(s);
    for i in 0..v.len()
        invariant
            v@ == s@,
            forall|j: int| 0 <= j < i ==> !is_space(#[trigger] v@[j]),
    {
        if space_char(v[i]) {
            proof {
                assert(is_space(s@[i as int]));
            }
            return true;
        }
    }
    false
}

fn parse_line(raw: &str) -> (r: Option<(DomainMatcher, String, DnsAction)>)
    ensures
        match r {
            Some((m, p, a)) => line_rule(raw@) == Some((m, p@, a)),
            None => line_rule(raw@) is None,
        },
{
    let line = trim(raw);
    if line.is_empty() || line.get_char(0) == '#' {
        return None;
    }
    if contains_char(line, ',') {
        let parts = split(line, ',');
        let ghost models = pieces(line@, ',');
        proof {
            assert(models.len() >= 1);
            assert(parts@[0]@ == models[0]);
        }
        match parse_dns_matcher(trim(parts[0].as_str())) {
            Some(m) => {
                if parts.len() < 2 {
                    return None;
                }
                proof {
                    assert(parts@[1]@ == models[1]);
                }
                let payload = trim(trim(parts[1].as_str()));
                if payload.is_empty() {
                    return None;
                }
                let action = if parts.len() >= 3 {
                    proof {
                        assert(parts@[2]@ == models[2]);
                    }
                    match parse_dns_action(trim(parts[2].as_str())) {
                        Some(a) => a,
                        None => DnsAction::Local,
                    }
                } else {
                    DnsAction::Local
                };
                Some((m, payload.to_owned(), action))
            },
            None => None,
        }
    } else if has_space(line) {
        None
    } else {
        Some((DomainMatcher::DomainSuffix, line.to_owned(), DnsAction::Local))
    }
}

/// The rules of a list, whose lines are comments (`#`), bare suffixes such as
/// `example.com`, or rules such as `DOMAIN-SUFFIX,example.com,LOCAL`. Lines of
/// another form are left out.
pub fn parse_dns_whitelist_text(text: &str, file_stem: &str) -> (r: Vec<DnsRule>)
    ensures
        dns_rule_views(r@) == listed_rules(text_lines(text@), file_stem@),
{
    let all = lines(text);
    let ghost models = views(all@);
    let mut out: Vec<DnsRule> = Vec::new();
    proof {
        assert(dns_rule_views(out@) =~= listed_rules(models.take(0), file_stem@));
    }
    for i in 0..all.len()
        invariant
            models == views(all@),
            out@.len() <= i,
            dns_rule_views(out@) == listed_rules(models.take(i as int), file_stem@),
    {
        let ghost whole = models.take(i + 1);
        let ghost before = out@;
        proof {
            assert(whole.drop_last() =~= models.take(i as int));
            assert(whole.last() == all@[i as int]@);
        }
        if let Some((matcher, payload, action)) = parse_line(all[i].as_str()) {
            let n = decimal_of(out.len() as u64 + 1);
            let mut id = concat3("bundled-", file_stem, "-");
            id.append(n.as_str());
            let rule = DnsRule { id, enabled: true, matcher, payload, action };
            let ghost model = rule@;
            out.push(rule);
            proof {
                assert(dns_rule_views(out@) =~= dns_rule_views(before).push(model));
            }
        }
    }
    proof {
        assert(models.take(models.len() as int) =~= models);
    }
    out
}

} // verus!
