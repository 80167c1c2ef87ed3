//! Which resolver a domain goes to, replayed from the settings.

use crate::core_kind::CoreKind;
use crate::domain::dns::{
    dns_rule_views, final_name, flat_hosts, flat_rules, hosts_views, set_views, system_entries,
    DnsAction, DnsRule, DnsRuleModel, DnsSettings, DomainMatcher, FakeIpConfig, HostsConfig,
    HostsEntryModel, DOMESTIC_DNS_POOL, REMOTE_DNS_POOL,
};
use crate::domain::rule::{
    rule_views, RemoteRuleSetConfig, RuleSet, RuleSetDnsStrategy, RuleSetStrategy,
};
use crate::domain::settings::OutboundMode;
use crate::json::{json_parsed, parse_bytes, Json, JsonModel};
use crate::services::dns_items::{
    hit_view, item_hit, items_of_rules, load_items, local_set_items, remote_items, DomainItems,
    Gathered, ItemKind, ItemsModel,
};
use crate::text::{
    after_char, concat2, concat3, contains, ends_with, has_suffix, holds_text, lower, lowered,
    one_of, opt_view, same, split_once, trim, trim_end_by, trim_end_set, trim_start_by,
    trim_start_set, trimmed, views,
};
use crate::web::{ascii_domain, to_ascii_domain};
use vstd::prelude::*;

verus! {

/// Where a query goes.
#[derive(Debug, Clone, Copy, PartialEq, Eq, Structural)]
pub enum DnsPathStrategy {
    Remote,
    Domestic,
    Local,
    Block,
    Hosts,
    FakeIp,
}

/// The way of a query.
#[derive(Debug)]
pub struct DnsDiagPath {
    pub strategy: DnsPathStrategy,
    /// The resolvers, as they are shown.
    pub servers: Vec<String>,
    pub via_proxy: bool,
    /// What decided.
    pub matched_by: String,
    /// It was decided by a copy of the core's own data.
    pub approx: bool,
    pub note: Option<String>,
}

pub struct PathModel {
    pub strategy: DnsPathStrategy,
    pub servers: Seq<Seq<char>>,
    pub via_proxy: bool,
    pub matched_by: Seq<char>,
    pub approx: bool,
    pub note: Option<Seq<char>>,
}

impl View for DnsDiagPath {
    type V = PathModel;

    open spec fn view(&self) -> PathModel {
        PathModel {
            strategy: self.strategy,
            servers: views(self.servers@),
            via_proxy: self.via_proxy,
            matched_by: self.matched_by@,
            approx: self.approx,
            note: opt_view(self.note),
        }
    }
}

/// What is known of the file of a downloaded set.
#[derive(Debug)]
pub enum RemoteContent {
    /// No file that could be read.
    Missing,
    /// The file of a set in the source format.
    Bytes(Vec<u8>),
    /// The rules of a binary set, in the source format.
    Rules(Json),
}

/// What the replay is made from.
#[derive(Debug)]
pub struct DnsDiagInput {
    pub core_type: String,
    /// `generated` or `custom`.
    pub runtime_source: String,
    pub tun_enabled: bool,
    pub outbound_mode: OutboundMode,
    pub rule_sets: Vec<RuleSet>,
    pub dns: DnsSettings,
    /// What is known of the files of the sets, in their order.
    pub contents: Vec<RemoteContent>,
    /// The entries of the system's hosts file.
    pub system_hosts: Vec<(String, String)>,
}

/// A set that takes part in the replay.
#[derive(Debug)]
pub struct SetInfo {
    pub name: String,
    pub items: DomainItems,
    /// Queries for its domains are refused.
    pub block_route: bool,
    pub dns_strategy: RuleSetDnsStrategy,
    pub approx: bool,
}

pub struct SetModel {
    pub name: Seq<char>,
    pub items: ItemsModel,
    pub block_route: bool,
    pub dns_strategy: RuleSetDnsStrategy,
    pub approx: bool,
}

impl View for SetInfo {
    type V = SetModel;

    open spec fn view(&self) -> SetModel {
        SetModel {
            name: self.name@,
            items: self.items@,
            block_route: self.block_route,
            dns_strategy: self.dns_strategy,
            approx: self.approx,
        }
    }
}

pub open spec fn info_models(v: Seq<SetInfo>) -> Seq<SetModel> {
    Seq::new(v.len(), |i: int| v[i]@)
}

// ---------------------------------------------------------------------------
// The sets that take part
// ---------------------------------------------------------------------------
/// The rules of a downloaded set, in the source format.
pub open spec fn remote_source(r: RemoteRuleSetConfig, c: RemoteContent) -> Option<JsonModel> {
    let file = match opt_view(r.local_path) {
        Some(p) => trimmed(p).len() > 0,
        None => false,
    };
    if !file {
        None
    } else {
        match c {
            RemoteContent::Missing => None,
            RemoteContent::Bytes(b) => if r.format@ == "binary"@ {
                None
            } else {
                match json_parsed(b@) {
                    Ok(v) => Some(v),
                    Err(_) => None,
                }
            },
            RemoteContent::Rules(v) => if r.format@ == "binary"@ {
                Some(v@)
            } else {
                None
            },
        }
    }
}

/// The domains of a downloaded set.
pub open spec fn remote_gathered(r: RemoteRuleSetConfig, c: RemoteContent) -> Option<Gathered> {
    match remote_source(r, c) {
        Some(v) => remote_items(v),
        None => None,
    }
}

/// One of the two shipped sets that the other cores have in data of their own.
pub open spec fn is_shipped_geosite(id: Seq<char>) -> bool {
    id == "system-geosite-cn"@ || id == "system-geolocation-not-cn"@
}

/// A set as it takes part in the replay; nothing where it does not. Sing-box reads the very
/// files; the other cores have the two shipped sets in data of their own, and no other
/// downloaded one.
pub open spec fn set_info(core: CoreKind, s: RuleSet, c: RemoteContent) -> Option<SetModel> {
    if !s.enabled {
        None
    } else {
        match s.remote {
            None => {
                let items = items_of_rules(rule_views(s.rules@));
                if items.is_empty() {
                    None
                } else {
                    Some(
                        SetModel {
                            name: s.name@,
                            items,
                            block_route: s.strategy == RuleSetStrategy::Block,
                            dns_strategy: s.dns_strategy,
                            approx: false,
                        },
                    )
                }
            },
            Some(r) => match remote_gathered(r, c) {
                None => None,
                Some(g) => if g.items.is_empty() {
                    None
                } else if core == CoreKind::SingBox {
                    Some(
                        SetModel {
                            name: s.name@,
                            items: g.items,
                            block_route: s.strategy == RuleSetStrategy::Block,
                            dns_strategy: s.dns_strategy,
                            approx: g.approx,
                        },
                    )
                } else if is_shipped_geosite(s.id@) {
                    Some(
                        SetModel {
                            name: s.name@,
                            items: g.items,
                            block_route: false,
                            dns_strategy: s.dns_strategy,
                            approx: true,
                        },
                    )
                } else {
                    None
                },
            },
        }
    }
}

/// The sets that take part, in their order.
pub open spec fn set_infos(core: CoreKind, sets: Seq<RuleSet>, contents: Seq<RemoteContent>) -> Seq<
    SetModel,
>
    decreases sets.len(),
{
    if sets.len() == 0 {
        Seq::empty()
    } else {
        let before = set_infos(core, sets.drop_last(), contents);
        match set_info(core, sets.last(), contents[sets.len() - 1]) {
            Some(m) => before.push(m),
            None => before,
        }
    }
}

/// The names of the sets that were decided by a copy.
pub open spec fn approx_names(sets: Seq<SetModel>) -> Seq<Seq<char>>
    decreases sets.len(),
{
    if sets.len() == 0 {
        Seq::empty()
    } else {
        let before = approx_names(sets.drop_last());
        if sets.last().approx {
            before.push(sets.last().name)
        } else {
            before
        }
    }
}

/// The domains of a downloaded set.
fn gather_remote(remote: &RemoteRuleSetConfig, content: &RemoteContent) -> (r: Option<
    (DomainItems, bool),
>)
    ensures
        match r {
            Some((items, approx)) => remote_gathered(*remote, *content) == Some(
                Gathered { items: items@, approx },
            ),
            None => remote_gathered(*remote, *content) is None,
        },
{
    let file = match &remote.local_path {
        Some(p) => !trim(p.as_str()).is_empty(),
        None => false,
    };
    if !file {
        return None;
    }
    let binary = same(remote.format.as_str(), "binary");
    match content {
        RemoteContent::Missing => None,
        RemoteContent::Bytes(b) => {
            if binary {
                return None;
            }
            match parse_bytes(b.as_slice()) {
                Ok(v) => load_items(&v),
                Err(_) => None,
            }
        },
        RemoteContent::Rules(v) => {
            if binary {
                load_items(v)
            } else {
                None
            }
        },
    }
}

fn info_of(core: CoreKind, s: &RuleSet, content: &RemoteContent) -> (r: Option<SetInfo>)
    ensures
        match r {
            Some(i) => set_info(core, *s, *content) == Some(i@),
            None => set_info(core, *s, *content) is None,
        },
{
    if !s.enabled {
        return None;
    }
    match &s.remote {
        None => {
            let items = local_set_items(s);
            if items.is_empty() {
                return None;
            }
            Some(
                SetInfo {
                    name: s.name.clone(),
                    items,
                    block_route: s.strategy == RuleSetStrategy::Block,
                    dns_strategy: s.dns_strategy,
                    approx: false,
                },
            )
        },
        Some(remote) => {
            let (items, approx) = match gather_remote(remote, content) {
                Some(x) => x,
                None => {
                    return None;
                },
            };
            if items.is_empty() {
                return None;
            }
            if core == CoreKind::SingBox {
                return Some(
                    SetInfo {
                        name: s.name.clone(),
                        items,
                        block_route: s.strategy == RuleSetStrategy::Block,
                        dns_strategy: s.dns_strategy,
                        approx,
                    },
                );
            }
            if same(s.id.as_str(), "system-geosite-cn") || same(
                s.id.as_str(),
                "system-geolocation-not-cn",
            ) {
                return Some(
                    SetInfo {
                        name: s.name.clone(),
                        items,
                        block_route: false,
                        dns_strategy: s.dns_strategy,
                        approx: true,
                    },
                );
            }
            None
        },
    }
}

// ---------------------------------------------------------------------------
// The parts of the replay
// ---------------------------------------------------------------------------
/// Replays which resolver a domain goes to.
#[derive(Debug)]
pub struct DnsPathAnalyzer {
    pub core: CoreKind,
    pub sets: Vec<SetInfo>,
    pub hosts: HostsConfig,
    pub dns_rules: Vec<DnsRule>,
    pub fake_ip: FakeIpConfig,
    /// Made-up addresses are given out.
    pub fakeip_active: bool,
    /// Nothing goes through the proxy.
    pub outbound_direct: bool,
    pub dns_final: String,
    pub approx_sets: Vec<String>,
}

pub struct AnalyzerModel {
    pub core: CoreKind,
    pub sets: Seq<SetModel>,
    pub hosts_enabled: bool,
    pub hosts: Seq<HostsEntryModel>,
    pub dns_rules: Seq<DnsRuleModel>,
    pub fake_range: Seq<char>,
    pub bypass: Seq<Seq<char>>,
    pub fakeip_active: bool,
    pub outbound_direct: bool,
    pub dns_final: Seq<char>,
    pub approx_sets: Seq<Seq<char>>,
}

impl View for DnsPathAnalyzer {
    type V = AnalyzerModel;

    open spec fn view(&self) -> AnalyzerModel {
        AnalyzerModel {
            core: self.core,
            sets: info_models(self.sets@),
            hosts_enabled: self.hosts.enabled,
            hosts: hosts_views(self.hosts.entries@),
            dns_rules: dns_rule_views(self.dns_rules@),
            fake_range: self.fake_ip.inet4_range@,
            bypass: views(self.fake_ip.bypass@),
            fakeip_active: self.fakeip_active,
            outbound_direct: self.outbound_direct,
            dns_final: self.dns_final@,
            approx_sets: views(self.approx_sets@),
        }
    }
}

/// The core gives made-up addresses out: sing-box where it is told to, mihomo with a network
/// interface too, Xray only with one.
pub open spec fn fakes(core: CoreKind, tun: bool, fake_ip: bool) -> bool {
    match core {
        CoreKind::SingBox => fake_ip,
        CoreKind::Mihomo => tun || fake_ip,
        CoreKind::Xray => tun && fake_ip,
    }
}

/// The entries of the hosts that are asked.
pub open spec fn asked_hosts(d: DnsSettings, system: Seq<(String, String)>) -> Seq<HostsEntryModel> {
    if d.rule_sets@.len() == 0 {
        hosts_views(d.hosts.entries@)
    } else {
        flat_hosts(set_views(d.rule_sets@), system_entries(system, "system-"@))
    }
}

pub open spec fn asked_hosts_enabled(d: DnsSettings, system: Seq<(String, String)>) -> bool {
    if d.rule_sets@.len() == 0 {
        d.hosts.enabled
    } else {
        asked_hosts(d, system).len() > 0
    }
}

/// The rules of the DNS page that are asked.
pub open spec fn asked_rules(d: DnsSettings) -> Seq<DnsRuleModel> {
    dns_rule_views(
        if d.rule_sets@.len() == 0 {
            if d.rules_enabled {
                d.rules@
            } else {
                Seq::empty()
            }
        } else {
            flat_rules(d.rule_sets@)
        },
    )
}

/// What the replay is made of.
pub open spec fn analyzer_of(i: DnsDiagInput) -> AnalyzerModel {
    let core = CoreKind::of_word(lowered(trimmed(i.core_type@)));
    let sets = set_infos(core, i.rule_sets@, i.contents@);
    AnalyzerModel {
        core,
        sets,
        hosts_enabled: asked_hosts_enabled(i.dns, i.system_hosts@),
        hosts: asked_hosts(i.dns, i.system_hosts@),
        dns_rules: asked_rules(i.dns),
        fake_range: i.dns.fake_ip.inet4_range@,
        bypass: views(i.dns.fake_ip.bypass@),
        fakeip_active: fakes(core, i.tun_enabled, i.dns.fake_ip.enabled),
        outbound_direct: i.outbound_mode == OutboundMode::Direct,
        dns_final: final_name(i.dns.dns_final@),
        approx_sets: approx_names(sets),
    }
}

// ---------------------------------------------------------------------------
// The ways
// ---------------------------------------------------------------------------
/// The addresses that the hosts have for a domain.
pub open spec fn host_addrs(hosts: Seq<HostsEntryModel>, domain: Seq<char>) -> Seq<Seq<char>>
    decreases hosts.len(),
{
    if hosts.len() == 0 {
        Seq::empty()
    } else {
        let before = host_addrs(hosts.drop_last(), domain);
        let h = hosts.last();
        if h.enabled && lowered(ascii_domain(trimmed(h.domain))) == domain && trimmed(h.addr).len()
            > 0 {
            before.push(trimmed(h.addr))
        } else {
            before
        }
    }
}

pub open spec fn all_with(v: Seq<Seq<char>>, tail: Seq<char>) -> Seq<Seq<char>> {
    Seq::new(v.len(), |i: int| v[i] + tail)
}

/// The way of a domain that the hosts have.
pub open spec fn hosts_way(a: AnalyzerModel, domain: Seq<char>) -> Option<PathModel> {
    let addrs = host_addrs(a.hosts, domain);
    if !a.hosts_enabled || addrs.len() == 0 {
        None
    } else {
        Some(
            PathModel {
                strategy: DnsPathStrategy::Hosts,
                servers: all_with(addrs, "（静态映射）"@),
                via_proxy: false,
                matched_by: "Hosts 静态映射（精确域名）"@,
                approx: false,
                note: None,
            },
        )
    }
}

/// The resolvers of a pool, as the core asks them: sing-box and Xray the first, mihomo all.
pub open spec fn pool_servers(core: CoreKind, direct: bool, pool: RuleSetDnsStrategy) -> Seq<Seq<char>> {
    match (core, pool) {
        (CoreKind::SingBox, RuleSetDnsStrategy::Remote) => seq![
            REMOTE_DNS_POOL@[0]@ + "（DoH · 经代理出口）"@,
        ],
        (CoreKind::SingBox, RuleSetDnsStrategy::Domestic) => seq![
            DOMESTIC_DNS_POOL@[0]@ + "（UDP 明文 · 直连）"@,
        ],
        (CoreKind::SingBox, RuleSetDnsStrategy::Local) => seq!["系统解析（dns-local）"@],
        (CoreKind::Mihomo, RuleSetDnsStrategy::Remote) => {
            let tail = if direct {
                "（DoH · 直连）"@
            } else {
                "（DoH · 经代理）"@
            };
            seq![REMOTE_DNS_POOL@[0]@ + tail, REMOTE_DNS_POOL@[1]@ + tail]
        },
        (CoreKind::Mihomo, RuleSetDnsStrategy::Domestic) => seq![
            DOMESTIC_DNS_POOL@[0]@ + "（UDP 明文 · 直连）"@,
            DOMESTIC_DNS_POOL@[1]@ + "（UDP 明文 · 直连）"@,
        ],
        (CoreKind::Mihomo, RuleSetDnsStrategy::Local) => seq!["system（系统解析）"@],
        (CoreKind::Xray, RuleSetDnsStrategy::Remote) => seq![
            REMOTE_DNS_POOL@[0]@ + "（DoH · 经主出站）"@,
        ],
        (CoreKind::Xray, RuleSetDnsStrategy::Domestic) => seq![
            DOMESTIC_DNS_POOL@[0]@ + "（UDP 明文 · 直连 direct-dns）"@,
        ],
        (CoreKind::Xray, RuleSetDnsStrategy::Local) => seq!["localhost（系统解析）"@],
    }
}

pub open spec fn pool_note(core: CoreKind, pool: RuleSetDnsStrategy) -> Option<Seq<char>> {
    if core == CoreKind::Mihomo && pool != RuleSetDnsStrategy::Local {
        Some("mihomo 并发竞速整池"@)
    } else if core == CoreKind::Xray && pool == RuleSetDnsStrategy::Remote {
        Some("Xray 池内顺序回退（8.8.8.8 备援）"@)
    } else {
        None
    }
}

pub open spec fn pool_strategy(pool: RuleSetDnsStrategy) -> DnsPathStrategy {
    match pool {
        RuleSetDnsStrategy::Remote => DnsPathStrategy::Remote,
        RuleSetDnsStrategy::Domestic => DnsPathStrategy::Domestic,
        RuleSetDnsStrategy::Local => DnsPathStrategy::Local,
    }
}

/// The way to a pool of resolvers.
pub open spec fn pool_way(
    core: CoreKind,
    direct: bool,
    pool: RuleSetDnsStrategy,
    matched_by: Seq<char>,
    approx: bool,
) -> PathModel {
    PathModel {
        strategy: pool_strategy(pool),
        servers: pool_servers(core, direct, pool),
        via_proxy: pool == RuleSetDnsStrategy::Remote && !(core == CoreKind::Mihomo && direct),
        matched_by,
        approx,
        note: pool_note(core, pool),
    }
}

/// The way of a query that is refused.
pub open spec fn block_way(matched_by: Seq<char>) -> PathModel {
    PathModel {
        strategy: DnsPathStrategy::Block,
        servers: Seq::empty(),
        via_proxy: false,
        matched_by,
        approx: false,
        note: None,
    }
}

/// The way of a query that gets a made-up address.
pub open spec fn fake_way(range: Seq<char>, matched_by: Seq<char>, note: Option<Seq<char>>) -> PathModel {
    PathModel {
        strategy: DnsPathStrategy::FakeIp,
        servers: seq!["FakeIP 池（"@ + range + "）"@],
        via_proxy: false,
        matched_by,
        approx: false,
        note,
    }
}

pub open spec fn noted(note: Option<Seq<char>>, more: Seq<char>) -> Option<Seq<char>> {
    match note {
        Some(n) => Some(n + "；"@ + more),
        None => Some(more),
    }
}

pub open spec fn pool_of_final(name: Seq<char>) -> RuleSetDnsStrategy {
    if name == "local"@ {
        RuleSetDnsStrategy::Local
    } else if name == "domestic"@ {
        RuleSetDnsStrategy::Domestic
    } else {
        RuleSetDnsStrategy::Remote
    }
}

/// The way of a domain that nothing names.
pub open spec fn final_way(a: AnalyzerModel, extra: Option<Seq<char>>) -> PathModel {
    let p = pool_way(
        a.core,
        a.outbound_direct,
        pool_of_final(a.dns_final),
        "默认解析（dns_final = "@ + a.dns_final + "）"@,
        false,
    );
    let first = if a.core == CoreKind::Xray && a.fakeip_active {
        noted(p.note, "TUN + FakeIP 启用：A 查询可能由 fakedns 池直接应答"@)
    } else {
        p.note
    };
    PathModel {
        note: match extra {
            Some(e) => noted(first, e),
            None => first,
        },
        ..p
    }
}

/// The suffix that keeps its real addresses.
pub open spec fn bypass_name(s: Seq<char>) -> Seq<char> {
    lowered(trim_start_by(trim_start_by(trimmed(s), one_of(seq!['*'])), one_of(seq!['.'])))
}

pub open spec fn holds_bypass(bypass: Seq<Seq<char>>, name: Seq<char>) -> bool {
    name.len() > 0 && exists|i: int|
        0 <= i < bypass.len() && bypass_name(#[trigger] bypass[i]) == name
}

/// The suffix of a domain that keeps its real addresses.
pub open spec fn bypassed(bypass: Seq<Seq<char>>, domain: Seq<char>) -> Option<Seq<char>>
    decreases domain.len(),
    via bypassed_decreases
{
    if holds_bypass(bypass, lowered(domain)) {
        Some(lowered(domain))
    } else if domain.contains('.') {
        bypassed(bypass, after_char(domain, '.'))
    } else {
        None
    }
}

#[via_fn]
proof fn bypassed_decreases(bypass: Seq<Seq<char>>, domain: Seq<char>) {
    if domain.contains('.') {
        crate::text::lemma_char_pos(domain, '.');
    }
}

/// What a rule of the DNS page names: without a star and dots in front.
pub open spec fn rule_name(r: DnsRuleModel) -> Seq<char> {
    match r.matcher {
        DomainMatcher::DomainSuffix => trim_start_by(
            trim_start_by(trimmed(r.payload), one_of(seq!['*'])),
            one_of(seq!['.']),
        ),
        _ => trim_start_by(trimmed(r.payload), one_of(seq!['.'])),
    }
}

/// How a rule of the DNS page names a domain.
pub open spec fn rule_hit(r: DnsRuleModel, domain: Seq<char>) -> Option<(ItemKind, Seq<char>)> {
    let name = rule_name(r);
    let plain = lowered(ascii_domain(name));
    if trimmed(r.payload).len() == 0 || name.len() == 0 {
        None
    } else {
        match r.matcher {
            DomainMatcher::Domain => if plain == domain {
                Some((ItemKind::Exact, "精确 "@ + plain))
            } else {
                None
            },
            DomainMatcher::DomainSuffix => if plain == domain || has_suffix(
                domain,
                "."@ + plain,
            ) {
                Some((ItemKind::Suffix, "后缀 "@ + plain))
            } else {
                None
            },
            DomainMatcher::DomainKeyword => if holds_text(domain, name) {
                Some((ItemKind::Keyword, "关键词 "@ + name))
            } else {
                None
            },
        }
    }
}

/// What is said where mihomo cannot ask a resolver by a keyword.
pub open spec fn keyword_note(matched_by: Seq<char>) -> Seq<char> {
    "关键词规则在 mihomo 下无 DNS 策略形式（"@ + matched_by + "），回落默认解析"@
}

/// Where a walk over sets or rules came to: a way, or their end, with what is said of the
/// keywords that were passed.
pub enum Walk {
    Found(PathModel),
    Through(Option<Seq<char>>),
}

/// The walk over the sets from the one at `i` on.
pub open spec fn walk_sets(
    a: AnalyzerModel,
    domain: Seq<char>,
    i: int,
    passed: Option<Seq<char>>,
) -> Walk
    decreases a.sets.len() - i,
{
    if i < 0 || i >= a.sets.len() {
        Walk::Through(passed)
    } else {
        let s = a.sets[i];
        match item_hit(s.items, domain) {
            None => walk_sets(a, domain, i + 1, passed),
            Some((kind, hit)) => {
                let by = "规则集「"@ + s.name + "」（"@ + hit + "）"@;
                if a.core == CoreKind::SingBox && s.block_route {
                    Walk::Found(block_way(by))
                } else if a.core == CoreKind::Mihomo && kind == ItemKind::Keyword {
                    walk_sets(a, domain, i + 1, Some(keyword_note(by)))
                } else {
                    Walk::Found(
                        pool_way(a.core, a.outbound_direct, s.dns_strategy, by, s.approx),
                    )
                }
            },
        }
    }
}

/// The pool that a rule sends a query to.
pub open spec fn action_pool(a: DnsAction) -> RuleSetDnsStrategy {
    match a {
        DnsAction::Local => RuleSetDnsStrategy::Local,
        DnsAction::Domestic => RuleSetDnsStrategy::Domestic,
        _ => RuleSetDnsStrategy::Remote,
    }
}

/// The walk over the rules of the DNS page from the one at `i` on.
pub open spec fn walk_rules(
    a: AnalyzerModel,
    domain: Seq<char>,
    i: int,
    passed: Option<Seq<char>>,
) -> Walk
    decreases a.dns_rules.len() - i,
{
    if i < 0 || i >= a.dns_rules.len() {
        Walk::Through(passed)
    } else {
        let r = a.dns_rules[i];
        match rule_hit(r, domain) {
            Some((kind, hit)) if r.enabled => {
                let by = "DNS 规则（"@ + hit + "）"@;
                if r.action == DnsAction::Block {
                    if a.core == CoreKind::SingBox {
                        Walk::Found(block_way(by))
                    } else {
                        walk_rules(a, domain, i + 1, passed)
                    }
                } else if a.core == CoreKind::Mihomo && kind == ItemKind::Keyword {
                    walk_rules(a, domain, i + 1, Some(keyword_note(by)))
                } else {
                    Walk::Found(
                        pool_way(a.core, a.outbound_direct, action_pool(r.action), by, false),
                    )
                }
            },
            _ => walk_rules(a, domain, i + 1, passed),
        }
    }
}

/// The way of a domain that neither sets, hosts nor rules name.
pub open spec fn last_way(a: AnalyzerModel, domain: Seq<char>, passed: Option<Seq<char>>) -> PathModel {
    let by_pass = bypassed(a.bypass, domain);
    if a.fakeip_active && a.core == CoreKind::SingBox {
        match by_pass {
            Some(s) => pool_way(
                a.core,
                a.outbound_direct,
                RuleSetDnsStrategy::Local,
                "FakeIP 旁路后缀（"@ + s + "）"@,
                false,
            ),
            None => fake_way(a.fake_range, "A/AAAA 查询（FakeIP 启用）"@, None),
        }
    } else if a.fakeip_active && a.core == CoreKind::Mihomo && by_pass is None {
        fake_way(
            a.fake_range,
            "A 查询（fake-ip 模式）"@,
            Some("fake-ip-filter 内的后缀走真实解析"@),
        )
    } else {
        final_way(a, passed)
    }
}

/// The way of a domain behind the sets.
pub open spec fn way_behind_sets(a: AnalyzerModel, domain: Seq<char>, passed: Option<Seq<char>>) -> PathModel {
    let hosts = if a.core == CoreKind::SingBox {
        hosts_way(a, domain)
    } else {
        None
    };
    match hosts {
        Some(p) => p,
        None => match walk_rules(a, domain, 0, passed) {
            Walk::Found(p) => p,
            Walk::Through(q) => last_way(a, domain, q),
        },
    }
}

/// The way of a domain: hosts first but under sing-box, the sets in their order, hosts under
/// sing-box, the rules of the DNS page in their order, made-up addresses, and what is left.
pub open spec fn way_of(a: AnalyzerModel, domain: Seq<char>) -> PathModel {
    let hosts = if a.core == CoreKind::SingBox {
        None
    } else {
        hosts_way(a, domain)
    };
    match hosts {
        Some(p) => p,
        None => match walk_sets(a, domain, 0, None) {
            Walk::Found(p) => p,
            Walk::Through(q) => way_behind_sets(a, domain, q),
        },
    }
}

/// A domain as it is asked for: without dots behind, in its ASCII form, in small letters.
pub open spec fn wire_domain(raw: Seq<char>) -> Seq<char> {
    lowered(ascii_domain(trim_end_by(trimmed(raw), one_of(seq!['.']))))
}

// ---------------------------------------------------------------------------
// The replay
// ---------------------------------------------------------------------------
fn trim_star_dot(s: &str) -> (r: &str)
    ensures
        r@ == trim_start_by(trim_start_by(trimmed(s@), one_of(seq!['*'])), one_of(seq!['.'])),
{
    let star = ['*'];
    let dot = ['.'];
    proof {
        assert(star@ =~= seq!['*']);
        assert(dot@ =~= seq!['.']);
    }
    trim_start_set(trim_start_set(trim(s), &star), &dot)
}

/// How a rule of the DNS page names a domain.
pub fn dns_rule_hit(rule: &DnsRule, domain: &str) -> (r: Option<(ItemKind, String)>)
    ensures
        hit_view(r) == rule_hit(rule@, domain@),
{
    if trim(rule.payload.as_str()).is_empty() {
        return None;
    }
    let dot = ['.'];
    proof {
        assert(dot@ =~= seq!['.']);
    }
    let name: &str = match rule.matcher {
        DomainMatcher::DomainSuffix => trim_star_dot(rule.payload.as_str()),
        _ => trim_start_set(trim(rule.payload.as_str()), &dot),
    };
    if name.is_empty() {
        return None;
    }
    let ascii = to_ascii_domain(name);
    let plain = lower(ascii.as_str());
    match rule.matcher {
        DomainMatcher::Domain => {
            if same(plain.as_str(), domain) {
                Some((ItemKind::Exact, concat2("精确 ", plain.as_str())))
            } else {
                None
            }
        },
        DomainMatcher::DomainSuffix => {
            let dotted = concat2(".", plain.as_str());
            if same(plain.as_str(), domain) || ends_with(domain, dotted.as_str()) {
                Some((ItemKind::Suffix, concat2("后缀 ", plain.as_str())))
            } else {
                None
            }
        },
        DomainMatcher::DomainKeyword => {
            if contains(domain, name) {
                Some((ItemKind::Keyword, concat2("关键词 ", name)))
            } else {
                None
            }
        },
    }
}

fn one_server(s: String) -> (r: Vec<String>)
    ensures
        views(r@) == seq![s@],
{
    let ghost v = s@;
    let mut out: Vec<String> = Vec::new();
    out.push(s);
    proof {
        assert(views(out@) =~= seq![v]);
    }
    out
}

fn two_servers(a: String, b: String) -> (r: Vec<String>)
    ensures
        views(r@) == seq![a@, b@],
{
    let ghost va = a@;
    let ghost vb = b@;
    let mut out: Vec<String> = Vec::new();
    out.push(a);
    out.push(b);
    proof {
        assert(views(out@) =~= seq![va, vb]);
    }
    out
}

/// The resolvers of a pool, as the core asks them.
fn servers_of(core: CoreKind, direct: bool, pool: RuleSetDnsStrategy) -> (r: Vec<String>)
    ensures
        views(r@) == pool_servers(core, direct, pool),
{
    match (core, pool) {
        (CoreKind::SingBox, RuleSetDnsStrategy::Remote) => one_server(
            concat2(REMOTE_DNS_POOL[0], "（DoH · 经代理出口）"),
        ),
        (CoreKind::SingBox, RuleSetDnsStrategy::Domestic) => one_server(
            concat2(DOMESTIC_DNS_POOL[0], "（UDP 明文 · 直连）"),
        ),
        (CoreKind::SingBox, RuleSetDnsStrategy::Local) => one_server(
            "系统解析（dns-local）".to_owned(),
        ),
        (CoreKind::Mihomo, RuleSetDnsStrategy::Remote) => {
            let tail = if direct {
                "（DoH · 直连）"
            } else {
                "（DoH · 经代理）"
            };
            two_servers(
                concat2(REMOTE_DNS_POOL[0], tail),
                concat2(REMOTE_DNS_POOL[1], tail),
            )
        },
        (CoreKind::Mihomo, RuleSetDnsStrategy::Domestic) => two_servers(
            concat2(DOMESTIC_DNS_POOL[0], "（UDP 明文 · 直连）"),
            concat2(DOMESTIC_DNS_POOL[1], "（UDP 明文 · 直连）"),
        ),
        (CoreKind::Mihomo, RuleSetDnsStrategy::Local) => one_server(
            "system（系统解析）".to_owned(),
        ),
        (CoreKind::Xray, RuleSetDnsStrategy::Remote) => one_server(
            concat2(REMOTE_DNS_POOL[0], "（DoH · 经主出站）"),
        ),
        (CoreKind::Xray, RuleSetDnsStrategy::Domestic) => one_server(
            concat2(DOMESTIC_DNS_POOL[0], "（UDP 明文 · 直连 direct-dns）"),
        ),
        (CoreKind::Xray, RuleSetDnsStrategy::Local) => one_server(
            "localhost（系统解析）".to_owned(),
        ),
    }
}

fn note_of_pool(core: CoreKind, pool: RuleSetDnsStrategy) -> (r: Option<String>)
    ensures
        opt_view(r) == pool_note(core, pool),
{
    if core == CoreKind::Mihomo && pool != RuleSetDnsStrategy::Local {
        Some("mihomo 并发竞速整池".to_owned())
    } else if core == CoreKind::Xray && pool == RuleSetDnsStrategy::Remote {
        Some("Xray 池内顺序回退（8.8.8.8 备援）".to_owned())
    } else {
        None
    }
}

fn add_note(note: Option<String>, more: &str) -> (r: Option<String>)
    ensures
        opt_view(r) == noted(opt_view(note), more@),
{
    match note {
        Some(n) => Some(concat3(n.as_str(), "；", more)),
        None => Some(more.to_owned()),
    }
}

fn keyword_note_of(matched_by: &str) -> (r: String)
    ensures
        r@ == keyword_note(matched_by@),
{
    concat3("关键词规则在 mihomo 下无 DNS 策略形式（", matched_by, "），回落默认解析")
}

/// What a walk came to.
pub enum WalkEnd {
    Found(DnsDiagPath),
    Through(Option<String>),
}

pub open spec fn walk_view(w: WalkEnd) -> Walk {
    match w {
        WalkEnd::Found(p) => Walk::Found(p@),
        WalkEnd::Through(n) => Walk::Through(opt_view(n)),
    }
}

impl DnsPathAnalyzer {
    /// Prepares the replay.
    pub fn build(input: &DnsDiagInput) -> (r: Self)
        requires
            input.contents@.len() == input.rule_sets@.len(),
        ensures
            r@ == analyzer_of(*input),
    {
        let core = CoreKind::parse(input.core_type.as_str());
        let ghost all = input.rule_sets@;
        let mut sets: Vec<SetInfo> = Vec::new();
        let mut approx_sets: Vec<String> = Vec::new();
        proof {
            assert(all.take(0) =~= Seq::empty());
            assert(info_models(sets@) =~= Seq::empty());
            assert(views(approx_sets@) =~= Seq::empty());
        }
        for i in 0..input.rule_sets.len()
            invariant
                all == input.rule_sets@,
                input.contents@.len() == all.len(),
                info_models(sets@) == set_infos(core, all.take(i as int), input.contents@),
                views(approx_sets@) == approx_names(info_models(sets@)),
        {
            let ghost before = sets@;
            let ghost names = approx_sets@;
            proof {
                assert(all.take(i + 1).drop_last() =~= all.take(i as int));
                assert(all.take(i + 1).last() == all[i as int]);
            }
            if let Some(info) = info_of(core, &input.rule_sets[i], &input.contents[i]) {
                let ghost m = info@;
                if info.approx {
                    approx_sets.push(info.name.clone());
                    proof {
                        assert(views(approx_sets@) =~= views(names).push(m.name));
                    }
                }
                sets.push(info);
                proof {
                    assert(info_models(sets@) =~= info_models(before).push(m));
                    assert(info_models(sets@).drop_last() =~= info_models(before));
                }
            }
        }
        proof {
            assert(all.take(all.len() as int) =~= all);
        }
        let hosts = input.dns.effective_hosts(&input.system_hosts);
        let dns_rules = input.dns.enabled_dns_rules();
        let fake_ip = input.dns.fake_ip.clone();
        let fakeip_active = match core {
            CoreKind::SingBox => input.dns.fake_ip.enabled,
            CoreKind::Mihomo => input.tun_enabled || input.dns.fake_ip.enabled,
            CoreKind::Xray => input.tun_enabled && input.dns.fake_ip.enabled,
        };
        proof {
            assert(hosts_views(hosts.entries@).len() == hosts.entries@.len());
        }
        DnsPathAnalyzer {
            core,
            sets,
            hosts,
            dns_rules,
            fake_ip,
            fakeip_active,
            outbound_direct: input.outbound_mode == OutboundMode::Direct,
            dns_final: input.dns.normalize_dns_final().to_owned(),
            approx_sets,
        }
    }

    /// The names of the sets that are decided by a copy.
    pub fn approx_set_names(&self) -> (r: &Vec<String>)
        ensures
            views(r@) == self@.approx_sets,
    {
        &self.approx_sets
    }

    /// The way of a domain that the hosts have.
    pub fn hosts_path(&self, domain: &str) -> (r: Option<DnsDiagPath>)
        ensures
            match r {
                Some(p) => hosts_way(self@, domain@) == Some(p@),
                None => hosts_way(self@, domain@) is None,
            },
    {
        if !self.hosts.enabled {
            return None;
        }
        let ghost all = hosts_views(self.hosts.entries@);
        let mut servers: Vec<String> = Vec::new();
        proof {
            assert(all.take(0) =~= Seq::empty());
            assert(views(servers@) =~= all_with(Seq::empty(), "（静态映射）"@));
        }
        for i in 0..self.hosts.entries.len()
            invariant
                all == hosts_views(self.hosts.entries@),
                views(servers@) == all_with(
                    host_addrs(all.take(i as int), domain@),
                    "（静态映射）"@,
                ),
        {
            let h = &self.hosts.entries[i];
            let ghost before = servers@;
            let ghost addrs = host_addrs(all.take(i as int), domain@);
            proof {
                assert(all.take(i + 1).drop_last() =~= all.take(i as int));
                assert(all.take(i + 1).last() == h@);
            }
            let ascii = to_ascii_domain(trim(h.domain.as_str()));
            let name = lower(ascii.as_str());
            let addr = trim(h.addr.as_str());
            if h.enabled && same(name.as_str(), domain) && !addr.is_empty() {
                let line = concat2(addr, "（静态映射）");
                let ghost v = line@;
                servers.push(line);
                proof {
                    assert(views(servers@) =~= views(before).push(v));
                    assert(all_with(addrs.push(addr@), "（静态映射）"@) =~= all_with(
                        addrs,
                        "（静态映射）"@,
                    ).push(v));
                }
            }
        }
        proof {
            assert(all.take(all.len() as int) =~= all);
            assert(views(servers@).len() == servers@.len());
        }
        if servers.len() == 0 {
            return None;
        }
        Some(
            DnsDiagPath {
                strategy: DnsPathStrategy::Hosts,
                servers,
                via_proxy: false,
                matched_by: "Hosts 静态映射（精确域名）".to_owned(),
                approx: false,
                note: None,
            },
        )
    }

    /// The way to a pool of resolvers.
    pub fn pool_path(&self, pool: RuleSetDnsStrategy, matched_by: String, approx: bool) -> (r:
        DnsDiagPath)
        ensures
            r@ == pool_way(self@.core, self@.outbound_direct, pool, matched_by@, approx),
    {
        let strategy = match pool {
            RuleSetDnsStrategy::Remote => DnsPathStrategy::Remote,
            RuleSetDnsStrategy::Domestic => DnsPathStrategy::Domestic,
            RuleSetDnsStrategy::Local => DnsPathStrategy::Local,
        };
        DnsDiagPath {
            strategy,
            servers: servers_of(self.core, self.outbound_direct, pool),
            via_proxy: pool == RuleSetDnsStrategy::Remote && !(self.core == CoreKind::Mihomo
                && self.outbound_direct),
            matched_by,
            approx,
            note: note_of_pool(self.core, pool),
        }
    }

    fn block_path(&self, matched_by: String) -> (r: DnsDiagPath)
        ensures
            r@ == block_way(matched_by@),
    {
        let p = DnsDiagPath {
            strategy: DnsPathStrategy::Block,
            servers: Vec::new(),
            via_proxy: false,
            matched_by,
            approx: false,
            note: None,
        };
        proof {
            assert(p@.servers =~= Seq::empty());
        }
        p
    }

    fn fakeip_path(&self, matched_by: &str, note: Option<String>) -> (r: DnsDiagPath)
        ensures
            r@ == fake_way(self@.fake_range, matched_by@, opt_view(note)),
    {
        DnsDiagPath {
            strategy: DnsPathStrategy::FakeIp,
            servers: one_server(
                concat3("FakeIP 池（", self.fake_ip.inet4_range.as_str(), "）"),
            ),
            via_proxy: false,
            matched_by: matched_by.to_owned(),
            approx: false,
            note,
        }
    }

    /// The way of a domain that nothing names.
    pub fn final_path(&self, extra_note: Option<String>) -> (r: DnsDiagPath)
        ensures
            r@ == final_way(self@, opt_view(extra_note)),
    {
        let pool = if same(self.dns_final.as_str(), "local") {
            RuleSetDnsStrategy::Local
        } else if same(self.dns_final.as_str(), "domestic") {
            RuleSetDnsStrategy::Domestic
        } else {
            RuleSetDnsStrategy::Remote
        };
        let by = concat3("默认解析（dns_final = ", self.dns_final.as_str(), "）");
        let p = self.pool_path(pool, by, false);
        let first = if self.core == CoreKind::Xray && self.fakeip_active {
            add_note(p.note, "TUN + FakeIP 启用：A 查询可能由 fakedns 池直接应答")
        } else {
            p.note
        };
        let note = match extra_note {
            Some(e) => add_note(first, e.as_str()),
            None => first,
        };
        DnsDiagPath {
            strategy: p.strategy,
            servers: p.servers,
            via_proxy: p.via_proxy,
            matched_by: p.matched_by,
            approx: p.approx,
            note,
        }
    }

    fn names_bypass(&self, name: &str) -> (r: bool)
        ensures
            r == holds_bypass(self@.bypass, name@),
    {
        if name.is_empty() {
            return false;
        }
        for i in 0..self.fake_ip.bypass.len()
            invariant
                name@.len() > 0,
                forall|j: int|
                    0 <= j < i ==> bypass_name(#[trigger] self@.bypass[j]) != name@,
        {
            let n = lower(trim_star_dot(self.fake_ip.bypass[i].as_str()));
            if same(n.as_str(), name) {
                proof {
                    assert(bypass_name(self@.bypass[i as int]) == name@);
                }
                return true;
            }
        }
        false
    }

    /// The suffix of a domain that keeps its real addresses.
    pub fn bypass_hit(&self, domain: &str) -> (r: Option<String>)
        ensures
            opt_view(r) == bypassed(self@.bypass, domain@),
    {
        let mut rest: &str = domain;
        loop
            invariant
                bypassed(self@.bypass, domain@) == bypassed(self@.bypass, rest@),
            decreases rest@.len(),
        {
            let low = lower(rest);
            if self.names_bypass(low.as_str()) {
                return Some(low);
            }
            match split_once(rest, '.') {
                Some((_, parent)) => {
                    proof {
                        crate::text::lemma_char_pos(rest@, '.');
                    }
                    rest = parent;
                },
                None => {
                    return None;
                },
            }
        }
    }

    /// The walk over the sets.
    fn through_sets(&self, domain: &str) -> (r: WalkEnd)
        ensures
            walk_view(r) == walk_sets(self@, domain@, 0, None),
    {
        let ghost a = self@;
        let mut passed: Option<String> = None;
        let mut i: usize = 0;
        while i < self.sets.len()
            invariant
                i <= self.sets@.len(),
                a == self@,
                walk_sets(a, domain@, 0, None) == walk_sets(
                    a,
                    domain@,
                    i as int,
                    opt_view(passed),
                ),
            decreases self.sets@.len() - i,
        {
            let s = &self.sets[i];
            proof {
                assert(a.sets[i as int] == s@);
            }
            if let Some((kind, hit)) = s.items.match_domain(domain) {
                let mut by = concat3("规则集「", s.name.as_str(), "」（");
                by.append(hit.as_str());
                by.append("）");
                if self.core == CoreKind::SingBox && s.block_route {
                    return WalkEnd::Found(self.block_path(by));
                }
                if self.core == CoreKind::Mihomo && kind == ItemKind::Keyword {
                    passed = Some(keyword_note_of(by.as_str()));
                } else {
                    return WalkEnd::Found(self.pool_path(s.dns_strategy, by, s.approx));
                }
            }
            i += 1;
        }
        WalkEnd::Through(passed)
    }

    /// The walk over the rules of the DNS page.
    fn through_rules(&self, domain: &str, start: Option<String>) -> (r: WalkEnd)
        ensures
            walk_view(r) == walk_rules(self@, domain@, 0, opt_view(start)),
    {
        let ghost a = self@;
        let ghost first = opt_view(start);
        let mut passed: Option<String> = start;
        let mut i: usize = 0;
        while i < self.dns_rules.len()
            invariant
                i <= self.dns_rules@.len(),
                a == self@,
                first == opt_view(start),
                walk_rules(a, domain@, 0, first) == walk_rules(
                    a,
                    domain@,
                    i as int,
                    opt_view(passed),
                ),
            decreases self.dns_rules@.len() - i,
        {
            let rule = &self.dns_rules[i];
            proof {
                assert(a.dns_rules[i as int] == rule@);
            }
            if rule.enabled {
                if let Some((kind, hit)) = dns_rule_hit(rule, domain) {
                    let by = concat3("DNS 规则（", hit.as_str(), "）");
                    if rule.action == DnsAction::Block {
                        if self.core == CoreKind::SingBox {
                            return WalkEnd::Found(self.block_path(by));
                        }
                    } else if self.core == CoreKind::Mihomo && kind == ItemKind::Keyword {
                        passed = Some(keyword_note_of(by.as_str()));
                    } else {
                        let pool = match rule.action {
                            DnsAction::Local => RuleSetDnsStrategy::Local,
                            DnsAction::Domestic => RuleSetDnsStrategy::Domestic,
                            _ => RuleSetDnsStrategy::Remote,
                        };
                        return WalkEnd::Found(self.pool_path(pool, by, false));
                    }
                }
            }
            i += 1;
        }
        WalkEnd::Through(passed)
    }

    /// The way of a domain that neither sets, hosts nor rules name.
    fn last_path(&self, domain: &str, passed: Option<String>) -> (r: DnsDiagPath)
        ensures
            r@ == last_way(self@, domain@, opt_view(passed)),
    {
        if self.fakeip_active && self.core == CoreKind::SingBox {
            return match self.bypass_hit(domain) {
                Some(s) => self.pool_path(
                    RuleSetDnsStrategy::Local,
                    concat3("FakeIP 旁路后缀（", s.as_str(), "）"),
                    false,
                ),
                None => self.fakeip_path("A/AAAA 查询（FakeIP 启用）", None),
            };
        }
        if self.fakeip_active && self.core == CoreKind::Mihomo && self.bypass_hit(
            domain,
        ).is_none() {
            return self.fakeip_path(
                "A 查询（fake-ip 模式）",
                Some("fake-ip-filter 内的后缀走真实解析".to_owned()),
            );
        }
        self.final_path(passed)
    }

    /// The way of a domain in the form in which it is asked for.
    pub fn decide_wire(&self, domain: &str) -> (r: DnsDiagPath)
        ensures
            r@ == way_of(self@, domain@),
    {
        if self.core != CoreKind::SingBox {
            if let Some(p) = self.hosts_path(domain) {
                return p;
            }
        }
        let passed = match self.through_sets(domain) {
            WalkEnd::Found(p) => {
                return p;
            },
            WalkEnd::Through(n) => n,
        };
        if self.core == CoreKind::SingBox {
            if let Some(p) = self.hosts_path(domain) {
                return p;
            }
        }
        match self.through_rules(domain, passed) {
            WalkEnd::Found(p) => p,
            WalkEnd::Through(n) => self.last_path(domain, n),
        }
    }

    /// The way of a domain.
    pub fn decide(&self, raw_domain: &str) -> (r: DnsDiagPath)
        ensures
            r@ == way_of(self@, wire_domain(raw_domain@)),
    {
        let dot = ['.'];
        proof {
            assert(dot@ =~= seq!['.']);
        }
        let ascii = to_ascii_domain(trim_end_set(trim(raw_domain), &dot));
        let domain = lower(ascii.as_str());
        self.decide_wire(domain.as_str())
    }
}

// ---------------------------------------------------------------------------
// Laws
// ---------------------------------------------------------------------------
/// Only sing-box refuses queries; the other cores refuse the traffic itself.
pub proof fn law_only_sing_box_refuses_queries(a: AnalyzerModel, domain: Seq<char>)
    requires
        a.core != CoreKind::SingBox,
    ensures
        way_of(a, domain).strategy != DnsPathStrategy::Block,
{
    lemma_sets_do_not_refuse(a, domain, 0, None);
    match walk_sets(a, domain, 0, None) {
        Walk::Found(_) => {},
        Walk::Through(q) => {
            lemma_rules_do_not_refuse(a, domain, 0, q);
        },
    }
}

proof fn lemma_sets_do_not_refuse(a: AnalyzerModel, domain: Seq<char>, i: int, passed: Option<Seq<char>>)
    requires
        a.core != CoreKind::SingBox,
        0 <= i,
    ensures
        match walk_sets(a, domain, i, passed) {
            Walk::Found(p) => p.strategy != DnsPathStrategy::Block,
            Walk::Through(_) => true,
        },
    decreases a.sets.len() - i,
{
    if i < a.sets.len() {
        lemma_sets_do_not_refuse(a, domain, i + 1, passed);
        if let Some((kind, hit)) = item_hit(a.sets[i].items, domain) {
            let by = "规则集「"@ + a.sets[i].name + "」（"@ + hit + "）"@;
            lemma_sets_do_not_refuse(a, domain, i + 1, Some(keyword_note(by)));
        }
    }
}

proof fn lemma_rules_do_not_refuse(a: AnalyzerModel, domain: Seq<char>, i: int, passed: Option<Seq<char>>)
    requires
        a.core != CoreKind::SingBox,
        0 <= i,
    ensures
        match walk_rules(a, domain, i, passed) {
            Walk::Found(p) => p.strategy != DnsPathStrategy::Block,
            Walk::Through(_) => true,
        },
    decreases a.dns_rules.len() - i,
{
    if i < a.dns_rules.len() {
        lemma_rules_do_not_refuse(a, domain, i + 1, passed);
        if let Some((kind, hit)) = rule_hit(a.dns_rules[i], domain) {
            let by = "DNS 规则（"@ + hit + "）"@;
            lemma_rules_do_not_refuse(a, domain, i + 1, Some(keyword_note(by)));
        }
    }
}

/// Hosts come first, but behind the sets under sing-box.
pub proof fn law_hosts_come_first(a: AnalyzerModel, domain: Seq<char>)
    requires
        hosts_way(a, domain) is Some,
    ensures
        a.core != CoreKind::SingBox ==> way_of(a, domain) == hosts_way(a, domain)->0,
        a.core == CoreKind::SingBox && walk_sets(a, domain, 0, None) is Through ==> way_of(
            a,
            domain,
        ) == hosts_way(a, domain)->0,
{
}

/// A domain that nothing names, with no made-up addresses, goes to the resolver of last
/// resort.
pub proof fn law_unnamed_domain_goes_to_final(a: AnalyzerModel, domain: Seq<char>)
    requires
        hosts_way(a, domain) is None,
        walk_sets(a, domain, 0, None) == Walk::Through(None),
        walk_rules(a, domain, 0, None) == Walk::Through(None),
        !a.fakeip_active,
    ensures
        way_of(a, domain).strategy == pool_strategy(pool_of_final(a.dns_final)),
{
}

} // verus!
