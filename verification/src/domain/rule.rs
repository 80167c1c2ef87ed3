//! Routing rules and the sets that they are kept in.

use crate::digest::{
    hex, hex_digit, lemma_hex_ascii, short_hash, short_hash_of, stamped_hash, stamped_hash_of, Stamp,
};
use crate::domain::dns::DnsRule;
use crate::domain::node::{id_cut_ok, id_prefix, tag_len, tag_prefix};
use crate::json::{json_views, Json, JsonModel};
use crate::order::{index_seq, is_stable_order, key_views, stable_order, KeyModel, SortKey};
use crate::text::{
    clone_opt, clone_strings, concat2, concat3, contains, has_prefix, holds_text, join,
    lemma_ascii_cut, lemma_trimmed_twice, joined, lower, lowered,
    opt_view, same, trim, trimmed, unicode_lower, unicode_lowered, views, min_int,
};
use vstd::prelude::*;
use vstd::utf8::is_ascii_chars;

verus! {

#[derive(Debug, Clone, Copy, PartialEq, Eq, Structural)]
pub enum RuleType {
    Domain,
    DomainSuffix,
    DomainKeyword,
    IpCidr,
    Process,
    /// No longer offered by the cores; older stores may hold it.
    Geoip,
}

impl RuleType {
    pub open spec fn name(self) -> Seq<char> {
        match self {
            RuleType::Domain => "domain"@,
            RuleType::DomainSuffix => "domain_suffix"@,
            RuleType::DomainKeyword => "domain_keyword"@,
            RuleType::IpCidr => "ip_cidr"@,
            RuleType::Process => "process"@,
            RuleType::Geoip => "geoip"@,
        }
    }

    pub fn as_str(self) -> (r: &'static str)
        ensures
            r@ == self.name(),
    {
        match self {
            RuleType::Domain => "domain",
            RuleType::DomainSuffix => "domain_suffix",
            RuleType::DomainKeyword => "domain_keyword",
            RuleType::IpCidr => "ip_cidr",
            RuleType::Process => "process",
            RuleType::Geoip => "geoip",
        }
    }

    pub open spec fn clash_name(self) -> Seq<char> {
        match self {
            RuleType::Domain => "DOMAIN"@,
            RuleType::DomainSuffix => "DOMAIN-SUFFIX"@,
            RuleType::DomainKeyword => "DOMAIN-KEYWORD"@,
            RuleType::IpCidr => "IP-CIDR"@,
            RuleType::Process => "PROCESS-NAME"@,
            RuleType::Geoip => "GEOIP"@,
        }
    }
}

#[derive(Debug, Clone, Copy, PartialEq, Eq, Structural)]
pub enum RuleTarget {
    Direct,
    Proxy,
    Block,
    /// One node, which the rule names.
    Node,
    /// A pool of nodes, filtered by the keywords of the rule.
    Smart,
    /// A chain of hops, which the rule names.
    Chain,
}

impl RuleTarget {
    pub open spec fn tag(self) -> Seq<char> {
        match self {
            RuleTarget::Direct => "direct"@,
            RuleTarget::Block => "block"@,
            _ => "proxy"@,
        }
    }

    /// The outbound's tag, before a node, a pool or a chain is looked up.
    pub fn outbound_tag(self) -> (r: &'static str)
        ensures
            r@ == self.tag(),
    {
        match self {
            RuleTarget::Direct => "direct",
            RuleTarget::Proxy | RuleTarget::Node | RuleTarget::Smart | RuleTarget::Chain => "proxy",
            RuleTarget::Block => "block",
        }
    }

    pub open spec fn clash_name(self) -> Seq<char> {
        match self {
            RuleTarget::Direct => "DIRECT"@,
            RuleTarget::Block => "REJECT"@,
            _ => "PROXY"@,
        }
    }

    /// The third column of a Clash rule.
    pub fn clash_token(self) -> (r: &'static str)
        ensures
            r@ == self.clash_name(),
    {
        match self {
            RuleTarget::Direct => "DIRECT",
            RuleTarget::Proxy | RuleTarget::Node | RuleTarget::Smart | RuleTarget::Chain => "PROXY",
            RuleTarget::Block => "REJECT",
        }
    }

    pub open spec fn name(self) -> Seq<char> {
        match self {
            RuleTarget::Direct => "Direct"@,
            RuleTarget::Proxy => "Proxy"@,
            RuleTarget::Block => "Block"@,
            RuleTarget::Node => "Node"@,
            RuleTarget::Smart => "Smart"@,
            RuleTarget::Chain => "Chain"@,
        }
    }

    /// The name under which the target goes into ids.
    fn id_name(self) -> (r: &'static str)
        ensures
            r@ == self.name(),
    {
        match self {
            RuleTarget::Direct => "Direct",
            RuleTarget::Proxy => "Proxy",
            RuleTarget::Block => "Block",
            RuleTarget::Node => "Node",
            RuleTarget::Smart => "Smart",
            RuleTarget::Chain => "Chain",
        }
    }
}

#[derive(Debug)]
pub struct Rule {
    pub id: String,
    /// The smaller, the earlier the rule is applied.
    pub ord: i32,
    pub rule_type: RuleType,
    pub payload: String,
    pub target: RuleTarget,
    pub enabled: bool,
    /// The node of a rule whose target is one.
    pub node_id: Option<String>,
    /// The name of the node when the rule was saved.
    pub node_name: Option<String>,
    /// Of a smart rule: names must hold one of these; none means all names.
    pub smart_include: Vec<String>,
    /// Of a smart rule: names that hold one of these are left out.
    pub smart_exclude: Vec<String>,
    /// The chain of a rule whose target is one.
    pub chain_id: Option<String>,
    /// The name of the chain when the rule was saved.
    pub chain_name: Option<String>,
}

pub struct RuleModel {
    pub id: Seq<char>,
    pub ord: i32,
    pub rule_type: RuleType,
    pub payload: Seq<char>,
    pub target: RuleTarget,
    pub enabled: bool,
    pub node_id: Option<Seq<char>>,
    pub node_name: Option<Seq<char>>,
    pub smart_include: Seq<Seq<char>>,
    pub smart_exclude: Seq<Seq<char>>,
    pub chain_id: Option<Seq<char>>,
    pub chain_name: Option<Seq<char>>,
}

impl View for Rule {
    type V = RuleModel;

    open spec fn view(&self) -> RuleModel {
        RuleModel {
            id: self.id@,
            ord: self.ord,
            rule_type: self.rule_type,
            payload: self.payload@,
            target: self.target,
            enabled: self.enabled,
            node_id: opt_view(self.node_id),
            node_name: opt_view(self.node_name),
            smart_include: views(self.smart_include@),
            smart_exclude: views(self.smart_exclude@),
            chain_id: opt_view(self.chain_id),
            chain_name: opt_view(self.chain_name),
        }
    }
}

impl Clone for Rule {
    fn clone(&self) -> (r: Self)
        ensures
            r@ == self@,
    {
        Rule {
            id: self.id.clone(),
            ord: self.ord,
            rule_type: self.rule_type,
            payload: self.payload.clone(),
            target: self.target,
            enabled: self.enabled,
            node_id: clone_opt(&self.node_id),
            node_name: clone_opt(&self.node_name),
            smart_include: clone_strings(&self.smart_include),
            smart_exclude: clone_strings(&self.smart_exclude),
            chain_id: clone_opt(&self.chain_id),
            chain_name: clone_opt(&self.chain_name),
        }
    }
}

/// The models of a sequence of rules.
pub open spec fn rule_views(v: Seq<Rule>) -> Seq<RuleModel> {
    Seq::new(v.len(), |i: int| v[i]@)
}

/// Each keyword behind a mark.
pub open spec fn marked(words: Seq<Seq<char>>, mark: Seq<char>) -> Seq<char>
    decreases words.len(),
{
    if words.len() == 0 {
        Seq::empty()
    } else {
        marked(words.drop_last(), mark) + mark + words.last()
    }
}

/// A part of an id that is only there where it holds anything.
pub open spec fn marked_opt(part: Option<Seq<char>>, mark: Seq<char>) -> Seq<char> {
    match part {
        Some(s) if s.len() > 0 => mark + s,
        _ => Seq::empty(),
    }
}

/// The text that the id of a rule is a hash of: all that decides what it matches
/// and where it routes.
pub open spec fn rule_text(
    rule_type: RuleType,
    payload: Seq<char>,
    target: RuleTarget,
    node: Option<Seq<char>>,
    wanted: Seq<Seq<char>>,
    unwanted: Seq<Seq<char>>,
    chain: Option<Seq<char>>,
) -> Seq<char> {
    rule_type.name() + "|"@ + trimmed(payload) + "|"@ + target.name() + marked_opt(node, "|"@) + (
    if target == RuleTarget::Smart {
        marked(wanted, "|+"@) + marked(unwanted, "|-"@)
    } else {
        Seq::empty()
    }) + (if target == RuleTarget::Chain {
        marked_opt(chain, "|c"@)
    } else {
        Seq::empty()
    })
}

pub open spec fn str_opt_view(o: Option<&str>) -> Option<Seq<char>> {
    match o {
        Some(s) => Some(s@),
        None => None,
    }
}

fn push_marked(out: &mut String, words: &[String], mark: &str)
    ensures
        final(out)@ == old(out)@ + marked(views(words@), mark@),
{
    let ghost start = out@;
    let ghost models = views(words@);
    proof {
        assert(start + marked(models.take(0), mark@) =~= start);
    }
    for i in 0..words.len()
        invariant
            models == views(words@),
            out@ == start + marked(models.take(i as int), mark@),
    {
        proof {
            assert(models.take(i + 1).drop_last() =~= models.take(i as int));
            assert(models.take(i + 1).last() == words@[i as int]@);
        }
        out.append(mark);
        out.append(words[i].as_str());
        proof {
            assert(out@ =~= start + marked(models.take(i + 1), mark@));
        }
    }
    proof {
        assert(models.take(models.len() as int) =~= models);
    }
}

fn push_marked_opt(out: &mut String, part: Option<&str>, mark: &str)
    ensures
        final(out)@ == old(out)@ + marked_opt(str_opt_view(part), mark@),
{
    let ghost start = out@;
    if let Some(s) = part {
        if !s.is_empty() {
            out.append(mark);
            out.append(s);
            proof {
                assert(out@ =~= start + marked_opt(str_opt_view(part), mark@));
            }
            return ;
        }
    }
    proof {
        assert(out@ =~= start + marked_opt(str_opt_view(part), mark@));
    }
}

/// The keywords without white space around them, blank ones and those that are
/// there already in another case.
pub open spec fn tidy_keywords(raw: Seq<Seq<char>>) -> Seq<Seq<char>>
    decreases raw.len(),
{
    if raw.len() == 0 {
        Seq::empty()
    } else {
        let before = tidy_keywords(raw.drop_last());
        let word = trimmed(raw.last());
        if word.len() == 0 || holds_word(before, word) {
            before
        } else {
            before.push(word)
        }
    }
}

/// The keyword is among the words, in any case.
pub open spec fn holds_word(words: Seq<Seq<char>>, word: Seq<char>) -> bool {
    exists|i: int|
        0 <= i < words.len() && unicode_lowered(#[trigger] words[i]) == unicode_lowered(word)
}

fn list_holds_word(words: &Vec<String>, lowered_word: &str) -> (r: bool)
    ensures
        r == exists|i: int|
            0 <= i < views(words@).len() && unicode_lowered(#[trigger] views(words@)[i])
                == lowered_word@,
{
    for i in 0..words.len()
        invariant
            forall|j: int|
                0 <= j < i ==> unicode_lowered(#[trigger] views(words@)[j]) != lowered_word@,
    {
        let x = unicode_lower(words[i].as_str());
        if same(x.as_str(), lowered_word) {
            proof {
                assert(unicode_lowered(views(words@)[i as int]) == lowered_word@);
            }
            return true;
        }
        proof {
            assert(unicode_lowered(views(words@)[i as int]) != lowered_word@);
        }
    }
    false
}

impl Rule {
    pub fn new(rule_type: RuleType, payload: String, target: RuleTarget, ord: i32) -> (r: Self)
        ensures
            r@ == (RuleModel {
                id: short_hash(
                    rule_text(
                        rule_type,
                        trimmed(payload@),
                        target,
                        None,
                        Seq::empty(),
                        Seq::empty(),
                        None,
                    ),
                    12,
                ),
                ord,
                rule_type,
                payload: trimmed(payload@),
                target,
                enabled: true,
                node_id: None,
                node_name: None,
                smart_include: Seq::empty(),
                smart_exclude: Seq::empty(),
                chain_id: None,
                chain_name: None,
            }),
            r.id@.len() == 24,
            id_cut_ok(r.id@),
    {
        let payload = trim(payload.as_str()).to_owned();
        let none: Vec<String> = Vec::new();
        proof {
            assert(views(none@) =~= Seq::empty());
        }
        let id = Rule::compute_id(
            rule_type,
            payload.as_str(),
            target,
            None,
            none.as_slice(),
            none.as_slice(),
            None,
        );
        let rule = Rule {
            id,
            ord,
            rule_type,
            payload,
            target,
            enabled: true,
            node_id: None,
            node_name: None,
            smart_include: Vec::new(),
            smart_exclude: Vec::new(),
            chain_id: None,
            chain_name: None,
        };
        proof {
            assert(views(rule.smart_include@) =~= Seq::empty());
            assert(views(rule.smart_exclude@) =~= Seq::empty());
        }
        rule
    }

    pub fn clash_type_token(&self) -> (r: &'static str)
        ensures
            r@ == self.rule_type.clash_name(),
    {
        match self.rule_type {
            RuleType::Domain => "DOMAIN",
            RuleType::DomainSuffix => "DOMAIN-SUFFIX",
            RuleType::DomainKeyword => "DOMAIN-KEYWORD",
            RuleType::IpCidr => "IP-CIDR",
            RuleType::Process => "PROCESS-NAME",
            RuleType::Geoip => "GEOIP",
        }
    }

    /// The id of a rule: a hash of all that decides what it matches and where it
    /// routes.
    pub fn compute_id(
        rule_type: RuleType,
        payload: &str,
        target: RuleTarget,
        node_id: Option<&str>,
        smart_include: &[String],
        smart_exclude: &[String],
        chain_id: Option<&str>,
    ) -> (r: String)
        ensures
            r@ == short_hash(
                rule_text(
                    rule_type,
                    payload@,
                    target,
                    str_opt_view(node_id),
                    views(smart_include@),
                    views(smart_exclude@),
                    str_opt_view(chain_id),
                ),
                12,
            ),
            r@.len() == 24,
            id_cut_ok(r@),
    {
        let mut s = concat3(rule_type.as_str(), "|", trim(payload));
        s.append("|");
        s.append(target.id_name());
        push_marked_opt(&mut s, node_id, "|");
        let ghost head = s@;
        if target == RuleTarget::Smart {
            push_marked(&mut s, smart_include, "|+");
            push_marked(&mut s, smart_exclude, "|-");
        }
        if target == RuleTarget::Chain {
            push_marked_opt(&mut s, chain_id, "|c");
        }
        proof {
            assert(s@ =~= rule_text(
                rule_type,
                payload@,
                target,
                str_opt_view(node_id),
                views(smart_include@),
                views(smart_exclude@),
                str_opt_view(chain_id),
            ));
        }
        let id = short_hash_of(s.as_str(), 12);
        proof {
            crate::digest::lemma_hex_ascii(
                crate::digest::sha256(vstd::utf8::encode_utf8(s@)).take(12),
            );
            crate::text::lemma_ascii_cut(id@, 16);
        }
        id
    }

    /// The keywords without white space around them, without blank ones, and each
    /// once whatever its case; their order stays.
    pub fn normalize_keywords(raw: &[String]) -> (r: Vec<String>)
        ensures
            views(r@) == tidy_keywords(views(raw@)),
    {
        let ghost models = views(raw@);
        let mut out: Vec<String> = Vec::new();
        proof {
            assert(views(out@) =~= tidy_keywords(models.take(0)));
        }
        for i in 0..raw.len()
            invariant
                models == views(raw@),
                views(out@) == tidy_keywords(models.take(i as int)),
        {
            let ghost whole = models.take(i + 1);
            let ghost before = out@;
            proof {
                assert(whole.drop_last() =~= models.take(i as int));
                assert(whole.last() == raw@[i as int]@);
            }
            let word = trim(raw[i].as_str());
            if !word.is_empty() {
                let low = unicode_lower(word);
                if !list_holds_word(&out, low.as_str()) {
                    out.push(word.to_owned());
                    proof {
                        assert(views(out@) =~= views(before).push(word@));
                    }
                }
            }
        }
        proof {
            assert(models.take(models.len() as int) =~= models);
        }
        out
    }

    /// Whether the rule's pool holds a node of that name.
    pub fn smart_name_matches(&self, node_name: &str) -> (r: bool)
        ensures
            r == name_allowed(node_name@, views(self.smart_include@), views(self.smart_exclude@)),
    {
        name_matches_keywords(
            node_name,
            self.smart_include.as_slice(),
            self.smart_exclude.as_slice(),
        )
    }

    /// The tag of the selector of a smart rule.
    pub fn smart_outbound_tag(&self) -> (r: String)
        requires
            id_cut_ok(self.id@),
        ensures
            r@ == "smart-"@ + id_prefix(self.id@),
    {
        let head = tag_prefix(self.id.as_str());
        concat2("smart-", head.as_str())
    }
}

/// A name holds a keyword, in any case; a blank keyword is held by none.
pub open spec fn keyword_hits(name: Seq<char>, word: Seq<char>) -> bool {
    trimmed(word).len() > 0 && holds_text(unicode_lowered(name), unicode_lowered(trimmed(word)))
}

/// A name passes the keywords: it holds no unwanted one, and a wanted one unless
/// all of those are blank.
pub open spec fn name_allowed(
    name: Seq<char>,
    wanted: Seq<Seq<char>>,
    unwanted: Seq<Seq<char>>,
) -> bool {
    &&& forall|i: int| 0 <= i < unwanted.len() ==> !keyword_hits(name, #[trigger] unwanted[i])
    &&& {
        ||| forall|i: int| 0 <= i < wanted.len() ==> trimmed(#[trigger] wanted[i]).len() == 0
        ||| exists|i: int| 0 <= i < wanted.len() && keyword_hits(name, #[trigger] wanted[i])
    }
}

/// Whether a name passes the keywords: it must hold one of the wanted ones, of
/// which none means all names, and none of the unwanted ones.
pub fn name_matches_keywords(node_name: &str, wanted: &[String], unwanted: &[String]) -> (r: bool)
    ensures
        r == name_allowed(node_name@, views(wanted@), views(unwanted@)),
{
    let name = unicode_lower(node_name);
    for i in 0..unwanted.len()
        invariant
            name@ == unicode_lowered(node_name@),
            forall|j: int|
                0 <= j < i ==> !keyword_hits(node_name@, #[trigger] views(unwanted@)[j]),
    {
        let word = trim(unwanted[i].as_str());
        if !word.is_empty() {
            let low = unicode_lower(word);
            if contains(name.as_str(), low.as_str()) {
                proof {
                    assert(keyword_hits(node_name@, views(unwanted@)[i as int]));
                }
                return false;
            }
        }
        proof {
            assert(!keyword_hits(node_name@, views(unwanted@)[i as int]));
        }
    }
    let mut blank = true;
    for i in 0..wanted.len()
        invariant
            name@ == unicode_lowered(node_name@),
            blank == forall|j: int|
                0 <= j < i ==> trimmed(#[trigger] views(wanted@)[j]).len() == 0,
            forall|j: int| 0 <= j < i ==> !keyword_hits(node_name@, #[trigger] views(wanted@)[j]),
            forall|j: int|
                0 <= j < views(unwanted@).len() ==> !keyword_hits(
                    node_name@,
                    #[trigger] views(unwanted@)[j],
                ),
    {
        let word = trim(wanted[i].as_str());
        proof {
            assert(views(wanted@)[i as int] == wanted@[i as int]@);
        }
        if !word.is_empty() {
            blank = false;
            let low = unicode_lower(word);
            if contains(name.as_str(), low.as_str()) {
                proof {
                    assert(keyword_hits(node_name@, views(wanted@)[i as int]));
                }
                return true;
            }
        }
    }
    blank
}

/// The keywords of the first list that the second holds too, in any case.
pub open spec fn overlap(wanted: Seq<Seq<char>>, unwanted: Seq<Seq<char>>) -> Seq<Seq<char>>
    decreases wanted.len(),
{
    if wanted.len() == 0 {
        Seq::empty()
    } else {
        let before = overlap(wanted.drop_last(), unwanted);
        let word = trimmed(wanted.last());
        if unicode_lowered(word).len() > 0 && holds_trimmed_word(unwanted, word) && !holds_word(
            before,
            word,
        ) {
            before.push(word)
        } else {
            before
        }
    }
}

/// The keyword is among the words, without the white space around them and in any
/// case.
pub open spec fn holds_trimmed_word(words: Seq<Seq<char>>, word: Seq<char>) -> bool {
    exists|i: int|
        0 <= i < words.len() && unicode_lowered(trimmed(#[trigger] words[i])) == unicode_lowered(
            word,
        )
}

/// The keywords that are wanted and unwanted at once, in any case.
pub fn keyword_list_overlap(wanted: &[String], unwanted: &[String]) -> (r: Vec<String>)
    ensures
        views(r@) == overlap(views(wanted@), views(unwanted@)),
{
    let ghost models = views(wanted@);
    let mut out: Vec<String> = Vec::new();
    proof {
        assert(views(out@) =~= overlap(models.take(0), views(unwanted@)));
    }
    for i in 0..wanted.len()
        invariant
            models == views(wanted@),
            views(out@) == overlap(models.take(i as int), views(unwanted@)),
    {
        let ghost whole = models.take(i + 1);
        let ghost before = out@;
        proof {
            assert(whole.drop_last() =~= models.take(i as int));
            assert(whole.last() == wanted@[i as int]@);
        }
        let word = trim(wanted[i].as_str());
        let low = unicode_lower(word);
        if !low.as_str().is_empty() && slice_holds_trimmed(unwanted, low.as_str())
            && !list_holds_word(&out, low.as_str()) {
            out.push(word.to_owned());
            proof {
                assert(views(out@) =~= views(before).push(word@));
            }
        }
    }
    proof {
        assert(models.take(models.len() as int) =~= models);
    }
    out
}

fn slice_holds_trimmed(words: &[String], lowered_word: &str) -> (r: bool)
    ensures
        r == exists|i: int|
            0 <= i < views(words@).len() && unicode_lowered(trimmed(#[trigger] views(words@)[i]))
                == lowered_word@,
{
    for i in 0..words.len()
        invariant
            forall|j: int|
                0 <= j < i ==> unicode_lowered(trimmed(#[trigger] views(words@)[j]))
                    != lowered_word@,
    {
        let x = unicode_lower(trim(words[i].as_str()));
        if same(x.as_str(), lowered_word) {
            proof {
                assert(unicode_lowered(trimmed(views(words@)[i as int])) == lowered_word@);
            }
            return true;
        }
        proof {
            assert(unicode_lowered(trimmed(views(words@)[i as int])) != lowered_word@);
        }
    }
    false
}

/// Rules under one name, which are switched on and off together.
#[derive(Debug, Clone)]
pub struct RuleSet {
    pub id: String,
    pub name: String,
    /// The set is shipped with the application.
    pub builtin: bool,
    pub enabled: bool,
    pub ownership: RuleSetOwnership,
    pub strategy: RuleSetStrategy,
    /// The node that the whole set is pinned to.
    pub node_id: Option<String>,
    pub node_name: Option<String>,
    /// Of a set that routes to a filtered pool: the wanted keywords.
    pub smart_include: Vec<String>,
    /// Of a set that routes to a filtered pool: the unwanted keywords.
    pub smart_exclude: Vec<String>,
    /// The chain that the whole set routes through.
    pub chain_id: Option<String>,
    pub chain_name: Option<String>,
    pub dns_strategy: RuleSetDnsStrategy,
    /// Where the rules are downloaded from; `None` for a set that is edited here.
    pub remote: Option<RemoteRuleSetConfig>,
    /// DNS rules of an older store.
    pub dns_rules: Vec<DnsRule>,
    pub rules: Vec<Rule>,
}

#[derive(Debug, Clone, Copy, PartialEq, Eq, Structural)]
pub enum RuleSetOwnership {
    Builtin,
    User,
    System,
}

impl Default for RuleSetOwnership {
    fn default() -> (r: Self)
        ensures
            r == RuleSetOwnership::User,
    {
        RuleSetOwnership::User
    }
}

#[derive(Debug, Clone, Copy, PartialEq, Eq, Structural)]
pub enum RuleSetStrategy {
    Proxy,
    Direct,
    Block,
    /// The whole set goes to one node.
    Node,
    /// The whole set goes to a pool filtered by keywords.
    Filter,
    /// The whole set goes through a chain.
    Chain,
    /// Each rule decides for itself.
    Smart,
}

impl Default for RuleSetStrategy {
    fn default() -> (r: Self)
        ensures
            r == RuleSetStrategy::Proxy,
    {
        RuleSetStrategy::Proxy
    }
}

#[derive(Debug, Clone, Copy, PartialEq, Eq, Structural)]
pub enum RuleSetDnsStrategy {
    Local,
    Domestic,
    Remote,
}

impl Default for RuleSetDnsStrategy {
    fn default() -> (r: Self)
        ensures
            r == RuleSetDnsStrategy::Remote,
    {
        RuleSetDnsStrategy::Remote
    }
}

impl RuleSetDnsStrategy {
    pub fn server_tag(self) -> (r: &'static str)
        ensures
            r@ == match self {
                RuleSetDnsStrategy::Local => "dns-local"@,
                RuleSetDnsStrategy::Domestic => "dns-cn"@,
                RuleSetDnsStrategy::Remote => "dns-remote"@,
            },
    {
        match self {
            RuleSetDnsStrategy::Local => "dns-local",
            RuleSetDnsStrategy::Domestic => "dns-cn",
            RuleSetDnsStrategy::Remote => "dns-remote",
        }
    }
}

impl RuleSetStrategy {
    pub open spec fn of_target(target: RuleTarget) -> RuleSetStrategy {
        match target {
            RuleTarget::Proxy => RuleSetStrategy::Proxy,
            RuleTarget::Direct => RuleSetStrategy::Direct,
            RuleTarget::Block => RuleSetStrategy::Block,
            RuleTarget::Node => RuleSetStrategy::Node,
            RuleTarget::Smart => RuleSetStrategy::Filter,
            RuleTarget::Chain => RuleSetStrategy::Chain,
        }
    }

    pub fn from_target(target: RuleTarget) -> (r: Self)
        ensures
            r == RuleSetStrategy::of_target(target),
    {
        match target {
            RuleTarget::Proxy => RuleSetStrategy::Proxy,
            RuleTarget::Direct => RuleSetStrategy::Direct,
            RuleTarget::Block => RuleSetStrategy::Block,
            RuleTarget::Node => RuleSetStrategy::Node,
            RuleTarget::Smart => RuleSetStrategy::Filter,
            RuleTarget::Chain => RuleSetStrategy::Chain,
        }
    }

    pub open spec fn target(self) -> Option<RuleTarget> {
        match self {
            RuleSetStrategy::Proxy => Some(RuleTarget::Proxy),
            RuleSetStrategy::Direct => Some(RuleTarget::Direct),
            RuleSetStrategy::Block => Some(RuleTarget::Block),
            _ => None,
        }
    }

    /// The target of the whole set, where it needs no looking up.
    pub fn route_target(self) -> (r: Option<RuleTarget>)
        ensures
            r == self.target(),
    {
        match self {
            RuleSetStrategy::Proxy => Some(RuleTarget::Proxy),
            RuleSetStrategy::Direct => Some(RuleTarget::Direct),
            RuleSetStrategy::Block => Some(RuleTarget::Block),
            RuleSetStrategy::Node | RuleSetStrategy::Filter | RuleSetStrategy::Smart
            | RuleSetStrategy::Chain => None,
        }
    }

    pub open spec fn dns_advice(self) -> Option<RuleSetDnsStrategy> {
        match self {
            RuleSetStrategy::Direct => Some(RuleSetDnsStrategy::Local),
            RuleSetStrategy::Block => None,
            _ => Some(RuleSetDnsStrategy::Remote),
        }
    }

    /// The DNS policy that goes with the strategy. A set that blocks has none: its
    /// queries are rejected.
    pub fn recommended_dns_strategy(self) -> (r: Option<RuleSetDnsStrategy>)
        ensures
            r == self.dns_advice(),
    {
        match self {
            RuleSetStrategy::Proxy | RuleSetStrategy::Node | RuleSetStrategy::Filter
            | RuleSetStrategy::Smart | RuleSetStrategy::Chain => Some(RuleSetDnsStrategy::Remote),
            RuleSetStrategy::Direct => Some(RuleSetDnsStrategy::Local),
            RuleSetStrategy::Block => None,
        }
    }
}

/// A target that needs no looking up is the target of the strategy made of it.
pub proof fn law_strategy_keeps_plain_targets(t: RuleTarget)
    ensures
        RuleSetStrategy::of_target(t).target() == if t is Proxy || t is Direct || t is Block {
            Some(t)
        } else {
            None::<RuleTarget>
        },
{
}

#[derive(Debug)]
pub struct RemoteRuleSetConfig {
    pub url: String,
    pub format: String,
    pub update_interval: String,
    /// Where the whole set routes.
    pub target: RuleTarget,
    /// The downloaded file.
    pub local_path: Option<String>,
    /// `idle`, `downloading`, `ready` or `error`.
    pub download_status: String,
    pub download_error: Option<String>,
    pub last_update: Option<i64>,
    pub last_attempt: Option<i64>,
    /// How many rows the downloaded file has when it is shown.
    pub rule_count: Option<u32>,
    /// Whether the downloaded file holds any `ip_cidr` condition; `None` where
    /// that is not known.
    pub contains_ip: Option<bool>,
}

impl Clone for RemoteRuleSetConfig {
    fn clone(&self) -> (r: Self)
        ensures
            r == *self,
    {
        RemoteRuleSetConfig {
            url: self.url.clone(),
            format: self.format.clone(),
            update_interval: self.update_interval.clone(),
            target: self.target,
            local_path: clone_opt(&self.local_path),
            download_status: self.download_status.clone(),
            download_error: clone_opt(&self.download_error),
            last_update: self.last_update,
            last_attempt: self.last_attempt,
            rule_count: self.rule_count,
            contains_ip: self.contains_ip,
        }
    }
}

pub fn default_remote_format() -> (r: String)
    ensures
        r@ == "source"@,
{
    "source".to_owned()
}

pub fn default_update_interval() -> (r: String)
    ensures
        r@ == "disabled"@,
{
    "disabled".to_owned()
}

pub fn default_download_status() -> (r: String)
    ensures
        r@ == "idle"@,
{
    "idle".to_owned()
}

/// The update intervals that are offered.
pub open spec fn interval_name(value: Seq<char>) -> Option<Seq<char>> {
    let k = lowered(trimmed(value));
    if k == "disabled"@ || k == "1h"@ || k == "12h"@ || k == "24h"@ {
        Some(k)
    } else {
        None
    }
}

/// An update interval in the form that is stored; `None` for one that is not
/// offered.
pub fn normalize_remote_update_interval(value: &str) -> (r: Option<&'static str>)
    ensures
        str_opt_view(r) == interval_name(value@),
{
    let key = lower(trim(value));
    let k = key.as_str();
    if same(k, "disabled") {
        Some("disabled")
    } else if same(k, "1h") {
        Some("1h")
    } else if same(k, "12h") {
        Some("12h")
    } else if same(k, "24h") {
        Some("24h")
    } else {
        None
    }
}

/// The seconds of an update interval; `None` for one that sets no schedule.
pub open spec fn interval_secs(value: Seq<char>) -> Option<i64> {
    let k = lowered(trimmed(value));
    if k == "1h"@ {
        Some(3_600)
    } else if k == "12h"@ {
        Some(43_200)
    } else if k == "24h"@ {
        Some(86_400)
    } else {
        None
    }
}

/// The seconds of an update interval; `None` for one that sets no schedule.
pub fn remote_update_interval_secs(value: &str) -> (r: Option<i64>)
    ensures
        r == interval_secs(value@),
{
    proof {
        reveal_strlit("disabled");
        reveal_strlit("1h");
        reveal_strlit("12h");
        reveal_strlit("24h");
        assert("disabled"@.len() == 8);
        assert("1h"@.len() == 2);
        assert("12h"@.len() == 3 && "12h"@[0] == '1');
        assert("24h"@.len() == 3 && "24h"@[0] == '2');
    }
    match normalize_remote_update_interval(value) {
        Some(k) => if same(k, "1h") {
            Some(3_600)
        } else if same(k, "12h") {
            Some(43_200)
        } else if same(k, "24h") {
            Some(86_400)
        } else {
            None
        },
        None => None,
    }
}

/// The id of a rule set that is created under a name.
pub open spec fn user_set_id(name: Seq<char>, stamp: Stamp) -> Seq<char> {
    "rs-"@ + stamped_hash(name, stamp)
}

impl RuleSet {
    /// A set that is edited here.
    pub fn new_user(name: &str, rules: Vec<Rule>, stamp: Stamp) -> (r: Self)
        ensures
            r.id@ == user_set_id(name@, stamp),
            r.name@ == trimmed(name@),
            !r.builtin,
            r.enabled,
            r.ownership == RuleSetOwnership::User,
            r.strategy == RuleSetStrategy::Proxy,
            r.node_id is None,
            r.node_name is None,
            r.smart_include@.len() == 0,
            r.smart_exclude@.len() == 0,
            r.chain_id is None,
            r.chain_name is None,
            r.dns_strategy == RuleSetDnsStrategy::Remote,
            r.remote is None,
            r.dns_rules@.len() == 0,
            r.rules == rules,
    {
        let hash = stamped_hash_of(name, stamp);
        RuleSet {
            id: concat2("rs-", hash.as_str()),
            name: trim(name).to_owned(),
            builtin: false,
            enabled: true,
            ownership: RuleSetOwnership::User,
            strategy: RuleSetStrategy::Proxy,
            node_id: None,
            node_name: None,
            smart_include: Vec::new(),
            smart_exclude: Vec::new(),
            chain_id: None,
            chain_name: None,
            dns_strategy: RuleSetDnsStrategy::Remote,
            remote: None,
            dns_rules: Vec::new(),
            rules,
        }
    }

    /// A set whose rules are downloaded.
    pub fn new_remote(name: &str, url: &str, target: RuleTarget, stamp: Stamp) -> (r: Self)
        ensures
            r.id@ == user_set_id(name@, stamp),
            r.name@ == trimmed(name@),
            !r.builtin,
            r.enabled,
            r.ownership == RuleSetOwnership::User,
            r.strategy == RuleSetStrategy::of_target(target),
            r.node_id is None,
            r.node_name is None,
            r.smart_include@.len() == 0,
            r.smart_exclude@.len() == 0,
            r.chain_id is None,
            r.chain_name is None,
            r.dns_strategy == match RuleSetStrategy::of_target(target).dns_advice() {
                Some(d) => d,
                None => RuleSetDnsStrategy::Remote,
            },
            r.remote is Some,
            fresh_remote(r.remote->0, trimmed(url@), target, "source"@, "disabled"@),
            r.dns_rules@.len() == 0,
            r.rules@.len() == 0,
    {
        let mut set = RuleSet::new_user(name, Vec::new(), stamp);
        set.remote =
        Some(
            RemoteRuleSetConfig {
                url: trim(url).to_owned(),
                format: default_remote_format(),
                update_interval: default_update_interval(),
                target,
                local_path: None,
                download_status: default_download_status(),
                download_error: None,
                last_update: None,
                last_attempt: None,
                rule_count: None,
                contains_ip: None,
            },
        );
        set.strategy = RuleSetStrategy::from_target(target);
        if let Some(d) = set.strategy.recommended_dns_strategy() {
            set.dns_strategy = d;
        }
        set
    }

    /// The tag of the selector of a set that routes to a filtered pool. It has the
    /// shape of a smart rule's: a stand-in rule under the set's id has the same.
    pub fn smart_set_outbound_tag(&self) -> (r: String)
        requires
            id_cut_ok(self.id@),
        ensures
            r@ == "smart-"@ + id_prefix(self.id@),
    {
        let head = tag_prefix(self.id.as_str());
        concat2("smart-", head.as_str())
    }
}

/// A source that nothing has been downloaded from.
pub open spec fn fresh_remote(
    r: RemoteRuleSetConfig,
    url: Seq<char>,
    target: RuleTarget,
    format: Seq<char>,
    interval: Seq<char>,
) -> bool {
    &&& r.url@ == url
    &&& r.format@ == format
    &&& r.update_interval@ == interval
    &&& r.target == target
    &&& r.local_path is None
    &&& r.download_status@ == "idle"@
    &&& r.download_error is None
    &&& r.last_update is None
    &&& r.last_attempt is None
    &&& r.rule_count is None
    &&& r.contains_ip is None
}

#[derive(Debug, Clone)]
pub struct RuleSetSummary {
    pub id: String,
    pub name: String,
    pub builtin: bool,
    pub rule_count: u32,
    pub enabled: bool,
    pub ownership: RuleSetOwnership,
    pub strategy: RuleSetStrategy,
    pub node_id: Option<String>,
    pub node_name: Option<String>,
    pub smart_include: Vec<String>,
    pub smart_exclude: Vec<String>,
    pub chain_id: Option<String>,
    pub chain_name: Option<String>,
    pub dns_strategy: RuleSetDnsStrategy,
    /// The set can be put back as it is shipped.
    pub resettable: bool,
    pub remote: Option<RemoteRuleSetConfig>,
}

pub const GENERAL_SET_ID: &'static str = "general-rules";

pub const GENERAL_SET_NAME: &'static str = "通用规则";

/// The id of a list that older versions shipped.
pub const BUILTIN_SET_ID: &'static str = "builtin-ruleset";

pub const BUILTIN_SET_NAME: &'static str = "内置规则集";

/// A remote rule set that is shipped.
#[derive(Debug, Clone, Copy)]
pub struct BuiltinRemoteRuleSpec {
    pub id: &'static str,
    pub name: &'static str,
    /// The name of the cached file.
    pub file: &'static str,
    pub url: &'static str,
    pub target: RuleTarget,
    /// The content is known to be addresses only.
    pub ip_only: bool,
}

/// The shipped set at a position: 0, 1 or 2.
pub open spec fn shipped_set(i: int) -> BuiltinRemoteRuleSpec {
    if i == 0 {
        BuiltinRemoteRuleSpec {
            id: "system-geolocation-not-cn",
            name: "海外网站",
            file: "system-geolocation-not-cn.srs",
            url:
                "https://cdn.jsdelivr.net/gh/SagerNet/sing-geosite@rule-set/geosite-geolocation-!cn.srs",
            target: RuleTarget::Proxy,
            ip_only: false,
        }
    } else if i == 1 {
        BuiltinRemoteRuleSpec {
            id: "system-geoip-cn",
            name: "国内ip",
            file: "system-geoip-cn.srs",
            url: "https://testingcf.jsdelivr.net/gh/MetaCubeX/meta-rules-dat@sing/geo/geoip/cn.srs",
            target: RuleTarget::Direct,
            ip_only: true,
        }
    } else {
        BuiltinRemoteRuleSpec {
            id: "system-geosite-cn",
            name: "国内站点",
            file: "system-geosite-cn.srs",
            url: "https://testingcf.jsdelivr.net/gh/MetaCubeX/meta-rules-dat@sing/geo/geosite/cn.srs",
            target: RuleTarget::Direct,
            ip_only: false,
        }
    }
}

/// The remote rule sets that are shipped, in the order in which they match.
pub fn builtin_remote_rule_sets() -> (r: Vec<BuiltinRemoteRuleSpec>)
    ensures
        r@ == Seq::new(3, |i: int| shipped_set(i)),
{
    let mut v: Vec<BuiltinRemoteRuleSpec> = Vec::new();
    v.push(shipped(0));
    v.push(shipped(1));
    v.push(shipped(2));
    v
}

fn shipped(i: usize) -> (r: BuiltinRemoteRuleSpec)
    ensures
        r == shipped_set(i as int),
{
    if i == 0 {
        BuiltinRemoteRuleSpec {
            id: "system-geolocation-not-cn",
            name: "海外网站",
            file: "system-geolocation-not-cn.srs",
            url:
                "https://cdn.jsdelivr.net/gh/SagerNet/sing-geosite@rule-set/geosite-geolocation-!cn.srs",
            target: RuleTarget::Proxy,
            ip_only: false,
        }
    } else if i == 1 {
        BuiltinRemoteRuleSpec {
            id: "system-geoip-cn",
            name: "国内ip",
            file: "system-geoip-cn.srs",
            url: "https://testingcf.jsdelivr.net/gh/MetaCubeX/meta-rules-dat@sing/geo/geoip/cn.srs",
            target: RuleTarget::Direct,
            ip_only: true,
        }
    } else {
        BuiltinRemoteRuleSpec {
            id: "system-geosite-cn",
            name: "国内站点",
            file: "system-geosite-cn.srs",
            url: "https://testingcf.jsdelivr.net/gh/MetaCubeX/meta-rules-dat@sing/geo/geosite/cn.srs",
            target: RuleTarget::Direct,
            ip_only: false,
        }
    }
}

/// The position of a shipped set.
pub open spec fn builtin_pos(id: Seq<char>) -> Option<int> {
    if id == "system-geolocation-not-cn"@ {
        Some(0int)
    } else if id == "system-geoip-cn"@ {
        Some(1int)
    } else if id == "system-geosite-cn"@ {
        Some(2int)
    } else {
        None
    }
}

pub fn is_builtin_remote_id(id: &str) -> (r: bool)
    ensures
        r == (builtin_pos(id@) is Some),
{
    same(id, "system-geolocation-not-cn") || same(id, "system-geoip-cn") || same(
        id,
        "system-geosite-cn",
    )
}

/// Whether the content of a shipped set is known to be addresses only; `None` for
/// any other set. This holds whatever the store says of the downloaded file.
pub fn builtin_remote_ip_only(id: &str) -> (r: Option<bool>)
    ensures
        r == match builtin_pos(id@) {
            Some(i) => Some(i == 1),
            None => None,
        },
{
    match builtin_remote_spec(id) {
        Some(spec) => Some(spec.ip_only),
        None => None,
    }
}

/// The shipped set of that id.
pub fn builtin_remote_spec(id: &str) -> (r: Option<BuiltinRemoteRuleSpec>)
    ensures
        match r {
            Some(spec) => builtin_pos(id@) is Some && spec == shipped_set(
                builtin_pos(id@)->0,
            ) && spec.id@ == id@,
            None => builtin_pos(id@) is None,
        },
{
    if same(id, "system-geolocation-not-cn") {
        Some(shipped(0))
    } else if same(id, "system-geoip-cn") {
        Some(shipped(1))
    } else if same(id, "system-geosite-cn") {
        Some(shipped(2))
    } else {
        None
    }
}

/// Ids that the shipped sets had before, with those that they have now.
pub const LEGACY_BUILTIN_REMOTE_IDS: [(&'static str, &'static str); 3] = [
    ("builtin-remote-geolocation-not-cn", "system-geolocation-not-cn"),
    ("builtin-remote-geoip-cn", "system-geoip-cn"),
    ("builtin-remote-geosite-cn", "system-geosite-cn"),
];

/// A shipped set as it enters the store. The path of its file is filled in once the
/// file is there.
pub fn build_builtin_remote_set(spec: &BuiltinRemoteRuleSpec, stamp: Stamp) -> (r: RuleSet)
    ensures
        r.id@ == spec.id@,
        r.name@ == trimmed(spec.name@),
        r.builtin,
        r.enabled,
        r.ownership == RuleSetOwnership::Builtin,
        r.strategy == RuleSetStrategy::of_target(spec.target),
        r.dns_strategy == match RuleSetStrategy::of_target(spec.target).dns_advice() {
            Some(d) => d,
            None => RuleSetDnsStrategy::Remote,
        },
        r.remote is Some,
        fresh_remote(r.remote->0, trimmed(spec.url@), spec.target, "binary"@, "24h"@),
        r.node_id is None,
        r.node_name is None,
        r.smart_include@.len() == 0,
        r.smart_exclude@.len() == 0,
        r.chain_id is None,
        r.chain_name is None,
        r.dns_rules@.len() == 0,
        r.rules@.len() == 0,
{
    let mut set = RuleSet::new_remote(spec.name, spec.url, spec.target, stamp);
    set.id = spec.id.to_owned();
    set.builtin = true;
    set.ownership = RuleSetOwnership::Builtin;
    set.enabled = true;
    if let Some(remote) = &mut set.remote {
        remote.format = "binary".to_owned();
        remote.update_interval = "24h".to_owned();
    }
    set
}

/// The field of a rule that only turns its verdict round.
pub open spec fn is_invert(name: Seq<char>) -> bool {
    name == "invert"@
}

pub open spec fn any_nested(items: Seq<JsonModel>) -> bool {
    exists|i: int| 0 <= i < items.len() && (#[trigger] items[i]).is_nested()
}

/// A list that holds lists or objects.
pub open spec fn holds_nested(v: JsonModel) -> bool {
    match v {
        JsonModel::List(items) => any_nested(items),
        _ => false,
    }
}

/// A field, other than `invert`, that holds more than a list of plain values.
pub open spec fn any_deep_field(fields: Seq<(Seq<char>, JsonModel)>) -> bool {
    exists|i: int|
        #![trigger fields[i]]
        0 <= i < fields.len() && !is_invert(fields[i].0) && (fields[i].1 is Object || holds_nested(
            fields[i].1,
        ))
}

/// A rule that is shown in one row: it is no object, it is a logical rule, or a
/// field of it holds more than a list of plain values.
pub open spec fn is_complex(rule: JsonModel) -> bool {
    match rule {
        JsonModel::Object(fields) => {
            ||| rule.field("type"@) is Some
            ||| any_deep_field(fields)
        },
        _ => true,
    }
}

/// Whether a rule is shown in one row.
pub fn remote_rule_is_complex(rule: &Json) -> (r: bool)
    ensures
        r == is_complex(rule@),
{
    if rule.get("type").is_some() {
        return true;
    }
    match rule {
        Json::Object(fields) => {
            let ghost models = rule@->Object_0;
            for i in 0..fields.len()
                invariant
                    rule@ == JsonModel::Object(models),
                    rule@.field("type"@) is None,
                    models.len() == fields@.len(),
                    forall|j: int|
                        0 <= j < fields@.len() ==> #[trigger] models[j] == (
                            fields@[j].0@,
                            fields@[j].1@,
                        ),
                    forall|j: int|
                        #![trigger models[j]]
                        0 <= j < i ==> !(!is_invert(models[j].0) && (models[j].1 is Object
                            || holds_nested(models[j].1))),
            {
                proof {
                    assert(models[i as int] == (fields@[i as int].0@, fields@[i as int].1@));
                }
                if !same(fields[i].0.as_str(), "invert") {
                    match &fields[i].1 {
                        Json::Object(_) => {
                            return true;
                        },
                        _ => {},
                    }
                    if list_holds_nested(&fields[i].1) {
                        return true;
                    }
                }
            }
            false
        },
        _ => true,
    }
}

fn list_holds_nested(v: &Json) -> (r: bool)
    ensures
        r == holds_nested(v@),
{
    match v.as_list() {
        Some(items) => {
            let ghost models = v@->List_0;
            for i in 0..items.len()
                invariant
                    v@ == JsonModel::List(models),
                    models == json_views(items@),
                    forall|j: int| 0 <= j < i ==> !(#[trigger] models[j]).is_nested(),
            {
                if items[i].is_nested() {
                    proof {
                        assert(models[i as int].is_nested());
                    }
                    return true;
                }
            }
            false
        },
        None => false,
    }
}

/// A value holds a field named `ip_cidr`, at any depth.
pub open spec fn holds_ip_cidr(v: JsonModel) -> bool
    decreases v,
{
    match v {
        JsonModel::List(items) => any_holds_ip_cidr(items),
        JsonModel::Object(fields) => any_field_ip_cidr(fields),
        _ => false,
    }
}

/// Some value of a list holds a field named `ip_cidr`, at any depth.
pub open spec fn any_holds_ip_cidr(items: Seq<JsonModel>) -> bool
    decreases items,
{
    exists|i: int| 0 <= i < items.len() && holds_ip_cidr(#[trigger] items[i])
}

/// Some field is named `ip_cidr`, or holds such a field.
pub open spec fn any_field_ip_cidr(fields: Seq<(Seq<char>, JsonModel)>) -> bool
    decreases fields,
{
    exists|i: int|
        #![trigger fields[i]]
        0 <= i < fields.len() && (fields[i].0 == "ip_cidr"@ || holds_ip_cidr(fields[i].1))
}

fn value_contains_ip_cidr(value: &Json) -> (r: bool)
    ensures
        r == holds_ip_cidr(value@),
    decreases value,
{
    match value {
        Json::Object(fields) => {
            let ghost models = value@->Object_0;
            let mut i: usize = 0;
            while i < fields.len()
                invariant
                    i <= fields.len(),
                    value@ == JsonModel::Object(models),
                    *value matches Json::Object(v) && v == *fields,
                    models.len() == fields@.len(),
                    forall|j: int|
                        0 <= j < fields@.len() ==> #[trigger] models[j] == (
                            fields@[j].0@,
                            fields@[j].1@,
                        ),
                    forall|j: int|
                        #![trigger models[j]]
                        0 <= j < i ==> !(models[j].0 == "ip_cidr"@ || holds_ip_cidr(models[j].1)),
                decreases fields.len() - i,
            {
                proof {
                    assert(models[i as int] == (fields@[i as int].0@, fields@[i as int].1@));
                }
                let pair = &fields[i];
                if same(pair.0.as_str(), "ip_cidr") || value_contains_ip_cidr(&pair.1) {
                    return true;
                }
                i += 1;
            }
            false
        },
        Json::List(items) => {
            let ghost models = value@->List_0;
            let mut i: usize = 0;
            while i < items.len()
                invariant
                    i <= items.len(),
                    value@ == JsonModel::List(models),
                    *value matches Json::List(v) && v == *items,
                    models.len() == items@.len(),
                    forall|j: int| 0 <= j < items@.len() ==> #[trigger] models[j] == items@[j]@,
                    forall|j: int| 0 <= j < i ==> !holds_ip_cidr(#[trigger] models[j]),
                decreases items.len() - i,
            {
                proof {
                    assert(models[i as int] == items@[i as int]@);
                }
                if value_contains_ip_cidr(&items[i]) {
                    return true;
                }
                i += 1;
            }
            false
        },
        _ => false,
    }
}

/// Whether any rule holds an `ip_cidr` condition, at any depth: some cores refuse
/// DNS rules that refer to a set with such a condition.
pub fn rules_contain_ip_cidr(rules: &Vec<Json>) -> (r: bool)
    ensures
        r == any_holds_ip_cidr(json_views(rules@)),
{
    for i in 0..rules.len()
        invariant
            forall|j: int| 0 <= j < i ==> !holds_ip_cidr(#[trigger] json_views(rules@)[j]),
    {
        if value_contains_ip_cidr(&rules[i]) {
            proof {
                assert(holds_ip_cidr(json_views(rules@)[i as int]));
            }
            return true;
        }
        proof {
            assert(!holds_ip_cidr(json_views(rules@)[i as int]));
        }
    }
    false
}

/// The rows of one field: one for each element of a list, one for a plain value.
pub open spec fn field_rows(v: JsonModel) -> nat {
    match v {
        JsonModel::List(items) => items.len(),
        _ => 1,
    }
}

/// The rows of the fields of a rule, but for `invert`.
pub open spec fn fields_rows(fields: Seq<(Seq<char>, JsonModel)>) -> nat
    decreases fields.len(),
{
    if fields.len() == 0 {
        0
    } else {
        fields_rows(fields.drop_last()) + if is_invert(fields.last().0) {
            0
        } else {
            field_rows(fields.last().1)
        }
    }
}

/// The rows that a rule takes when it is shown: one for a complex rule, and at
/// least one.
pub open spec fn display_rows(rule: JsonModel) -> nat {
    match rule {
        JsonModel::Object(fields) if !is_complex(rule) => {
            if fields_rows(fields) == 0 {
                1
            } else {
                fields_rows(fields)
            }
        },
        _ => 1,
    }
}

/// The rows that a rule takes when it is shown.
pub fn display_row_count(rule: &Json) -> (r: u128)
    ensures
        r == display_rows(rule@),
{
    if remote_rule_is_complex(rule) {
        return 1;
    }
    match rule {
        Json::Object(fields) => {
            let ghost models = rule@->Object_0;
            let mut total: u128 = 0;
            for i in 0..fields.len()
                invariant
                    rule@ == JsonModel::Object(models),
                    models.len() == fields@.len(),
                    forall|j: int|
                        0 <= j < fields@.len() ==> #[trigger] models[j] == (
                            fields@[j].0@,
                            fields@[j].1@,
                        ),
                    total == fields_rows(models.take(i as int)),
                    total <= i * 0xffff_ffff_ffff_ffff,
                    fields@.len() <= 0xffff_ffff_ffff_ffff,
            {
                let ghost whole = models.take(i + 1);
                proof {
                    assert(whole.drop_last() =~= models.take(i as int));
                    assert(whole.last() == models[i as int]);
                    assert(models[i as int] == (fields@[i as int].0@, fields@[i as int].1@));
                    assert(i * 0xffff_ffff_ffff_ffff <= 0xffff_ffff_ffff_ffff
                        * 0xffff_ffff_ffff_ffff) by (nonlinear_arith)
                        requires
                            0 <= i <= 0xffff_ffff_ffff_ffff,
                    ;
                }
                if !same(fields[i].0.as_str(), "invert") {
                    let rows: usize = match fields[i].1.as_list() {
                        Some(items) => items.len(),
                        None => 1,
                    };
                    total = total + rows as u128;
                }
                proof {
                    assert((i + 1) * 0xffff_ffff_ffff_ffff == i * 0xffff_ffff_ffff_ffff
                        + 0xffff_ffff_ffff_ffff) by (nonlinear_arith);
                }
            }
            proof {
                assert(models.take(models.len() as int) =~= models);
            }
            if total == 0 {
                1
            } else {
                total
            }
        },
        _ => 1,
    }
}

/// The rows that a rule takes when it is shown, as far as they can be counted.
pub fn remote_rule_display_count(rule: &Json) -> (r: usize)
    ensures
        r == min_int(display_rows(rule@) as int, usize::MAX as int),
{
    let n = display_row_count(rule);
    if n > usize::MAX as u128 {
        usize::MAX
    } else {
        n as usize
    }
}

/// Whether the set is one of those that are shipped.
pub fn is_factory_set_id(id: &str) -> (r: bool)
    ensures
        r == (builtin_pos(id@) is Some),
{
    is_builtin_remote_id(id)
}

/// A rule of the general set that older versions shipped.
pub open spec fn general_rule(
    r: RuleModel,
    rule_type: RuleType,
    payload: Seq<char>,
    ord: i32,
) -> bool {
    &&& r.rule_type == rule_type
    &&& r.payload == trimmed(payload)
    &&& r.target == RuleTarget::Direct
    &&& r.ord == ord
    &&& r.enabled
    &&& r.id == short_hash(
        rule_text(
            rule_type,
            trimmed(payload),
            RuleTarget::Direct,
            None,
            Seq::empty(),
            Seq::empty(),
            None,
        ),
        12,
    )
}

/// The rules of the general set that older versions shipped.
pub fn default_rules() -> (r: Vec<Rule>)
    ensures
        r@.len() == 7,
        general_rule(r@[0]@, RuleType::DomainSuffix, "local"@, 10),
        general_rule(r@[1]@, RuleType::DomainSuffix, "localhost"@, 20),
        general_rule(r@[2]@, RuleType::IpCidr, "10.0.0.0/8"@, 30),
        general_rule(r@[3]@, RuleType::IpCidr, "172.16.0.0/12"@, 31),
        general_rule(r@[4]@, RuleType::IpCidr, "192.168.0.0/16"@, 32),
        general_rule(r@[5]@, RuleType::IpCidr, "127.0.0.0/8"@, 33),
        general_rule(r@[6]@, RuleType::DomainSuffix, "cn"@, 50),
{
    let mut v: Vec<Rule> = Vec::new();
    v.push(Rule::new(RuleType::DomainSuffix, "local".to_owned(), RuleTarget::Direct, 10));
    v.push(Rule::new(RuleType::DomainSuffix, "localhost".to_owned(), RuleTarget::Direct, 20));
    v.push(Rule::new(RuleType::IpCidr, "10.0.0.0/8".to_owned(), RuleTarget::Direct, 30));
    v.push(Rule::new(RuleType::IpCidr, "172.16.0.0/12".to_owned(), RuleTarget::Direct, 31));
    v.push(Rule::new(RuleType::IpCidr, "192.168.0.0/16".to_owned(), RuleTarget::Direct, 32));
    v.push(Rule::new(RuleType::IpCidr, "127.0.0.0/8".to_owned(), RuleTarget::Direct, 33));
    v.push(Rule::new(RuleType::DomainSuffix, "cn".to_owned(), RuleTarget::Direct, 50));
    v
}

/// The rules that the cores still take.
pub open spec fn supported(rules: Seq<RuleModel>) -> Seq<RuleModel> {
    rules.filter(|r: RuleModel| r.rule_type != RuleType::Geoip)
}

/// The rules without those that the cores no longer take.
pub fn sanitize_rules(rules: &[Rule]) -> (r: Vec<Rule>)
    ensures
        rule_views(r@) == supported(rule_views(rules@)),
{
    let ghost models = rule_views(rules@);
    let ghost keep = |r: RuleModel| r.rule_type != RuleType::Geoip;
    let mut out: Vec<Rule> = Vec::new();
    proof {
        reveal(Seq::filter);
        assert(rule_views(out@) =~= models.take(0).filter(keep));
    }
    for i in 0..rules.len()
        invariant
            models == rule_views(rules@),
            keep == (|r: RuleModel| r.rule_type != RuleType::Geoip),
            rule_views(out@) == models.take(i as int).filter(keep),
    {
        let ghost whole = models.take(i + 1);
        let ghost before = out@;
        proof {
            reveal(Seq::filter);
            assert(whole.drop_last() =~= models.take(i as int));
            assert(whole.last() == rules@[i as int]@);
        }
        if rules[i].rule_type != RuleType::Geoip {
            out.push(rules[i].clone());
            proof {
                assert(rule_views(out@) =~= rule_views(before).push(rules@[i as int]@));
            }
        }
    }
    proof {
        assert(models.take(models.len() as int) =~= models);
    }
    out
}

/// A rule as a line of a Clash list.
pub open spec fn clash_line(r: RuleModel) -> Seq<char> {
    let columns = r.rule_type.clash_name() + ","@ + trimmed(r.payload) + ","@
        + r.target.clash_name();
    if !r.enabled {
        "# disabled: "@ + columns
    } else if r.rule_type == RuleType::IpCidr {
        columns + ",no-resolve"@
    } else {
        columns
    }
}

pub open spec fn ord_keys(rules: Seq<RuleModel>) -> Seq<KeyModel> {
    Seq::new(rules.len(), |i: int| KeyModel { rank: rules[i].ord as int, name: Seq::empty() })
}

/// The lines of a list: its name, its format, and the rules in the order `p`.
pub open spec fn clash_list(name: Seq<char>, rules: Seq<RuleModel>, p: Seq<int>) -> Seq<
    Seq<char>,
> {
    seq![
        "# name: "@ + name,
        "# format: clash/shadowrocket DOMAIN-SUFFIX,host,DIRECT"@,
        Seq::empty(),
    ] + Seq::new(p.len(), |i: int| clash_line(rules[p[i]])) + seq![Seq::<char>::empty()]
}

fn clash_line_of(r: &Rule) -> (s: String)
    ensures
        s@ == clash_line(r@),
{
    let mut columns = concat3(r.clash_type_token(), ",", trim(r.payload.as_str()));
    columns.append(",");
    columns.append(r.target.clash_token());
    if !r.enabled {
        concat2("# disabled: ", columns.as_str())
    } else if r.rule_type == RuleType::IpCidr {
        concat2(columns.as_str(), ",no-resolve")
    } else {
        columns
    }
}

/// The rules as a Clash list: those that the cores still take, by `ord`, and in
/// the order of the set where that is equal.
pub fn format_clash_rules_list(set_name: &str, rules: &[Rule]) -> (r: String)
    ensures
        exists|p: Seq<int>|
            is_stable_order(ord_keys(supported(rule_views(rules@))), p) && r@ == joined(
                #[trigger] clash_list(set_name@, supported(rule_views(rules@)), p),
                "\n"@,
            ),
{
    let kept = sanitize_rules(rules);
    let ghost models = rule_views(kept@);
    let mut keys: Vec<SortKey> = Vec::new();
    for i in 0..kept.len()
        invariant
            keys@.len() == i,
            models == rule_views(kept@),
            forall|j: int| 0 <= j < i ==> (#[trigger] keys@[j])@ == ord_keys(models)[j],
    {
        let key = SortKey { rank: kept[i].ord as i128, name: String::new() };
        keys.push(key);
    }
    proof {
        assert(key_views(keys@) =~= ord_keys(models));
    }
    let order = stable_order(&keys);
    let ghost p = index_seq(order@);
    let mut lines: Vec<String> = Vec::new();
    lines.push(concat2("# name: ", set_name));
    lines.push("# format: clash/shadowrocket DOMAIN-SUFFIX,host,DIRECT".to_owned());
    lines.push(String::new());
    let ghost head = seq![
        "# name: "@ + set_name@,
        "# format: clash/shadowrocket DOMAIN-SUFFIX,host,DIRECT"@,
        Seq::<char>::empty(),
    ];
    proof {
        assert(views(lines@) =~= head + Seq::<Seq<char>>::empty());
    }
    for i in 0..order.len()
        invariant
            p == index_seq(order@),
            models == rule_views(kept@),
            is_stable_order(ord_keys(models), p),
            head.len() == 3,
            lines@.len() == 3 + i,
            forall|j: int| 0 <= j < 3 ==> (#[trigger] lines@[j])@ == head[j],
            forall|j: int|
                0 <= j < i ==> (#[trigger] lines@[3 + j])@ == clash_line(models[p[j]]),
    {
        proof {
            assert(0 <= p[i as int] < models.len());
            assert(p[i as int] == order@[i as int]);
        }
        lines.push(clash_line_of(&kept[order[i]]));
    }
    lines.push(String::new());
    proof {
        let list = clash_list(set_name@, models, p);
        assert forall|j: int| 0 <= j < list.len() implies views(lines@)[j] == list[j] by {
            if 3 <= j < 3 + p.len() {
                assert(lines@[3 + (j - 3)]@ == clash_line(models[p[j - 3]]));
            }
        }
        assert(views(lines@) =~= list);
    }
    join(&lines, "\n")
}

/// The ids of rules are hexadecimal, those of sets begin with `rs-` or `system-`: the selector
/// of a set never has the tag of that of a rule.
pub proof fn law_set_tags_are_not_rule_tags(set_id: Seq<char>, rule_bytes: Seq<u8>)
    requires
        is_ascii_chars(set_id),
        has_prefix(set_id, "rs-"@) || has_prefix(set_id, "system-"@),
        rule_bytes.len() > 0,
    ensures
        "smart-"@ + id_prefix(set_id) != "smart-"@ + id_prefix(hex(rule_bytes)),
{
    let rule_id = hex(rule_bytes);
    reveal_strlit("rs-");
    reveal_strlit("system-");
    assert("rs-"@[0] == 'r' && "system-"@[0] == 's');
    lemma_hex_ascii(rule_bytes);
    vstd::utf8::is_ascii_chars_encode_utf8(set_id);
    vstd::utf8::is_ascii_chars_encode_utf8(rule_id);
    lemma_ascii_cut(set_id, tag_len(set_id));
    lemma_ascii_cut(rule_id, tag_len(rule_id));
    let a = id_prefix(set_id);
    let b = id_prefix(rule_id);
    if has_prefix(set_id, "rs-"@) {
        assert(set_id.subrange(0, 3)[0] == "rs-"@[0]);
    } else {
        assert(set_id.subrange(0, 7)[0] == "system-"@[0]);
    }
    assert(a[0] == 'r' || a[0] == 's');
    let d = rule_bytes[0] as int / 16;
    assert(0 <= d < 16);
    assert(b[0] == hex_digit(d));
    if "smart-"@ + a == "smart-"@ + b {
        let n = "smart-"@.len() as int;
        assert(("smart-"@ + a)[n] == a[0]);
        assert(("smart-"@ + b)[n] == b[0]);
    }
}

proof fn lemma_tidy_words(raw: Seq<Seq<char>>)
    ensures
        forall|i: int|
            0 <= i < tidy_keywords(raw).len() ==> {
                let w = #[trigger] tidy_keywords(raw)[i];
                w.len() > 0 && trimmed(w) == w
            },
        forall|a: int, b: int|
            0 <= a < b < tidy_keywords(raw).len() ==> unicode_lowered(
                #[trigger] tidy_keywords(raw)[a],
            ) != unicode_lowered(#[trigger] tidy_keywords(raw)[b]),
    decreases raw.len(),
{
    if raw.len() > 0 {
        lemma_tidy_words(raw.drop_last());
        let before = tidy_keywords(raw.drop_last());
        let here = tidy_keywords(raw);
        let word = trimmed(raw.last());
        lemma_trimmed_twice(raw.last());
        assert forall|a: int, b: int| 0 <= a < b < here.len() implies unicode_lowered(
            #[trigger] here[a],
        ) != unicode_lowered(#[trigger] here[b]) by {
            if b == before.len() {
                assert(here[a] == before[a] && here[b] == word);
                if unicode_lowered(before[a]) == unicode_lowered(word) {
                    assert(holds_word(before, word));
                }
            } else {
                assert(here[a] == before[a] && here[b] == before[b]);
            }
        }
    }
}

proof fn lemma_tidy_is_kept(words: Seq<Seq<char>>)
    requires
        forall|i: int|
            0 <= i < words.len() ==> (#[trigger] words[i]).len() > 0 && trimmed(words[i])
                == words[i],
        forall|a: int, b: int|
            0 <= a < b < words.len() ==> unicode_lowered(#[trigger] words[a]) != unicode_lowered(
                #[trigger] words[b],
            ),
    ensures
        tidy_keywords(words) == words,
    decreases words.len(),
{
    if words.len() > 0 {
        let t = words.drop_last();
        assert forall|i: int| 0 <= i < t.len() implies (#[trigger] t[i]).len() > 0 && trimmed(t[i])
            == t[i] by {
            assert(t[i] == words[i]);
        }
        assert forall|a: int, b: int| 0 <= a < b < t.len() implies unicode_lowered(#[trigger] t[a])
            != unicode_lowered(#[trigger] t[b]) by {
            assert(t[a] == words[a] && t[b] == words[b]);
        }
        lemma_tidy_is_kept(t);
        let n = words.len() - 1;
        assert(words[n] == words.last());
        if holds_word(t, words.last()) {
            let i = choose|i: int|
                0 <= i < t.len() && unicode_lowered(#[trigger] t[i]) == unicode_lowered(
                    words.last(),
                );
            assert(t[i] == words[i]);
            assert(unicode_lowered(words[i]) != unicode_lowered(words[n]));
        }
        assert(t.push(words.last()) =~= words);
    }
}

/// Keywords that were tidied stay as they are, hold no blank one, and none twice in whatever
/// case.
pub proof fn law_tidy_keywords_settle(raw: Seq<Seq<char>>)
    ensures
        tidy_keywords(tidy_keywords(raw)) == tidy_keywords(raw),
        forall|i: int|
            0 <= i < tidy_keywords(raw).len() ==> (#[trigger] tidy_keywords(raw)[i]).len() > 0,
        forall|a: int, b: int|
            0 <= a < b < tidy_keywords(raw).len() ==> unicode_lowered(
                #[trigger] tidy_keywords(raw)[a],
            ) != unicode_lowered(#[trigger] tidy_keywords(raw)[b]),
{
    lemma_tidy_words(raw);
    lemma_tidy_is_kept(tidy_keywords(raw));
}

} // verus!
