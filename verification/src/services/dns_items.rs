//! The domains that a rule set names.

use crate::domain::rule::{rule_views, Rule, RuleModel, RuleSet, RuleType};
use crate::json::{json_views, Json, JsonModel};
use crate::text::{
    after_char, concat2, contains, holds_text, list_holds, lower, lowered, one_of, same, split_once,
    trim, trim_end_by, trim_end_set, trim_start_by, trim_start_set, trimmed, views,
};
use crate::web::{ascii_domain, to_ascii_domain};
use vstd::prelude::*;

verus! {

/// How a domain was named.
#[derive(Debug, Clone, Copy, PartialEq, Eq, Structural)]
pub enum ItemKind {
    Exact,
    Suffix,
    Keyword,
}

/// The domains that a rule set names.
#[derive(Debug)]
pub struct DomainItems {
    pub exact: Vec<String>,
    pub suffix: Vec<String>,
    pub keywords: Vec<String>,
}

pub struct ItemsModel {
    pub exact: Seq<Seq<char>>,
    pub suffix: Seq<Seq<char>>,
    pub keywords: Seq<Seq<char>>,
}

impl View for DomainItems {
    type V = ItemsModel;

    open spec fn view(&self) -> ItemsModel {
        ItemsModel {
            exact: views(self.exact@),
            suffix: views(self.suffix@),
            keywords: views(self.keywords@),
        }
    }
}

pub open spec fn no_items() -> ItemsModel {
    ItemsModel { exact: Seq::empty(), suffix: Seq::empty(), keywords: Seq::empty() }
}

impl ItemsModel {
    pub open spec fn is_empty(self) -> bool {
        self.exact.len() == 0 && self.suffix.len() == 0 && self.keywords.len() == 0
    }
}

/// The longest suffix of a domain that is named: the domain itself, or what follows one of
/// its dots.
pub open spec fn named_suffix(suffixes: Seq<Seq<char>>, domain: Seq<char>) -> Option<Seq<char>>
    decreases domain.len(),
    via named_suffix_decreases
{
    if suffixes.contains(domain) {
        Some(domain)
    } else if domain.contains('.') {
        named_suffix(suffixes, after_char(domain, '.'))
    } else {
        None
    }
}

#[via_fn]
proof fn named_suffix_decreases(suffixes: Seq<Seq<char>>, domain: Seq<char>) {
    if domain.contains('.') {
        crate::text::lemma_char_pos(domain, '.');
    }
}

/// The first keyword that stands in a domain.
pub open spec fn named_keyword(keywords: Seq<Seq<char>>, domain: Seq<char>) -> Option<Seq<char>>
    decreases keywords.len(),
{
    if keywords.len() == 0 {
        None
    } else {
        match named_keyword(keywords.drop_last(), domain) {
            Some(k) => Some(k),
            None => if holds_text(domain, keywords.last()) {
                Some(keywords.last())
            } else {
                None
            },
        }
    }
}

/// How the items name a domain: exactly, by a suffix, or by a keyword, in that order.
pub open spec fn item_hit(items: ItemsModel, domain: Seq<char>) -> Option<(ItemKind, Seq<char>)> {
    if items.exact.contains(domain) {
        Some((ItemKind::Exact, "精确 "@ + domain))
    } else {
        match named_suffix(items.suffix, domain) {
            Some(s) => Some((ItemKind::Suffix, "后缀 "@ + s)),
            None => match named_keyword(items.keywords, domain) {
                Some(k) => Some((ItemKind::Keyword, "关键词 "@ + k)),
                None => None,
            },
        }
    }
}

pub open spec fn hit_view(r: Option<(ItemKind, String)>) -> Option<(ItemKind, Seq<char>)> {
    match r {
        Some((k, s)) => Some((k, s@)),
        None => None,
    }
}

proof fn lemma_keyword_is_kept(keywords: Seq<Seq<char>>, domain: Seq<char>, n: int)
    requires
        0 <= n <= keywords.len(),
        named_keyword(keywords.take(n), domain) is Some,
    ensures
        named_keyword(keywords, domain) == named_keyword(keywords.take(n), domain),
    decreases keywords.len(),
{
    if n < keywords.len() {
        assert(keywords.drop_last().take(n) =~= keywords.take(n));
        lemma_keyword_is_kept(keywords.drop_last(), domain, n);
    } else {
        assert(keywords.take(n) =~= keywords);
    }
}

fn find_keyword(keywords: &Vec<String>, domain: &str) -> (r: Option<usize>)
    ensures
        match r {
            Some(i) => i < keywords@.len() && named_keyword(views(keywords@), domain@) == Some(
                keywords@[i as int]@,
            ),
            None => named_keyword(views(keywords@), domain@) is None,
        },
{
    let ghost all = views(keywords@);
    proof {
        assert(all.take(0) =~= Seq::empty());
    }
    for i in 0..keywords.len()
        invariant
            all == views(keywords@),
            named_keyword(all.take(i as int), domain@) is None,
    {
        proof {
            assert(all.take(i + 1).drop_last() =~= all.take(i as int));
            assert(all.take(i + 1).last() == keywords@[i as int]@);
        }
        if contains(domain, keywords[i].as_str()) {
            proof {
                lemma_keyword_is_kept(all, domain@, i + 1);
            }
            return Some(i);
        }
    }
    proof {
        assert(all.take(all.len() as int) =~= all);
    }
    None
}

impl DomainItems {
    pub fn new() -> (r: Self)
        ensures
            r@ == no_items(),
    {
        let d = DomainItems { exact: Vec::new(), suffix: Vec::new(), keywords: Vec::new() };
        proof {
            assert(d@.exact =~= Seq::empty());
            assert(d@.suffix =~= Seq::empty());
            assert(d@.keywords =~= Seq::empty());
        }
        d
    }

    pub fn is_empty(&self) -> (r: bool)
        ensures
            r == self@.is_empty(),
    {
        self.exact.len() == 0 && self.suffix.len() == 0 && self.keywords.len() == 0
    }

    /// How the items name a domain.
    pub fn match_domain(&self, domain: &str) -> (r: Option<(ItemKind, String)>)
        ensures
            hit_view(r) == item_hit(self@, domain@),
    {
        if list_holds(&self.exact, domain) {
            return Some((ItemKind::Exact, concat2("精确 ", domain)));
        }
        let mut rest: &str = domain;
        let mut more = true;
        while more
            invariant
                more ==> named_suffix(self@.suffix, domain@) == named_suffix(self@.suffix, rest@),
                !more ==> named_suffix(self@.suffix, domain@) is None,
                !self@.exact.contains(domain@),
            decreases rest@.len() + (if more {
                1int
            } else {
                0int
            }),
        {
            if list_holds(&self.suffix, rest) {
                return Some((ItemKind::Suffix, concat2("后缀 ", rest)));
            }
            match split_once(rest, '.') {
                Some((_, parent)) => {
                    proof {
                        crate::text::lemma_char_pos(rest@, '.');
                    }
                    rest = parent;
                },
                None => {
                    more = false;
                },
            }
        }
        match find_keyword(&self.keywords, domain) {
            Some(i) => Some((ItemKind::Keyword, concat2("关键词 ", self.keywords[i].as_str()))),
            None => None,
        }
    }
}

// ---------------------------------------------------------------------------
// Sets that are edited here
// ---------------------------------------------------------------------------
/// The rule counts: it is on, names something, and names no country.
pub open spec fn rule_counts(r: RuleModel) -> bool {
    r.enabled && trimmed(r.payload).len() > 0 && r.rule_type != RuleType::Geoip
}

/// The domain that a rule names: without stars and dots in front, in its ASCII form.
pub open spec fn plain_domain(payload: Seq<char>) -> Seq<char> {
    ascii_domain(trim_start_by(trimmed(payload), one_of(seq!['*', '.'])))
}

/// The items with those of one more rule. Rules on addresses and processes name no domain.
pub open spec fn with_rule(items: ItemsModel, r: RuleModel) -> ItemsModel {
    if !rule_counts(r) {
        items
    } else {
        match r.rule_type {
            RuleType::Domain => if plain_domain(r.payload).len() == 0 {
                items
            } else {
                ItemsModel { exact: items.exact.push(lowered(plain_domain(r.payload))), ..items }
            },
            RuleType::DomainSuffix => if plain_domain(r.payload).len() == 0 {
                items
            } else {
                ItemsModel { suffix: items.suffix.push(lowered(plain_domain(r.payload))), ..items }
            },
            RuleType::DomainKeyword => ItemsModel {
                keywords: items.keywords.push(trimmed(r.payload)),
                ..items
            },
            _ => items,
        }
    }
}

/// The domains that rules name.
pub open spec fn items_of_rules(rules: Seq<RuleModel>) -> ItemsModel
    decreases rules.len(),
{
    if rules.len() == 0 {
        no_items()
    } else {
        with_rule(items_of_rules(rules.drop_last()), rules.last())
    }
}

/// The domain that a rule names.
fn plain_domain_of(payload: &str) -> (r: String)
    ensures
        r@ == plain_domain(payload@),
{
    let marks = ['*', '.'];
    proof {
        assert(marks@ =~= seq!['*', '.']);
    }
    to_ascii_domain(trim_start_set(trim(payload), &marks))
}

/// Puts a text behind the others.
fn put(list: &mut Vec<String>, s: String)
    ensures
        views(final(list)@) == views(old(list)@).push(s@),
{
    let ghost before = list@;
    let ghost v = s@;
    list.push(s);
    proof {
        assert(views(list@) =~= views(before).push(v));
    }
}

fn add_rule(items: &mut DomainItems, rule: &Rule)
    ensures
        final(items)@ == with_rule(old(items)@, rule@),
{
    let payload = trim(rule.payload.as_str());
    if !rule.enabled || payload.is_empty() || rule.rule_type == RuleType::Geoip {
        return ;
    }
    match rule.rule_type {
        RuleType::Domain => {
            let d = plain_domain_of(rule.payload.as_str());
            if !d.as_str().is_empty() {
                put(&mut items.exact, lower(d.as_str()));
            }
        },
        RuleType::DomainSuffix => {
            let d = plain_domain_of(rule.payload.as_str());
            if !d.as_str().is_empty() {
                put(&mut items.suffix, lower(d.as_str()));
            }
        },
        RuleType::DomainKeyword => {
            put(&mut items.keywords, payload.to_owned());
        },
        _ => {},
    }
}

/// The domains that a set which is edited here names.
pub fn local_set_items(set: &RuleSet) -> (r: DomainItems)
    ensures
        r@ == items_of_rules(rule_views(set.rules@)),
{
    let ghost models = rule_views(set.rules@);
    let mut items = DomainItems::new();
    proof {
        assert(models.take(0) =~= Seq::empty());
    }
    for i in 0..set.rules.len()
        invariant
            models == rule_views(set.rules@),
            items@ == items_of_rules(models.take(i as int)),
    {
        proof {
            assert(models.take(i + 1).drop_last() =~= models.take(i as int));
            assert(models.take(i + 1).last() == set.rules@[i as int]@);
        }
        add_rule(&mut items, &set.rules[i]);
    }
    proof {
        assert(models.take(models.len() as int) =~= models);
    }
    items
}

// ---------------------------------------------------------------------------
// Sets that were downloaded
// ---------------------------------------------------------------------------
/// The texts of a list.
pub open spec fn texts_of(v: Seq<JsonModel>) -> Seq<Seq<char>>
    decreases v.len(),
{
    if v.len() == 0 {
        Seq::empty()
    } else {
        let before = texts_of(v.drop_last());
        match v.last().text() {
            Some(s) => before.push(s),
            None => before,
        }
    }
}

/// The texts of a field that is a list.
pub open spec fn field_texts(v: JsonModel) -> Seq<Seq<char>> {
    match v.list() {
        Some(items) => texts_of(items),
        None => Seq::empty(),
    }
}

pub open spec fn all_lowered(v: Seq<Seq<char>>) -> Seq<Seq<char>> {
    Seq::new(v.len(), |i: int| lowered(v[i]))
}

/// The domain of a line of an ad filter: without the bars in front and the mark behind.
pub open spec fn filter_domain(line: Seq<char>) -> Seq<char> {
    lowered(
        trimmed(trim_end_by(trim_start_by(line, one_of(seq!['|'])), one_of(seq!['^']))),
    )
}

/// The domains of lines of an ad filter.
pub open spec fn filter_domains(lines: Seq<Seq<char>>) -> Seq<Seq<char>>
    decreases lines.len(),
{
    if lines.len() == 0 {
        Seq::empty()
    } else {
        let before = filter_domains(lines.drop_last());
        let d = filter_domain(lines.last());
        if d.len() == 0 {
            before
        } else {
            before.push(d)
        }
    }
}

/// The items of a set so far, and whether they are only about right.
pub struct Gathered {
    pub items: ItemsModel,
    pub approx: bool,
}

/// With one more field of a rule.
pub open spec fn with_field(g: Gathered, name: Seq<char>, value: JsonModel) -> Gathered {
    let texts = field_texts(value);
    if name == "domain"@ {
        Gathered {
            items: ItemsModel { exact: g.items.exact + all_lowered(texts), ..g.items },
            ..g
        }
    } else if name == "domain_suffix"@ {
        Gathered {
            items: ItemsModel { suffix: g.items.suffix + all_lowered(texts), ..g.items },
            ..g
        }
    } else if name == "domain_keyword"@ {
        Gathered { items: ItemsModel { keywords: g.items.keywords + texts, ..g.items }, ..g }
    } else if name == "domain_regex"@ {
        Gathered { approx: true, ..g }
    } else if name == "ad_guard_domain"@ {
        Gathered {
            items: ItemsModel { suffix: g.items.suffix + filter_domains(texts), ..g.items },
            approx: true,
        }
    } else {
        g
    }
}

pub open spec fn with_fields(g: Gathered, fields: Seq<(Seq<char>, JsonModel)>) -> Gathered
    decreases fields.len(),
{
    if fields.len() == 0 {
        g
    } else {
        with_field(with_fields(g, fields.drop_last()), fields.last().0, fields.last().1)
    }
}

pub open spec fn any_address_type(v: Seq<JsonModel>) -> bool {
    exists|i: int| 0 <= i < v.len() && #[trigger] v[i] == JsonModel::Number(Some(1))
}

/// The rule is about other queries than those for addresses.
pub open spec fn other_queries(rule: JsonModel) -> bool {
    match rule.field("query_type"@) {
        Some(q) => match q.list() {
            Some(types) => !any_address_type(types),
            None => false,
        },
        None => false,
    }
}

/// The rule joins others, or is turned round.
pub open spec fn is_compound(rule: JsonModel) -> bool {
    rule.field("type"@) is Some || rule.field("invert"@) == Some(JsonModel::Bool(true))
}

/// With one more rule of a downloaded set.
pub open spec fn with_remote_rule(g: Gathered, rule: JsonModel) -> Gathered {
    match rule {
        JsonModel::Object(fields) => {
            let h = Gathered { approx: g.approx || is_compound(rule), ..g };
            if other_queries(rule) {
                h
            } else {
                with_fields(h, fields)
            }
        },
        _ => g,
    }
}

pub open spec fn with_remote_rules(g: Gathered, rules: Seq<JsonModel>) -> Gathered
    decreases rules.len(),
{
    if rules.len() == 0 {
        g
    } else {
        with_remote_rule(with_remote_rules(g, rules.drop_last()), rules.last())
    }
}

/// The domains that a downloaded set names, and whether they are only about right; nothing
/// without rules.
pub open spec fn remote_items(source: JsonModel) -> Option<Gathered> {
    match source.field("rules"@) {
        Some(r) => match r.list() {
            Some(rules) => Some(
                with_remote_rules(Gathered { items: no_items(), approx: false }, rules),
            ),
            None => None,
        },
        None => None,
    }
}

/// The texts of a field that is a list.
fn texts_in(value: &Json) -> (r: Vec<String>)
    ensures
        views(r@) == field_texts(value@),
{
    let mut out: Vec<String> = Vec::new();
    proof {
        assert(views(out@) =~= Seq::empty());
    }
    if let Some(items) = value.as_list() {
        let ghost models = json_views(items@);
        proof {
            assert(models.take(0) =~= Seq::empty());
        }
        for i in 0..items.len()
            invariant
                models == json_views(items@),
                views(out@) == texts_of(models.take(i as int)),
        {
            proof {
                assert(models.take(i + 1).drop_last() =~= models.take(i as int));
                assert(models.take(i + 1).last() == items@[i as int]@);
            }
            if let Some(s) = items[i].as_text() {
                put(&mut out, s.to_owned());
            }
        }
        proof {
            assert(models.take(models.len() as int) =~= models);
        }
    }
    out
}

fn put_lowered(list: &mut Vec<String>, texts: &Vec<String>)
    ensures
        views(final(list)@) == views(old(list)@) + all_lowered(views(texts@)),
{
    let ghost start = views(list@);
    let ghost all = all_lowered(views(texts@));
    proof {
        assert(start + all.take(0) =~= start);
    }
    for i in 0..texts.len()
        invariant
            all == all_lowered(views(texts@)),
            views(list@) == start + all.take(i as int),
    {
        put(list, lower(texts[i].as_str()));
        proof {
            assert(start + all.take(i + 1) =~= (start + all.take(i as int)).push(all[i as int]));
        }
    }
    proof {
        assert(all.take(all.len() as int) =~= all);
    }
}

fn put_all(list: &mut Vec<String>, texts: &Vec<String>)
    ensures
        views(final(list)@) == views(old(list)@) + views(texts@),
{
    let ghost start = views(list@);
    let ghost all = views(texts@);
    proof {
        assert(start + all.take(0) =~= start);
    }
    for i in 0..texts.len()
        invariant
            all == views(texts@),
            views(list@) == start + all.take(i as int),
    {
        put(list, texts[i].clone());
        proof {
            assert(start + all.take(i + 1) =~= (start + all.take(i as int)).push(all[i as int]));
        }
    }
    proof {
        assert(all.take(all.len() as int) =~= all);
    }
}

fn put_filter_domains(list: &mut Vec<String>, lines: &Vec<String>)
    ensures
        views(final(list)@) == views(old(list)@) + filter_domains(views(lines@)),
{
    let ghost start = views(list@);
    let ghost all = views(lines@);
    proof {
        assert(all.take(0) =~= Seq::empty());
        assert(start + filter_domains(all.take(0)) =~= start);
    }
    let bar = ['|'];
    let mark = ['^'];
    proof {
        assert(bar@ =~= seq!['|']);
        assert(mark@ =~= seq!['^']);
    }
    for i in 0..lines.len()
        invariant
            bar@ == seq!['|'],
            mark@ == seq!['^'],
            all == views(lines@),
            views(list@) == start + filter_domains(all.take(i as int)),
    {
        proof {
            assert(all.take(i + 1).drop_last() =~= all.take(i as int));
            assert(all.take(i + 1).last() == lines@[i as int]@);
        }
        let d = lower(trim(trim_end_set(trim_start_set(lines[i].as_str(), &bar), &mark)));
        if !d.as_str().is_empty() {
            let ghost v = d@;
            put(list, d);
            proof {
                assert(start + filter_domains(all.take(i + 1)) =~= (start + filter_domains(
                    all.take(i as int),
                )).push(v));
            }
        }
    }
    proof {
        assert(all.take(all.len() as int) =~= all);
    }
}

/// Takes the domains of one field over.
fn add_field(items: &mut DomainItems, approx: &mut bool, name: &str, value: &Json)
    ensures
        (Gathered { items: final(items)@, approx: *final(approx) }) == with_field(
            Gathered { items: old(items)@, approx: *old(approx) },
            name@,
            value@,
        ),
{
    let texts = texts_in(value);
    if same(name, "domain") {
        put_lowered(&mut items.exact, &texts);
    } else if same(name, "domain_suffix") {
        put_lowered(&mut items.suffix, &texts);
    } else if same(name, "domain_keyword") {
        put_all(&mut items.keywords, &texts);
    } else if same(name, "domain_regex") {
        *approx = true;
    } else if same(name, "ad_guard_domain") {
        put_filter_domains(&mut items.suffix, &texts);
        *approx = true;
    }
}

fn is_other_query(rule: &Json) -> (r: bool)
    ensures
        r == other_queries(rule@),
{
    if let Some(q) = rule.get("query_type") {
        if let Some(types) = q.as_list() {
            let ghost models = json_views(types@);
            for i in 0..types.len()
                invariant
                    models == json_views(types@),
                    rule@.field("query_type"@) == Some(q@),
                    q@.list() == Some(models),
                    forall|j: int|
                        0 <= j < i ==> #[trigger] models[j] != JsonModel::Number(Some(1)),
            {
                let is_one = match &types[i] {
                    Json::Number(Some(n)) => *n == 1,
                    _ => false,
                };
                proof {
                    assert(models[i as int] == types@[i as int]@);
                }
                if is_one {
                    return false;
                }
            }
            return true;
        }
    }
    false
}

/// Takes the domains of one rule of a downloaded set over. What the rule names by patterns,
/// by other rules or by its turning round cannot be told exactly: `approx` says so. A rule
/// about other queries than those for addresses names none.
pub fn collect_remote_rule_items(rule: &Json, items: &mut DomainItems, approx: &mut bool)
    ensures
        (Gathered { items: final(items)@, approx: *final(approx) }) == with_remote_rule(
            Gathered { items: old(items)@, approx: *old(approx) },
            rule@,
        ),
{
    let fields = match rule {
        Json::Object(fields) => fields,
        _ => {
            return ;
        },
    };
    let ghost models = rule@->Object_0;
    if rule.get("type").is_some() {
        *approx = true;
    }
    let inverted = match rule.get("invert") {
        Some(Json::Bool(b)) => *b,
        _ => false,
    };
    if inverted {
        *approx = true;
    }
    if is_other_query(rule) {
        return ;
    }
    let ghost start = Gathered { items: items@, approx: *approx };
    proof {
        assert(models.take(0) =~= Seq::empty());
    }
    for i in 0..fields.len()
        invariant
            models.len() == fields@.len(),
            forall|j: int|
                0 <= j < fields@.len() ==> #[trigger] models[j] == (
                    fields@[j].0@,
                    fields@[j].1@,
                ),
            (Gathered { items: items@, approx: *approx }) == with_fields(
                start,
                models.take(i as int),
            ),
    {
        proof {
            assert(models.take(i + 1).drop_last() =~= models.take(i as int));
            assert(models.take(i + 1).last() == models[i as int]);
        }
        add_field(items, approx, fields[i].0.as_str(), &fields[i].1);
    }
    proof {
        assert(models.take(models.len() as int) =~= models);
    }
}

/// The domains that a downloaded set names, and whether they are only about right.
pub fn load_items(source: &Json) -> (r: Option<(DomainItems, bool)>)
    ensures
        match r {
            Some((items, approx)) => remote_items(source@) == Some(
                Gathered { items: items@, approx },
            ),
            None => remote_items(source@) is None,
        },
{
    let rules = match source.get("rules") {
        Some(r) => match r.as_list() {
            Some(v) => v,
            None => {
                return None;
            },
        },
        None => {
            return None;
        },
    };
    let ghost models = json_views(rules@);
    let ghost start = Gathered { items: no_items(), approx: false };
    let mut items = DomainItems::new();
    let mut approx = false;
    proof {
        assert(models.take(0) =~= Seq::empty());
    }
    for i in 0..rules.len()
        invariant
            models == json_views(rules@),
            (Gathered { items: items@, approx }) == with_remote_rules(
                start,
                models.take(i as int),
            ),
    {
        proof {
            assert(models.take(i + 1).drop_last() =~= models.take(i as int));
            assert(models.take(i + 1).last() == rules@[i as int]@);
        }
        collect_remote_rule_items(&rules[i], &mut items, &mut approx);
    }
    proof {
        assert(models.take(models.len() as int) =~= models);
    }
    Some((items, approx))
}

} // verus!
