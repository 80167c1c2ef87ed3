//! Rule sets that are downloaded: when, what is accepted, and what is kept of it.

use crate::clock::{elapsed, since};
use crate::domain::rule::{
    any_holds_ip_cidr, display_rows, interval_secs, remote_rule_display_count,
    remote_update_interval_secs, rules_contain_ip_cidr, RemoteRuleSetConfig, RuleSet,
};
use crate::error::{AppError, ErrorModel};
use crate::json::{json_parsed, json_views, parse_bytes, Json, JsonModel};
use crate::text::{
    chars_of, clone_opt, concat2, concat3, min_int, opt_view, same, signed_decimal,
    signed_decimal_of, trim, trimmed, views,
};
use vstd::prelude::*;

verus! {

/// A downloaded set is at most this large, in bytes.
pub const MAX_BYTES: usize = 33554432;

/// Seconds between two looks for sets that are due.
pub const TICK_SECS: u64 = 60;

/// How many sets are downloaded at a time.
pub const AUTO_UPDATE_CONCURRENCY: usize = 3;

// ---------------------------------------------------------------------------
// Downloads under way
// ---------------------------------------------------------------------------
/// The sets that are being downloaded, by their ids.
#[derive(Debug)]
pub struct ActiveDownloads {
    pub ids: Vec<String>,
}

impl View for ActiveDownloads {
    type V = Set<Seq<char>>;

    open spec fn view(&self) -> Set<Seq<char>> {
        views(self.ids@).to_set()
    }
}

fn find_text(v: &Vec<String>, s: &str) -> (r: Option<usize>)
    ensures
        match r {
            Some(i) => i < v@.len() && v@[i as int]@ == s@,
            None => !views(v@).contains(s@),
        },
{
    for i in 0..v.len()
        invariant
            forall|j: int| 0 <= j < i ==> (#[trigger] v@[j])@ != s@,
    {
        if same(v[i].as_str(), s) {
            return Some(i);
        }
    }
    proof {
        if views(v@).contains(s@) {
            let j = choose|j: int| 0 <= j < views(v@).len() && views(v@)[j] == s@;
            assert(v@[j]@ == s@);
        }
    }
    None
}

impl ActiveDownloads {
    /// No set is in the list twice.
    pub open spec fn wf(self) -> bool {
        views(self.ids@).no_duplicates()
    }

    pub fn new() -> (r: Self)
        ensures
            r.wf(),
            r@ == Set::<Seq<char>>::empty(),
    {
        let d = ActiveDownloads { ids: Vec::new() };
        proof {
            assert(views(d.ids@) =~= Seq::empty());
            assert(d@ =~= Set::empty());
        }
        d
    }

    /// Begins a download; one that is under way is refused.
    pub fn acquire(&mut self, id: &str) -> (r: Result<(), String>)
        requires
            old(self).wf(),
        ensures
            final(self).wf(),
            r is Err <==> old(self)@.contains(id@),
            r is Err ==> r->Err_0@ == "该远程规则集正在下载"@,
            final(self)@ == old(self)@.insert(id@),
    {
        let ghost before = views(self.ids@);
        if find_text(&self.ids, id).is_some() {
            proof {
                let j = choose|j: int| 0 <= j < self.ids@.len() && self.ids@[j]@ == id@;
                assert(before[j] == id@);
                assert(self@.insert(id@) =~= self@);
            }
            return Err("该远程规则集正在下载".to_owned());
        }
        self.ids.push(id.to_owned());
        proof {
            let after = views(self.ids@);
            assert(after =~= before.push(id@));
            assert forall|x: Seq<char>| after.to_set().contains(x) <==> before.to_set().insert(
                id@,
            ).contains(x) by {
                if after.contains(x) {
                    let i = choose|i: int| 0 <= i < after.len() && after[i] == x;
                    if i < before.len() {
                        assert(before[i] == x);
                    }
                }
                if before.contains(x) {
                    let i = choose|i: int| 0 <= i < before.len() && before[i] == x;
                    assert(after[i] == x);
                }
                assert(after[before.len() as int] == id@);
            }
            assert(after.to_set() =~= before.to_set().insert(id@));
        }
        Ok(())
    }

    /// Ends a download.
    pub fn release(&mut self, id: &str)
        requires
            old(self).wf(),
        ensures
            final(self).wf(),
            final(self)@ == old(self)@.remove(id@),
    {
        let ghost before = views(self.ids@);
        match find_text(&self.ids, id) {
            Some(i) => {
                let _ = self.ids.remove(i);
                proof {
                    let after = views(self.ids@);
                    assert(after =~= before.remove(i as int));
                    assert(before[i as int] == id@);
                    assert forall|x: Seq<char>| after.to_set().contains(
                        x,
                    ) <==> before.to_set().remove(id@).contains(x) by {
                        if after.contains(x) {
                            let j = choose|j: int| 0 <= j < after.len() && after[j] == x;
                            let k = if j < i {
                                j
                            } else {
                                j + 1
                            };
                            assert(before[k] == x);
                        }
                        if before.contains(x) && x != id@ {
                            let j = choose|j: int| 0 <= j < before.len() && before[j] == x;
                            let k = if j < i {
                                j
                            } else {
                                j - 1
                            };
                            assert(after[k] == x);
                        }
                    }
                    assert(after.to_set() =~= before.to_set().remove(id@));
                    assert(after.no_duplicates());
                }
            },
            None => {
                proof {
                    assert(self@.remove(id@) =~= self@);
                }
            },
        }
    }
}

/// A download that ended can begin again, and leaves the others as they were.
pub proof fn law_release_undoes_acquire(active: Set<Seq<char>>, id: Seq<char>)
    requires
        !active.contains(id),
    ensures
        active.insert(id).remove(id) == active,
{
    assert(active.insert(id).remove(id) =~= active);
}

// ---------------------------------------------------------------------------
// What is accepted
// ---------------------------------------------------------------------------
#[derive(Debug, Clone, Copy, PartialEq, Eq, Structural)]
pub enum RuleSetFileFormat {
    Source,
    Binary,
}

impl RuleSetFileFormat {
    pub open spec fn name(self) -> Seq<char> {
        match self {
            RuleSetFileFormat::Source => "source"@,
            RuleSetFileFormat::Binary => "binary"@,
        }
    }

    pub open spec fn ending(self) -> Seq<char> {
        match self {
            RuleSetFileFormat::Source => "json"@,
            RuleSetFileFormat::Binary => "srs"@,
        }
    }

    pub fn as_str(self) -> (r: &'static str)
        ensures
            r@ == self.name(),
    {
        match self {
            RuleSetFileFormat::Source => "source",
            RuleSetFileFormat::Binary => "binary",
        }
    }

    pub fn extension(self) -> (r: &'static str)
        ensures
            r@ == self.ending(),
    {
        match self {
            RuleSetFileFormat::Source => "json",
            RuleSetFileFormat::Binary => "srs",
        }
    }
}

/// The rows that rules take when they are shown, each as far as it can be counted.
pub open spec fn rows_of_rules(rules: Seq<JsonModel>) -> int
    decreases rules.len(),
{
    if rules.len() == 0 {
        0
    } else {
        rows_of_rules(rules.drop_last()) + min_int(
            display_rows(rules.last()) as int,
            usize::MAX as int,
        )
    }
}

/// What is read off a set that was parsed: its rows, and whether it holds addresses.
pub open spec fn scan_of(parsed: Result<JsonModel, Seq<char>>) -> Result<(u32, bool), Seq<char>> {
    match parsed {
        Err(e) => Err("远程规则集不是有效的 sing-box source JSON: "@ + e),
        Ok(v) => match rules_of(v) {
            None => Err("远程规则集缺少 rules 数组"@),
            Some(rules) => if rules.len() == 0 {
                Err("远程规则集 rules 为空"@)
            } else if rows_of_rules(rules) > u32::MAX {
                Err("远程规则集条目数量过多"@)
            } else {
                Ok((rows_of_rules(rules) as u32, any_holds_ip_cidr(rules)))
            },
        },
    }
}

/// The rules of a set.
pub open spec fn rules_of(v: JsonModel) -> Option<Seq<JsonModel>> {
    match v.field("rules"@) {
        Some(r) => r.list(),
        None => None,
    }
}

/// The result, with its text taken by its view.
pub open spec fn scan_view(r: Result<(u32, bool), String>) -> Result<(u32, bool), Seq<char>> {
    match r {
        Ok(x) => Ok(x),
        Err(s) => Err(s@),
    }
}

pub open spec fn parsed_view(r: Result<Json, String>) -> Result<JsonModel, Seq<char>> {
    match r {
        Ok(x) => Ok(x@),
        Err(s) => Err(s@),
    }
}

proof fn lemma_rows_grow(rules: Seq<JsonModel>, n: int)
    requires
        0 <= n <= rules.len(),
    ensures
        0 <= rows_of_rules(rules.take(n)) <= rows_of_rules(rules),
    decreases rules.len(),
{
    if n < rules.len() {
        assert(rules.drop_last().take(n) =~= rules.take(n));
        lemma_rows_grow(rules.drop_last(), n);
    } else {
        assert(rules.take(n) =~= rules);
        if rules.len() > 0 {
            lemma_rows_grow(rules.drop_last(), n - 1);
            assert(rules.drop_last().take(n - 1) =~= rules.drop_last());
        }
    }
}

/// The rows of rules, where they fit.
fn count_rows(rules: &Vec<Json>) -> (r: Option<u32>)
    ensures
        match r {
            Some(n) => n == rows_of_rules(json_views(rules@)),
            None => rows_of_rules(json_views(rules@)) > u32::MAX,
        },
{
    let ghost models = json_views(rules@);
    let mut total: u32 = 0;
    proof {
        assert(models.take(0) =~= Seq::empty());
    }
    for i in 0..rules.len()
        invariant
            models == json_views(rules@),
            total == rows_of_rules(models.take(i as int)),
    {
        proof {
            assert(models.take(i + 1).drop_last() =~= models.take(i as int));
            assert(models.take(i + 1).last() == rules@[i as int]@);
            lemma_rows_grow(models, i + 1);
        }
        let rows: usize = remote_rule_display_count(&rules[i]);
        if rows > (u32::MAX - total) as usize {
            return None;
        }
        total = total + rows as u32;
    }
    proof {
        assert(models.take(models.len() as int) =~= models);
    }
    Some(total)
}

/// What is read off a set that was parsed.
pub fn scan_parsed(parsed: Result<Json, String>) -> (r: Result<(u32, bool), String>)
    ensures
        scan_view(r) == scan_of(parsed_view(parsed)),
{
    let value = match parsed {
        Ok(v) => v,
        Err(e) => {
            return Err(concat2("远程规则集不是有效的 sing-box source JSON: ", e.as_str()));
        },
    };
    let rules = match value.get("rules") {
        Some(r) => match r.as_list() {
            Some(rules) => rules,
            None => {
                return Err("远程规则集缺少 rules 数组".to_owned());
            },
        },
        None => {
            return Err("远程规则集缺少 rules 数组".to_owned());
        },
    };
    if rules.len() == 0 {
        return Err("远程规则集 rules 为空".to_owned());
    }
    match count_rows(rules) {
        Some(n) => Ok((n, rules_contain_ip_cidr(rules))),
        None => Err("远程规则集条目数量过多".to_owned()),
    }
}

/// What is read off a set in the source format: its rows, and whether it holds addresses.
pub fn validate_source(bytes: &[u8]) -> (r: Result<(u32, bool), String>)
    ensures
        scan_view(r) == scan_of(json_parsed(bytes@)),
{
    scan_parsed(parse_bytes(bytes))
}

/// Whether a parsed set holds addresses, where that can be told.
pub open spec fn verdict_of(parsed: Result<JsonModel, Seq<char>>) -> Option<bool> {
    match parsed {
        Err(_) => None,
        Ok(v) => match rules_of(v) {
            Some(rules) if rules.len() > 0 => Some(any_holds_ip_cidr(rules)),
            _ => None,
        },
    }
}

/// Whether a parsed set holds addresses, where that can be told.
pub fn parsed_contains_ip(parsed: Result<Json, String>) -> (r: Option<bool>)
    ensures
        r == verdict_of(parsed_view(parsed)),
{
    match parsed {
        Ok(value) => {
            if let Some(r) = value.get("rules") {
                if let Some(rules) = r.as_list() {
                    if rules.len() > 0 {
                        return Some(rules_contain_ip_cidr(rules));
                    }
                }
            }
            None
        },
        Err(_) => None,
    }
}

/// Whether a cached set in the source format holds addresses, where that can be told.
pub fn source_cache_contains_ip(bytes: &[u8]) -> (r: Option<bool>)
    ensures
        r == verdict_of(json_parsed(bytes@)),
{
    parsed_contains_ip(parse_bytes(bytes))
}

/// Where a set is accepted, a later look at its file comes to the same verdict.
pub proof fn law_cache_verdict_is_that_of_the_download(parsed: Result<JsonModel, Seq<char>>)
    requires
        scan_of(parsed) is Ok,
    ensures
        verdict_of(parsed) == Some(scan_of(parsed)->Ok_0.1),
{
}

/// What the structure of a binary set says.
#[derive(Debug, Clone, Copy, PartialEq, Eq)]
pub struct BinaryScan {
    pub display_count: u32,
    /// It holds lines of an ad filter, which the core cannot take apart.
    pub has_adguard: bool,
}

/// The bytes begin as a binary set does.
pub open spec fn begins_binary(bytes: Seq<u8>) -> bool {
    bytes.len() >= 3 && bytes[0] == 0x53 && bytes[1] == 0x52 && bytes[2] == 0x53
}

pub fn is_binary_set(bytes: &[u8]) -> (r: bool)
    ensures
        r == begins_binary(bytes@),
{
    bytes.len() >= 3 && bytes[0] == 0x53 && bytes[1] == 0x52 && bytes[2] == 0x53
}

/// What is said where neither the proxy nor the direct way worked.
pub fn both_ways_failed(first: &str, second: &str) -> (r: String)
    ensures
        r@ == "代理下载失败: "@ + first@ + "; 直连下载失败: "@ + second@,
{
    let mut s = concat3("代理下载失败: ", first, "; 直连下载失败: ");
    s.append(second);
    s
}

// ---------------------------------------------------------------------------
// The files
// ---------------------------------------------------------------------------
pub open spec fn is_safe_char(c: char) -> bool {
    ('a' <= c && c <= 'z') || ('A' <= c && c <= 'Z') || ('0' <= c && c <= '9') || c == '-' || c
        == '_'
}

/// The id with other characters than letters, digits, `-` and `_` replaced.
pub open spec fn safe_name(id: Seq<char>) -> Seq<char> {
    Seq::new(
        id.len(),
        |i: int|
            if is_safe_char(id[i]) {
                id[i]
            } else {
                '_'
            },
    )
}

/// The name of the file that a download is kept in.
pub fn cache_file_name(id: &str, attempt: i64, format: RuleSetFileFormat) -> (r: String)
    ensures
        r@ == safe_name(id@) + "-"@ + signed_decimal(attempt as int) + "."@ + format.ending(),
{
    let v = chars_of(id);
    let mut s = String::new();
    for i in 0..v.len()
        invariant
            v@ == id@,
            s@ == safe_name(id@).take(i as int),
    {
        let c: char = v[i];
        let safe = ('a' <= c && c <= 'z') || ('A' <= c && c <= 'Z') || ('0' <= c && c <= '9') || c
            == '-' || c == '_';
        if safe {
            s.push(c);
        } else {
            s.push('_');
        }
        proof {
            assert(s@ =~= safe_name(id@).take(i + 1));
        }
    }
    proof {
        assert(safe_name(id@).take(id@.len() as int) =~= safe_name(id@));
    }
    s.append("-");
    s.append(signed_decimal_of(attempt).as_str());
    s.append(".");
    s.append(format.extension());
    s
}

/// A file among the downloads.
#[derive(Debug)]
pub struct CacheEntry {
    pub path: String,
    pub extension: Option<String>,
    /// Some rule set refers to it.
    pub referenced: bool,
    pub is_file: bool,
}

/// A download that no rule set refers to.
pub open spec fn is_orphan(e: CacheEntry) -> bool {
    &&& opt_view(e.extension) == Some("json"@) || opt_view(e.extension) == Some("srs"@)
    &&& !e.referenced
    &&& e.is_file
}

pub open spec fn orphan() -> spec_fn(CacheEntry) -> bool {
    |e: CacheEntry| is_orphan(e)
}

/// The files among the downloads that no rule set refers to.
pub fn orphaned_files(entries: &Vec<CacheEntry>) -> (r: Vec<String>)
    ensures
        ({
            let gone = entries@.filter(orphan());
            r@.len() == gone.len() && forall|i: int|
                0 <= i < gone.len() ==> (#[trigger] r@[i])@ == gone[i].path@
        }),
{
    let ghost p = orphan();
    let mut out: Vec<String> = Vec::new();
    proof {
        reveal(Seq::filter);
        assert(entries@.take(0).filter(p) =~= Seq::empty());
    }
    for i in 0..entries.len()
        invariant
            p == orphan(),
            out@.len() == entries@.take(i as int).filter(p).len(),
            forall|j: int|
                0 <= j < out@.len() ==> (#[trigger] out@[j])@ == entries@.take(i as int).filter(
                    p,
                )[j].path@,
    {
        let e = &entries[i];
        proof {
            reveal(Seq::filter);
            assert(entries@.take(i + 1).drop_last() =~= entries@.take(i as int));
            assert(entries@.take(i + 1).last() == *e);
        }
        let cached = match &e.extension {
            Some(x) => same(x.as_str(), "json") || same(x.as_str(), "srs"),
            None => false,
        };
        if cached && !e.referenced && e.is_file {
            out.push(e.path.clone());
        }
    }
    proof {
        assert(entries@.take(entries@.len() as int) =~= entries@);
    }
    out
}

/// The old file of a set is removed once the new one is applied, where it is another one and
/// lies among the downloads.
pub fn old_file(old_path: Option<String>, new_path: &str, among_downloads: bool) -> (r: Option<
    String,
>)
    ensures
        r == match old_path {
            Some(p) if p@ != new_path@ && among_downloads => Some(p),
            _ => None,
        },
{
    match old_path {
        Some(p) => {
            if !same(p.as_str(), new_path) && among_downloads {
                Some(p)
            } else {
                None
            }
        },
        None => None,
    }
}

// ---------------------------------------------------------------------------
// The sets
// ---------------------------------------------------------------------------
/// The set is due for a download.
pub open spec fn is_due(s: RuleSet, now: i64) -> bool {
    match s.remote {
        None => false,
        Some(r) => match interval_secs(r.update_interval@) {
            None => false,
            Some(secs) => r.download_status@ == "downloading"@ || r.local_path is None || elapsed(
                now,
                match r.last_attempt {
                    Some(t) => t,
                    None => 0,
                },
            ) >= secs,
        },
    }
}

pub open spec fn due_at(now: i64) -> spec_fn(RuleSet) -> bool {
    |s: RuleSet| is_due(s, now)
}

fn due(s: &RuleSet, now: i64) -> (r: bool)
    ensures
        r == is_due(*s, now),
{
    match &s.remote {
        None => false,
        Some(remote) => match remote_update_interval_secs(remote.update_interval.as_str()) {
            None => false,
            Some(secs) => {
                let last: i64 = match remote.last_attempt {
                    Some(t) => t,
                    None => 0,
                };
                same(remote.download_status.as_str(), "downloading")
                    || remote.local_path.is_none() || since(now, last) >= secs
            },
        },
    }
}

/// The sets that are due for a download, by their ids.
pub fn due_ids(sets: &Vec<RuleSet>, now: i64) -> (r: Vec<String>)
    ensures
        ({
            let d = sets@.filter(due_at(now));
            r@.len() == d.len() && forall|i: int|
                0 <= i < d.len() ==> (#[trigger] r@[i])@ == d[i].id@
        }),
{
    let ghost p = due_at(now);
    let mut out: Vec<String> = Vec::new();
    proof {
        reveal(Seq::filter);
        assert(sets@.take(0).filter(p) =~= Seq::empty());
    }
    for i in 0..sets.len()
        invariant
            p == due_at(now),
            out@.len() == sets@.take(i as int).filter(p).len(),
            forall|j: int|
                0 <= j < out@.len() ==> (#[trigger] out@[j])@ == sets@.take(i as int).filter(
                    p,
                )[j].id@,
    {
        proof {
            reveal(Seq::filter);
            assert(sets@.take(i + 1).drop_last() =~= sets@.take(i as int));
            assert(sets@.take(i + 1).last() == sets@[i as int]);
        }
        if due(&sets[i], now) {
            out.push(sets[i].id.clone());
        }
    }
    proof {
        assert(sets@.take(sets@.len() as int) =~= sets@);
    }
    out
}

/// The position of the first set of that id.
pub open spec fn set_pos(sets: Seq<RuleSet>, id: Seq<char>) -> Option<int>
    decreases sets.len(),
{
    if sets.len() == 0 {
        None
    } else {
        match set_pos(sets.drop_last(), id) {
            Some(i) => Some(i),
            None => if sets.last().id@ == id {
                Some(sets.len() - 1)
            } else {
                None
            },
        }
    }
}

proof fn lemma_set_pos_is_kept(sets: Seq<RuleSet>, id: Seq<char>, n: int)
    requires
        0 <= n <= sets.len(),
        set_pos(sets.take(n), id) is Some,
    ensures
        set_pos(sets, id) == set_pos(sets.take(n), id),
    decreases sets.len(),
{
    if n < sets.len() {
        assert(sets.drop_last().take(n) =~= sets.take(n));
        lemma_set_pos_is_kept(sets.drop_last(), id, n);
    } else {
        assert(sets.take(n) =~= sets);
    }
}

pub fn find_set(sets: &Vec<RuleSet>, id: &str) -> (r: Option<usize>)
    ensures
        match r {
            Some(i) => i < sets@.len() && set_pos(sets@, id@) == Some(i as int),
            None => set_pos(sets@, id@) is None,
        },
{
    proof {
        assert(sets@.take(0) =~= Seq::empty());
    }
    for i in 0..sets.len()
        invariant
            set_pos(sets@.take(i as int), id@) is None,
    {
        proof {
            assert(sets@.take(i + 1).drop_last() =~= sets@.take(i as int));
            assert(sets@.take(i + 1).last() == sets@[i as int]);
        }
        if same(sets[i].id.as_str(), id) {
            proof {
                lemma_set_pos_is_kept(sets@, id@, i + 1);
            }
            return Some(i);
        }
    }
    proof {
        assert(sets@.take(sets@.len() as int) =~= sets@);
    }
    None
}

/// The remote part of the set of that id.
pub open spec fn remote_of(sets: Seq<RuleSet>, id: Seq<char>) -> Option<RemoteRuleSetConfig> {
    match set_pos(sets, id) {
        Some(i) => sets[i].remote,
        None => None,
    }
}

/// The sets with another remote part for that of the id.
pub open spec fn with_remote(sets: Seq<RuleSet>, id: Seq<char>, remote: RemoteRuleSetConfig) -> Seq<
    RuleSet,
> {
    match set_pos(sets, id) {
        Some(i) => sets.update(i, RuleSet { remote: Some(remote), ..sets[i] }),
        None => sets,
    }
}

/// What is said of a set that has no remote part.
pub open spec fn no_remote(sets: Seq<RuleSet>, id: Seq<char>) -> ErrorModel {
    if set_pos(sets, id) is None {
        ErrorModel::NotFound(id)
    } else {
        ErrorModel::Config("该规则集不是远程规则集"@)
    }
}

fn remote_at(sets: &Vec<RuleSet>, id: &str) -> (r: Result<(usize, RemoteRuleSetConfig), AppError>)
    ensures
        match r {
            Ok((i, x)) => i < sets@.len() && set_pos(sets@, id@) == Some(i as int) && remote_of(
                sets@,
                id@,
            ) == Some(x),
            Err(e) => remote_of(sets@, id@) is None && e@ == no_remote(sets@, id@),
        },
{
    match find_set(sets, id) {
        None => Err(AppError::NotFound(id.to_owned())),
        Some(i) => match &sets[i].remote {
            Some(x) => Ok((i, x.clone())),
            None => Err(AppError::Config("该规则集不是远程规则集".to_owned())),
        },
    }
}

fn put_remote(sets: &mut Vec<RuleSet>, i: usize, remote: RemoteRuleSetConfig)
    requires
        i < old(sets)@.len(),
    ensures
        final(sets)@ == old(sets)@.update(
            i as int,
            RuleSet { remote: Some(remote), ..old(sets)@[i as int] },
        ),
{
    let ghost before = sets@;
    sets[i].remote = Some(remote);
    proof {
        assert(sets@ =~= before.update(
            i as int,
            RuleSet { remote: Some(remote), ..before[i as int] },
        ));
    }
}

/// A download of the set begins: the set notes it. The result is where to download from.
pub fn begin_refresh(sets: &mut Vec<RuleSet>, id: &str, attempt: i64) -> (r: Result<
    String,
    AppError,
>)
    ensures
        match remote_of(old(sets)@, id@) {
            None => r is Err && r->Err_0@ == no_remote(old(sets)@, id@) && final(sets)@
                == old(sets)@,
            Some(x) => {
                &&& r is Ok
                &&& r->Ok_0@ == x.url@
                &&& exists|n: RemoteRuleSetConfig|
                    {
                        &&& final(sets)@ == #[trigger] with_remote(old(sets)@, id@, n)
                        &&& n.download_status@ == "downloading"@
                        &&& n == (RemoteRuleSetConfig {
                            download_status: n.download_status,
                            download_error: None,
                            last_attempt: Some(attempt),
                            ..x
                        })
                    }
            },
        },
{
    match remote_at(sets, id) {
        Err(e) => Err(e),
        Ok((i, x)) => {
            let mut n = x;
            n.download_status = "downloading".to_owned();
            n.download_error = None;
            n.last_attempt = Some(attempt);
            let url = n.url.clone();
            proof {
                assert(with_remote(sets@, id@, n) == sets@.update(
                    i as int,
                    RuleSet { remote: Some(n), ..sets@[i as int] },
                ));
            }
            put_remote(sets, i, n);
            Ok(url)
        },
    }
}

/// A download of the set is kept: the set notes it. The result is the file that it had
/// before.
pub fn complete_refresh(
    sets: &mut Vec<RuleSet>,
    id: &str,
    format: RuleSetFileFormat,
    path: String,
    attempt: i64,
    rule_count: u32,
    contains_ip: bool,
) -> (r: Result<Option<String>, AppError>)
    ensures
        match remote_of(old(sets)@, id@) {
            None => r is Err && r->Err_0@ == no_remote(old(sets)@, id@) && final(sets)@
                == old(sets)@,
            Some(x) => {
                &&& r == Ok::<Option<String>, AppError>(x.local_path)
                &&& exists|n: RemoteRuleSetConfig|
                    {
                        &&& final(sets)@ == #[trigger] with_remote(old(sets)@, id@, n)
                        &&& n.format@ == format.name()
                        &&& n.download_status@ == "ready"@
                        &&& n == (RemoteRuleSetConfig {
                            format: n.format,
                            local_path: Some(path),
                            download_status: n.download_status,
                            download_error: None,
                            last_update: Some(attempt),
                            rule_count: Some(rule_count),
                            contains_ip: Some(contains_ip),
                            ..x
                        })
                    }
            },
        },
{
    match remote_at(sets, id) {
        Err(e) => Err(e),
        Ok((i, x)) => {
            let old_path = clone_opt(&x.local_path);
            let mut n = x;
            n.format = format.as_str().to_owned();
            n.local_path = Some(path);
            n.download_status = "ready".to_owned();
            n.download_error = None;
            n.last_update = Some(attempt);
            n.rule_count = Some(rule_count);
            n.contains_ip = Some(contains_ip);
            proof {
                assert(with_remote(sets@, id@, n) == sets@.update(
                    i as int,
                    RuleSet { remote: Some(n), ..sets@[i as int] },
                ));
            }
            put_remote(sets, i, n);
            Ok(old_path)
        },
    }
}

/// A download of the set failed: the set notes it, where it still is a remote one.
pub fn fail_refresh(sets: &mut Vec<RuleSet>, id: &str, error: &str)
    ensures
        match remote_of(old(sets)@, id@) {
            None => final(sets)@ == old(sets)@,
            Some(x) => exists|n: RemoteRuleSetConfig|
                {
                    &&& final(sets)@ == #[trigger] with_remote(old(sets)@, id@, n)
                    &&& n.download_status@ == "error"@
                    &&& opt_view(n.download_error) == Some(error@)
                    &&& n == (RemoteRuleSetConfig {
                        download_status: n.download_status,
                        download_error: n.download_error,
                        ..x
                    })
                },
        },
{
    match remote_at(sets, id) {
        Err(_) => {},
        Ok((i, x)) => {
            let mut n = x;
            n.download_status = "error".to_owned();
            n.download_error = Some(error.to_owned());
            proof {
                assert(with_remote(sets@, id@, n) == sets@.update(
                    i as int,
                    RuleSet { remote: Some(n), ..sets@[i as int] },
                ));
            }
            put_remote(sets, i, n);
        },
    }
}

// ---------------------------------------------------------------------------
// Sets that were downloaded before their addresses were noted
// ---------------------------------------------------------------------------
/// What was read of the file of a set.
#[derive(Debug)]
pub enum CacheReading {
    /// No file, or none that could be read.
    Missing,
    Bytes(Vec<u8>),
    /// Of a binary set: whether it holds addresses, where that could be told.
    Binary(Option<bool>),
}

/// The file of a set whose addresses are not noted.
pub open spec fn unscanned_file(s: RuleSet) -> Option<Seq<char>> {
    match s.remote {
        Some(r) if r.contains_ip is None => match opt_view(r.local_path) {
            Some(p) if trimmed(p).len() > 0 => Some(trimmed(p)),
            _ => None,
        },
        _ => None,
    }
}

/// The file of a set whose addresses are not noted.
pub fn file_to_scan(s: &RuleSet) -> (r: Option<String>)
    ensures
        opt_view(r) == unscanned_file(*s),
{
    match &s.remote {
        Some(remote) => {
            if remote.contains_ip.is_some() {
                return None;
            }
            match &remote.local_path {
                Some(p) => {
                    let t = trim(p.as_str());
                    if t.is_empty() {
                        None
                    } else {
                        Some(t.to_owned())
                    }
                },
                None => None,
            }
        },
        None => None,
    }
}

/// Whether the set holds addresses, by what was read of its file.
pub open spec fn reading_verdict(format: Seq<char>, reading: CacheReading) -> Option<bool> {
    match reading {
        CacheReading::Missing => None,
        CacheReading::Bytes(b) => if format == "binary"@ {
            None
        } else {
            verdict_of(json_parsed(b@))
        },
        CacheReading::Binary(v) => if format == "binary"@ {
            v
        } else {
            None
        },
    }
}

/// The set once its file was looked at.
pub open spec fn healed(s: RuleSet, reading: CacheReading) -> RuleSet {
    match s.remote {
        Some(r) if unscanned_file(s) is Some && reading_verdict(r.format@, reading) is Some =>
            RuleSet {
            remote: Some(
                RemoteRuleSetConfig { contains_ip: reading_verdict(r.format@, reading), ..r },
            ),
            ..s
        },
        _ => s,
    }
}

fn heal_one(s: &mut RuleSet, reading: &CacheReading)
    ensures
        *final(s) == healed(*old(s), *reading),
{
    if file_to_scan(s).is_none() {
        return ;
    }
    let remote = match &s.remote {
        Some(r) => r.clone(),
        None => {
            return ;
        },
    };
    let binary = same(remote.format.as_str(), "binary");
    let verdict: Option<bool> = match reading {
        CacheReading::Missing => None,
        CacheReading::Bytes(b) => if binary {
            None
        } else {
            source_cache_contains_ip(b.as_slice())
        },
        CacheReading::Binary(v) => if binary {
            *v
        } else {
            None
        },
    };
    if verdict.is_some() {
        let mut n = remote;
        n.contains_ip = verdict;
        s.remote = Some(n);
    }
}

/// Notes, of the sets that were downloaded before their addresses were noted, whether they
/// hold any. `readings` is what was read of the files of the sets, in their order.
pub fn heal_contains_ip(sets: &mut Vec<RuleSet>, readings: &Vec<CacheReading>)
    requires
        readings@.len() == old(sets)@.len(),
    ensures
        final(sets)@.len() == old(sets)@.len(),
        forall|i: int|
            0 <= i < final(sets)@.len() ==> #[trigger] final(sets)@[i] == healed(
                old(sets)@[i],
                readings@[i],
            ),
{
    let ghost before = sets@;
    let mut i: usize = 0;
    while i < sets.len()
        invariant
            i <= sets@.len(),
            sets@.len() == before.len(),
            readings@.len() == before.len(),
            forall|j: int| 0 <= j < i ==> #[trigger] sets@[j] == healed(before[j], readings@[j]),
            forall|j: int| i <= j < before.len() ==> #[trigger] sets@[j] == before[j],
        decreases before.len() - i,
    {
        heal_one(&mut sets[i], &readings[i]);
        i += 1;
    }
}

/// A set whose addresses were noted is not looked at again, and nothing but that note ever
/// changes.
pub proof fn law_noted_addresses_stay(s: RuleSet, a: CacheReading, b: CacheReading)
    ensures
        s.remote is Some && s.remote->0.contains_ip is Some ==> healed(s, a) == s,
        s.remote is None ==> healed(s, a) == s,
        healed(s, a) != s ==> healed(healed(s, a), b) == healed(s, a),
        healed(s, a).rules == s.rules && healed(s, a).id == s.id,
{
}

} // verus!
