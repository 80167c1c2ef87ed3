//! The diagnosis of name resolution: the ways of domains, and what the core answers.

use crate::core_kind::CoreKind;
use crate::services::dns_path::{way_of, wire_domain, AnalyzerModel, DnsDiagPath, DnsPathAnalyzer};
use crate::text::{
    before_char, clone_opt, concat2, concat3, has_prefix, join, joined, lemma_char_pos, lowered,
    opt_view, same, same_ignoring_case, signed_decimal, signed_decimal_of, split_once, strip_prefix,
    trim, trimmed, views,
};
use vstd::prelude::*;

verus! {

/// At most this many domains are looked at.
pub const MAX_DOMAINS: usize = 64;

/// Milliseconds that a query may take.
pub const QUERY_TIMEOUT_MS: u64 = 6000;

/// One record of an answer.
#[derive(Debug, Clone, PartialEq, Eq)]
pub struct DnsDiagAnswer {
    pub name: String,
    pub rr_type: i64,
    pub ttl: i64,
    pub data: String,
}

/// What the core answered.
#[derive(Debug)]
pub struct DnsDiagQuery {
    pub ok: bool,
    pub status_code: i64,
    pub status_text: String,
    pub answers: Vec<DnsDiagAnswer>,
    pub elapsed_ms: u64,
    pub error: Option<String>,
}

#[derive(Debug)]
pub struct DnsDiagDomainResult {
    pub domain: String,
    /// The way of the domain; nothing for a configuration that the client did not make.
    pub path: Option<DnsDiagPath>,
    pub query: Option<DnsDiagQuery>,
    /// Why the core was not asked.
    pub query_note: Option<String>,
}

#[derive(Debug)]
pub struct DnsDiagReport {
    pub core_type: String,
    pub running: bool,
    /// `generated` or `custom`.
    pub runtime_source: String,
    pub results: Vec<DnsDiagDomainResult>,
    pub notes: Vec<String>,
}

// ---------------------------------------------------------------------------
// The domains
// ---------------------------------------------------------------------------
/// `s` without a text that stands in front of it, as often as it does.
pub open spec fn without_prefixes(s: Seq<char>, pat: Seq<char>) -> Seq<char>
    decreases s.len(),
{
    if pat.len() > 0 && has_prefix(s, pat) {
        without_prefixes(s.skip(pat.len() as int), pat)
    } else {
        s
    }
}

fn strip_prefixes<'a>(s: &'a str, pat: &str) -> (r: &'a str)
    requires
        pat@.len() > 0,
    ensures
        r@ == without_prefixes(s@, pat@),
{
    let mut rest: &'a str = s;
    loop
        invariant
            pat@.len() > 0,
            without_prefixes(s@, pat@) == without_prefixes(rest@, pat@),
        decreases rest@.len(),
    {
        match strip_prefix(rest, pat) {
            Some(t) => {
                rest = t;
            },
            None => {
                return rest;
            },
        }
    }
}

/// The part of a text before the first `c`, or all of it.
fn part_before<'a>(s: &'a str, c: char) -> (r: &'a str)
    ensures
        r@ == before_char(s@, c),
{
    match split_once(s, c) {
        Some((a, _)) => a,
        None => {
            proof {
                lemma_char_pos(s@, c);
                assert(before_char(s@, c) =~= s@);
            }
            s
        },
    }
}

/// The domain of what the user wrote: without scheme, path and port; nothing where that
/// leaves nothing.
pub open spec fn cleaned(raw: Seq<char>) -> Option<Seq<char>> {
    let host = without_prefixes(without_prefixes(trimmed(raw), "https://"@), "http://"@);
    let d = trimmed(before_char(before_char(host, '/'), ':'));
    if d.len() == 0 || d == "."@ {
        None
    } else {
        Some(d)
    }
}

/// The domain of what the user wrote.
pub fn clean_domain(raw: &str) -> (r: Option<String>)
    ensures
        opt_view(r) == cleaned(raw@),
{
    proof {
        reveal_strlit("https://");
        reveal_strlit("http://");
    }
    let host = strip_prefixes(strip_prefixes(trim(raw), "https://"), "http://");
    let d = trim(part_before(part_before(host, '/'), ':'));
    if d.is_empty() || same(d, ".") {
        None
    } else {
        Some(d.to_owned())
    }
}

pub open spec fn holds_in_any_case(list: Seq<Seq<char>>, s: Seq<char>) -> bool {
    exists|i: int| 0 <= i < list.len() && lowered(#[trigger] list[i]) == lowered(s)
}

/// The domains of what the user wrote, each once, whatever its letters.
pub open spec fn distinct_domains(raw: Seq<Seq<char>>) -> Seq<Seq<char>>
    decreases raw.len(),
{
    if raw.len() == 0 {
        Seq::empty()
    } else {
        let before = distinct_domains(raw.drop_last());
        match cleaned(raw.last()) {
            Some(d) => if holds_in_any_case(before, d) {
                before
            } else {
                before.push(d)
            },
            None => before,
        }
    }
}

/// The domains that are looked at.
pub open spec fn asked_domains(raw: Seq<Seq<char>>) -> Seq<Seq<char>> {
    let all = distinct_domains(raw);
    if all.len() > MAX_DOMAINS {
        all.take(MAX_DOMAINS as int)
    } else {
        all
    }
}

fn known_domain(list: &Vec<String>, s: &str) -> (r: bool)
    ensures
        r == holds_in_any_case(views(list@), s@),
{
    for i in 0..list.len()
        invariant
            forall|j: int| 0 <= j < i ==> lowered(#[trigger] views(list@)[j]) != lowered(s@),
    {
        if same_ignoring_case(list[i].as_str(), s) {
            proof {
                assert(lowered(views(list@)[i as int]) == lowered(s@));
            }
            return true;
        }
        proof {
            assert(lowered(views(list@)[i as int]) != lowered(s@));
        }
    }
    false
}

/// The domains that are looked at: each once, whatever its letters, up to the limit.
pub fn clean_domains(raw: &Vec<String>) -> (r: Vec<String>)
    ensures
        views(r@) == asked_domains(views(raw@)),
{
    let ghost all = views(raw@);
    let mut out: Vec<String> = Vec::new();
    proof {
        assert(all.take(0) =~= Seq::empty());
        assert(views(out@) =~= Seq::empty());
    }
    for i in 0..raw.len()
        invariant
            all == views(raw@),
            views(out@) == distinct_domains(all.take(i as int)),
    {
        let ghost before = out@;
        proof {
            assert(all.take(i + 1).drop_last() =~= all.take(i as int));
            assert(all.take(i + 1).last() == raw@[i as int]@);
        }
        if let Some(d) = clean_domain(raw[i].as_str()) {
            if !known_domain(&out, d.as_str()) {
                let ghost v = d@;
                out.push(d);
                proof {
                    assert(views(out@) =~= views(before).push(v));
                }
            }
        }
    }
    proof {
        assert(all.take(all.len() as int) =~= all);
        assert(views(out@).len() == out@.len());
    }
    let ghost whole = out@;
    if out.len() > MAX_DOMAINS {
        out.truncate(MAX_DOMAINS);
        proof {
            assert(views(out@) =~= views(whole).take(MAX_DOMAINS as int));
        }
    }
    out
}

proof fn lemma_distinct(raw: Seq<Seq<char>>)
    ensures
        forall|a: int, b: int|
            0 <= a < b < distinct_domains(raw).len() ==> lowered(
                #[trigger] distinct_domains(raw)[a],
            ) != lowered(#[trigger] distinct_domains(raw)[b]),
    decreases raw.len(),
{
    if raw.len() > 0 {
        let before = distinct_domains(raw.drop_last());
        let here = distinct_domains(raw);
        lemma_distinct(raw.drop_last());
        assert forall|a: int, b: int| 0 <= a < b < here.len() implies lowered(#[trigger] here[a])
            != lowered(#[trigger] here[b]) by {
            if b == before.len() {
                assert(here[a] == before[a]);
                if lowered(before[a]) == lowered(here[b]) {
                    assert(holds_in_any_case(before, here[b]));
                }
            } else {
                assert(here[a] == before[a] && here[b] == before[b]);
            }
        }
    }
}

/// No domain is looked at twice, and no more than the limit are.
pub proof fn law_domains_are_distinct(raw: Seq<Seq<char>>)
    ensures
        asked_domains(raw).len() <= MAX_DOMAINS,
        forall|a: int, b: int|
            0 <= a < b < asked_domains(raw).len() ==> lowered(#[trigger] asked_domains(raw)[a])
                != lowered(#[trigger] asked_domains(raw)[b]),
{
    lemma_distinct(raw);
    let all = distinct_domains(raw);
    assert forall|a: int, b: int| 0 <= a < b < asked_domains(raw).len() implies lowered(
        #[trigger] asked_domains(raw)[a],
    ) != lowered(#[trigger] asked_domains(raw)[b]) by {
        assert(asked_domains(raw)[a] == all[a] && asked_domains(raw)[b] == all[b]);
    }
}

// ---------------------------------------------------------------------------
// What the core answers
// ---------------------------------------------------------------------------
/// The name of a response code.
pub open spec fn code_name(code: i64) -> Seq<char> {
    if code == 0 {
        "NOERROR"@
    } else if code == 1 {
        "FORMERR"@
    } else if code == 2 {
        "SERVFAIL"@
    } else if code == 3 {
        "NXDOMAIN"@
    } else if code == 4 {
        "NOTIMP"@
    } else if code == 5 {
        "REFUSED"@
    } else {
        "RCODE "@ + signed_decimal(code as int)
    }
}

pub fn rcode_text(code: i64) -> (r: String)
    ensures
        r@ == code_name(code),
{
    if code == 0 {
        "NOERROR".to_owned()
    } else if code == 1 {
        "FORMERR".to_owned()
    } else if code == 2 {
        "SERVFAIL".to_owned()
    } else if code == 3 {
        "NXDOMAIN".to_owned()
    } else if code == 4 {
        "NOTIMP".to_owned()
    } else if code == 5 {
        "REFUSED".to_owned()
    } else {
        concat2("RCODE ", signed_decimal_of(code).as_str())
    }
}

/// The query of a domain that the core answered.
pub fn answered_query(status: i64, answers: Vec<DnsDiagAnswer>, elapsed_ms: u64) -> (r: DnsDiagQuery)
    ensures
        r.ok == (status == 0),
        r.status_code == status,
        r.status_text@ == code_name(status),
        r.answers == answers,
        r.elapsed_ms == elapsed_ms,
        r.error is None,
{
    DnsDiagQuery {
        ok: status == 0,
        status_code: status,
        status_text: rcode_text(status),
        answers,
        elapsed_ms,
        error: None,
    }
}

/// The query of a domain that failed.
pub fn failed_query(error: String, elapsed_ms: u64) -> (r: DnsDiagQuery)
    ensures
        !r.ok,
        r.status_code == -1,
        r.status_text@.len() == 0,
        r.answers@.len() == 0,
        r.elapsed_ms == elapsed_ms,
        r.error == Some(error),
{
    DnsDiagQuery {
        ok: false,
        status_code: -1,
        status_text: String::new(),
        answers: Vec::new(),
        elapsed_ms,
        error: Some(error),
    }
}

/// Why the core is not asked; nothing where it is. The Xray core cannot be asked.
pub open spec fn no_query_reason(running: bool, has_api: bool, core: CoreKind) -> Option<Seq<char>> {
    if running && has_api && core != CoreKind::Xray {
        None
    } else if !running {
        Some("内核未运行，仅展示配置路径"@)
    } else if core == CoreKind::Xray {
        Some("Xray 内核无 DNS 查询 API，仅展示配置路径"@)
    } else {
        Some("当前配置未启用 Clash API，无法实时查询"@)
    }
}

pub fn query_note(running: bool, has_api: bool, core: CoreKind) -> (r: Option<String>)
    ensures
        opt_view(r) == no_query_reason(running, has_api, core),
{
    if running && has_api && core != CoreKind::Xray {
        None
    } else if !running {
        Some("内核未运行，仅展示配置路径".to_owned())
    } else if core == CoreKind::Xray {
        Some("Xray 内核无 DNS 查询 API，仅展示配置路径".to_owned())
    } else {
        Some("当前配置未启用 Clash API，无法实时查询".to_owned())
    }
}

// ---------------------------------------------------------------------------
// The report
// ---------------------------------------------------------------------------
/// What is said of the report as a whole.
pub open spec fn notes_of(approx_sets: Seq<Seq<char>>, custom: bool) -> Seq<Seq<char>> {
    let first: Seq<Seq<char>> = if approx_sets.len() > 0 {
        seq![
            "规则集 "@ + joined(approx_sets, "、"@)
                + " 的成员按本地缓存近似判定，内核以自身数据为准"@,
        ]
    } else {
        Seq::empty()
    };
    if custom {
        first.push("自定义配置：查询路径推演不可用（配置非应用生成）"@)
    } else {
        first
    }
}

pub fn report_notes(approx_sets: &Vec<String>, custom: bool) -> (r: Vec<String>)
    ensures
        views(r@) == notes_of(views(approx_sets@), custom),
{
    let mut out: Vec<String> = Vec::new();
    proof {
        assert(views(approx_sets@).len() == approx_sets@.len());
        assert(views(out@) =~= Seq::empty());
    }
    if approx_sets.len() > 0 {
        let names = join(approx_sets, "、");
        let line = concat3(
            "规则集 ",
            names.as_str(),
            " 的成员按本地缓存近似判定，内核以自身数据为准",
        );
        let ghost v = line@;
        out.push(line);
        proof {
            assert(views(out@) =~= seq![v]);
        }
    }
    if custom {
        let ghost before = out@;
        out.push("自定义配置：查询路径推演不可用（配置非应用生成）".to_owned());
        proof {
            assert(views(out@) =~= views(before).push(
                "自定义配置：查询路径推演不可用（配置非应用生成）"@,
            ));
        }
    }
    out
}

/// The result of one domain.
pub open spec fn is_domain_result(
    r: DnsDiagDomainResult,
    domain: Seq<char>,
    analyzer: Option<AnalyzerModel>,
    query: Option<DnsDiagQuery>,
    note: Option<Seq<char>>,
) -> bool {
    &&& r.domain@ == domain
    &&& match analyzer {
        Some(a) => r.path is Some && r.path->0@ == way_of(a, wire_domain(domain)),
        None => r.path is None,
    }
    &&& r.query == query
    &&& opt_view(r.query_note) == if query is None {
        note
    } else {
        None
    }
}

pub open spec fn analyzer_view(a: Option<&DnsPathAnalyzer>) -> Option<AnalyzerModel> {
    match a {
        Some(x) => Some(x@),
        None => None,
    }
}

/// Puts the report together. `queries` is what the core answered for the domains, in their
/// order; the ways are left out for a configuration that the client did not make.
pub fn make_report(
    core_type: String,
    runtime_source: String,
    running: bool,
    has_api: bool,
    analyzer: Option<&DnsPathAnalyzer>,
    domains: Vec<String>,
    queries: Vec<Option<DnsDiagQuery>>,
) -> (r: DnsDiagReport)
    requires
        queries@.len() == domains@.len(),
    ensures
        r.core_type == core_type,
        r.runtime_source == runtime_source,
        r.running == running,
        r.results@.len() == domains@.len(),
        ({
            let custom = runtime_source@ == "custom"@;
            let core = CoreKind::of_word(lowered(trimmed(core_type@)));
            let known = match analyzer_view(analyzer) {
                Some(a) => a.approx_sets,
                None => Seq::empty(),
            };
            let used = if custom {
                None
            } else {
                analyzer_view(analyzer)
            };
            &&& views(r.notes@) == notes_of(known, custom)
            &&& forall|i: int|
                0 <= i < r.results@.len() ==> is_domain_result(
                    #[trigger] r.results@[i],
                    domains@[i]@,
                    used,
                    queries@[i],
                    no_query_reason(running, has_api, core),
                )
        }),
{
    let core = CoreKind::parse(core_type.as_str());
    let custom = same(runtime_source.as_str(), "custom");
    let none: Vec<String> = Vec::new();
    proof {
        assert(views(none@) =~= Seq::empty());
    }
    let notes = match analyzer {
        Some(a) => report_notes(a.approx_set_names(), custom),
        None => report_notes(&none, custom),
    };
    let note = query_note(running, has_api, core);
    let ghost reason = opt_view(note);
    let ghost used = if custom {
        None
    } else {
        analyzer_view(analyzer)
    };
    let ghost all_queries = queries@;
    let mut results: Vec<DnsDiagDomainResult> = Vec::new();
    let mut i: usize = 0;
    for query in it: queries
        invariant
            i == it.index(),
            it.seq() == all_queries,
            all_queries.len() == domains@.len(),
            custom == (runtime_source@ == "custom"@),
            used == if custom {
                None
            } else {
                analyzer_view(analyzer)
            },
            reason == opt_view(note),
            results@.len() == i,
            forall|j: int|
                0 <= j < i ==> is_domain_result(
                    #[trigger] results@[j],
                    domains@[j]@,
                    used,
                    all_queries[j],
                    reason,
                ),
    {
        let domain = domains[i].clone();
        let path = match analyzer {
            Some(a) => {
                if custom {
                    None
                } else {
                    Some(a.decide(domain.as_str()))
                }
            },
            None => None,
        };
        let query_note = if query.is_none() {
            clone_opt(&note)
        } else {
            None
        };
        results.push(DnsDiagDomainResult { domain, path, query, query_note });
        proof {
            assert(i < domains.len());
        }
        i += 1;
    }
    DnsDiagReport { core_type, running, runtime_source, results, notes }
}

} // verus!
