//! How the nodes fare, read off the requests that closed.

use crate::clock::{elapsed, since};
use crate::history::kept_small;
use crate::journal::{
    record_views, Journal, JournalModel, RecordModel, RequestRecord, MAX_REQUEST_HISTORY,
};
use crate::order::{
    index_seq, is_stable_order, item_before, key_views, lemma_order_covers, stable_order,
    text_before, KeyModel, SortKey,
};
use crate::table::{distinct_keys, has_key, lemma_row, map_of_rows, row_of};
use crate::text::{contains, holds_text, list_holds, same, views};
use crate::traffic::{end_moment, end_of, is_suspicious, suspicious};
use vstd::prelude::*;

verus! {

/// How a node fared of late.
#[derive(Debug, Clone, Copy)]
pub struct PassiveNodeStats {
    /// How many requests closed.
    pub total: u32,
    /// How many of them ended at once with next to nothing carried.
    pub suspicious: u32,
    /// How many destinations they had.
    pub dests: u32,
    /// How many destinations the suspicious ones had.
    pub sus_dests: u32,
    /// How many in a row were suspicious, up to the newest.
    pub consecutive_recent_sus: u32,
}

impl Default for PassiveNodeStats {
    fn default() -> (r: Self)
        ensures
            r == (PassiveNodeStats {
                total: 0,
                suspicious: 0,
                dests: 0,
                sus_dests: 0,
                consecutive_recent_sus: 0,
            }),
    {
        PassiveNodeStats {
            total: 0,
            suspicious: 0,
            dests: 0,
            sus_dests: 0,
            consecutive_recent_sus: 0,
        }
    }
}

impl PassiveNodeStats {
    /// At least `percent` of a hundred requests were suspicious; of none, none were.
    pub open spec fn fails_at_least(self, percent: u64) -> bool {
        if self.total == 0 {
            percent == 0
        } else {
            100 * self.suspicious >= percent * self.total
        }
    }

    /// Enough requests, many of them suspicious, to more than one destination.
    pub fn soft_degraded(&self, min_samples: u32, percent: u32) -> (r: bool)
        ensures
            r == (self.total >= min_samples && self.fails_at_least(percent as u64)
                && self.sus_dests >= 2),
    {
        let many = if self.total == 0 {
            percent == 0
        } else {
            proof {
                assert(percent * self.total <= 0xffff_ffff * 0xffff_ffff) by (nonlinear_arith)
                    requires
                        percent <= 0xffff_ffff,
                        self.total <= 0xffff_ffff,
                ;
            }
            100 * (self.suspicious as u64) >= (percent as u64) * (self.total as u64)
        };
        self.total >= min_samples && many && self.sus_dests >= 2
    }

    /// Suspicious requests one after the other, to more than one destination or in a
    /// long row.
    pub fn hard_degraded(&self) -> (r: bool)
        ensures
            r == ((self.consecutive_recent_sus >= 3 && self.sus_dests >= 2)
                || self.consecutive_recent_sus >= 5),
    {
        (self.consecutive_recent_sus >= 3 && self.sus_dests >= 2) || self.consecutive_recent_sus
            >= 5
    }
}

/// The request went through the node.
pub open spec fn went_through(r: RecordModel, tag: Seq<char>) -> bool {
    ||| r.node == tag
    ||| r.chains.contains(tag)
    ||| (tag.len() > 0 && holds_text(r.node, tag))
}

/// Where the request went.
pub open spec fn destination_of(r: RecordModel) -> Seq<char> {
    if r.host.len() > 0 {
        r.host
    } else if r.destination.len() > 0 && r.destination != "—"@ {
        r.destination
    } else {
        "unknown"@
    }
}

/// The request closed of late and went through the node.
pub open spec fn is_sample(r: RecordModel, tag: Seq<char>, lookback: i64, now: i64) -> bool {
    r.closed && elapsed(now, end_of(r)) <= lookback && went_through(r, tag)
}

/// The requests of a node that closed of late, each once, those that ended first before
/// the others.
pub open spec fn is_sample_list(
    j: JournalModel,
    keys: Seq<Seq<char>>,
    tag: Seq<char>,
    lookback: i64,
    now: i64,
) -> bool {
    &&& keys.no_duplicates()
    &&& forall|k: Seq<char>|
        #[trigger] keys.contains(k) <==> j.records.contains_key(k) && is_sample(
            j.records[k],
            tag,
            lookback,
            now,
        )
    &&& forall|a: int, b: int|
        0 <= a < b < keys.len() ==> end_of(j.records[#[trigger] keys[a]]) <= end_of(
            j.records[#[trigger] keys[b]],
        )
}

pub open spec fn suspicious_key(j: JournalModel) -> spec_fn(Seq<char>) -> bool {
    |k: Seq<char>| suspicious(j.records[k])
}

/// Where the requests went.
pub open spec fn destinations(j: JournalModel, keys: Seq<Seq<char>>) -> Seq<Seq<char>> {
    Seq::new(keys.len(), |i: int| destination_of(j.records[keys[i]]))
}

/// How many of the last requests were suspicious, one after the other.
pub open spec fn bad_tail(j: JournalModel, keys: Seq<Seq<char>>) -> nat
    decreases keys.len(),
{
    if keys.len() > 0 && suspicious(j.records[keys.last()]) {
        1 + bad_tail(j, keys.drop_last())
    } else {
        0
    }
}

pub open spec fn at_most_u32(n: int) -> u32 {
    if n > u32::MAX {
        u32::MAX
    } else {
        n as u32
    }
}

/// What the requests tell of a node.
pub open spec fn stats_of(j: JournalModel, keys: Seq<Seq<char>>) -> PassiveNodeStats {
    let bad = keys.filter(suspicious_key(j));
    PassiveNodeStats {
        total: keys.len() as u32,
        suspicious: at_most_u32(bad.len() as int),
        dests: destinations(j, keys).to_set().len() as u32,
        sus_dests: destinations(j, bad).to_set().len() as u32,
        consecutive_recent_sus: at_most_u32(bad_tail(j, keys) as int),
    }
}

/// The rows of the first `n` whose requests are samples.
pub open spec fn sample_rows(
    rows: Seq<(String, RequestRecord)>,
    tag: Seq<char>,
    lookback: i64,
    now: i64,
    n: int,
) -> Seq<int>
    decreases n,
{
    if n <= 0 {
        Seq::empty()
    } else {
        let before = sample_rows(rows, tag, lookback, now, n - 1);
        if is_sample(rows[n - 1].1@, tag, lookback, now) {
            before.push(n - 1)
        } else {
            before
        }
    }
}

proof fn lemma_sample_rows(
    rows: Seq<(String, RequestRecord)>,
    tag: Seq<char>,
    lookback: i64,
    now: i64,
    n: int,
)
    requires
        0 <= n <= rows.len(),
    ensures
        ({
            let s = sample_rows(rows, tag, lookback, now, n);
            &&& forall|i: int|
                0 <= i < s.len() ==> 0 <= #[trigger] s[i] < n && is_sample(
                    rows[s[i]].1@,
                    tag,
                    lookback,
                    now,
                )
            &&& forall|i: int, k: int| 0 <= i < k < s.len() ==> #[trigger] s[i] < #[trigger] s[k]
            &&& forall|x: int|
                0 <= x < n && is_sample(rows[x].1@, tag, lookback, now) ==> #[trigger] s.contains(x)
        }),
    decreases n,
{
    if n > 0 {
        lemma_sample_rows(rows, tag, lookback, now, n - 1);
        let before = sample_rows(rows, tag, lookback, now, n - 1);
        let here = sample_rows(rows, tag, lookback, now, n);
        assert forall|x: int|
            0 <= x < n && is_sample(rows[x].1@, tag, lookback, now) implies #[trigger] here.contains(
            x,
        ) by {
            if x < n - 1 {
                assert(before.contains(x));
                let i = choose|i: int| 0 <= i < before.len() && before[i] == x;
                assert(here[i] == x);
            } else {
                assert(here[before.len() as int] == x);
            }
        }
    }
}

/// The keys of the rows, in the order `p`.
pub open spec fn keys_in_order(
    rows: Seq<(String, RequestRecord)>,
    idx: Seq<int>,
    p: Seq<int>,
) -> Seq<Seq<char>> {
    Seq::new(p.len(), |t: int| rows[idx[p[t]]].0@)
}

proof fn lemma_sample_list(
    j: JournalModel,
    rows: Seq<(String, RequestRecord)>,
    km: Seq<KeyModel>,
    p: Seq<int>,
    tag: Seq<char>,
    lookback: i64,
    now: i64,
)
    requires
        distinct_keys(rows),
        j.records == record_views(map_of_rows(rows)),
        is_stable_order(km, p),
        km.len() == sample_rows(rows, tag, lookback, now, rows.len() as int).len(),
        forall|i: int|
            0 <= i < km.len() ==> (#[trigger] km[i]).name.len() == 0 && km[i].rank == end_of(
                rows[sample_rows(rows, tag, lookback, now, rows.len() as int)[i]].1@,
            ),
    ensures
        is_sample_list(
            j,
            keys_in_order(rows, sample_rows(rows, tag, lookback, now, rows.len() as int), p),
            tag,
            lookback,
            now,
        ),
{
    let idx = sample_rows(rows, tag, lookback, now, rows.len() as int);
    let keys = keys_in_order(rows, idx, p);
    lemma_sample_rows(rows, tag, lookback, now, rows.len() as int);
    assert forall|t: int| 0 <= t < p.len() implies {
        &&& 0 <= p[t] < km.len()
        &&& j.records.contains_key(#[trigger] keys[t])
        &&& j.records[keys[t]] == rows[idx[p[t]]].1@
        &&& is_sample(j.records[keys[t]], tag, lookback, now)
    } by {
        assert(0 <= p[t] < km.len());
        lemma_row(rows, idx[p[t]]);
    }
    assert forall|a: int, b: int| 0 <= a < b < keys.len() implies #[trigger] keys[a]
        != #[trigger] keys[b] && end_of(j.records[keys[a]]) <= end_of(j.records[keys[b]]) by {
        assert(item_before(km, p[a], p[b]));
        assert(!text_before(km[p[a]].name, km[p[b]].name));
        assert(!text_before(km[p[b]].name, km[p[a]].name));
        assert(p[a] != p[b]);
        let x = idx[p[a]];
        let y = idx[p[b]];
        if p[a] < p[b] {
            assert(x < y);
            assert(rows[x].0@ != rows[y].0@);
        } else {
            assert(y < x);
            assert(rows[y].0@ != rows[x].0@);
        }
    }
    assert forall|k: Seq<char>| #[trigger] keys.contains(k) <==> j.records.contains_key(k)
        && is_sample(j.records[k], tag, lookback, now) by {
        if keys.contains(k) {
            let t = choose|t: int| 0 <= t < keys.len() && keys[t] == k;
            assert(j.records.contains_key(keys[t]));
        }
        if j.records.contains_key(k) && is_sample(j.records[k], tag, lookback, now) {
            let x = row_of(rows, k);
            assert(has_key(rows, k));
            assert(rows[x].0@ == k);
            lemma_row(rows, x);
            assert(idx.contains(x));
            let y = choose|y: int| 0 <= y < idx.len() && idx[y] == x;
            lemma_order_covers(km, p, y);
            let s = choose|s: int| 0 <= s < p.len() && p[s] == y;
            assert(keys[s] == k);
        }
    }
}

fn sample_destination(r: &RequestRecord) -> (d: String)
    ensures
        d@ == destination_of(r@),
{
    if !r.host.as_str().is_empty() {
        r.host.clone()
    } else if !r.destination.as_str().is_empty() && !same(r.destination.as_str(), "—") {
        r.destination.clone()
    } else {
        "unknown".to_owned()
    }
}

fn counts(r: &RequestRecord, tag: &str, lookback: i64, now: i64) -> (b: bool)
    ensures
        b == is_sample(r@, tag@, lookback, now),
{
    if !r.closed {
        return false;
    }
    if since(now, end_moment(r)) > lookback {
        return false;
    }
    let through = same(r.node.as_str(), tag) || list_holds(&r.chains, tag) || (!tag.is_empty()
        && contains(r.node.as_str(), tag));
    through
}

/// Adds a text that is not in the list.
fn note(list: &mut Vec<String>, s: String)
    requires
        views(old(list)@).no_duplicates(),
    ensures
        views(final(list)@).no_duplicates(),
        views(final(list)@).to_set() == views(old(list)@).to_set().insert(s@),
{
    let ghost before = views(list@);
    if list_holds(list, s.as_str()) {
        proof {
            assert(before.to_set().insert(s@) =~= before.to_set());
        }
    } else {
        let ghost v = s@;
        list.push(s);
        proof {
            let after = views(list@);
            assert(after =~= before.push(v));
            assert forall|x: Seq<char>| after.to_set().contains(x) <==> before.to_set().insert(
                v,
            ).contains(x) by {
                if after.contains(x) {
                    let i = choose|i: int| 0 <= i < after.len() && after[i] == x;
                    if i < before.len() {
                        assert(before[i] == x);
                    }
                }
                if before.contains(x) {
                    let i = choose|i: int| 0 <= i < before.len() && before[i] == x;
                    assert(after[i] == x);
                }
                assert(after[before.len() as int] == v);
            }
            assert(after.to_set() =~= before.to_set().insert(v));
        }
    }
}

proof fn lemma_set_push<A>(s: Seq<A>, x: A)
    ensures
        s.push(x).to_set() == s.to_set().insert(x),
{
    assert forall|y: A| s.push(x).to_set().contains(y) <==> s.to_set().insert(x).contains(y) by {
        if s.push(x).contains(y) {
            let i = choose|i: int| 0 <= i < s.push(x).len() && s.push(x)[i] == y;
            if i < s.len() {
                assert(s[i] == y);
            }
        }
        if s.contains(y) {
            let i = choose|i: int| 0 <= i < s.len() && s[i] == y;
            assert(s.push(x)[i] == y);
        }
        assert(s.push(x)[s.len() as int] == x);
    }
    assert(s.push(x).to_set() =~= s.to_set().insert(x));
}

impl Journal {
    /// How a node fared of late. Of requests that ended at the same moment either may
    /// count as the newer one.
    pub fn passive_node_stats(&self, node_tag: &str, lookback_ms: i64, now_ms: i64) -> (r:
        PassiveNodeStats)
        ensures
            exists|keys: Seq<Seq<char>>|
                #[trigger] is_sample_list(self@, keys, node_tag@, lookback_ms, now_ms) && r
                    == stats_of(self@, keys),
    {
        let n: usize = self.request_by_id.len();
        let ghost rows = self.request_by_id.rows();
        let ghost tag = node_tag@;
        let mut found: Vec<usize> = Vec::new();
        let mut keys: Vec<SortKey> = Vec::new();
        for i in 0..n
            invariant
                n == rows.len(),
                rows == self.request_by_id.rows(),
                tag == node_tag@,
                index_seq(found@) == sample_rows(rows, tag, lookback_ms, now_ms, i as int),
                keys@.len() == found@.len(),
                forall|k: int|
                    0 <= k < found@.len() ==> 0 <= (#[trigger] found@[k]) < i && keys@[k]@ == (
                    KeyModel { rank: end_of(rows[found@[k] as int].1@) as int, name: Seq::empty() }),
        {
            let rec = self.request_by_id.value_at(i);
            if counts(rec, node_tag, lookback_ms, now_ms) {
                let ghost before = found@;
                found.push(i);
                keys.push(SortKey { rank: end_moment(rec) as i128, name: String::new() });
                proof {
                    assert(index_seq(found@) =~= index_seq(before).push(i as int));
                    assert(keys@.last()@.name =~= Seq::empty());
                }
            }
        }
        let order = stable_order(&keys);
        let ghost p = index_seq(order@);
        let ghost idx = index_seq(found@);
        let ghost km = key_views(keys@);
        let ghost all = keys_in_order(rows, idx, p);
        proof {
            assert forall|i: int| 0 <= i < km.len() implies (#[trigger] km[i]).name.len() == 0
                && km[i].rank == end_of(rows[idx[i]].1@) by {
                assert(found@[i] == idx[i]);
            }
            lemma_sample_list(self@, rows, km, p, tag, lookback_ms, now_ms);
        }
        let mut dests: Vec<String> = Vec::new();
        let mut sus_dests: Vec<String> = Vec::new();
        let mut suspicious_count: u32 = 0;
        let mut tail: u32 = 0;
        let ghost bad = suspicious_key(self@);
        proof {
            reveal(Seq::filter);
            assert(all.take(0).filter(bad) =~= Seq::empty());
            assert(views(dests@) =~= Seq::empty());
            assert(views(sus_dests@) =~= Seq::empty());
            assert(destinations(self@, all.take(0)) =~= Seq::empty());
            assert(destinations(self@, Seq::empty()) =~= Seq::empty());
        }
        for t in 0..order.len()
            invariant
                n == rows.len(),
                rows == self.request_by_id.rows(),
                distinct_keys(rows),
                p == index_seq(order@),
                idx == index_seq(found@),
                km == key_views(keys@),
                keys@.len() == found@.len(),
                is_stable_order(km, p),
                forall|k: int| 0 <= k < found@.len() ==> 0 <= (#[trigger] found@[k]) < n,
                all == keys_in_order(rows, idx, p),
                bad == suspicious_key(self@),
                suspicious_count == at_most_u32(all.take(t as int).filter(bad).len() as int),
                tail == at_most_u32(bad_tail(self@, all.take(t as int)) as int),
                views(dests@).no_duplicates(),
                views(dests@).to_set() == destinations(self@, all.take(t as int)).to_set(),
                views(sus_dests@).no_duplicates(),
                views(sus_dests@).to_set() == destinations(
                    self@,
                    all.take(t as int).filter(bad),
                ).to_set(),
        {
            proof {
                assert(0 <= p[t as int] < km.len());
                assert(p[t as int] == order@[t as int]);
                assert(idx[p[t as int]] == found@[p[t as int]]);
            }
            let row: usize = found[order[t]];
            let rec = self.request_by_id.value_at(row);
            let ghost before = all.take(t as int);
            let ghost here = all.take(t + 1);
            proof {
                lemma_row(rows, row as int);
                assert(here.drop_last() =~= before);
                assert(here =~= before.push(all[t as int]));
                assert(self@.records[all[t as int]] == rec@);
                reveal(Seq::filter);
                assert(destinations(self@, here) =~= destinations(self@, before).push(
                    destination_of(rec@),
                ));
                lemma_set_push(destinations(self@, before), destination_of(rec@));
            }
            note(&mut dests, sample_destination(rec));
            if is_suspicious(rec) {
                proof {
                    assert(here.filter(bad) =~= before.filter(bad).push(all[t as int]));
                    assert(destinations(self@, here.filter(bad)) =~= destinations(
                        self@,
                        before.filter(bad),
                    ).push(destination_of(rec@)));
                    lemma_set_push(destinations(self@, before.filter(bad)), destination_of(rec@));
                }
                note(&mut sus_dests, sample_destination(rec));
                suspicious_count = suspicious_count.saturating_add(1);
                tail = tail.saturating_add(1);
            } else {
                tail = 0;
            }
        }
        proof {
            assert(all.take(order@.len() as int) =~= all);
            views(dests@).unique_seq_to_set();
            views(sus_dests@).unique_seq_to_set();
        }
        PassiveNodeStats {
            total: order.len() as u32,
            suspicious: suspicious_count,
            dests: dests.len() as u32,
            sus_dests: sus_dests.len() as u32,
            consecutive_recent_sus: tail,
        }
    }
}

/// The counts of a node's requests bound each other.
pub open spec fn balanced(s: PassiveNodeStats) -> bool {
    &&& s.suspicious <= s.total
    &&& s.dests <= s.total
    &&& s.sus_dests <= s.dests
    &&& s.sus_dests <= s.suspicious
    &&& s.consecutive_recent_sus <= s.suspicious
    &&& s.sus_dests == 0 <==> s.suspicious == 0
    &&& s.suspicious == s.total ==> s.consecutive_recent_sus == s.total
}

proof fn lemma_tail_counts(j: JournalModel, keys: Seq<Seq<char>>)
    ensures
        keys.filter(suspicious_key(j)).len() <= keys.len(),
        bad_tail(j, keys) <= keys.filter(suspicious_key(j)).len(),
        keys.filter(suspicious_key(j)).len() == keys.len() ==> bad_tail(j, keys) == keys.len(),
    decreases keys.len(),
{
    reveal(Seq::filter);
    if keys.len() > 0 {
        lemma_tail_counts(j, keys.drop_last());
    }
}

/// Where the requests of a part went, all of them went.
proof fn lemma_part_of_destinations(
    j: JournalModel,
    keys: Seq<Seq<char>>,
    p: spec_fn(Seq<char>) -> bool,
)
    ensures
        destinations(j, keys.filter(p)).to_set().subset_of(destinations(j, keys).to_set()),
{
    let part = keys.filter(p);
    let all = destinations(j, keys);
    assert forall|d: Seq<char>| #[trigger]
        destinations(j, part).to_set().contains(d) implies all.to_set().contains(d) by {
        let i = choose|i: int| 0 <= i < part.len() && destinations(j, part)[i] == d;
        assert(part.contains(part[i]));
        keys.lemma_filter_contains_rev(p, part[i]);
        let x = choose|x: int| 0 <= x < keys.len() && keys[x] == part[i];
        assert(all[x] == d);
    }
}

/// The counts that a journal gives bound each other, whatever the requests were: none counts
/// more suspicious requests, or destinations, than there are of either.
pub proof fn law_counts_bound_each_other(j: JournalModel, keys: Seq<Seq<char>>)
    requires
        keys.len() <= u32::MAX,
    ensures
        balanced(stats_of(j, keys)),
{
    let bad = keys.filter(suspicious_key(j));
    let all_to = destinations(j, keys);
    let bad_to = destinations(j, bad);
    lemma_tail_counts(j, keys);
    lemma_part_of_destinations(j, keys, suspicious_key(j));
    all_to.lemma_cardinality_of_set();
    bad_to.lemma_cardinality_of_set();
    vstd::set_lib::lemma_len_subset(bad_to.to_set(), all_to.to_set());
    if bad.len() > 0 {
        assert(bad_to[0] == destination_of(j.records[bad[0]]));
        assert(bad_to.to_set().contains(bad_to[0]));
        assert(bad_to.to_set().len() > 0);
    }
}

/// The requests of a node are no more than the journal keeps, so their counts bound each
/// other.
pub proof fn law_samples_are_kept_requests(
    j: JournalModel,
    keys: Seq<Seq<char>>,
    tag: Seq<char>,
    lookback: i64,
    now: i64,
)
    requires
        kept_small(j),
        is_sample_list(j, keys, tag, lookback, now),
    ensures
        keys.len() <= MAX_REQUEST_HISTORY,
        balanced(stats_of(j, keys)),
{
    keys.unique_seq_to_set();
    j.order.unique_seq_to_set();
    assert forall|k: Seq<char>| #[trigger] keys.to_set().contains(k) implies j.order.to_set().contains(
        k,
    ) by {
        assert(keys.contains(k));
        assert(j.order.contains(k));
    }
    vstd::set_lib::lemma_len_subset(keys.to_set(), j.order.to_set());
    law_counts_bound_each_other(j, keys);
}

} // verus!
