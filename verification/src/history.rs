//! The history of requests: how it is numbered, paged and cleared.

use crate::journal::{
    capped, capped_removals, empty_journal, gone_keys, has_connection, history_key, ingested,
    keys_of,
    live_cleared, next, noted_all_gone, noted_all_open, opened, refreshed, removals_at,
    ConnectionModel, Journal, JournalModel, Records, RequestRecord, MAX_LIVE_REMOVAL_HISTORY,
    MAX_REQUEST_HISTORY,
};
use crate::table::{distinct_keys, has_key, lemma_row, row_of, Table};
use crate::text::views;
use crate::traffic::{behind, is_page, listed};
use std::collections::VecDeque;
use vstd::prelude::*;

verus! {

/// The requests that are still open.
pub open spec fn open_records(records: Records) -> Records {
    Map::new(
        |k: Seq<char>| records.contains_key(k) && !records[k].closed,
        |k: Seq<char>| records[k],
    )
}

pub open spec fn in_records(records: Records) -> spec_fn(Seq<char>) -> bool {
    |k: Seq<char>| records.contains_key(k)
}

/// The journal without the requests that closed. The open ones stay, so that they can
/// still close.
pub open spec fn history_cleared(j: JournalModel) -> JournalModel {
    JournalModel {
        records: open_records(j.records),
        order: j.order.filter(in_records(open_records(j.records))),
        ..j
    }
}

/// The keys of the requests that closed.
fn closed_keys(t: &Table<RequestRecord>) -> (r: Vec<String>)
    ensures
        forall|k: Seq<char>| #[trigger]
            views(r@).contains(k) <==> t@.contains_key(k) && t@[k].closed,
{
    let n: usize = t.len();
    let ghost rows = t.rows();
    let mut out: Vec<String> = Vec::new();
    for i in 0..n
        invariant
            n == rows.len(),
            rows == t.rows(),
            distinct_keys(rows),
            forall|a: int|
                0 <= a < out@.len() ==> t@.contains_key((#[trigger] out@[a])@) && t@[out@[a]@].closed,
            forall|x: int|
                0 <= x < i && (#[trigger] rows[x]).1.closed ==> views(out@).contains(rows[x].0@),
    {
        let ghost before = out@;
        if t.value_at(i).closed {
            proof {
                lemma_row(rows, i as int);
            }
            out.push(t.key_at(i).clone());
        }
        proof {
            assert forall|x: int| 0 <= x < i + 1 && (#[trigger] rows[x]).1.closed implies views(
                out@,
            ).contains(rows[x].0@) by {
                if x < i {
                    let a = choose|a: int|
                        0 <= a < views(before).len() && views(before)[a] == rows[x].0@;
                    assert(views(out@)[a] == rows[x].0@);
                } else {
                    assert(views(out@)[before.len() as int] == rows[x].0@);
                }
            }
        }
    }
    proof {
        assert forall|k: Seq<char>| #[trigger]
            views(out@).contains(k) <==> t@.contains_key(k) && t@[k].closed by {
            if views(out@).contains(k) {
                let a = choose|a: int| 0 <= a < views(out@).len() && views(out@)[a] == k;
                assert(out@[a]@ == k);
            }
            if t@.contains_key(k) && t@[k].closed {
                assert(has_key(rows, k));
                let x = row_of(rows, k);
                assert(rows[x].0@ == k);
                lemma_row(rows, x);
            }
        }
    }
    out
}

impl Journal {
    /// Forgets the requests that closed.
    pub fn clear_request_history(&mut self)
        ensures
            final(self)@ == history_cleared(old(self)@),
    {
        let ghost start = self@;
        let closed = closed_keys(&self.request_by_id);
        let ghost gone = views(closed@);
        let ghost table0 = self.request_by_id@;
        for i in 0..closed.len()
            invariant
                gone == views(closed@),
                self@ == (JournalModel { records: self@.records, ..start }),
                forall|k: Seq<char>| #[trigger]
                    self.request_by_id@.contains_key(k) <==> table0.contains_key(k) && !gone.take(
                        i as int,
                    ).contains(k),
                forall|k: Seq<char>|
                    self.request_by_id@.contains_key(k) ==> #[trigger] self.request_by_id@[k]
                        == table0[k],
        {
            let _ = self.request_by_id.remove(closed[i].as_str());
            proof {
                let upto = gone.take(i as int);
                let whole = gone.take(i + 1);
                assert(whole =~= upto.push(gone[i as int]));
                assert forall|k: Seq<char>| #[trigger] whole.contains(k) == (upto.contains(k) || k
                    == gone[i as int]) by {
                    if whole.contains(k) {
                        let a = choose|a: int| 0 <= a < whole.len() && whole[a] == k;
                        if a < i {
                            assert(upto[a] == k);
                        }
                    }
                    if upto.contains(k) {
                        let a = choose|a: int| 0 <= a < upto.len() && upto[a] == k;
                        assert(whole[a] == k);
                    }
                    assert(whole[i as int] == gone[i as int]);
                }
                assert(gone[i as int] == closed@[i as int]@);
            }
        }
        proof {
            assert(gone.take(gone.len() as int) =~= gone);
            assert forall|k: Seq<char>|
                #[trigger] self@.records.contains_key(k) == open_records(
                    start.records,
                ).contains_key(k) && (self@.records.contains_key(k) ==> self@.records[k]
                    == open_records(start.records)[k]) by {
                assert(self.request_by_id@.contains_key(k) <==> table0.contains_key(k)
                    && !gone.contains(k));
                if self.request_by_id@.contains_key(k) {
                    assert(self.request_by_id@[k] == table0[k]);
                }
            }
            assert(self@.records =~= open_records(start.records));
        }
        let ghost keep = in_records(open_records(start.records));
        let mut kept: VecDeque<String> = VecDeque::new();
        proof {
            reveal(Seq::filter);
            assert(start.order.take(0).filter(keep) =~= Seq::empty());
            assert(views(kept@) =~= Seq::empty());
        }
        for i in 0..self.request_order.len()
            invariant
                views(self.request_order@) == start.order,
                self@.records == open_records(start.records),
                keep == in_records(open_records(start.records)),
                views(kept@) == start.order.take(i as int).filter(keep),
        {
            let ghost k = self.request_order@[i as int]@;
            let ghost before = kept@;
            proof {
                reveal(Seq::filter);
                assert(views(self.request_order@)[i as int] == k);
                assert(start.order.take(i + 1).drop_last() =~= start.order.take(i as int));
                assert(start.order.take(i + 1).last() == k);
                assert(self.request_by_id@.contains_key(k) == self@.records.contains_key(k));
            }
            if self.request_by_id.contains_key(self.request_order[i].as_str()) {
                kept.push_back(self.request_order[i].clone());
                proof {
                    assert(views(kept@) =~= views(before).push(k));
                }
            }
        }
        proof {
            assert(start.order.take(start.order.len() as int) =~= start.order);
        }
        self.request_order = kept;
    }
}

/// The requests that closed have numbers of their own, from 1 up to that of the one that
/// closed last.
pub open spec fn numbered(records: Records, seq: u64) -> bool {
    &&& forall|k: Seq<char>|
        #[trigger] records.contains_key(k) && records[k].closed ==> 0 < records[k].history_seq <= seq
    &&& forall|a: Seq<char>, b: Seq<char>|
        #[trigger] records.contains_key(a) && #[trigger] records.contains_key(b)
            && records[a].closed && records[b].closed && a != b ==> records[a].history_seq
            != records[b].history_seq
}

proof fn lemma_capped_numbered(records: Records, order: Seq<Seq<char>>, seq: u64)
    requires
        numbered(records, seq),
    ensures
        numbered(capped(records, order).0, seq),
    decreases order.len(),
{
    if order.len() > crate::journal::MAX_REQUEST_HISTORY {
        lemma_capped_numbered(records.remove(order.last()), order.drop_last(), seq);
    }
}

proof fn lemma_open_numbered(
    records: Records,
    order: Seq<Seq<char>>,
    conns: Seq<ConnectionModel>,
    now: i64,
    seq: u64,
)
    requires
        numbered(records, seq),
    ensures
        numbered(noted_all_open(records, order, conns, now).0, seq),
    decreases conns.len(),
{
    if conns.len() > 0 {
        lemma_open_numbered(records, order, conns.drop_last(), now, seq);
        let (r, o) = noted_all_open(records, order, conns.drop_last(), now);
        let k = history_key(conns.last());
        if r.contains_key(k) {
            assert(!refreshed(r[k], conns.last(), now).closed);
        } else {
            lemma_capped_numbered(r.insert(k, opened(conns.last(), now)), seq![k] + o, seq);
        }
    }
}

proof fn lemma_gone_numbered(
    records: Records,
    seq: u64,
    live: Seq<ConnectionModel>,
    conns: Seq<ConnectionModel>,
    now: i64,
)
    requires
        numbered(records, seq),
        seq + live.len() <= u64::MAX,
    ensures
        numbered(
            noted_all_gone(records, seq, live, conns, now).0,
            noted_all_gone(records, seq, live, conns, now).1,
        ),
        seq <= noted_all_gone(records, seq, live, conns, now).1 <= seq + live.len(),
    decreases live.len(),
{
    if live.len() > 0 {
        lemma_gone_numbered(records, seq, live.drop_last(), conns, now);
    }
}

/// The history is numbered from the start, and stays so whatever happens to the journal.
pub proof fn law_history_stays_numbered(j: JournalModel, conns: Seq<ConnectionModel>, now: i64)
    requires
        numbered(j.records, j.seq),
        j.seq + j.live.len() <= u64::MAX,
    ensures
        numbered(empty_journal().records, empty_journal().seq),
        numbered(ingested(j, conns, now).records, ingested(j, conns, now).seq),
        numbered(live_cleared(j).records, live_cleared(j).seq),
        numbered(history_cleared(j).records, history_cleared(j).seq),
{
    lemma_open_numbered(j.records, j.order, conns, now, j.seq);
    let r = noted_all_open(j.records, j.order, conns, now).0;
    lemma_gone_numbered(r, j.seq, j.live, conns, now);
}

/// Paging skips nothing and shows nothing twice: a page, and the next one from its
/// cursor, hold every listed request up to the second cursor, and none is in both.
pub proof fn law_pages_skip_nothing(
    j: JournalModel,
    first: Seq<Seq<char>>,
    middle: u64,
    second: Seq<Seq<char>>,
    end: u64,
    after: u64,
    limit: int,
    failures: bool,
    q: Seq<char>,
)
    requires
        numbered(j.records, j.seq),
        is_page(j, first, middle, after, limit, failures, q),
        is_page(j, second, end, middle, limit, failures, q),
    ensures
        forall|k: Seq<char>|
            #[trigger] behind(j, k, after) && listed(j.records[k], failures, q)
                && j.records[k].history_seq <= end ==> first.contains(k) || second.contains(k),
        forall|k: Seq<char>| !(#[trigger] first.contains(k) && second.contains(k)),
{
    assert forall|k: Seq<char>|
        #[trigger] behind(j, k, after) && listed(j.records[k], failures, q)
            && j.records[k].history_seq <= end implies first.contains(k) || second.contains(k) by {
        if j.records[k].history_seq <= middle {
            lemma_page_is_whole(j, first, middle, after, limit, failures, q, k);
        } else {
            assert(behind(j, k, middle));
            lemma_page_is_whole(j, second, end, middle, limit, failures, q, k);
        }
    }
    assert forall|k: Seq<char>| !(#[trigger] first.contains(k) && second.contains(k)) by {
        if first.contains(k) && second.contains(k) {
            let a = choose|a: int| 0 <= a < first.len() && first[a] == k;
            let b = choose|b: int| 0 <= b < second.len() && second[b] == k;
            assert(behind(j, first[a], after));
            assert(behind(j, second[b], middle));
            if first.len() >= limit {
                let z = first.len() - 1;
                assert(first.last() == first[z]);
                if a < z {
                    assert(j.records[first[a]].history_seq <= j.records[first[z]].history_seq);
                }
            }
        }
    }
}

proof fn lemma_page_is_whole(
    j: JournalModel,
    keys: Seq<Seq<char>>,
    cursor: u64,
    after: u64,
    limit: int,
    failures: bool,
    q: Seq<char>,
    k: Seq<char>,
)
    requires
        numbered(j.records, j.seq),
        is_page(j, keys, cursor, after, limit, failures, q),
        behind(j, k, after),
        listed(j.records[k], failures, q),
        j.records[k].history_seq <= cursor,
    ensures
        keys.contains(k),
{
    if keys.len() > 0 && keys.len() >= limit && j.records[k].history_seq == cursor {
        let z = keys.len() - 1;
        assert(behind(j, keys[z], after));
        assert(keys[z] == k);
    }
}

/// The journal lists each request once and none else, and keeps to its limits.
pub open spec fn kept_small(j: JournalModel) -> bool {
    &&& lists_all(j.records, j.order)
    &&& j.order.len() <= MAX_REQUEST_HISTORY
    &&& j.removals.len() <= MAX_LIVE_REMOVAL_HISTORY
}

/// The list has each request once, and none else.
pub open spec fn lists_all(records: Records, order: Seq<Seq<char>>) -> bool {
    &&& order.no_duplicates()
    &&& forall|k: Seq<char>| #[trigger] order.contains(k) <==> records.contains_key(k)
}

proof fn lemma_capped_lists_all(records: Records, order: Seq<Seq<char>>)
    requires
        lists_all(records, order),
    ensures
        lists_all(capped(records, order).0, capped(records, order).1),
        capped(records, order).1.len() <= MAX_REQUEST_HISTORY,
    decreases order.len(),
{
    if order.len() > MAX_REQUEST_HISTORY {
        let last = order.last();
        let t = order.drop_last();
        let r = records.remove(last);
        assert forall|k: Seq<char>| #[trigger] t.contains(k) <==> r.contains_key(k) by {
            if t.contains(k) {
                let a = choose|a: int| 0 <= a < t.len() && t[a] == k;
                assert(order[a] == k);
                assert(order[order.len() - 1] == last);
                assert(order.contains(k));
            }
            if r.contains_key(k) {
                assert(order.contains(k));
                let a = choose|a: int| 0 <= a < order.len() && order[a] == k;
                assert(t[a] == k);
            }
        }
        lemma_capped_lists_all(r, t);
    }
}

proof fn lemma_open_lists_all(
    records: Records,
    order: Seq<Seq<char>>,
    conns: Seq<ConnectionModel>,
    now: i64,
)
    requires
        lists_all(records, order),
        order.len() <= MAX_REQUEST_HISTORY,
    ensures
        lists_all(
            noted_all_open(records, order, conns, now).0,
            noted_all_open(records, order, conns, now).1,
        ),
        noted_all_open(records, order, conns, now).1.len() <= MAX_REQUEST_HISTORY,
    decreases conns.len(),
{
    if conns.len() > 0 {
        lemma_open_lists_all(records, order, conns.drop_last(), now);
        let (r, o) = noted_all_open(records, order, conns.drop_last(), now);
        let c = conns.last();
        let k = history_key(c);
        if r.contains_key(k) {
            let r2 = r.insert(k, refreshed(r[k], c, now));
            assert forall|x: Seq<char>| #[trigger] o.contains(x) <==> r2.contains_key(x) by {}
        } else {
            let r2 = r.insert(k, opened(c, now));
            let o2 = seq![k] + o;
            assert forall|x: Seq<char>| #[trigger] o2.contains(x) <==> r2.contains_key(x) by {
                if o2.contains(x) && x != k {
                    let a = choose|a: int| 0 <= a < o2.len() && o2[a] == x;
                    assert(o[a - 1] == x);
                    assert(o.contains(x));
                }
                if r2.contains_key(x) {
                    if x == k {
                        assert(o2[0] == k);
                    } else {
                        assert(o.contains(x));
                        let a = choose|a: int| 0 <= a < o.len() && o[a] == x;
                        assert(o2[a + 1] == x);
                    }
                }
            }
            assert(!o.contains(k));
            assert forall|a: int, b: int| 0 <= a < b < o2.len() implies o2[a] != o2[b] by {
                assert(o2[b] == o[b - 1]);
                if a == 0 {
                    assert(o.contains(o[b - 1]));
                } else {
                    assert(o2[a] == o[a - 1]);
                }
            }
            lemma_capped_lists_all(r2, o2);
        }
    }
}

proof fn lemma_gone_lists_all(
    records: Records,
    order: Seq<Seq<char>>,
    seq: u64,
    live: Seq<ConnectionModel>,
    conns: Seq<ConnectionModel>,
    now: i64,
)
    requires
        lists_all(records, order),
    ensures
        lists_all(noted_all_gone(records, seq, live, conns, now).0, order),
    decreases live.len(),
{
    if live.len() > 0 {
        lemma_gone_lists_all(records, order, seq, live.drop_last(), conns, now);
    }
}

proof fn lemma_removals_capped(removals: Seq<(u64, Seq<char>)>, floor: u64)
    ensures
        capped_removals(removals, floor).0.len() <= MAX_LIVE_REMOVAL_HISTORY,
    decreases removals.len(),
{
    if removals.len() > MAX_LIVE_REMOVAL_HISTORY {
        lemma_removals_capped(removals.drop_first(), removals[0].0);
    }
}

/// What is left of a list without doubles has none, and holds what was kept.
proof fn lemma_filter_keeps(s: Seq<Seq<char>>, p: spec_fn(Seq<char>) -> bool)
    requires
        s.no_duplicates(),
    ensures
        s.filter(p).no_duplicates(),
        s.filter(p).len() <= s.len(),
        forall|k: Seq<char>| #[trigger] s.filter(p).contains(k) <==> s.contains(k) && p(k),
    decreases s.len(),
{
    reveal(Seq::filter);
    if s.len() > 0 {
        let t = s.drop_last();
        lemma_filter_keeps(t, p);
        let f = t.filter(p);
        let l = s.last();
        assert forall|k: Seq<char>| #[trigger] s.contains(k) <==> t.contains(k) || k == l by {
            if s.contains(k) {
                let a = choose|a: int| 0 <= a < s.len() && s[a] == k;
                if a < t.len() {
                    assert(t[a] == k);
                }
            }
            if t.contains(k) {
                let a = choose|a: int| 0 <= a < t.len() && t[a] == k;
                assert(s[a] == k);
            }
            assert(s[s.len() - 1] == l);
        }
        assert(!t.contains(l)) by {
            if t.contains(l) {
                let a = choose|a: int| 0 <= a < t.len() && t[a] == l;
                assert(s[a] == s[s.len() - 1]);
            }
        }
        if p(l) {
            let g = f.push(l);
            assert(!f.contains(l));
            assert forall|a: int, b: int| 0 <= a < b < g.len() implies g[a] != g[b] by {
                assert(f.contains(f[a]));
            }
            assert forall|k: Seq<char>| #[trigger] g.contains(k) <==> f.contains(k) || k == l by {
                if g.contains(k) {
                    let a = choose|a: int| 0 <= a < g.len() && g[a] == k;
                    if a < f.len() {
                        assert(f[a] == k);
                    }
                }
                if f.contains(k) {
                    let a = choose|a: int| 0 <= a < f.len() && f[a] == k;
                    assert(g[a] == k);
                }
                assert(g[f.len() as int] == l);
            }
        }
    }
}

/// The journal keeps to its limits, whatever happens to it, and lists each request once.
pub proof fn law_journal_keeps_to_its_limits(
    j: JournalModel,
    conns: Seq<ConnectionModel>,
    now: i64,
)
    requires
        kept_small(j),
    ensures
        kept_small(empty_journal()),
        kept_small(ingested(j, conns, now)),
        kept_small(live_cleared(j)),
        kept_small(history_cleared(j)),
{
    let (r, o) = noted_all_open(j.records, j.order, conns, now);
    lemma_open_lists_all(j.records, j.order, conns, now);
    lemma_gone_lists_all(r, o, j.seq, j.live, conns, now);
    lemma_removals_capped(
        j.removals + removals_at(gone_keys(j.live, conns), next(j.revision)),
        j.floor,
    );
    lemma_removals_capped(j.removals + removals_at(keys_of(j.live), next(j.revision)), j.floor);
    let open = open_records(j.records);
    lemma_filter_keeps(j.order, in_records(open));
}

// ---------------------------------------------------------------------------
// A whole run of pages
// ---------------------------------------------------------------------------
/// Where the page at `i` goes on: at the cursor of the one before it, or at the start.
pub open spec fn page_start(cursors: Seq<u64>, i: int) -> u64 {
    if i <= 0 {
        0
    } else {
        cursors[i - 1]
    }
}

/// Pages that follow each other from the start, each from the cursor of the one before it.
pub open spec fn are_pages(
    j: JournalModel,
    pages: Seq<Seq<Seq<char>>>,
    cursors: Seq<u64>,
    limit: int,
    failures: bool,
    q: Seq<char>,
) -> bool {
    &&& cursors.len() == pages.len()
    &&& forall|i: int|
        0 <= i < pages.len() ==> is_page(
            j,
            #[trigger] pages[i],
            cursors[i],
            page_start(cursors, i),
            limit,
            failures,
            q,
        )
}

/// What the pages hold, one after the other.
pub open spec fn all_pages(pages: Seq<Seq<Seq<char>>>) -> Seq<Seq<char>>
    decreases pages.len(),
{
    if pages.len() == 0 {
        Seq::empty()
    } else {
        all_pages(pages.drop_last()) + pages.last()
    }
}

/// The requests that a query lists, up to a number: each once, in the order in which they
/// closed, and none else.
pub open spec fn lists_up_to(
    j: JournalModel,
    keys: Seq<Seq<char>>,
    end: u64,
    failures: bool,
    q: Seq<char>,
) -> bool {
    &&& forall|a: int, b: int|
        0 <= a < b < keys.len() ==> j.records[#[trigger] keys[a]].history_seq
            < j.records[#[trigger] keys[b]].history_seq
    &&& forall|k: Seq<char>| #[trigger]
        keys.contains(k) <==> j.records.contains_key(k) && listed(j.records[k], failures, q)
            && j.records[k].history_seq <= end
}

/// The keys of a page closed behind its start, up to its cursor, one after the other.
proof fn lemma_page_is_between(
    j: JournalModel,
    keys: Seq<Seq<char>>,
    cursor: u64,
    after: u64,
    limit: int,
    failures: bool,
    q: Seq<char>,
)
    requires
        numbered(j.records, j.seq),
        is_page(j, keys, cursor, after, limit, failures, q),
        after <= j.seq,
        limit >= 1,
    ensures
        keys.len() <= limit,
        after <= cursor <= j.seq,
        keys.len() > 0 ==> after < cursor,
        forall|i: int|
            0 <= i < keys.len() ==> after < j.records[#[trigger] keys[i]].history_seq <= cursor,
        forall|a: int, b: int|
            0 <= a < b < keys.len() ==> j.records[#[trigger] keys[a]].history_seq
                < j.records[#[trigger] keys[b]].history_seq,
{
    assert forall|i: int| 0 <= i < keys.len() implies after < j.records[
        #[trigger] keys[i]
    ].history_seq <= cursor by {
        assert(behind(j, keys[i], after));
        let z = keys.len() - 1;
        if i < z {
            assert(j.records[keys[i]].history_seq <= j.records[keys[z]].history_seq);
        }
        assert(behind(j, keys[z], after));
    }
    assert forall|a: int, b: int| 0 <= a < b < keys.len() implies j.records[
        #[trigger] keys[a]
    ].history_seq < j.records[#[trigger] keys[b]].history_seq by {
        assert(behind(j, keys[a], after));
        assert(behind(j, keys[b], after));
    }
    if keys.len() > 0 {
        assert(behind(j, keys[keys.len() - 1], after));
    }
}

/// A page goes on with what is listed where the ones before it ended.
proof fn lemma_page_goes_on(
    j: JournalModel,
    before: Seq<Seq<char>>,
    keys: Seq<Seq<char>>,
    cursor: u64,
    after: u64,
    limit: int,
    failures: bool,
    q: Seq<char>,
)
    requires
        numbered(j.records, j.seq),
        is_page(j, keys, cursor, after, limit, failures, q),
        lists_up_to(j, before, after, failures, q),
        after <= j.seq,
        limit >= 1,
    ensures
        lists_up_to(j, before + keys, cursor, failures, q),
{
    lemma_page_is_between(j, keys, cursor, after, limit, failures, q);
    let all = before + keys;
    assert forall|a: int, b: int| 0 <= a < b < all.len() implies j.records[
        #[trigger] all[a]
    ].history_seq < j.records[#[trigger] all[b]].history_seq by {
        if b < before.len() {
            assert(all[a] == before[a] && all[b] == before[b]);
        } else {
            assert(all[b] == keys[b - before.len()]);
            if a < before.len() {
                assert(all[a] == before[a]);
                assert(before.contains(before[a]));
            } else {
                assert(all[a] == keys[a - before.len()]);
            }
        }
    }
    assert forall|k: Seq<char>| #[trigger]
        all.contains(k) <==> j.records.contains_key(k) && listed(j.records[k], failures, q)
            && j.records[k].history_seq <= cursor by {
        if all.contains(k) {
            let a = choose|a: int| 0 <= a < all.len() && all[a] == k;
            if a < before.len() {
                assert(before[a] == k);
                assert(before.contains(k));
            } else {
                assert(keys[a - before.len()] == k);
                assert(behind(j, keys[a - before.len()], after));
            }
        }
        if j.records.contains_key(k) && listed(j.records[k], failures, q)
            && j.records[k].history_seq <= cursor {
            if j.records[k].history_seq <= after {
                assert(before.contains(k));
                let a = choose|a: int| 0 <= a < before.len() && before[a] == k;
                assert(all[a] == k);
            } else {
                assert(behind(j, k, after));
                lemma_page_is_whole(j, keys, cursor, after, limit, failures, q, k);
                let a = choose|a: int| 0 <= a < keys.len() && keys[a] == k;
                assert(all[before.len() + a] == k);
            }
        }
    }
}

proof fn lemma_pages_list_up_to(
    j: JournalModel,
    pages: Seq<Seq<Seq<char>>>,
    cursors: Seq<u64>,
    limit: int,
    failures: bool,
    q: Seq<char>,
)
    requires
        numbered(j.records, j.seq),
        are_pages(j, pages, cursors, limit, failures, q),
        limit >= 1,
    ensures
        page_start(cursors, pages.len() as int) <= j.seq,
        lists_up_to(
            j,
            all_pages(pages),
            page_start(cursors, pages.len() as int),
            failures,
            q,
        ),
    decreases pages.len(),
{
    if pages.len() == 0 {
        assert forall|k: Seq<char>| #[trigger] all_pages(pages).contains(k) <==> j.records.contains_key(
            k,
        ) && listed(j.records[k], failures, q) && j.records[k].history_seq <= 0 by {}
    } else {
        let n = pages.len() - 1;
        let front = pages.drop_last();
        let marks = cursors.drop_last();
        assert forall|i: int| 0 <= i < front.len() implies is_page(
            j,
            #[trigger] front[i],
            marks[i],
            page_start(marks, i),
            limit,
            failures,
            q,
        ) by {
            assert(front[i] == pages[i]);
            assert(page_start(marks, i) == page_start(cursors, i));
        }
        lemma_pages_list_up_to(j, front, marks, limit, failures, q);
        assert(page_start(marks, n) == page_start(cursors, n));
        assert(is_page(j, pages[n], cursors[n], page_start(cursors, n), limit, failures, q));
        lemma_page_goes_on(
            j,
            all_pages(front),
            pages[n],
            cursors[n],
            page_start(cursors, n),
            limit,
            failures,
            q,
        );
        lemma_page_is_between(
            j,
            pages[n],
            cursors[n],
            page_start(cursors, n),
            limit,
            failures,
            q,
        );
    }
}

/// A whole run of pages, from the start up to the first that is empty, holds exactly the
/// requests that the query lists, each once, in the order in which they closed. No page is
/// longer than the limit. The cursor never goes back, rises with every page that holds
/// anything, so that the run ends, and comes to the number of the request that closed last.
pub proof fn law_run_of_pages_lists_all(
    j: JournalModel,
    pages: Seq<Seq<Seq<char>>>,
    cursors: Seq<u64>,
    limit: int,
    failures: bool,
    q: Seq<char>,
)
    requires
        numbered(j.records, j.seq),
        are_pages(j, pages, cursors, limit, failures, q),
        limit >= 1,
        pages.len() > 0,
        pages.last().len() == 0,
    ensures
        all_pages(pages).no_duplicates(),
        forall|a: int, b: int|
            0 <= a < b < all_pages(pages).len() ==> j.records[
                #[trigger] all_pages(pages)[a]
            ].history_seq < j.records[#[trigger] all_pages(pages)[b]].history_seq,
        forall|k: Seq<char>| #[trigger]
            all_pages(pages).contains(k) <==> j.records.contains_key(k) && listed(
                j.records[k],
                failures,
                q,
            ),
        forall|i: int| 0 <= i < pages.len() ==> (#[trigger] pages[i]).len() <= limit,
        forall|i: int|
            0 <= i < pages.len() ==> page_start(cursors, i) <= #[trigger] cursors[i] && (
            pages[i].len() > 0 ==> page_start(cursors, i) < cursors[i]),
        cursors.last() == j.seq,
{
    lemma_pages_list_up_to(j, pages, cursors, limit, failures, q);
    let n = pages.len() - 1;
    assert(is_page(j, pages[n], cursors[n], page_start(cursors, n), limit, failures, q));
    assert forall|i: int| 0 <= i < pages.len() implies (#[trigger] pages[i]).len() <= limit
        && page_start(cursors, i) <= cursors[i] && (pages[i].len() > 0 ==> page_start(cursors, i)
        < cursors[i]) by {
        let front = pages.take(i);
        let marks = cursors.take(i);
        assert forall|x: int| 0 <= x < front.len() implies is_page(
            j,
            #[trigger] front[x],
            marks[x],
            page_start(marks, x),
            limit,
            failures,
            q,
        ) by {
            assert(front[x] == pages[x]);
            assert(page_start(marks, x) == page_start(cursors, x));
        }
        lemma_pages_list_up_to(j, front, marks, limit, failures, q);
        assert(page_start(marks, i) == page_start(cursors, i));
        lemma_page_is_between(
            j,
            pages[i],
            cursors[i],
            page_start(cursors, i),
            limit,
            failures,
            q,
        );
    }
    assert forall|i: int| 0 <= i < pages.len() implies page_start(cursors, i)
        <= #[trigger] cursors[i] && (pages[i].len() > 0 ==> page_start(cursors, i) < cursors[i]) by {
        assert(pages[i].len() <= limit);
    }
}

// ---------------------------------------------------------------------------
// Open and closed requests
// ---------------------------------------------------------------------------
/// The requests that closed, and they alone, have the moment at which they did.
pub open spec fn dated(records: Records) -> bool {
    forall|k: Seq<char>| #[trigger]
        records.contains_key(k) ==> (records[k].closed <==> records[k].closed_at is Some)
}

proof fn lemma_capped_is_part(records: Records, order: Seq<Seq<char>>)
    ensures
        forall|k: Seq<char>| #[trigger]
            capped(records, order).0.contains_key(k) ==> records.contains_key(k) && capped(
                records,
                order,
            ).0[k] == records[k],
    decreases order.len(),
{
    if order.len() > MAX_REQUEST_HISTORY {
        let less = records.remove(order.last());
        lemma_capped_is_part(less, order.drop_last());
        assert(capped(records, order) == capped(less, order.drop_last()));
        assert forall|k: Seq<char>| #[trigger]
            capped(records, order).0.contains_key(k) implies records.contains_key(k) && capped(
            records,
            order,
        ).0[k] == records[k] by {
            assert(less.contains_key(k));
        }
    }
}

/// Once connections were seen, the requests of all of them are open.
proof fn lemma_seen_are_open(
    records: Records,
    order: Seq<Seq<char>>,
    conns: Seq<ConnectionModel>,
    now: i64,
)
    requires
        dated(records),
    ensures
        dated(noted_all_open(records, order, conns, now).0),
        forall|k: Seq<char>|
            has_connection(conns, k) && #[trigger] noted_all_open(
                records,
                order,
                conns,
                now,
            ).0.contains_key(k) ==> !noted_all_open(records, order, conns, now).0[k].closed,
    decreases conns.len(),
{
    if conns.len() > 0 {
        let t = conns.drop_last();
        let c = conns.last();
        lemma_seen_are_open(records, order, t, now);
        let (r, o) = noted_all_open(records, order, t, now);
        let key = history_key(c);
        if !r.contains_key(key) {
            lemma_capped_is_part(r.insert(key, opened(c, now)), seq![key] + o);
        }
        let after = noted_all_open(records, order, conns, now).0;
        assert forall|k: Seq<char>|
            has_connection(conns, k) && #[trigger] after.contains_key(k) implies !after[k].closed by {
            if k != key {
                let i = choose|i: int| 0 <= i < conns.len() && history_key(#[trigger] conns[i]) == k;
                assert(history_key(t[i]) == k);
                assert(has_connection(t, k));
                assert(r.contains_key(k));
            }
        }
        assert forall|k: Seq<char>| #[trigger] after.contains_key(k) implies (after[k].closed
            <==> after[k].closed_at is Some) by {
            if k != key {
                assert(r.contains_key(k));
            }
        }
    }
}

/// Once connections were looked for, the requests of those that are gone are closed, and the
/// others are as they were.
proof fn lemma_missing_are_closed(
    records: Records,
    seq: u64,
    live: Seq<ConnectionModel>,
    conns: Seq<ConnectionModel>,
    now: i64,
)
    requires
        dated(records),
    ensures
        ({
            let after = noted_all_gone(records, seq, live, conns, now).0;
            &&& dated(after)
            &&& forall|k: Seq<char>| #[trigger]
                after.contains_key(k) <==> records.contains_key(k)
            &&& forall|k: Seq<char>| #[trigger]
                after.contains_key(k) && has_connection(conns, k) ==> after[k] == records[k]
            &&& forall|k: Seq<char>| #[trigger]
                after.contains_key(k) && has_connection(live, k) && !has_connection(conns, k)
                    ==> after[k].closed
        }),
    decreases live.len(),
{
    if live.len() > 0 {
        let t = live.drop_last();
        lemma_missing_are_closed(records, seq, t, conns, now);
        let (r, s) = noted_all_gone(records, seq, t, conns, now);
        let after = noted_all_gone(records, seq, live, conns, now).0;
        let key = history_key(live.last());
        assert forall|k: Seq<char>| #[trigger]
            after.contains_key(k) && has_connection(live, k) && !has_connection(
                conns,
                k,
            ) implies after[k].closed by {
            if k != key {
                let i = choose|i: int| 0 <= i < live.len() && history_key(#[trigger] live[i]) == k;
                assert(history_key(t[i]) == k);
                assert(has_connection(t, k));
                assert(r.contains_key(k));
            }
        }
    }
}

/// After a report of the core, the requests of the connections that it names are open, with
/// no moment of closing; those of the connections that were open and that it does not name
/// are closed, with one. The requests that closed, and they alone, have such a moment,
/// whatever happens to the journal.
pub proof fn law_reported_connections_are_open(
    j: JournalModel,
    conns: Seq<ConnectionModel>,
    now: i64,
)
    requires
        dated(j.records),
    ensures
        forall|k: Seq<char>| #[trigger]
            ingested(j, conns, now).records.contains_key(k) && has_connection(conns, k)
                ==> !ingested(j, conns, now).records[k].closed && ingested(
                j,
                conns,
                now,
            ).records[k].closed_at is None,
        forall|k: Seq<char>| #[trigger]
            ingested(j, conns, now).records.contains_key(k) && has_connection(j.live, k)
                && !has_connection(conns, k) ==> ingested(j, conns, now).records[k].closed
                && ingested(j, conns, now).records[k].closed_at is Some,
        dated(empty_journal().records),
        dated(ingested(j, conns, now).records),
        dated(live_cleared(j).records),
        dated(history_cleared(j).records),
{
    lemma_seen_are_open(j.records, j.order, conns, now);
    let r = noted_all_open(j.records, j.order, conns, now).0;
    lemma_missing_are_closed(r, j.seq, j.live, conns, now);
}

} // verus!
