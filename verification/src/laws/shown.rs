//! What is shown of connections and requests, and what is kept for when the core is busy.

use crate::journal::{shows, JournalModel, RecordModel};
use crate::traffic::{
    behind, connection_row, end_of, is_batch, is_listed, is_request_batch, listed_keys, record_row,
    rule_shown, sent_rows, shows_record, suspicious, LiveConnectionBatch, RequestBatch, RowModel,
    Tags,
};
use crate::view_cache::{
    cache_merged, cached_requests, merged_rows, rows_by_id, stays, CacheModel, LiveModel,
};
use vstd::prelude::*;

verus! {

/// A rule is shown with its payload in brackets; one of them alone where the other is not
/// known; and a dash where neither is.
pub proof fn law_rules_are_shown_with_their_payload(rule: Seq<char>, payload: Seq<char>)
    ensures
        payload.len() == 0 && rule.len() > 0 ==> rule_shown(rule, payload) == rule,
        rule.len() == 0 && payload.len() > 0 ==> rule_shown(rule, payload) == payload,
        rule.len() > 0 && payload.len() > 0 ==> {
            let s = rule_shown(rule, payload);
            &&& s.len() == rule.len() + payload.len() + 2
            &&& s.take(rule.len() as int) == rule
            &&& s[rule.len() as int] == '('
            &&& s.last() == ')'
            &&& s.subrange(1 + rule.len() as int, s.len() - 1) == payload
        },
        rule.len() == 0 && payload.len() == 0 ==> rule_shown(rule, payload) == "—"@,
{
    reveal_strlit("(");
    reveal_strlit(")");
    if rule.len() > 0 && payload.len() > 0 {
        let s = rule_shown(rule, payload);
        assert(s.take(rule.len() as int) =~= rule);
        assert(s.subrange(1 + rule.len() as int, s.len() - 1) =~= payload);
    }
}

/// A request ends when it was closed, and while it is open when it was last seen.
pub proof fn law_requests_end_when_closed(r: RecordModel)
    ensures
        r.closed_at matches Some(t) ==> end_of(r) == t,
        r.closed_at is None ==> end_of(r) == r.last_seen,
{
}

proof fn lemma_filter_from(s: Seq<Seq<char>>, p: spec_fn(Seq<char>) -> bool)
    ensures
        s.filter(p).len() <= s.len(),
        forall|k: int|
            0 <= k < s.filter(p).len() ==> p(#[trigger] s.filter(p)[k]) && s.contains(
                s.filter(p)[k],
            ),
        forall|k: int| 0 <= k < s.len() && p(#[trigger] s[k]) ==> s.filter(p).contains(s[k]),
    decreases s.len(),
{
    reveal(Seq::filter);
    if s.len() > 0 {
        let t = s.drop_last();
        lemma_filter_from(t, p);
        let before = t.filter(p);
        let all = s.filter(p);
        assert(s[s.len() - 1] == s.last());
        assert forall|k: int| 0 <= k < all.len() implies p(#[trigger] all[k]) && s.contains(
            all[k],
        ) by {
            if k < before.len() {
                assert(all[k] == before[k]);
                let i = choose|i: int| 0 <= i < t.len() && t[i] == before[k];
                assert(s[i] == before[k]);
            }
        }
        assert forall|k: int| 0 <= k < s.len() && p(#[trigger] s[k]) implies all.contains(s[k]) by {
            if k < t.len() {
                assert(t[k] == s[k]);
                let i = choose|i: int| 0 <= i < before.len() && before[i] == t[k];
                assert(all[i] == s[k]);
            } else {
                assert(all[before.len() as int] == s[k]);
            }
        }
    }
}

/// A page of requests shows closed requests that match the search, of failures only those that
/// look like one, behind the place asked for only newer ones, and not more than asked for.
pub proof fn law_pages_show_what_matches(
    r: RequestBatch,
    j: JournalModel,
    tags: Tags,
    q: Seq<char>,
    limit: int,
    after: Option<u64>,
    failures: bool,
    i: int,
)
    requires
        limit >= 0,
        is_request_batch(r, j, tags, q, limit, after, failures),
        0 <= i < r.entries@.len(),
    ensures
        r.entries@.len() <= limit || r.entries@.len() == 1,
        exists|k: Seq<char>| #[trigger]
            j.records.contains_key(k) && {
                let m = j.records[k];
                &&& m.closed && shows(m, q)
                &&& failures ==> suspicious(m)
                &&& after matches Some(a) ==> m.history_seq > a
                &&& r.entries@[i]@.upload == m.upload && r.entries@[i]@.download == m.download
                &&& r.entries@[i]@.id == m.id && r.entries@[i]@.host == m.host
                    && r.entries@[i]@.node_tag == m.node
            },
{
    match after {
        Some(a) => {
            let keys = choose|keys: Seq<Seq<char>>|
                #![trigger crate::traffic::shows_records(r.entries@, keys, j, tags)]
                crate::traffic::shows_records(r.entries@, keys, j, tags) && crate::traffic::is_page(
                    j,
                    keys,
                    r.cursor,
                    a,
                    limit,
                    failures,
                    q,
                );
            assert(j.records.contains_key(keys[i]));
            assert(behind(j, keys[i], a));
        },
        None => {
            let all = listed_keys(j, failures, q);
            lemma_filter_from(j.order, is_listed(j, failures, q));
            let n = if limit < all.len() {
                limit
            } else {
                all.len() as int
            };
            let keys = all.take(n);
            assert(keys[i] == all[i]);
            assert(j.records.contains_key(keys[i]));
        },
    }
}

/// The first page shows every request that matches, where they are not more than asked for.
pub proof fn law_first_page_leaves_nothing_out(
    r: RequestBatch,
    j: JournalModel,
    tags: Tags,
    q: Seq<char>,
    limit: int,
    failures: bool,
    x: int,
)
    requires
        is_request_batch(r, j, tags, q, limit, None, failures),
        j.order.len() <= limit,
        0 <= x < j.order.len(),
        j.records.contains_key(j.order[x]),
        j.records[j.order[x]].closed,
        shows(j.records[j.order[x]], q),
        failures ==> suspicious(j.records[j.order[x]]),
    ensures
        exists|i: int|
            0 <= i < r.entries@.len() && (#[trigger] r.entries@[i])@ == record_row(
                j.records[j.order[x]],
                tags,
            ),
        r.cursor == j.seq,
{
    let all = listed_keys(j, failures, q);
    let p = is_listed(j, failures, q);
    lemma_filter_from(j.order, p);
    assert(p(j.order[x]));
    let i = choose|i: int| 0 <= i < all.len() && all[i] == j.order[x];
    assert(all.take(all.len() as int) =~= all);
    assert(all.take(all.len() as int)[i] == j.order[x]);
    assert(shows_record(r.entries@[i], j.records[all[i]], tags));
}

/// A batch of open connections is empty where nothing changed, and holds all of them where the
/// receiver has none or too old ones.
pub proof fn law_live_batches_hold_what_changed(
    b: LiveConnectionBatch,
    j: JournalModel,
    tags: Tags,
    since: Option<u64>,
    order: Option<u64>,
)
    requires
        is_batch(b, j, tags, since, order),
    ensures
        since == Some(j.revision) ==> b.unchanged && b.rows@.len() == 0 && b.removed_ids@.len() == 0,
        since is None ==> b.full && !b.unchanged && b.rows@.len() == j.live.len(),
        since is Some && since->0 < j.floor && since->0 != j.revision ==> b.full && b.rows@.len()
            == j.live.len(),
        b.full ==> b.removed_ids@.len() == 0 && b.order_ids is Some,
        b.revision == j.revision && b.order_revision == j.order_revision,
{
    if since != Some(j.revision) && (since is None || since->0 < j.floor) {
        let p = crate::traffic::changed_since(j, true, crate::traffic::rev_or_zero(since));
        lemma_filter_all(j.live, p);
        assert(sent_rows(j, since) == j.live.filter(p));
    }
    if b.full {
        assert(crate::text::views(b.removed_ids@).len() == b.removed_ids@.len());
    }
}

proof fn lemma_filter_all<A>(s: Seq<A>, p: spec_fn(A) -> bool)
    requires
        forall|i: int| 0 <= i < s.len() ==> p(#[trigger] s[i]),
    ensures
        s.filter(p) == s,
    decreases s.len(),
{
    reveal(Seq::filter);
    if s.len() > 0 {
        let t = s.drop_last();
        assert forall|i: int| 0 <= i < t.len() implies p(#[trigger] t[i]) by {
            assert(p(s[i]));
        }
        lemma_filter_all(t, p);
        assert(p(s[s.len() - 1]));
        assert(t.push(s.last()) =~= s);
    } else {
        assert(s.filter(p) =~= s);
    }
}

// ---------------------------------------------------------------------------
// What is kept for when the core is busy
// ---------------------------------------------------------------------------
/// Requests that were kept are shown for the very search they were kept for, requests and
/// failures apart; a later page of them is empty and goes on where it was.
pub proof fn law_kept_requests_are_of_their_search(
    c: CacheModel,
    query: Seq<char>,
    limit: Option<usize>,
    failures: bool,
    after: u64,
)
    ensures
        cached_requests(c, query, limit, failures, Some(after)).entries.len() == 0,
        cached_requests(c, query, limit, failures, Some(after)).cursor == after,
        ({
            let kept = if failures {
                c.failures
            } else {
                c.requests
            };
            let got = cached_requests(c, query, limit, failures, None);
            &&& kept.query == query && kept.limit == limit ==> got.entries == kept.rows && got.cursor
                == kept.cursor
            &&& kept.query != query || kept.limit != limit ==> got.entries.len() == 0 && got.cursor
                == 0
        }),
{
}

/// A batch that changes nothing leaves what was kept; any other is noted with its revision, and
/// neither touches the requests that were kept.
pub proof fn law_kept_rows_follow_the_batches(c: CacheModel, b: LiveModel)
    ensures
        b.unchanged ==> cache_merged(c, b) == c,
        !b.unchanged ==> cache_merged(c, b).revision == b.revision && cache_merged(
            c,
            b,
        ).order_revision == b.order_revision,
        cache_merged(c, b).requests == c.requests && cache_merged(c, b).failures == c.failures,
{
}

/// Without a new order, rows that went are dropped, rows that changed are replaced in their
/// places, and all others stay.
pub proof fn law_rows_are_replaced_in_place(live: Seq<RowModel>, b: LiveModel, x: int)
    requires
        !b.full,
        b.order is None,
        b.removed.len() == 0,
        0 <= x < live.len(),
    ensures
        merged_rows(live, b).len() == live.len(),
        (forall|i: int| 0 <= i < b.rows.len() ==> (#[trigger] b.rows[i]).id != live[x].id)
            ==> merged_rows(live, b)[x] == live[x],
        forall|k: int|
            0 <= k < b.rows.len() && (#[trigger] b.rows[k]).id == live[x].id && (forall|i: int|
                k < i < b.rows.len() ==> (#[trigger] b.rows[i]).id != live[x].id) ==> merged_rows(
                live,
                b,
            )[x] == b.rows[k],
{
    assert forall|i: int| 0 <= i < live.len() implies stays(b.removed)(#[trigger] live[i]) by {}
    lemma_filter_all(live, stays(b.removed));
    lemma_rows_by_id(b.rows, live[x].id);
}

proof fn lemma_rows_by_id(rows: Seq<RowModel>, id: Seq<char>)
    ensures
        (forall|i: int| 0 <= i < rows.len() ==> (#[trigger] rows[i]).id != id) ==> !rows_by_id(
            rows,
            Map::empty(),
        ).contains_key(id),
        forall|k: int|
            0 <= k < rows.len() && (#[trigger] rows[k]).id == id && (forall|i: int|
                k < i < rows.len() ==> (#[trigger] rows[i]).id != id) ==> rows_by_id(
                rows,
                Map::empty(),
            ).contains_key(id) && rows_by_id(rows, Map::empty())[id] == rows[k],
    decreases rows.len(),
{
    if rows.len() > 0 {
        let t = rows.drop_last();
        let last = rows.len() - 1;
        lemma_rows_by_id(t, id);
        assert(rows[last] == rows.last());
        if forall|i: int| 0 <= i < rows.len() ==> (#[trigger] rows[i]).id != id {
            assert forall|i: int| 0 <= i < t.len() implies (#[trigger] t[i]).id != id by {
                assert(rows[i].id != id);
            }
            assert(rows[last].id != id);
        }
        assert forall|k: int|
            0 <= k < rows.len() && (#[trigger] rows[k]).id == id && (forall|i: int|
                k < i < rows.len() ==> (#[trigger] rows[i]).id != id) implies rows_by_id(
            rows,
            Map::empty(),
        ).contains_key(id) && rows_by_id(rows, Map::empty())[id] == rows[k] by {
            if k < last {
                assert(rows[last].id != id);
                assert(t[k] == rows[k]);
                assert forall|i: int| k < i < t.len() implies (#[trigger] t[i]).id != id by {
                    assert(rows[i].id != id);
                }
            }
        }
    }
}

/// A batch shows the connections as they are, and sends all of them only where it has to.
pub proof fn law_live_batches_show_connections(
    b: LiveConnectionBatch,
    j: JournalModel,
    tags: Tags,
    since: Option<u64>,
    order: Option<u64>,
    i: int,
)
    requires
        is_batch(b, j, tags, since, order),
        since != Some(j.revision),
        0 <= i < b.rows@.len(),
    ensures
        b.rows@[i]@ == connection_row(sent_rows(j, since)[i], tags),
        since is Some && since->0 >= j.floor ==> !b.full,
{
    assert(crate::traffic::shows_connection(b.rows@[i], sent_rows(j, since)[i], tags));
}

} // verus!
