//! The journal: what becomes of a request between two reports of the core.

use crate::health::{bad_tail, destination_of, is_sample, stats_of, suspicious_key};
use crate::journal::{
    capped, has_connection, history_key, ingested, noted_all_gone, noted_all_open, noted_open,
    opened, shows, ConnectionModel, JournalModel, RecordModel, Records, MAX_REQUEST_HISTORY,
};
use crate::text::{holds_text, lowered, trimmed};
use crate::traffic::{connection_row, page_limit, record_row, suspicious, Tags};
use vstd::prelude::*;

verus! {

// ---------------------------------------------------------------------------
// What a report does to requests
// ---------------------------------------------------------------------------
/// No two connections of a report have the same key.
pub open spec fn named_once(conns: Seq<ConnectionModel>) -> bool {
    forall|a: int, b: int|
        0 <= a < b < conns.len() ==> history_key(#[trigger] conns[a]) != history_key(
            #[trigger] conns[b],
        )
}

/// What a report of a connection makes of the record that was there before: counters never
/// fall and never lag behind, what was known stays, and what was not is filled in.
pub open spec fn carried_on(before: RecordModel, c: ConnectionModel, now: i64, after: RecordModel) -> bool {
    &&& after.upload >= before.upload && after.upload >= c.upload
    &&& after.upload == before.upload || after.upload == c.upload
    &&& after.download >= before.download && after.download >= c.download
    &&& after.download == before.download || after.download == c.download
    &&& after.first_seen == before.first_seen
    &&& after.last_seen == now
    &&& !after.closed && after.closed_at is None
    &&& after.id == before.id && after.history_seq == before.history_seq
    &&& after.network == before.network && after.conn_type == before.conn_type && after.source
        == before.source
    &&& c.node.len() == 0 || c.node == "—"@ ==> after.node == before.node
    &&& c.node.len() > 0 && c.node != "—"@ ==> after.node == c.node
    &&& c.chains.len() > 0 ==> after.chains == c.chains
    &&& c.chains.len() == 0 ==> after.chains == before.chains
    &&& before.host.len() > 0 || c.host.len() == 0 ==> after.host == before.host
    &&& before.host.len() == 0 && c.host.len() > 0 ==> after.host == c.host
    &&& before.process.len() > 0 || c.process.len() == 0 ==> after.process == before.process
    &&& before.process.len() == 0 && c.process.len() > 0 ==> after.process == c.process
    &&& before.rule.len() > 0 || c.rule.len() == 0 ==> after.rule == before.rule
        && after.rule_payload == before.rule_payload
    &&& before.rule.len() == 0 && c.rule.len() > 0 ==> after.rule == c.rule && after.rule_payload
        == c.rule_payload
    &&& before.destination != "—"@ ==> after.destination == before.destination
    &&& before.destination == "—"@ ==> after.destination == c.destination
}

/// What a report makes of a connection that has no record.
pub open spec fn taken_up(c: ConnectionModel, now: i64, after: RecordModel) -> bool {
    &&& after.id == history_key(c)
    &&& after.upload == c.upload && after.download == c.download
    &&& after.first_seen == now && after.last_seen == now
    &&& !after.closed && after.closed_at is None && after.history_seq == 0
    &&& after.destination == c.destination && after.host == c.host && after.network == c.network
    &&& after.conn_type == c.conn_type && after.node == c.node && after.chains == c.chains
    &&& after.rule == c.rule && after.rule_payload == c.rule_payload
    &&& after.process == c.process && after.source == c.source
}

proof fn lemma_capping_keeps(records: Records, order: Seq<Seq<char>>)
    ensures
        forall|k: Seq<char>| #[trigger]
            capped(records, order).0.contains_key(k) ==> records.contains_key(k) && capped(
                records,
                order,
            ).0[k] == records[k],
    decreases order.len(),
{
    if order.len() > MAX_REQUEST_HISTORY {
        let less = records.remove(order.last());
        lemma_capping_keeps(less, order.drop_last());
        assert(capped(records, order) == capped(less, order.drop_last()));
        assert forall|k: Seq<char>| #[trigger]
            capped(records, order).0.contains_key(k) implies records.contains_key(k) && capped(
            records,
            order,
        ).0[k] == records[k] by {
            assert(less.contains_key(k));
        }
    }
}

proof fn lemma_seen(records: Records, order: Seq<Seq<char>>, conns: Seq<ConnectionModel>, now: i64)
    requires
        named_once(conns),
    ensures
        ({
            let after = noted_all_open(records, order, conns, now).0;
            &&& forall|k: Seq<char>| #[trigger]
                after.contains_key(k) && !has_connection(conns, k) ==> records.contains_key(k)
                    && after[k] == records[k]
            &&& forall|i: int|
                0 <= i < conns.len() && after.contains_key(history_key(#[trigger] conns[i])) ==> {
                    let k = history_key(conns[i]);
                    ||| taken_up(conns[i], now, after[k])
                    ||| records.contains_key(k) && carried_on(records[k], conns[i], now, after[k])
                }
            &&& forall|i: int|
                0 <= i < conns.len() && after.contains_key(history_key(#[trigger] conns[i]))
                    && !records.contains_key(history_key(conns[i])) ==> taken_up(
                    conns[i],
                    now,
                    after[history_key(conns[i])],
                )
        }),
    decreases conns.len(),
{
    if conns.len() > 0 {
        let t = conns.drop_last();
        let c = conns.last();
        assert(named_once(t)) by {
            assert forall|a: int, b: int| 0 <= a < b < t.len() implies history_key(#[trigger] t[a])
                != history_key(#[trigger] t[b]) by {
                assert(t[a] == conns[a] && t[b] == conns[b]);
            }
        }
        lemma_seen(records, order, t, now);
        let (r, o) = noted_all_open(records, order, t, now);
        let key = history_key(c);
        let last = conns.len() - 1;
        assert(!has_connection(t, key)) by {
            if has_connection(t, key) {
                let i = choose|i: int| 0 <= i < t.len() && history_key(#[trigger] t[i]) == key;
                assert(conns[i] == t[i]);
                assert(conns[last] == c);
            }
        }
        assert forall|k: Seq<char>| has_connection(t, k) implies has_connection(conns, k) by {
            let i = choose|i: int| 0 <= i < t.len() && history_key(#[trigger] t[i]) == k;
            assert(conns[i] == t[i]);
        }
        assert(conns[last] == c);
        assert(has_connection(conns, key));
        let after = noted_all_open(records, order, conns, now).0;
        if !r.contains_key(key) {
            lemma_capping_keeps(r.insert(key, opened(c, now)), seq![key] + o);
        } else {
            assert(records.contains_key(key) && r[key] == records[key]);
        }
        assert forall|k: Seq<char>| #[trigger]
            after.contains_key(k) && !has_connection(conns, k) implies records.contains_key(k)
            && after[k] == records[k] by {
            assert(k != key);
            assert(r.contains_key(k));
        }
        assert forall|i: int|
            0 <= i < conns.len() && after.contains_key(history_key(#[trigger] conns[i])) implies {
            let k = history_key(conns[i]);
            ||| taken_up(conns[i], now, after[k])
            ||| records.contains_key(k) && carried_on(records[k], conns[i], now, after[k])
        } by {
            if i < t.len() {
                assert(conns[i] == t[i]);
                let k = history_key(t[i]);
                assert(history_key(conns[i]) != history_key(conns[last]));
                assert(r.contains_key(k));
                assert(after[k] == r[k]);
            }
        }
        assert forall|i: int|
            0 <= i < conns.len() && after.contains_key(history_key(#[trigger] conns[i]))
                && !records.contains_key(history_key(conns[i])) implies taken_up(
            conns[i],
            now,
            after[history_key(conns[i])],
        ) by {
            if i < t.len() {
                assert(conns[i] == t[i]);
                let k = history_key(t[i]);
                assert(history_key(conns[i]) != history_key(conns[last]));
                assert(r.contains_key(k));
                assert(after[k] == r[k]);
            }
        }
    }
}

/// What the close of a request leaves as it was.
pub open spec fn closed_off(before: RecordModel, now: i64, seq: u64, after: RecordModel) -> bool {
    &&& after.closed && after.closed_at == Some(now) && after.last_seen == now
    &&& after.history_seq > seq
    &&& after.upload == before.upload && after.download == before.download
    &&& after.first_seen == before.first_seen && after.id == before.id
    &&& after.host == before.host && after.destination == before.destination
    &&& after.node == before.node && after.chains == before.chains
    &&& after.rule == before.rule && after.rule_payload == before.rule_payload
    &&& after.process == before.process && after.source == before.source
    &&& after.network == before.network && after.conn_type == before.conn_type
}

proof fn lemma_gone(
    records: Records,
    seq: u64,
    live: Seq<ConnectionModel>,
    conns: Seq<ConnectionModel>,
    now: i64,
)
    requires
        seq + live.len() < u64::MAX,
    ensures
        ({
            let (after, s) = noted_all_gone(records, seq, live, conns, now);
            &&& seq <= s <= seq + live.len()
            &&& forall|k: Seq<char>| #[trigger] after.contains_key(k) <==> records.contains_key(k)
            &&& forall|k: Seq<char>| #[trigger]
                after.contains_key(k) && (has_connection(conns, k) || !has_connection(live, k)
                    || records[k].closed) ==> after[k] == records[k]
            &&& forall|k: Seq<char>| #[trigger]
                after.contains_key(k) && has_connection(live, k) && !has_connection(conns, k)
                    && !records[k].closed ==> closed_off(records[k], now, seq, after[k])
                    && after[k].history_seq <= s
        }),
    decreases live.len(),
{
    if live.len() > 0 {
        let t = live.drop_last();
        lemma_gone(records, seq, t, conns, now);
        let (r, s) = noted_all_gone(records, seq, t, conns, now);
        let (after, s2) = noted_all_gone(records, seq, live, conns, now);
        let key = history_key(live.last());
        assert(live[live.len() - 1] == live.last());
        assert(has_connection(live, key));
        assert forall|k: Seq<char>| has_connection(t, k) implies has_connection(live, k) by {
            let i = choose|i: int| 0 <= i < t.len() && history_key(#[trigger] t[i]) == k;
            assert(live[i] == t[i]);
        }
        assert forall|k: Seq<char>| k != key && has_connection(live, k) implies has_connection(
            t,
            k,
        ) by {
            let i = choose|i: int| 0 <= i < live.len() && history_key(#[trigger] live[i]) == k;
            assert(t[i] == live[i]);
        }
        assert forall|k: Seq<char>| #[trigger]
            after.contains_key(k) && (has_connection(conns, k) || !has_connection(live, k)
                || records[k].closed) implies after[k] == records[k] by {
            assert(r.contains_key(k));
        }
        assert forall|k: Seq<char>| #[trigger]
            after.contains_key(k) && has_connection(live, k) && !has_connection(conns, k)
                && !records[k].closed implies closed_off(records[k], now, seq, after[k])
            && after[k].history_seq <= s2 by {
            assert(r.contains_key(k));
        }
    }
}

/// After a report that names each connection once, the record of a connection that it names
/// has as its upload the larger of what the record had and what the report says, and likewise
/// as its download; a record that was not there, or that the history had no room for in
/// between, begins with what the report says. Requests of connections that went are closed
/// with new numbers and keep their counters; all other requests are as they were.
pub proof fn law_requests_follow_the_reports(
    j: JournalModel,
    conns: Seq<ConnectionModel>,
    now: i64,
)
    requires
        named_once(conns),
        j.seq + j.live.len() < u64::MAX,
    ensures
        forall|i: int|
            0 <= i < conns.len() && ingested(j, conns, now).records.contains_key(
                history_key(#[trigger] conns[i]),
            ) ==> {
                let after = ingested(j, conns, now).records[history_key(conns[i])];
                ||| taken_up(conns[i], now, after)
                ||| j.records.contains_key(history_key(conns[i])) && carried_on(
                    j.records[history_key(conns[i])],
                    conns[i],
                    now,
                    after,
                )
            },
        forall|i: int|
            0 <= i < conns.len() && ingested(j, conns, now).records.contains_key(
                history_key(#[trigger] conns[i]),
            ) && !j.records.contains_key(history_key(conns[i])) ==> taken_up(
                conns[i],
                now,
                ingested(j, conns, now).records[history_key(conns[i])],
            ),
        forall|k: Seq<char>| #[trigger]
            ingested(j, conns, now).records.contains_key(k) && !has_connection(conns, k)
                ==> j.records.contains_key(k) && if has_connection(j.live, k)
                && !j.records[k].closed {
                closed_off(j.records[k], now, j.seq, ingested(j, conns, now).records[k])
            } else {
                ingested(j, conns, now).records[k] == j.records[k]
            },
        ingested(j, conns, now).seq >= j.seq,
        ingested(j, conns, now).live == conns,
{
    lemma_seen(j.records, j.order, conns, now);
    let (r, o) = noted_all_open(j.records, j.order, conns, now);
    lemma_gone(r, j.seq, j.live, conns, now);
    let after = ingested(j, conns, now).records;
    assert(after == noted_all_gone(r, j.seq, j.live, conns, now).0);
    assert forall|i: int| 0 <= i < conns.len() implies has_connection(
        conns,
        history_key(#[trigger] conns[i]),
    ) by {}
    assert forall|i: int|
        0 <= i < conns.len() && after.contains_key(history_key(#[trigger] conns[i])) implies after[
        history_key(conns[i])
    ] == r[history_key(conns[i])] && r.contains_key(history_key(conns[i])) by {
        assert(has_connection(conns, history_key(conns[i])));
    }
    assert forall|k: Seq<char>| #[trigger]
        after.contains_key(k) && !has_connection(conns, k) implies j.records.contains_key(k) && if has_connection(
        j.live,
        k,
    ) && !j.records[k].closed {
        closed_off(j.records[k], now, j.seq, after[k])
    } else {
        after[k] == j.records[k]
    } by {
        assert(r.contains_key(k));
        assert(r[k] == j.records[k]);
    }
}

/// While the history has room, a record is carried on, and none is dropped: every connection
/// of a report has its record, with the larger of the counters.
pub proof fn law_counters_never_fall(
    records: Records,
    order: Seq<Seq<char>>,
    conns: Seq<ConnectionModel>,
    now: i64,
    x: int,
)
    requires
        order.len() + conns.len() <= 3000,
        0 <= x < conns.len(),
    ensures
        ({
            let (after, o) = noted_all_open(records, order, conns, now);
            let k = history_key(conns[x]);
            &&& o.len() <= order.len() + conns.len()
            &&& after.contains_key(k)
            &&& after[k].upload >= conns[x].upload && after[k].download >= conns[x].download
            &&& records.contains_key(k) ==> after[k].upload >= records[k].upload
                && after[k].download >= records[k].download && after[k].first_seen
                == records[k].first_seen
        }),
    decreases conns.len(),
{
    lemma_room(records, order, conns, now);
    let t = conns.drop_last();
    let c = conns.last();
    let (r, o) = noted_all_open(records, order, t, now);
    lemma_room(records, order, t, now);
    if x < t.len() {
        law_counters_never_fall(records, order, t, now, x);
        assert(t[x] == conns[x]);
    } else {
        assert(conns[x] == c);
    }
}

proof fn lemma_room(records: Records, order: Seq<Seq<char>>, conns: Seq<ConnectionModel>, now: i64)
    requires
        order.len() + conns.len() <= 3000,
    ensures
        noted_all_open(records, order, conns, now).1.len() <= order.len() + conns.len(),
        forall|k: Seq<char>| #[trigger]
            records.contains_key(k) ==> noted_all_open(records, order, conns, now).0.contains_key(k)
                && noted_all_open(records, order, conns, now).0[k].upload >= records[k].upload
                && noted_all_open(records, order, conns, now).0[k].download >= records[k].download
                && noted_all_open(records, order, conns, now).0[k].first_seen
                == records[k].first_seen,
    decreases conns.len(),
{
    if conns.len() > 0 {
        let t = conns.drop_last();
        lemma_room(records, order, t, now);
        let (r, o) = noted_all_open(records, order, t, now);
        let key = history_key(conns.last());
        assert((seq![key] + o).len() <= 3000);
    }
}

/// The history drops what was seen first longest ago, and keeps 3000 requests.
pub proof fn law_history_drops_the_oldest(records: Records, order: Seq<Seq<char>>)
    ensures
        capped(records, order).1 == if order.len() > 3000 {
            order.take(3000)
        } else {
            order
        },
        forall|i: int|
            3000 <= i < order.len() ==> !capped(records, order).0.contains_key(#[trigger] order[i]),
        order.no_duplicates() ==> forall|i: int|
            0 <= i < order.len() && i < 3000 && records.contains_key(#[trigger] order[i])
                ==> capped(records, order).0.contains_key(order[i]),
    decreases order.len(),
{
    if order.len() > 3000 {
        let less = records.remove(order.last());
        let t = order.drop_last();
        law_history_drops_the_oldest(less, t);
        lemma_capping_keeps(less, t);
        assert(capped(records, order) == capped(less, t));
        if t.len() > 3000 {
            assert(t.take(3000) =~= order.take(3000));
        } else {
            assert(t =~= order.take(3000));
        }
        assert forall|i: int| 3000 <= i < order.len() implies !capped(records, order).0.contains_key(
            #[trigger] order[i],
        ) by {
            if i < t.len() {
                assert(t[i] == order[i]);
            } else {
                assert(!less.contains_key(order[i]));
            }
        }
        if order.no_duplicates() {
            assert(t.no_duplicates());
            assert forall|i: int|
                0 <= i < order.len() && i < 3000 && records.contains_key(
                    #[trigger] order[i],
                ) implies capped(records, order).0.contains_key(order[i]) by {
                assert(t[i] == order[i]);
                assert(order[i] != order.last());
                assert(less.contains_key(t[i]));
            }
        }
    }
}

/// A request that was not known comes first in the history.
pub proof fn law_new_requests_come_first(
    records: Records,
    order: Seq<Seq<char>>,
    c: ConnectionModel,
    now: i64,
)
    ensures
        !records.contains_key(history_key(c)) ==> noted_open(records, order, c, now).1.len() > 0
            && noted_open(records, order, c, now).1[0] == history_key(c),
        records.contains_key(history_key(c)) ==> noted_open(records, order, c, now).1 == order,
{
    law_history_drops_the_oldest(
        records.insert(history_key(c), opened(c, now)),
        seq![history_key(c)] + order,
    );
}

/// A connection with an id is known by it.
pub proof fn law_connection_is_known_by_its_id(a: ConnectionModel, b: ConnectionModel)
    requires
        trimmed(a.id).len() > 0,
    ensures
        history_key(a) == a.id,
        trimmed(b.id).len() > 0 ==> (history_key(a) == history_key(b) <==> a.id == b.id),
{
}

// ---------------------------------------------------------------------------
// What is read off the history
// ---------------------------------------------------------------------------
/// A request looks like a failure where it lasted at most three seconds and carried less than
/// a kilobyte either way.
pub proof fn law_failures_are_short_and_small(r: RecordModel)
    requires
        r.closed_at is Some,
        i64::MIN / 2 <= r.first_seen <= i64::MAX / 2,
        i64::MIN / 2 <= r.closed_at->0 <= i64::MAX / 2,
    ensures
        suspicious(r) <==> r.closed_at->0 - r.first_seen <= 3000 && r.download < 1024 && r.upload
            < 1024,
{
}

/// More carried never makes a failure.
pub proof fn law_carrying_more_clears(r: RecordModel, upload: u64, download: u64)
    requires
        upload >= r.upload,
        download >= r.download,
        suspicious(RecordModel { upload, download, ..r }),
    ensures
        suspicious(r),
{
}

/// A request counts for a node where it closed within the time looked back on and went through
/// the node: as its outbound, as a hop, or by a name that holds the tag.
pub proof fn law_samples_are_recent(r: RecordModel, tag: Seq<char>, lookback: i64, now: i64)
    requires
        r.closed_at is Some,
        i64::MIN / 2 <= now <= i64::MAX / 2,
        i64::MIN / 2 <= r.closed_at->0 <= i64::MAX / 2,
    ensures
        is_sample(r, tag, lookback, now) <==> r.closed && now - r.closed_at->0 <= lookback && (r.node
            == tag || r.chains.contains(tag) || (tag.len() > 0 && holds_text(r.node, tag))),
{
}

/// The destination of a request is its host, else its address, else unknown.
pub proof fn law_destination_is_the_host(r: RecordModel)
    ensures
        r.host.len() > 0 ==> destination_of(r) == r.host,
        r.host.len() == 0 && r.destination.len() > 0 && r.destination != "—"@ ==> destination_of(r)
            == r.destination,
        r.host.len() == 0 && (r.destination.len() == 0 || r.destination == "—"@) ==> destination_of(
            r,
        ) == "unknown"@,
{
}

/// The failures in a row are the newest requests up to the first that is none.
pub proof fn law_row_of_failures_is_the_newest(j: JournalModel, keys: Seq<Seq<char>>)
    ensures
        bad_tail(j, keys) <= keys.len(),
        forall|i: int|
            keys.len() - bad_tail(j, keys) <= i < keys.len() ==> suspicious(
                j.records[#[trigger] keys[i]],
            ),
        bad_tail(j, keys) < keys.len() ==> !suspicious(
            j.records[keys[keys.len() - bad_tail(j, keys) - 1]],
        ),
    decreases keys.len(),
{
    if keys.len() > 0 && suspicious(j.records[keys.last()]) {
        let t = keys.drop_last();
        law_row_of_failures_is_the_newest(j, t);
        assert forall|i: int| keys.len() - bad_tail(j, keys) <= i < keys.len() implies suspicious(
            j.records[#[trigger] keys[i]],
        ) by {
            if i < t.len() {
                assert(t[i] == keys[i]);
            }
        }
        if bad_tail(j, keys) < keys.len() {
            assert(t[t.len() - bad_tail(j, t) - 1] == keys[keys.len() - bad_tail(j, keys) - 1]);
        }
    }
}

/// The counts of a node: all its requests, those that look like failures, and of each the
/// destinations.
pub proof fn law_counts_are_of_the_samples(j: JournalModel, keys: Seq<Seq<char>>)
    requires
        keys.len() <= 3000,
    ensures
        stats_of(j, keys).total == keys.len(),
        stats_of(j, keys).suspicious == keys.filter(
            |k: Seq<char>| suspicious(j.records[k]),
        ).len(),
        stats_of(j, keys).suspicious > 0 <==> exists|i: int|
            0 <= i < keys.len() && suspicious(j.records[#[trigger] keys[i]]),
        stats_of(j, keys).consecutive_recent_sus <= stats_of(j, keys).total,
{
    law_row_of_failures_is_the_newest(j, keys);
    lemma_filter_holds(keys, suspicious_key(j));
    assert(suspicious_key(j) =~= (|k: Seq<char>| suspicious(j.records[k])));
}

proof fn lemma_filter_holds<A>(s: Seq<A>, p: spec_fn(A) -> bool)
    ensures
        s.filter(p).len() <= s.len(),
        s.filter(p).len() > 0 <==> exists|i: int| 0 <= i < s.len() && p(#[trigger] s[i]),
    decreases s.len(),
{
    reveal(Seq::filter);
    if s.len() > 0 {
        let t = s.drop_last();
        lemma_filter_holds(t, p);
        assert(s[s.len() - 1] == s.last());
        if exists|i: int| 0 <= i < t.len() && p(#[trigger] t[i]) {
            let i = choose|i: int| 0 <= i < t.len() && p(#[trigger] t[i]);
            assert(s[i] == t[i]);
        }
        if exists|i: int| 0 <= i < s.len() && p(#[trigger] s[i]) {
            let i = choose|i: int| 0 <= i < s.len() && p(#[trigger] s[i]);
            if i < t.len() {
                assert(t[i] == s[i]);
            }
        }
    }
}

/// A search finds a request by any part of its destination, host, node, rule, payload,
/// process, source or network, in any case; a blank one finds all.
pub proof fn law_search_finds_any_part(r: RecordModel, q: Seq<char>)
    ensures
        trimmed(q).len() == 0 ==> shows(r, q),
        trimmed(q).len() > 0 ==> (shows(r, q) <==> {
            let k = lowered(trimmed(q));
            ||| holds_text(lowered(r.destination), k)
            ||| holds_text(lowered(r.host), k)
            ||| holds_text(lowered(r.node), k)
            ||| holds_text(lowered(r.rule), k)
            ||| holds_text(lowered(r.rule_payload), k)
            ||| holds_text(lowered(r.process), k)
            ||| holds_text(lowered(r.source), k)
            ||| holds_text(lowered(r.network), k)
        }),
{
}

/// A page holds at most what is asked for, 800 requests where nothing is, and never more than
/// the history.
pub proof fn law_pages_have_a_size(limit: Option<usize>)
    ensures
        limit is None ==> page_limit(limit) == 800,
        limit is Some && limit->0 <= 3000 ==> page_limit(limit) == limit->0,
        limit is Some && limit->0 > 3000 ==> page_limit(limit) == 3000,
{
}

/// A row shows what is known of a connection or a request, under its own names.
pub proof fn law_rows_show_what_is_known(c: ConnectionModel, r: RecordModel, tags: Tags)
    ensures
        ({
            let row = connection_row(c, tags);
            &&& row.id == history_key(c) && row.host == c.host && row.destination == c.destination
            &&& row.upload == c.upload && row.download == c.download && row.node_tag == c.node
            &&& row.process == c.process && row.source == c.source && row.network == c.network
            &&& row.chains == c.chains && row.rule_payload == c.rule_payload && row.start == c.start
            &&& !row.closed && row.closed_at is None
            &&& tags.contains_key(c.node) ==> row.node_name == tags[c.node].name
                && row.subscription_name == tags[c.node].subscription
            &&& !tags.contains_key(c.node) ==> row.node_name == c.node
        }),
        ({
            let row = record_row(r, tags);
            &&& row.id == r.id && row.host == r.host && row.destination == r.destination
            &&& row.upload == r.upload && row.download == r.download && row.node_tag == r.node
            &&& row.process == r.process && row.source == r.source && row.network == r.network
            &&& row.chains == r.chains && row.rule_payload == r.rule_payload
            &&& row.closed == r.closed && row.closed_at == r.closed_at
            &&& row.first_seen == Some(r.first_seen) && row.last_seen == Some(r.last_seen)
            &&& tags.contains_key(r.node) ==> row.node_name == tags[r.node].name
        }),
{
}

/// The destinations of the failures are counted each once.
pub proof fn law_destinations_are_counted_once(j: JournalModel, keys: Seq<Seq<char>>)
    requires
        keys.len() <= 3000,
        forall|i: int| 0 <= i < keys.len() ==> suspicious(j.records[#[trigger] keys[i]]),
        forall|a: int, b: int|
            0 <= a < keys.len() && 0 <= b < keys.len() ==> destination_of(
                j.records[#[trigger] keys[a]],
            ) == destination_of(j.records[#[trigger] keys[b]]),
        keys.len() > 0,
    ensures
        stats_of(j, keys).dests == 1,
        stats_of(j, keys).sus_dests == 1,
        stats_of(j, keys).suspicious == keys.len(),
        stats_of(j, keys).consecutive_recent_sus == keys.len(),
{
    let p = suspicious_key(j);
    assert forall|i: int| 0 <= i < keys.len() implies p(#[trigger] keys[i]) by {}
    lemma_filter_is_all(keys, p);
    let d = destination_of(j.records[keys[0]]);
    let all = crate::health::destinations(j, keys);
    assert(all[0] == d);
    assert forall|x: Seq<char>| all.to_set().contains(x) <==> x == d by {
        if all.to_set().contains(x) {
            let i = choose|i: int| 0 <= i < all.len() && all[i] == x;
            assert(x == destination_of(j.records[keys[i]]));
            assert(keys[0] == keys[0]);
        }
        if x == d {
            assert(all.contains(all[0]));
        }
    }
    assert(all.to_set() =~= set![d]);
    law_row_of_failures_is_the_newest(j, keys);
}

proof fn lemma_filter_is_all<A>(s: Seq<A>, p: spec_fn(A) -> bool)
    requires
        forall|i: int| 0 <= i < s.len() ==> p(#[trigger] s[i]),
    ensures
        s.filter(p) == s,
    decreases s.len(),
{
    reveal(Seq::filter);
    if s.len() > 0 {
        let t = s.drop_last();
        assert forall|i: int| 0 <= i < t.len() implies p(#[trigger] t[i]) by {
            assert(p(s[i]));
        }
        lemma_filter_is_all(t, p);
        assert(p(s[s.len() - 1]));
        assert(t.push(s.last()) =~= s);
    } else {
        assert(s.filter(p) =~= s);
    }
}

} // verus!
