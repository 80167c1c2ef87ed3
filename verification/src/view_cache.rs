//! The rows that were shown last, for the time in which the session cannot be asked.

use crate::table::Table;
use crate::text::{list_holds, same, views};
use crate::traffic::{
    copy_rows, opt_views, row_views, ConnectionView, LiveConnectionBatch, RequestBatch, RowModel,
};
use vstd::prelude::*;

verus! {

/// The requests that were shown last, with what they were asked for by.
#[derive(Debug)]
pub struct QueryViewCache {
    pub query: String,
    pub limit: Option<usize>,
    pub rows: Vec<ConnectionView>,
    pub cursor: u64,
}

/// What was shown last of the traffic.
#[derive(Debug)]
pub struct TrafficViewCache {
    pub live: Vec<ConnectionView>,
    pub live_revision: u64,
    pub live_order_revision: u64,
    pub requests: QueryViewCache,
    pub failures: QueryViewCache,
}

pub struct QueryModel {
    pub query: Seq<char>,
    pub limit: Option<usize>,
    pub rows: Seq<RowModel>,
    pub cursor: u64,
}

impl View for QueryViewCache {
    type V = QueryModel;

    open spec fn view(&self) -> QueryModel {
        QueryModel {
            query: self.query@,
            limit: self.limit,
            rows: row_views(self.rows@),
            cursor: self.cursor,
        }
    }
}

pub struct CacheModel {
    pub live: Seq<RowModel>,
    pub revision: u64,
    pub order_revision: u64,
    pub requests: QueryModel,
    pub failures: QueryModel,
}

impl View for TrafficViewCache {
    type V = CacheModel;

    open spec fn view(&self) -> CacheModel {
        CacheModel {
            live: row_views(self.live@),
            revision: self.live_revision,
            order_revision: self.live_order_revision,
            requests: self.requests@,
            failures: self.failures@,
        }
    }
}

pub open spec fn empty_query() -> QueryModel {
    QueryModel { query: Seq::empty(), limit: None, rows: Seq::empty(), cursor: 0 }
}

pub open spec fn empty_cache() -> CacheModel {
    CacheModel {
        live: Seq::empty(),
        revision: 0,
        order_revision: 0,
        requests: empty_query(),
        failures: empty_query(),
    }
}

impl Default for QueryViewCache {
    fn default() -> (r: Self)
        ensures
            r@ == empty_query(),
    {
        let q = QueryViewCache { query: String::new(), limit: None, rows: Vec::new(), cursor: 0 };
        proof {
            assert(q@.rows =~= Seq::empty());
            assert(q@.query =~= Seq::empty());
        }
        q
    }
}

impl Default for TrafficViewCache {
    fn default() -> (r: Self)
        ensures
            r@ == empty_cache(),
    {
        let c = TrafficViewCache {
            live: Vec::new(),
            live_revision: 0,
            live_order_revision: 0,
            requests: QueryViewCache::default(),
            failures: QueryViewCache::default(),
        };
        proof {
            assert(c@.live =~= Seq::empty());
        }
        c
    }
}

// ---------------------------------------------------------------------------
// Open connections
// ---------------------------------------------------------------------------
/// The value of a batch.
pub struct LiveModel {
    pub rows: Seq<RowModel>,
    pub removed: Seq<Seq<char>>,
    pub order: Option<Seq<Seq<char>>>,
    pub order_revision: u64,
    pub revision: u64,
    pub unchanged: bool,
    pub full: bool,
}

impl View for LiveConnectionBatch {
    type V = LiveModel;

    open spec fn view(&self) -> LiveModel {
        LiveModel {
            rows: row_views(self.rows@),
            removed: views(self.removed_ids@),
            order: opt_views(self.order_ids),
            order_revision: self.order_revision,
            revision: self.revision,
            unchanged: self.unchanged,
            full: self.full,
        }
    }
}

pub open spec fn row_ids(rows: Seq<RowModel>) -> Seq<Seq<char>> {
    Seq::new(rows.len(), |i: int| rows[i].id)
}

/// The batch that the cache gives: nothing to a receiver that has its revision, else all
/// rows.
pub open spec fn cached_batch(c: CacheModel, since: Option<u64>) -> LiveModel {
    if since == Some(c.revision) {
        LiveModel {
            rows: Seq::empty(),
            removed: Seq::empty(),
            order: None,
            order_revision: c.order_revision,
            revision: c.revision,
            unchanged: true,
            full: false,
        }
    } else {
        LiveModel {
            rows: c.live,
            removed: Seq::empty(),
            order: Some(row_ids(c.live)),
            order_revision: c.order_revision,
            revision: c.revision,
            unchanged: false,
            full: true,
        }
    }
}

/// The row is not among the removed ones.
pub open spec fn stays(removed: Seq<Seq<char>>) -> spec_fn(RowModel) -> bool {
    |r: RowModel| !removed.contains(r.id)
}

/// The rows by their ids; of two rows of one id the last counts.
pub open spec fn rows_by_id(rows: Seq<RowModel>, start: Map<Seq<char>, RowModel>) -> Map<
    Seq<char>,
    RowModel,
>
    decreases rows.len(),
{
    if rows.len() == 0 {
        start
    } else {
        rows_by_id(rows.drop_last(), start).insert(rows.last().id, rows.last())
    }
}

/// The rows in the order of the ids, each once.
pub open spec fn in_order_of(order: Seq<Seq<char>>, by_id: Map<Seq<char>, RowModel>) -> Seq<RowModel>
    decreases order.len(),
{
    if order.len() == 0 {
        Seq::empty()
    } else {
        let before = in_order_of(order.drop_last(), by_id);
        let id = order.last();
        if by_id.contains_key(id) && !order.drop_last().contains(id) {
            before.push(by_id[id])
        } else {
            before
        }
    }
}

/// The rows, each replaced by its update.
pub open spec fn overlaid(rows: Seq<RowModel>, updates: Map<Seq<char>, RowModel>) -> Seq<RowModel> {
    Seq::new(
        rows.len(),
        |i: int|
            if updates.contains_key(rows[i].id) {
                updates[rows[i].id]
            } else {
                rows[i]
            },
    )
}

/// The rows of the cache after a batch.
pub open spec fn merged_rows(live: Seq<RowModel>, b: LiveModel) -> Seq<RowModel> {
    if b.full {
        b.rows
    } else {
        let kept = live.filter(stays(b.removed));
        match b.order {
            Some(order) => in_order_of(
                order,
                rows_by_id(b.rows, rows_by_id(kept, Map::empty())),
            ),
            None => overlaid(kept, rows_by_id(b.rows, Map::empty())),
        }
    }
}

/// The cache after a batch.
pub open spec fn cache_merged(c: CacheModel, b: LiveModel) -> CacheModel {
    if b.unchanged {
        c
    } else {
        CacheModel {
            live: merged_rows(c.live, b),
            revision: b.revision,
            order_revision: b.order_revision,
            ..c
        }
    }
}

pub open spec fn table_rows(m: Map<Seq<char>, ConnectionView>) -> Map<Seq<char>, RowModel> {
    m.map_values(|v: ConnectionView| v@)
}

/// The rows that are not removed.
fn rows_that_stay(rows: &Vec<ConnectionView>, removed: &Vec<String>) -> (r: Vec<ConnectionView>)
    ensures
        row_views(r@) == row_views(rows@).filter(stays(views(removed@))),
        r@.len() == row_views(rows@).filter(stays(views(removed@))).len(),
{
    let ghost p = stays(views(removed@));
    let ghost all = row_views(rows@);
    let mut out: Vec<ConnectionView> = Vec::new();
    proof {
        reveal(Seq::filter);
        assert(all.take(0).filter(p) =~= Seq::empty());
        assert(row_views(out@) =~= Seq::empty());
    }
    for i in 0..rows.len()
        invariant
            p == stays(views(removed@)),
            all == row_views(rows@),
            row_views(out@) == all.take(i as int).filter(p),
    {
        let ghost before = out@;
        proof {
            reveal(Seq::filter);
            assert(all.take(i + 1).drop_last() =~= all.take(i as int));
            assert(all.take(i + 1).last() == rows@[i as int]@);
        }
        if !list_holds(removed, rows[i].id.as_str()) {
            out.push(rows[i].copy());
            proof {
                assert(row_views(out@) =~= row_views(before).push(rows@[i as int]@));
            }
        }
    }
    proof {
        assert(all.take(all.len() as int) =~= all);
        assert(row_views(out@).len() == out@.len());
    }
    out
}

/// Puts rows under their ids.
fn put_rows(table: &mut Table<ConnectionView>, rows: &Vec<ConnectionView>)
    ensures
        table_rows(final(table)@) == rows_by_id(row_views(rows@), table_rows(old(table)@)),
{
    let ghost start = table_rows(table@);
    let ghost all = row_views(rows@);
    proof {
        assert(all.take(0) =~= Seq::empty());
    }
    for i in 0..rows.len()
        invariant
            all == row_views(rows@),
            table_rows(table@) == rows_by_id(all.take(i as int), start),
    {
        let ghost before = table@;
        proof {
            assert(all.take(i + 1).drop_last() =~= all.take(i as int));
            assert(all.take(i + 1).last() == rows@[i as int]@);
        }
        let row = rows[i].copy();
        let ghost m = row@;
        let id = rows[i].id.clone();
        table.insert(id, row);
        proof {
            assert(table_rows(table@) =~= table_rows(before).insert(rows@[i as int].id@, m));
        }
    }
    proof {
        assert(all.take(all.len() as int) =~= all);
    }
}

/// The rows in the order of the ids, each once.
fn ordered_rows(order: &Vec<String>, by_id: &Table<ConnectionView>) -> (r: Vec<ConnectionView>)
    ensures
        row_views(r@) == in_order_of(views(order@), table_rows(by_id@)),
{
    let ghost ids = views(order@);
    let ghost m = table_rows(by_id@);
    let mut out: Vec<ConnectionView> = Vec::new();
    let mut seen: Vec<String> = Vec::new();
    proof {
        assert(ids.take(0) =~= Seq::empty());
        assert(row_views(out@) =~= Seq::empty());
        assert(views(seen@) =~= Seq::empty());
    }
    for i in 0..order.len()
        invariant
            ids == views(order@),
            m == table_rows(by_id@),
            views(seen@) == ids.take(i as int),
            row_views(out@) == in_order_of(ids.take(i as int), m),
    {
        let ghost before = out@;
        let ghost seen_before = seen@;
        let ghost id = order@[i as int]@;
        proof {
            assert(ids.take(i + 1).drop_last() =~= ids.take(i as int));
            assert(ids.take(i + 1).last() == id);
        }
        if !list_holds(&seen, order[i].as_str()) {
            if let Some(row) = by_id.get(order[i].as_str()) {
                out.push(row.copy());
                proof {
                    assert(row_views(out@) =~= row_views(before).push(m[id]));
                }
            }
        }
        seen.push(order[i].clone());
        proof {
            assert(views(seen@) =~= views(seen_before).push(id));
            assert(ids.take(i + 1) =~= ids.take(i as int).push(id));
        }
    }
    proof {
        assert(ids.take(ids.len() as int) =~= ids);
    }
    out
}

/// The rows, each replaced by its update.
fn updated_rows(rows: &Vec<ConnectionView>, updates: &Table<ConnectionView>) -> (r: Vec<
    ConnectionView,
>)
    ensures
        row_views(r@) == overlaid(row_views(rows@), table_rows(updates@)),
{
    let ghost m = table_rows(updates@);
    let ghost all = row_views(rows@);
    let mut out: Vec<ConnectionView> = Vec::new();
    for i in 0..rows.len()
        invariant
            m == table_rows(updates@),
            all == row_views(rows@),
            out@.len() == i,
            forall|j: int| 0 <= j < i ==> (#[trigger] out@[j])@ == overlaid(all, m)[j],
    {
        match updates.get(rows[i].id.as_str()) {
            Some(u) => out.push(u.copy()),
            None => out.push(rows[i].copy()),
        }
    }
    proof {
        assert(row_views(out@) =~= overlaid(all, m));
    }
    out
}

fn ids_of(rows: &Vec<ConnectionView>) -> (r: Vec<String>)
    ensures
        views(r@) == row_ids(row_views(rows@)),
{
    let mut out: Vec<String> = Vec::new();
    for i in 0..rows.len()
        invariant
            out@.len() == i,
            forall|j: int| 0 <= j < i ==> (#[trigger] out@[j])@ == rows@[j].id@,
    {
        out.push(rows[i].id.clone());
    }
    proof {
        assert(views(out@) =~= row_ids(row_views(rows@)));
    }
    out
}

impl TrafficViewCache {
    /// The batch that the cache gives.
    pub fn batch(&self, since_revision: Option<u64>) -> (r: LiveConnectionBatch)
        ensures
            r@ == cached_batch(self@, since_revision),
    {
        let known = match since_revision {
            Some(rev) => rev == self.live_revision,
            None => false,
        };
        let rows = if known {
            Vec::new()
        } else {
            copy_rows(&self.live)
        };
        let order_ids = if known {
            None
        } else {
            Some(ids_of(&self.live))
        };
        let b = LiveConnectionBatch {
            rows,
            removed_ids: Vec::new(),
            order_ids,
            order_revision: self.live_order_revision,
            revision: self.live_revision,
            unchanged: known,
            full: !known,
        };
        proof {
            assert(b@.removed =~= Seq::empty());
            if known {
                assert(b@.rows =~= Seq::empty());
            }
        }
        b
    }

    /// Takes a batch over.
    pub fn merge(&mut self, batch: &LiveConnectionBatch)
        ensures
            final(self)@ == cache_merged(old(self)@, batch@),
    {
        if batch.unchanged {
            return ;
        }
        let rows = if batch.full {
            copy_rows(&batch.rows)
        } else {
            let kept = rows_that_stay(&self.live, &batch.removed_ids);
            let mut table: Table<ConnectionView> = Table::new();
            proof {
                assert(table_rows(table@) =~= Map::empty());
            }
            match &batch.order_ids {
                Some(order) => {
                    put_rows(&mut table, &kept);
                    put_rows(&mut table, &batch.rows);
                    ordered_rows(order, &table)
                },
                None => {
                    put_rows(&mut table, &batch.rows);
                    updated_rows(&kept, &table)
                },
            }
        };
        self.live = rows;
        self.live_revision = batch.revision;
        self.live_order_revision = batch.order_revision;
    }
}

// ---------------------------------------------------------------------------
// Requests
// ---------------------------------------------------------------------------
/// The value of a batch of requests.
pub struct RequestModel {
    pub entries: Seq<RowModel>,
    pub cursor: u64,
}

impl View for RequestBatch {
    type V = RequestModel;

    open spec fn view(&self) -> RequestModel {
        RequestModel { entries: row_views(self.entries@), cursor: self.cursor }
    }
}

/// The requests that the cache gives: none to one who goes on from a cursor, and none but
/// for the query and the limit that they were asked for by.
pub open spec fn cached_requests(
    c: CacheModel,
    query: Seq<char>,
    limit: Option<usize>,
    failures: bool,
    after: Option<u64>,
) -> RequestModel {
    let e = if failures {
        c.failures
    } else {
        c.requests
    };
    match after {
        Some(cursor) => RequestModel { entries: Seq::empty(), cursor },
        None => if e.query == query && e.limit == limit {
            RequestModel { entries: e.rows, cursor: e.cursor }
        } else {
            RequestModel { entries: Seq::empty(), cursor: 0 }
        },
    }
}

fn same_limit(a: Option<usize>, b: Option<usize>) -> (r: bool)
    ensures
        r == (a == b),
{
    match (a, b) {
        (Some(x), Some(y)) => x == y,
        (None, None) => true,
        _ => false,
    }
}

impl TrafficViewCache {
    /// The requests that the cache gives.
    pub fn cached_views(
        &self,
        query: &str,
        limit: Option<usize>,
        failures_only: bool,
        after_seq: Option<u64>,
    ) -> (r: RequestBatch)
        ensures
            r@ == cached_requests(self@, query@, limit, failures_only, after_seq),
    {
        if let Some(cursor) = after_seq {
            let b = RequestBatch { entries: Vec::new(), cursor };
            proof {
                assert(b@.entries =~= Seq::empty());
            }
            return b;
        }
        let e = if failures_only {
            &self.failures
        } else {
            &self.requests
        };
        if same(e.query.as_str(), query) && same_limit(e.limit, limit) {
            RequestBatch { entries: copy_rows(&e.rows), cursor: e.cursor }
        } else {
            let b = RequestBatch { entries: Vec::new(), cursor: 0 };
            proof {
                assert(b@.entries =~= Seq::empty());
            }
            b
        }
    }

    /// Keeps the requests that were shown.
    pub fn keep_requests(
        &mut self,
        query: &str,
        limit: Option<usize>,
        failures_only: bool,
        batch: &RequestBatch,
    )
        ensures
            ({
                let e = QueryModel {
                    query: query@,
                    limit,
                    rows: batch@.entries,
                    cursor: batch.cursor,
                };
                final(self)@ == if failures_only {
                    CacheModel { failures: e, ..old(self)@ }
                } else {
                    CacheModel { requests: e, ..old(self)@ }
                }
            }),
    {
        let e = QueryViewCache {
            query: query.to_owned(),
            limit,
            rows: copy_rows(&batch.entries),
            cursor: batch.cursor,
        };
        if failures_only {
            self.failures = e;
        } else {
            self.requests = e;
        }
    }

    /// Forgets the requests that were shown.
    pub fn clear_requests(&mut self)
        ensures
            final(self)@ == (CacheModel {
                requests: QueryModel { rows: Seq::empty(), ..old(self)@.requests },
                failures: QueryModel { rows: Seq::empty(), ..old(self)@.failures },
                ..old(self)@
            }),
    {
        self.requests.rows = Vec::new();
        self.failures.rows = Vec::new();
        proof {
            assert(self@.requests.rows =~= Seq::empty());
            assert(self@.failures.rows =~= Seq::empty());
        }
    }
}

/// A full batch leaves nothing of the rows that were there, and a receiver that has the
/// revision of the cache is told nothing.
pub proof fn law_full_batch_replaces(c: CacheModel, b: LiveModel)
    requires
        !b.unchanged,
        b.full,
    ensures
        cache_merged(c, b).live == b.rows,
        cached_batch(cache_merged(c, b), Some(b.revision)).unchanged,
        cached_batch(cache_merged(c, b), Some(b.revision)).rows.len() == 0,
{
}

/// What the cache gives in full to a second cache makes the two the same.
pub proof fn law_cached_batch_carries_the_rows(c: CacheModel, other: CacheModel, since: Option<u64>)
    requires
        since != Some(c.revision),
    ensures
        cache_merged(other, cached_batch(c, since)).live == c.live,
        cache_merged(other, cached_batch(c, since)).revision == c.revision,
        cache_merged(other, cached_batch(c, since)).order_revision == c.order_revision,
{
}

} // verus!
