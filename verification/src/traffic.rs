//! What is shown of the journal: open connections, requests, and how nodes fare.

use crate::clock::{elapsed, since};
use crate::journal::{
    connection_history_key, history_key, keys_of, record_views, shows, ConnectionInfo,
    ConnectionModel, Journal, JournalModel, RecordModel, RequestRecord, MAX_REQUEST_HISTORY,
};
use crate::order::{
    index_seq, is_stable_order, key_views, lemma_filter_prefix, lemma_order_ranks, stable_order,
    KeyModel, SortKey,
};
use crate::storage::{info_views, NodeInfo, NodeInfoModel};
use crate::table::{distinct_keys, has_key, lemma_row, map_of_rows, row_of, Table};
use crate::text::{clone_strings, concat3, contains, join, joined, views};
use vstd::prelude::*;

verus! {

/// A connection or a request as it is shown.
#[derive(Debug)]
pub struct ConnectionView {
    pub id: String,
    pub destination: String,
    pub host: String,
    pub network: String,
    pub conn_type: String,
    pub node_tag: String,
    /// The name of the node, or its tag where that is not known.
    pub node_name: String,
    pub subscription_name: String,
    pub chains: Vec<String>,
    pub chains_display: String,
    pub rule: String,
    pub rule_payload: String,
    pub process: String,
    pub source: String,
    pub upload: u64,
    pub download: u64,
    pub start: String,
    pub first_seen: Option<i64>,
    pub last_seen: Option<i64>,
    pub closed: bool,
    pub closed_at: Option<i64>,
}

pub type Tags = Map<Seq<char>, NodeInfoModel>;

/// A rule with its payload, as it is shown.
pub open spec fn rule_shown(rule: Seq<char>, payload: Seq<char>) -> Seq<char> {
    if rule.len() == 0 && payload.len() == 0 {
        "—"@
    } else if payload.len() == 0 {
        rule
    } else if rule.len() == 0 {
        payload
    } else {
        rule + "("@ + payload + ")"@
    }
}

pub fn format_rule(rule: &str, payload: &str) -> (r: String)
    ensures
        r@ == rule_shown(rule@, payload@),
{
    if rule.is_empty() && payload.is_empty() {
        return "—".to_owned();
    }
    if payload.is_empty() {
        return rule.to_owned();
    }
    if rule.is_empty() {
        return payload.to_owned();
    }
    let mut s = concat3(rule, "(", payload);
    s.append(")");
    s
}

/// The name that is shown of a node.
pub open spec fn name_shown(tag: Seq<char>, tags: Tags) -> Seq<char> {
    if tags.contains_key(tag) {
        tags[tag].name
    } else {
        tag
    }
}

pub open spec fn subscription_shown(tag: Seq<char>, tags: Tags) -> Seq<char> {
    if tags.contains_key(tag) {
        tags[tag].subscription
    } else {
        Seq::empty()
    }
}

/// The value of a row.
pub struct RowModel {
    pub id: Seq<char>,
    pub destination: Seq<char>,
    pub host: Seq<char>,
    pub network: Seq<char>,
    pub conn_type: Seq<char>,
    pub node_tag: Seq<char>,
    pub node_name: Seq<char>,
    pub subscription_name: Seq<char>,
    pub chains: Seq<Seq<char>>,
    pub chains_display: Seq<char>,
    pub rule: Seq<char>,
    pub rule_payload: Seq<char>,
    pub process: Seq<char>,
    pub source: Seq<char>,
    pub upload: u64,
    pub download: u64,
    pub start: Seq<char>,
    pub first_seen: Option<i64>,
    pub last_seen: Option<i64>,
    pub closed: bool,
    pub closed_at: Option<i64>,
}

impl View for ConnectionView {
    type V = RowModel;

    open spec fn view(&self) -> RowModel {
        RowModel {
            id: self.id@,
            destination: self.destination@,
            host: self.host@,
            network: self.network@,
            conn_type: self.conn_type@,
            node_tag: self.node_tag@,
            node_name: self.node_name@,
            subscription_name: self.subscription_name@,
            chains: views(self.chains@),
            chains_display: self.chains_display@,
            rule: self.rule@,
            rule_payload: self.rule_payload@,
            process: self.process@,
            source: self.source@,
            upload: self.upload,
            download: self.download,
            start: self.start@,
            first_seen: self.first_seen,
            last_seen: self.last_seen,
            closed: self.closed,
            closed_at: self.closed_at,
        }
    }
}

pub open spec fn row_views(v: Seq<ConnectionView>) -> Seq<RowModel> {
    Seq::new(v.len(), |i: int| v[i]@)
}

/// The row that shows an open connection.
pub open spec fn connection_row(c: ConnectionModel, tags: Tags) -> RowModel {
    RowModel {
        id: history_key(c),
        destination: c.destination,
        host: c.host,
        network: c.network,
        conn_type: c.conn_type,
        node_tag: c.node,
        node_name: name_shown(c.node, tags),
        subscription_name: subscription_shown(c.node, tags),
        chains: c.chains,
        chains_display: joined(c.chains, " → "@),
        rule: rule_shown(c.rule, c.rule_payload),
        rule_payload: c.rule_payload,
        process: c.process,
        source: c.source,
        upload: c.upload,
        download: c.download,
        start: c.start,
        first_seen: None,
        last_seen: None,
        closed: false,
        closed_at: None,
    }
}

/// The row that shows a request.
pub open spec fn record_row(r: RecordModel, tags: Tags) -> RowModel {
    RowModel {
        id: r.id,
        destination: r.destination,
        host: r.host,
        network: r.network,
        conn_type: r.conn_type,
        node_tag: r.node,
        node_name: name_shown(r.node, tags),
        subscription_name: subscription_shown(r.node, tags),
        chains: r.chains,
        chains_display: joined(r.chains, " → "@),
        rule: rule_shown(r.rule, r.rule_payload),
        rule_payload: r.rule_payload,
        process: r.process,
        source: r.source,
        upload: r.upload,
        download: r.download,
        start: Seq::empty(),
        first_seen: Some(r.first_seen),
        last_seen: Some(r.last_seen),
        closed: r.closed,
        closed_at: r.closed_at,
    }
}

/// `v` shows the open connection `c`.
pub open spec fn shows_connection(v: ConnectionView, c: ConnectionModel, tags: Tags) -> bool {
    v@ == connection_row(c, tags)
}

/// `v` shows the request `r`.
pub open spec fn shows_record(v: ConnectionView, r: RecordModel, tags: Tags) -> bool {
    v@ == record_row(r, tags)
}

fn node_shown(tag: &String, tags: &Table<NodeInfo>) -> (r: (String, String))
    ensures
        r.0@ == name_shown(tag@, info_views(tags@)),
        r.1@ == subscription_shown(tag@, info_views(tags@)),
{
    match tags.get(tag.as_str()) {
        Some(info) => (info.name.clone(), info.subscription.clone()),
        None => (tag.clone(), String::new()),
    }
}

impl ConnectionView {
    /// A second row like it.
    pub fn copy(&self) -> (r: Self)
        ensures
            r@ == self@,
    {
        ConnectionView {
            id: self.id.clone(),
            destination: self.destination.clone(),
            host: self.host.clone(),
            network: self.network.clone(),
            conn_type: self.conn_type.clone(),
            node_tag: self.node_tag.clone(),
            node_name: self.node_name.clone(),
            subscription_name: self.subscription_name.clone(),
            chains: clone_strings(&self.chains),
            chains_display: self.chains_display.clone(),
            rule: self.rule.clone(),
            rule_payload: self.rule_payload.clone(),
            process: self.process.clone(),
            source: self.source.clone(),
            upload: self.upload,
            download: self.download,
            start: self.start.clone(),
            first_seen: self.first_seen,
            last_seen: self.last_seen,
            closed: self.closed,
            closed_at: self.closed_at,
        }
    }

    pub fn from_info(c: &ConnectionInfo, tags: &Table<NodeInfo>) -> (r: Self)
        ensures
            shows_connection(r, c@, info_views(tags@)),
    {
        let (node_name, subscription_name) = node_shown(&c.node, tags);
        ConnectionView {
            id: connection_history_key(c),
            destination: c.destination.clone(),
            host: c.host.clone(),
            network: c.network.clone(),
            conn_type: c.conn_type.clone(),
            node_tag: c.node.clone(),
            node_name,
            subscription_name,
            chains: clone_strings(&c.chains),
            chains_display: join(&c.chains, " → "),
            rule: format_rule(c.rule.as_str(), c.rule_payload.as_str()),
            rule_payload: c.rule_payload.clone(),
            process: c.process.clone(),
            source: c.source.clone(),
            upload: c.upload,
            download: c.download,
            start: c.start.clone(),
            first_seen: None,
            last_seen: None,
            closed: false,
            closed_at: None,
        }
    }

    pub fn from_record(r: &RequestRecord, tags: &Table<NodeInfo>) -> (v: Self)
        ensures
            shows_record(v, r@, info_views(tags@)),
    {
        let (node_name, subscription_name) = node_shown(&r.node, tags);
        ConnectionView {
            id: r.id.clone(),
            destination: r.destination.clone(),
            host: r.host.clone(),
            network: r.network.clone(),
            conn_type: r.conn_type.clone(),
            node_tag: r.node.clone(),
            node_name,
            subscription_name,
            chains: clone_strings(&r.chains),
            chains_display: join(&r.chains, " → "),
            rule: format_rule(r.rule.as_str(), r.rule_payload.as_str()),
            rule_payload: r.rule_payload.clone(),
            process: r.process.clone(),
            source: r.source.clone(),
            upload: r.upload,
            download: r.download,
            start: String::new(),
            first_seen: Some(r.first_seen),
            last_seen: Some(r.last_seen),
            closed: r.closed,
            closed_at: r.closed_at,
        }
    }
}

pub fn copy_rows(rows: &Vec<ConnectionView>) -> (r: Vec<ConnectionView>)
    ensures
        row_views(r@) == row_views(rows@),
        r@.len() == rows@.len(),
{
    let mut out: Vec<ConnectionView> = Vec::new();
    for i in 0..rows.len()
        invariant
            out@.len() == i,
            forall|j: int| 0 <= j < i ==> (#[trigger] out@[j])@ == rows@[j]@,
    {
        out.push(rows[i].copy());
    }
    proof {
        assert(row_views(out@) =~= row_views(rows@));
    }
    out
}

// ---------------------------------------------------------------------------
// Open connections
// ---------------------------------------------------------------------------
/// What changed among the open connections.
#[derive(Debug)]
pub struct LiveConnectionBatch {
    pub rows: Vec<ConnectionView>,
    pub removed_ids: Vec<String>,
    /// The ids of all open connections in their order; left out where the set of ids
    /// is known to the receiver.
    pub order_ids: Option<Vec<String>>,
    pub order_revision: u64,
    pub revision: u64,
    pub unchanged: bool,
    /// `rows` holds all open connections.
    pub full: bool,
}

/// Each view shows the connection at its place.
pub open spec fn shows_connections(
    rows: Seq<ConnectionView>,
    conns: Seq<ConnectionModel>,
    tags: Tags,
) -> bool {
    &&& rows.len() == conns.len()
    &&& forall|i: int| 0 <= i < rows.len() ==> shows_connection(#[trigger] rows[i], conns[i], tags)
}

/// The connection changed behind a revision, or all are sent.
pub open spec fn changed_since(j: JournalModel, full: bool, rev: u64) -> spec_fn(
    ConnectionModel,
) -> bool {
    |c: ConnectionModel|
        full || (j.item_revisions.contains_key(history_key(c)) && j.item_revisions[history_key(c)]
            > rev)
}

/// All connections have to be sent: the receiver has none, or removals that it does not
/// know of were dropped.
pub open spec fn needs_full(j: JournalModel, since: Option<u64>) -> bool {
    since is None || since->0 < j.floor
}

pub open spec fn rev_or_zero(since: Option<u64>) -> u64 {
    match since {
        Some(r) => r,
        None => 0,
    }
}

/// The connections that are sent.
pub open spec fn sent_rows(j: JournalModel, since: Option<u64>) -> Seq<ConnectionModel> {
    j.live.filter(changed_since(j, needs_full(j, since), rev_or_zero(since)))
}

pub open spec fn removed_behind(rev: u64) -> spec_fn((u64, Seq<char>)) -> bool {
    |x: (u64, Seq<char>)| x.0 > rev
}

/// The keys of the connections that were closed behind a revision.
pub open spec fn sent_removals(j: JournalModel, since: Option<u64>) -> Seq<Seq<char>> {
    if needs_full(j, since) {
        Seq::empty()
    } else {
        let gone = j.removals.filter(removed_behind(rev_or_zero(since)));
        Seq::new(gone.len(), |i: int| gone[i].1)
    }
}

pub open spec fn opt_views(o: Option<Vec<String>>) -> Option<Seq<Seq<char>>> {
    match o {
        Some(v) => Some(views(v@)),
        None => None,
    }
}

/// The batch for a receiver that has the revision `since`, and the order of `order`.
pub open spec fn is_batch(
    b: LiveConnectionBatch,
    j: JournalModel,
    tags: Tags,
    since: Option<u64>,
    order: Option<u64>,
) -> bool {
    &&& b.revision == j.revision
    &&& b.order_revision == j.order_revision
    &&& if since == Some(j.revision) {
        &&& b.unchanged
        &&& !b.full
        &&& b.rows@.len() == 0
        &&& b.removed_ids@.len() == 0
        &&& b.order_ids is None
    } else {
        &&& !b.unchanged
        &&& b.full == needs_full(j, since)
        &&& shows_connections(b.rows@, sent_rows(j, since), tags)
        &&& views(b.removed_ids@) == sent_removals(j, since)
        &&& opt_views(b.order_ids) == if needs_full(j, since) || order != Some(j.order_revision) {
            Some(keys_of(j.live))
        } else {
            None
        }
    }
}

impl Journal {
    /// All open connections.
    pub fn live_views(&self, tags: &Table<NodeInfo>) -> (r: Vec<ConnectionView>)
        ensures
            shows_connections(r@, self@.live, info_views(tags@)),
    {
        let mut out: Vec<ConnectionView> = Vec::new();
        for i in 0..self.live_connections.len()
            invariant
                shows_connections(
                    out@,
                    self@.live.take(i as int),
                    info_views(tags@),
                ),
        {
            out.push(ConnectionView::from_info(&self.live_connections[i], tags));
        }
        proof {
            assert(self@.live.take(self@.live.len() as int) =~= self@.live);
        }
        out
    }

    /// What changed among the open connections since a revision.
    pub fn live_connection_batch(
        &self,
        tags: &Table<NodeInfo>,
        since_revision: Option<u64>,
        last_order_revision: Option<u64>,
    ) -> (r: LiveConnectionBatch)
        ensures
            is_batch(r, self@, info_views(tags@), since_revision, last_order_revision),
    {
        if let Some(rev) = since_revision {
            if rev == self.live_revision {
                return LiveConnectionBatch {
                    rows: Vec::new(),
                    removed_ids: Vec::new(),
                    order_ids: None,
                    order_revision: self.live_order_revision,
                    revision: self.live_revision,
                    unchanged: true,
                    full: false,
                };
            }
        }
        let (full, rev): (bool, u64) = match since_revision {
            Some(rev) => (rev < self.live_diff_floor, rev),
            None => (true, 0),
        };
        let order_known = match last_order_revision {
            Some(o) => o == self.live_order_revision,
            None => false,
        };
        let order_ids = if full || !order_known {
            Some(self.live_keys())
        } else {
            None
        };
        let rows = self.rows_since(tags, full, rev);
        let removed_ids = if full {
            let none: Vec<String> = Vec::new();
            proof {
                assert(views(none@) =~= Seq::empty());
            }
            none
        } else {
            self.removals_since(rev)
        };
        LiveConnectionBatch {
            rows,
            removed_ids,
            order_ids,
            order_revision: self.live_order_revision,
            revision: self.live_revision,
            unchanged: false,
            full,
        }
    }

    fn live_keys(&self) -> (r: Vec<String>)
        ensures
            views(r@) == keys_of(self@.live),
    {
        let mut out: Vec<String> = Vec::new();
        for i in 0..self.live_connections.len()
            invariant
                out@.len() == i,
                forall|j: int| 0 <= j < i ==> (#[trigger] out@[j])@ == history_key(self@.live[j]),
        {
            out.push(connection_history_key(&self.live_connections[i]));
        }
        proof {
            assert(views(out@) =~= keys_of(self@.live));
        }
        out
    }

    fn rows_since(&self, tags: &Table<NodeInfo>, full: bool, rev: u64) -> (r: Vec<ConnectionView>)
        ensures
            shows_connections(
                r@,
                self@.live.filter(changed_since(self@, full, rev)),
                info_views(tags@),
            ),
    {
        let ghost keep = changed_since(self@, full, rev);
        let ghost live = self@.live;
        let mut out: Vec<ConnectionView> = Vec::new();
        proof {
            reveal(Seq::filter);
            assert(live.take(0).filter(keep) =~= Seq::empty());
        }
        for i in 0..self.live_connections.len()
            invariant
                live == self@.live,
                keep == changed_since(self@, full, rev),
                shows_connections(out@, live.take(i as int).filter(keep), info_views(tags@)),
        {
            let ghost c = self.live_connections@[i as int]@;
            proof {
                reveal(Seq::filter);
                assert(live.take(i + 1).drop_last() =~= live.take(i as int));
                assert(live.take(i + 1).last() == c);
            }
            let newer = full || {
                let key = connection_history_key(&self.live_connections[i]);
                match self.live_item_revisions.get(key.as_str()) {
                    Some(r) => *r > rev,
                    None => false,
                }
            };
            if newer {
                out.push(ConnectionView::from_info(&self.live_connections[i], tags));
            }
        }
        proof {
            assert(live.take(live.len() as int) =~= live);
        }
        out
    }

    fn removals_since(&self, rev: u64) -> (r: Vec<String>)
        ensures
            ({
                let gone = self@.removals.filter(removed_behind(rev));
                views(r@) == Seq::new(gone.len(), |i: int| gone[i].1)
            }),
    {
        let ghost keep = removed_behind(rev);
        let ghost all = self@.removals;
        let mut out: Vec<String> = Vec::new();
        proof {
            reveal(Seq::filter);
            assert(all.take(0).filter(keep) =~= Seq::empty());
        }
        for i in 0..self.live_removals.len()
            invariant
                all == self@.removals,
                keep == removed_behind(rev),
                out@.len() == all.take(i as int).filter(keep).len(),
                forall|j: int|
                    0 <= j < out@.len() ==> (#[trigger] out@[j])@ == all.take(i as int).filter(
                        keep,
                    )[j].1,
        {
            proof {
                reveal(Seq::filter);
                assert(all.take(i + 1).drop_last() =~= all.take(i as int));
                assert(all.take(i + 1).last() == all[i as int]);
            }
            if self.live_removals[i].0 > rev {
                out.push(self.live_removals[i].1.clone());
            }
        }
        proof {
            assert(all.take(all.len() as int) =~= all);
            let gone = all.filter(keep);
            assert(views(out@) =~= Seq::new(gone.len(), |i: int| gone[i].1));
        }
        out
    }
}

// ---------------------------------------------------------------------------
// Requests
// ---------------------------------------------------------------------------
#[derive(Debug)]
pub struct RequestBatch {
    pub entries: Vec<ConnectionView>,
    /// Where the next batch goes on.
    pub cursor: u64,
}

/// When a request ended.
pub open spec fn end_of(r: RecordModel) -> i64 {
    match r.closed_at {
        Some(t) => t,
        None => r.last_seen,
    }
}

/// A request that ended at once and carried next to nothing: the proxy on its way
/// often failed.
pub open spec fn suspicious(r: RecordModel) -> bool {
    elapsed(end_of(r), r.first_seen) <= 3000 && r.download < 1024 && r.upload < 1024
}

pub fn end_moment(r: &RequestRecord) -> (t: i64)
    ensures
        t == end_of(r@),
{
    match r.closed_at {
        Some(t) => t,
        None => r.last_seen,
    }
}

pub fn is_suspicious(r: &RequestRecord) -> (b: bool)
    ensures
        b == suspicious(r@),
{
    since(end_moment(r), r.first_seen) <= 3000 && r.download < 1024 && r.upload < 1024
}

/// A request that is listed.
pub open spec fn listed(r: RecordModel, failures: bool, q: Seq<char>) -> bool {
    r.closed && (failures ==> suspicious(r)) && shows(r, q)
}

/// How many requests a batch holds.
pub open spec fn page_limit(limit: Option<usize>) -> int {
    let n = match limit {
        Some(n) => n as int,
        None => 800,
    };
    if n > MAX_REQUEST_HISTORY {
        MAX_REQUEST_HISTORY as int
    } else {
        n
    }
}

/// The keys of the requests that are listed, the newest first.
pub open spec fn listed_keys(j: JournalModel, failures: bool, q: Seq<char>) -> Seq<Seq<char>> {
    j.order.filter(is_listed(j, failures, q))
}

pub open spec fn is_listed(j: JournalModel, failures: bool, q: Seq<char>) -> spec_fn(
    Seq<char>,
) -> bool {
    |k: Seq<char>| j.records.contains_key(k) && listed(j.records[k], failures, q)
}

/// Each view shows the request of its key.
pub open spec fn shows_records(
    entries: Seq<ConnectionView>,
    keys: Seq<Seq<char>>,
    j: JournalModel,
    tags: Tags,
) -> bool {
    &&& entries.len() == keys.len()
    &&& forall|i: int|
        0 <= i < keys.len() ==> j.records.contains_key(#[trigger] keys[i]) && shows_record(
            entries[i],
            j.records[keys[i]],
            tags,
        )
}

/// The record closed behind `after`.
pub open spec fn behind(j: JournalModel, k: Seq<char>, after: u64) -> bool {
    j.records.contains_key(k) && j.records[k].closed && j.records[k].history_seq > after
}

/// A page of the requests that closed behind `after`, in the order in which they did.
/// It holds every listed request up to the cursor (of several with the number of the
/// cursor, maybe not all); where it is not full, it holds them all.
pub open spec fn is_page(
    j: JournalModel,
    keys: Seq<Seq<char>>,
    cursor: u64,
    after: u64,
    limit: int,
    failures: bool,
    q: Seq<char>,
) -> bool {
    &&& keys.no_duplicates()
    &&& forall|i: int|
        0 <= i < keys.len() ==> behind(j, #[trigger] keys[i], after) && listed(
            j.records[keys[i]],
            failures,
            q,
        )
    &&& forall|a: int, b: int|
        0 <= a < b < keys.len() ==> j.records[#[trigger] keys[a]].history_seq
            <= j.records[#[trigger] keys[b]].history_seq
    &&& if keys.len() > 0 && keys.len() >= limit {
        &&& keys.len() == 1 || keys.len() == limit
        &&& cursor == j.records[keys.last()].history_seq
        &&& forall|k: Seq<char>|
            #[trigger] behind(j, k, after) && listed(j.records[k], failures, q)
                && j.records[k].history_seq < cursor ==> keys.contains(k)
    } else {
        &&& cursor == j.seq
        &&& forall|k: Seq<char>|
            #[trigger] behind(j, k, after) && listed(j.records[k], failures, q) ==> keys.contains(k)
    }
}

pub open spec fn query_text(query: Option<&str>) -> Seq<char> {
    match query {
        Some(q) => q@,
        None => Seq::empty(),
    }
}

/// The rows of the table whose requests closed behind `after`, in the order of the
/// table.
pub open spec fn rows_behind(rows: Seq<(String, RequestRecord)>, after: u64, n: int) -> Seq<int>
    decreases n,
{
    if n <= 0 {
        Seq::empty()
    } else {
        let before = rows_behind(rows, after, n - 1);
        if rows[n - 1].1.closed && rows[n - 1].1.history_seq > after {
            before.push(n - 1)
        } else {
            before
        }
    }
}

proof fn lemma_rows_behind(rows: Seq<(String, RequestRecord)>, after: u64, n: int)
    requires
        0 <= n <= rows.len(),
    ensures
        forall|i: int|
            0 <= i < rows_behind(rows, after, n).len() ==> {
                let x = #[trigger] rows_behind(rows, after, n)[i];
                0 <= x < n && rows[x].1.closed && rows[x].1.history_seq > after
            },
        forall|i: int, k: int|
            0 <= i < k < rows_behind(rows, after, n).len() ==> #[trigger] rows_behind(
                rows,
                after,
                n,
            )[i] < #[trigger] rows_behind(rows, after, n)[k],
        forall|x: int|
            0 <= x < n && rows[x].1.closed && rows[x].1.history_seq > after ==> rows_behind(
                rows,
                after,
                n,
            ).contains(x),
    decreases n,
{
    if n > 0 {
        lemma_rows_behind(rows, after, n - 1);
        let before = rows_behind(rows, after, n - 1);
        let here = rows_behind(rows, after, n);
        assert forall|x: int|
            0 <= x < n && rows[x].1.closed && rows[x].1.history_seq > after implies here.contains(
            x,
        ) by {
            if x < n - 1 {
                assert(before.contains(x));
                let i = choose|i: int| 0 <= i < before.len() && before[i] == x;
                assert(here[i] == x);
            } else {
                assert(here[before.len() as int] == x);
            }
        }
    }
}

impl Journal {
    /// The newest requests that are listed.
    fn recent_requests(
        &self,
        tags: &Table<NodeInfo>,
        failures_only: bool,
        q: &str,
        limit: usize,
    ) -> (r: Vec<ConnectionView>)
        ensures
            ({
                let all = listed_keys(self@, failures_only, q@);
                let n = if limit < all.len() {
                    limit as int
                } else {
                    all.len() as int
                };
                shows_records(r@, all.take(n), self@, info_views(tags@))
            }),
    {
        let ghost keep = is_listed(self@, failures_only, q@);
        let ghost order = self@.order;
        let ghost all = listed_keys(self@, failures_only, q@);
        let mut out: Vec<ConnectionView> = Vec::new();
        let mut i: usize = 0;
        proof {
            reveal(Seq::filter);
            assert(order.take(0).filter(keep) =~= Seq::empty());
        }
        while i < self.request_order.len() && out.len() < limit
            invariant
                i <= self.request_order@.len(),
                out@.len() <= limit,
                order == self@.order,
                keep == is_listed(self@, failures_only, q@),
                shows_records(out@, order.take(i as int).filter(keep), self@, info_views(tags@)),
            decreases self.request_order@.len() - i,
        {
            let ghost before = order.take(i as int).filter(keep);
            proof {
                reveal(Seq::filter);
                assert(order.take(i + 1).drop_last() =~= order.take(i as int));
                assert(order.take(i + 1).last() == self.request_order@[i as int]@);
            }
            if let Some(rec) = self.request_by_id.get(self.request_order[i].as_str()) {
                if rec.closed && (!failures_only || is_suspicious(rec)) && rec.matches_query(q) {
                    out.push(ConnectionView::from_record(rec, tags));
                    proof {
                        let now = order.take(i + 1).filter(keep);
                        assert(now == before.push(self.request_order@[i as int]@));
                        assert forall|k: int| 0 <= k < now.len() implies self@.records.contains_key(
                            #[trigger] now[k],
                        ) && shows_record(
                            out@[k],
                            self@.records[now[k]],
                            info_views(tags@),
                        ) by {
                            if k < before.len() {
                                assert(now[k] == before[k]);
                            }
                        }
                    }
                }
            }
            i += 1;
        }
        proof {
            lemma_filter_prefix(order, keep, i as int);
            if i == order.len() {
                assert(order.take(i as int) =~= order);
            }
            let part = order.take(i as int).filter(keep);
            let n = if limit < all.len() {
                limit as int
            } else {
                all.len() as int
            };
            assert(part =~= all.take(n));
        }
        out
    }

    /// A page of the requests that closed behind `after`.
    fn page_of_requests(
        &self,
        tags: &Table<NodeInfo>,
        failures_only: bool,
        q: &str,
        limit: usize,
        after: u64,
    ) -> (r: RequestBatch)
        ensures
            exists|keys: Seq<Seq<char>>|
                #![trigger shows_records(r.entries@, keys, self@, info_views(tags@))]
                {
                    &&& shows_records(r.entries@, keys, self@, info_views(tags@))
                    &&& is_page(self@, keys, r.cursor, after, limit as int, failures_only, q@)
                },
    {
        let n: usize = self.request_by_id.len();
        let ghost rows = self.request_by_id.rows();
        let mut found: Vec<usize> = Vec::new();
        let mut keys: Vec<SortKey> = Vec::new();
        for i in 0..n
            invariant
                n == rows.len(),
                rows == self.request_by_id.rows(),
                index_seq(found@) == rows_behind(rows, after, i as int),
                keys@.len() == found@.len(),
                forall|k: int|
                    0 <= k < found@.len() ==> 0 <= (#[trigger] found@[k]) < i && keys@[k]@ == (
                    KeyModel { rank: rows[found@[k] as int].1.history_seq as int, name: Seq::empty() }),
        {
            let rec = self.request_by_id.value_at(i);
            if rec.closed && rec.history_seq > after {
                let ghost before = found@;
                found.push(i);
                keys.push(SortKey { rank: rec.history_seq as i128, name: String::new() });
                proof {
                    assert(index_seq(found@) =~= index_seq(before).push(i as int));
                    assert(keys@.last()@.name =~= Seq::empty());
                }
            }
        }
        let order = stable_order(&keys);
        let ghost p = index_seq(order@);
        let ghost idx = index_seq(found@);
        let ghost km = key_views(keys@);
        proof {
            lemma_rows_behind(rows, after, n as int);
        }
        let mut entries: Vec<ConnectionView> = Vec::new();
        let ghost mut page: Seq<Seq<char>> = Seq::empty();
        let mut t: usize = 0;
        let mut cursor: u64 = self.journal_seq;
        let mut hit = false;
        while t < order.len() && !hit
            invariant
                t <= order@.len(),
                n == rows.len(),
                rows == self.request_by_id.rows(),
                distinct_keys(rows),
                idx == index_seq(found@),
                p == index_seq(order@),
                km == key_views(keys@),
                is_stable_order(km, p),
                idx == rows_behind(rows, after, n as int),
                keys@.len() == found@.len(),
                forall|k: int|
                    0 <= k < found@.len() ==> 0 <= (#[trigger] found@[k]) < n && keys@[k]@ == (
                    KeyModel { rank: rows[found@[k] as int].1.history_seq as int, name: Seq::empty() }),
                shows_records(entries@, page, self@, info_views(tags@)),
                page_so_far(self@, rows, idx, p, t as int, page, failures_only, q@),
                hit == (page.len() > 0 && page.len() >= limit),
                page.len() > 0 ==> page.len() == 1 || page.len() <= limit,
                !hit ==> cursor == self@.seq,
                hit ==> t > 0 && page.last() == rows[idx[p[t - 1]]].0@ && cursor
                    == self@.records[page.last()].history_seq,
            decreases order@.len() - t,
        {
            proof {
                assert(0 <= p[t as int] < km.len());
                assert(p[t as int] == order@[t as int]);
                assert(idx[p[t as int]] == found@[p[t as int]]);
            }
            let row: usize = found[order[t]];
            let rec = self.request_by_id.value_at(row);
            proof {
                lemma_row(rows, row as int);
                assert(self@.records[rows[row as int].0@] == rec@);
                assert(self@.records.contains_key(rows[row as int].0@));
            }
            let ghost before_page = page;
            let take = (!failures_only || is_suspicious(rec)) && rec.matches_query(q);
            proof {
                lemma_rows_behind(rows, after, n as int);
                assert(idx[p[t as int]] == row);
                assert(rows[row as int].1.closed);
                lemma_page_step(
                    self@,
                    rows,
                    idx,
                    p,
                    km,
                    t as int,
                    page,
                    failures_only,
                    q@,
                );
            }
            if take {
                entries.push(ConnectionView::from_record(rec, tags));
                proof {
                    page = page.push(rows[row as int].0@);
                    assert forall|k: int| 0 <= k < page.len() implies self@.records.contains_key(
                        #[trigger] page[k],
                    ) && shows_record(entries@[k], self@.records[page[k]], info_views(tags@)) by {
                        if k < before_page.len() {
                            assert(page[k] == before_page[k]);
                        }
                    }
                }
                if entries.len() >= limit {
                    hit = true;
                    cursor = rec.history_seq;
                }
            }
            t += 1;
        }
        proof {
            lemma_page_done(
                self@,
                rows,
                idx,
                p,
                km,
                t as int,
                page,
                cursor,
                after,
                limit as int,
                failures_only,
                q@,
                hit,
            );
        }
        let batch = RequestBatch { entries, cursor };
        proof {
            assert(shows_records(batch.entries@, page, self@, info_views(tags@)));
        }
        batch
    }

    /// The requests that closed: a page behind a cursor, or the newest.
    pub fn request_batch(
        &self,
        tags: &Table<NodeInfo>,
        query: Option<&str>,
        limit: Option<usize>,
        after_seq: Option<u64>,
        failures_only: bool,
    ) -> (r: RequestBatch)
        ensures
            is_request_batch(
                r,
                self@,
                info_views(tags@),
                query_text(query),
                page_limit(limit),
                after_seq,
                failures_only,
            ),
    {
        let q: &str = match query {
            Some(q) => q,
            None => {
                proof {
                    reveal_strlit("");
                    assert(""@ =~= Seq::empty());
                }
                ""
            },
        };
        let wanted: usize = match limit {
            Some(n) => n,
            None => 800,
        };
        let n: usize = if wanted > MAX_REQUEST_HISTORY {
            MAX_REQUEST_HISTORY
        } else {
            wanted
        };
        match after_seq {
            Some(after) => self.page_of_requests(tags, failures_only, q, n, after),
            None => {
                let entries = self.recent_requests(tags, failures_only, q, n);
                RequestBatch { entries, cursor: self.journal_seq }
            },
        }
    }
}

/// What a batch of requests holds.
pub open spec fn is_request_batch(
    r: RequestBatch,
    j: JournalModel,
    tags: Tags,
    q: Seq<char>,
    limit: int,
    after: Option<u64>,
    failures: bool,
) -> bool {
    match after {
        Some(a) => exists|keys: Seq<Seq<char>>|
            #![trigger shows_records(r.entries@, keys, j, tags)]
            shows_records(r.entries@, keys, j, tags) && is_page(
                j,
                keys,
                r.cursor,
                a,
                limit,
                failures,
                q,
            ),
        None => {
            let all = listed_keys(j, failures, q);
            let n = if limit < all.len() {
                limit
            } else {
                all.len() as int
            };
            r.cursor == j.seq && shows_records(r.entries@, all.take(n), j, tags)
        },
    }
}

/// The page holds what is listed among the first `t` requests in their order.
pub open spec fn page_so_far(
    j: JournalModel,
    rows: Seq<(String, RequestRecord)>,
    idx: Seq<int>,
    p: Seq<int>,
    t: int,
    page: Seq<Seq<char>>,
    failures: bool,
    q: Seq<char>,
) -> bool {
    &&& forall|i: int|
        #![trigger page[i]]
        0 <= i < page.len() ==> exists|s: int|
            #![trigger p[s]]
            0 <= s < t && page[i] == rows[idx[p[s]]].0@ && listed(
                j.records[page[i]],
                failures,
                q,
            )
    &&& forall|s: int|
        #![trigger p[s]]
        0 <= s < t && listed(j.records[rows[idx[p[s]]].0@], failures, q) ==> page.contains(
            rows[idx[p[s]]].0@,
        )
    &&& page.no_duplicates()
    &&& forall|a: int, b: int|
        0 <= a < b < page.len() ==> j.records[#[trigger] page[a]].history_seq
            <= j.records[#[trigger] page[b]].history_seq
}

proof fn lemma_page_step(
    j: JournalModel,
    rows: Seq<(String, RequestRecord)>,
    idx: Seq<int>,
    p: Seq<int>,
    km: Seq<KeyModel>,
    t: int,
    page: Seq<Seq<char>>,
    failures: bool,
    q: Seq<char>,
)
    requires
        page_so_far(j, rows, idx, p, t, page, failures, q),
        is_stable_order(km, p),
        0 <= t < p.len(),
        idx.len() == km.len(),
        distinct_keys(rows),
        j.records == record_views(map_of_rows(rows)),
        forall|i: int| 0 <= i < idx.len() ==> 0 <= #[trigger] idx[i] < rows.len(),
        forall|a: int, b: int| 0 <= a < b < idx.len() ==> #[trigger] idx[a] < #[trigger] idx[b],
        forall|i: int|
            0 <= i < km.len() ==> (#[trigger] km[i]).name.len() == 0 && km[i].rank
                == rows[idx[i]].1.history_seq,
    ensures
        ({
            let k = rows[idx[p[t]]].0@;
            if listed(j.records[k], failures, q) {
                page_so_far(j, rows, idx, p, t + 1, page.push(k), failures, q)
            } else {
                page_so_far(j, rows, idx, p, t + 1, page, failures, q)
            }
        }),
{
    let k = rows[idx[p[t]]].0@;
    assert(0 <= p[t] < km.len());
    assert(0 <= idx[p[t]] < rows.len());
    lemma_row(rows, idx[p[t]]);
    assert forall|s: int| 0 <= s < t implies rows[idx[#[trigger] p[s]]].0@ != k && j.records[rows[idx[p[s]]].0@].history_seq
        <= j.records[k].history_seq by {
        assert(0 <= p[s] < km.len());
        lemma_order_ranks(km, p, s, t);
        lemma_row(rows, idx[p[s]]);
        if p[s] < p[t] {
            assert(idx[p[s]] < idx[p[t]]);
        } else {
            assert(idx[p[t]] < idx[p[s]]);
        }
        let x = idx[p[s]];
        let y = idx[p[t]];
        if x < y {
            assert(rows[x].0@ != rows[y].0@);
        } else {
            assert(rows[y].0@ != rows[x].0@);
        }
    }
    if listed(j.records[k], failures, q) {
        let after = page.push(k);
        assert forall|i: int|
            #![trigger after[i]]
            0 <= i < after.len() implies exists|s: int|
            #![trigger p[s]]
            0 <= s < t + 1 && after[i] == rows[idx[p[s]]].0@ && listed(
                j.records[after[i]],
                failures,
                q,
            ) by {
            if i < page.len() {
                let s = choose|s: int|
                    #![trigger p[s]]
                    0 <= s < t && page[i] == rows[idx[p[s]]].0@ && listed(
                        j.records[page[i]],
                        failures,
                        q,
                    );
                assert(after[i] == page[i]);
                assert(0 <= s < t + 1 && after[i] == rows[idx[p[s]]].0@);
            } else {
                assert(after[i] == rows[idx[p[t]]].0@);
            }
        }
        assert forall|s: int|
            #![trigger p[s]]
            0 <= s < t + 1 && listed(j.records[rows[idx[p[s]]].0@], failures, q) implies after.contains(
            rows[idx[p[s]]].0@,
        ) by {
            if s < t {
                let i = choose|i: int| 0 <= i < page.len() && page[i] == rows[idx[p[s]]].0@;
                assert(after[i] == page[i]);
            } else {
                assert(after[page.len() as int] == k);
            }
        }
        assert forall|a: int, b: int| 0 <= a < b < after.len() implies j.records[#[trigger] after[a]].history_seq
            <= j.records[#[trigger] after[b]].history_seq && after[a] != after[b] by {
            if b == page.len() {
                let s = choose|s: int|
                    #![trigger p[s]]
                    0 <= s < t && page[a] == rows[idx[p[s]]].0@ && listed(
                        j.records[page[a]],
                        failures,
                        q,
                    );
                assert(after[a] == page[a]);
            } else {
                assert(after[a] == page[a] && after[b] == page[b]);
            }
        }
        assert(after.no_duplicates());
    } else {
        assert forall|i: int|
            #![trigger page[i]]
            0 <= i < page.len() implies exists|s: int|
            #![trigger p[s]]
            0 <= s < t + 1 && page[i] == rows[idx[p[s]]].0@ && listed(
                j.records[page[i]],
                failures,
                q,
            ) by {
            let s = choose|s: int|
                #![trigger p[s]]
                0 <= s < t && page[i] == rows[idx[p[s]]].0@ && listed(
                    j.records[page[i]],
                    failures,
                    q,
                );
            assert(0 <= s < t + 1 && page[i] == rows[idx[p[s]]].0@);
        }
    }
}

proof fn lemma_page_done(
    j: JournalModel,
    rows: Seq<(String, RequestRecord)>,
    idx: Seq<int>,
    p: Seq<int>,
    km: Seq<KeyModel>,
    t: int,
    page: Seq<Seq<char>>,
    cursor: u64,
    after: u64,
    limit: int,
    failures: bool,
    q: Seq<char>,
    hit: bool,
)
    requires
        page_so_far(j, rows, idx, p, t, page, failures, q),
        is_stable_order(km, p),
        0 <= t <= p.len(),
        t == p.len() || hit,
        idx == rows_behind(rows, after, rows.len() as int),
        idx.len() == km.len(),
        distinct_keys(rows),
        j.records == record_views(map_of_rows(rows)),
        forall|i: int|
            0 <= i < km.len() ==> (#[trigger] km[i]).name.len() == 0 && km[i].rank
                == rows[idx[i]].1.history_seq,
        hit == (page.len() > 0 && page.len() >= limit),
        page.len() > 0 ==> page.len() == 1 || page.len() <= limit,
        !hit ==> cursor == j.seq,
        hit ==> t > 0 && page.last() == rows[idx[p[t - 1]]].0@ && cursor
            == j.records[page.last()].history_seq,
    ensures
        is_page(j, page, cursor, after, limit, failures, q),
{
    lemma_rows_behind(rows, after, rows.len() as int);
    assert forall|i: int| 0 <= i < page.len() implies behind(j, #[trigger] page[i], after)
        && listed(j.records[page[i]], failures, q) by {
        let s = choose|s: int|
            #![trigger p[s]]
            0 <= s < t && page[i] == rows[idx[p[s]]].0@ && listed(j.records[page[i]], failures, q);
        assert(0 <= p[s] < km.len());
        let x = idx[p[s]];
        lemma_row(rows, x);
    }
    assert forall|k: Seq<char>| #[trigger] behind(j, k, after) && listed(j.records[k], failures, q)
        && (!hit || j.records[k].history_seq < cursor) implies page.contains(k) by {
        let x = row_of(rows, k);
        assert(has_key(rows, k));
        assert(rows[x].0@ == k);
        lemma_row(rows, x);
        assert(idx.contains(x));
        let y = choose|y: int| 0 <= y < idx.len() && idx[y] == x;
        crate::order::lemma_order_covers(km, p, y);
        let s = choose|s: int| 0 <= s < p.len() && p[s] == y;
        assert(rows[idx[p[s]]].0@ == k);
        if s >= t {
            lemma_order_ranks(km, p, t - 1, s);
            assert(0 <= p[t - 1] < km.len());
            lemma_row(rows, idx[p[t - 1]]);
            assert(km[p[s]].rank == rows[idx[p[s]]].1.history_seq);
            assert(km[p[t - 1]].rank == rows[idx[p[t - 1]]].1.history_seq);
        }
        assert(0 <= s < t);
    }
}

} // verus!
