//! The journal of connections: which are open, and which were.

use crate::table::Table;
use crate::text::{
    clone_strings, concat3, contains, holds_text, list_holds, lower, lowered, same, trim, trimmed,
    views,
};
use std::collections::VecDeque;
use vstd::prelude::*;

verus! {

/// How many requests the journal keeps.
pub const MAX_REQUEST_HISTORY: usize = 3_000;

/// How many removals of connections the journal keeps.
pub const MAX_LIVE_REMOVAL_HISTORY: usize = 10_000;

/// A connection that the core reports.
#[derive(Debug, Clone)]
pub struct ConnectionInfo {
    pub id: String,
    pub destination: String,
    pub host: String,
    pub destination_ip: String,
    pub destination_port: String,
    pub network: String,
    pub conn_type: String,
    pub source: String,
    pub process: String,
    pub chains: Vec<String>,
    pub node: String,
    pub rule: String,
    pub rule_payload: String,
    pub upload: u64,
    pub download: u64,
    pub start: String,
}

#[verifier::ext_equal]
pub struct ConnectionModel {
    pub id: Seq<char>,
    pub destination: Seq<char>,
    pub host: Seq<char>,
    pub destination_ip: Seq<char>,
    pub destination_port: Seq<char>,
    pub network: Seq<char>,
    pub conn_type: Seq<char>,
    pub source: Seq<char>,
    pub process: Seq<char>,
    pub chains: Seq<Seq<char>>,
    pub node: Seq<char>,
    pub rule: Seq<char>,
    pub rule_payload: Seq<char>,
    pub upload: u64,
    pub download: u64,
    pub start: Seq<char>,
}

impl View for ConnectionInfo {
    type V = ConnectionModel;

    open spec fn view(&self) -> ConnectionModel {
        ConnectionModel {
            id: self.id@,
            destination: self.destination@,
            host: self.host@,
            destination_ip: self.destination_ip@,
            destination_port: self.destination_port@,
            network: self.network@,
            conn_type: self.conn_type@,
            source: self.source@,
            process: self.process@,
            chains: views(self.chains@),
            node: self.node@,
            rule: self.rule@,
            rule_payload: self.rule_payload@,
            upload: self.upload,
            download: self.download,
            start: self.start@,
        }
    }
}

/// The models of a sequence of connections.
pub open spec fn connection_views(v: Seq<ConnectionInfo>) -> Seq<ConnectionModel> {
    Seq::new(v.len(), |i: int| v[i]@)
}

/// Equality of two lists of strings.
pub fn same_strings(a: &Vec<String>, b: &Vec<String>) -> (r: bool)
    ensures
        r == (views(a@) == views(b@)),
{
    if a.len() != b.len() {
        proof {
            assert(views(a@).len() != views(b@).len());
        }
        return false;
    }
    for i in 0..a.len()
        invariant
            a@.len() == b@.len(),
            forall|j: int| 0 <= j < i ==> a@[j]@ == b@[j]@,
    {
        if !same(a[i].as_str(), b[i].as_str()) {
            proof {
                assert(views(a@)[i as int] != views(b@)[i as int]);
            }
            return false;
        }
    }
    proof {
        assert(views(a@) =~= views(b@));
    }
    true
}

/// Equality of two connections.
pub fn same_connection(a: &ConnectionInfo, b: &ConnectionInfo) -> (r: bool)
    ensures
        r == (a@ == b@),
{
    same(a.id.as_str(), b.id.as_str()) && same(a.destination.as_str(), b.destination.as_str())
        && same(a.host.as_str(), b.host.as_str()) && same(
        a.destination_ip.as_str(),
        b.destination_ip.as_str(),
    ) && same(a.destination_port.as_str(), b.destination_port.as_str()) && same(
        a.network.as_str(),
        b.network.as_str(),
    ) && same(a.conn_type.as_str(), b.conn_type.as_str()) && same(
        a.source.as_str(),
        b.source.as_str(),
    ) && same(a.process.as_str(), b.process.as_str()) && same_strings(&a.chains, &b.chains)
        && same(a.node.as_str(), b.node.as_str()) && same(a.rule.as_str(), b.rule.as_str()) && same(
        a.rule_payload.as_str(),
        b.rule_payload.as_str(),
    ) && a.upload == b.upload && a.download == b.download && same(
        a.start.as_str(),
        b.start.as_str(),
    )
}

/// The key of a connection in the journal: its id, or what else tells it apart where
/// that is blank.
pub open spec fn history_key(c: ConnectionModel) -> Seq<char> {
    if trimmed(c.id).len() > 0 {
        c.id
    } else {
        c.network + "|"@ + c.destination + "|"@ + c.source + "|"@ + c.process + "|"@ + c.start
    }
}

/// The key of a connection in the journal.
pub fn connection_history_key(c: &ConnectionInfo) -> (r: String)
    ensures
        r@ == history_key(c@),
{
    if !trim(c.id.as_str()).is_empty() {
        return c.id.clone();
    }
    let mut s = concat3(c.network.as_str(), "|", c.destination.as_str());
    s.append("|");
    s.append(c.source.as_str());
    s.append("|");
    s.append(c.process.as_str());
    s.append("|");
    s.append(c.start.as_str());
    s
}

/// A connection as the journal keeps it.
#[derive(Debug)]
pub struct RequestRecord {
    pub id: String,
    /// The number that the record got when it closed; 0 before.
    pub history_seq: u64,
    pub destination: String,
    pub host: String,
    pub network: String,
    pub conn_type: String,
    pub node: String,
    pub chains: Vec<String>,
    pub rule: String,
    pub rule_payload: String,
    pub process: String,
    pub source: String,
    pub upload: u64,
    pub download: u64,
    /// Unix milliseconds.
    pub first_seen: i64,
    /// Unix milliseconds.
    pub last_seen: i64,
    pub closed: bool,
    /// Unix milliseconds.
    pub closed_at: Option<i64>,
}

#[verifier::ext_equal]
pub struct RecordModel {
    pub id: Seq<char>,
    pub history_seq: u64,
    pub destination: Seq<char>,
    pub host: Seq<char>,
    pub network: Seq<char>,
    pub conn_type: Seq<char>,
    pub node: Seq<char>,
    pub chains: Seq<Seq<char>>,
    pub rule: Seq<char>,
    pub rule_payload: Seq<char>,
    pub process: Seq<char>,
    pub source: Seq<char>,
    pub upload: u64,
    pub download: u64,
    pub first_seen: i64,
    pub last_seen: i64,
    pub closed: bool,
    pub closed_at: Option<i64>,
}

impl View for RequestRecord {
    type V = RecordModel;

    open spec fn view(&self) -> RecordModel {
        RecordModel {
            id: self.id@,
            history_seq: self.history_seq,
            destination: self.destination@,
            host: self.host@,
            network: self.network@,
            conn_type: self.conn_type@,
            node: self.node@,
            chains: views(self.chains@),
            rule: self.rule@,
            rule_payload: self.rule_payload@,
            process: self.process@,
            source: self.source@,
            upload: self.upload,
            download: self.download,
            first_seen: self.first_seen,
            last_seen: self.last_seen,
            closed: self.closed,
            closed_at: self.closed_at,
        }
    }
}

/// The record of a connection that was not seen before.
pub open spec fn opened(c: ConnectionModel, now: i64) -> RecordModel {
    RecordModel {
        id: history_key(c),
        history_seq: 0,
        destination: c.destination,
        host: c.host,
        network: c.network,
        conn_type: c.conn_type,
        node: c.node,
        chains: c.chains,
        rule: c.rule,
        rule_payload: c.rule_payload,
        process: c.process,
        source: c.source,
        upload: c.upload,
        download: c.download,
        first_seen: now,
        last_seen: now,
        closed: false,
        closed_at: None,
    }
}

pub open spec fn max_u64(a: u64, b: u64) -> u64 {
    if a < b {
        b
    } else {
        a
    }
}

/// A record once its connection is seen again: what was not known is filled in, and
/// counters do not go back.
pub open spec fn refreshed(r: RecordModel, c: ConnectionModel, now: i64) -> RecordModel {
    RecordModel {
        last_seen: now,
        closed: false,
        closed_at: None,
        upload: max_u64(c.upload, r.upload),
        download: max_u64(c.download, r.download),
        node: if c.node.len() > 0 && c.node != "—"@ {
            c.node
        } else {
            r.node
        },
        chains: if c.chains.len() > 0 {
            c.chains
        } else {
            r.chains
        },
        destination: if r.destination == "—"@ && c.destination != "—"@ {
            c.destination
        } else {
            r.destination
        },
        host: if r.host.len() == 0 && c.host.len() > 0 {
            c.host
        } else {
            r.host
        },
        rule: if r.rule.len() == 0 && c.rule.len() > 0 {
            c.rule
        } else {
            r.rule
        },
        rule_payload: if r.rule.len() == 0 && c.rule.len() > 0 {
            c.rule_payload
        } else {
            r.rule_payload
        },
        process: if r.process.len() == 0 && c.process.len() > 0 {
            c.process
        } else {
            r.process
        },
        ..r
    }
}

/// A record once its connection is gone.
pub open spec fn ended(r: RecordModel, seq: u64, now: i64) -> RecordModel {
    RecordModel { history_seq: seq, closed: true, closed_at: Some(now), last_seen: now, ..r }
}

impl RequestRecord {
    /// The record of a connection that was not seen before.
    pub fn from_connection(c: &ConnectionInfo, now_ms: i64) -> (r: Self)
        ensures
            r@ == opened(c@, now_ms),
    {
        let r = RequestRecord {
            id: connection_history_key(c),
            history_seq: 0,
            destination: c.destination.clone(),
            host: c.host.clone(),
            network: c.network.clone(),
            conn_type: c.conn_type.clone(),
            node: c.node.clone(),
            chains: clone_strings(&c.chains),
            rule: c.rule.clone(),
            rule_payload: c.rule_payload.clone(),
            process: c.process.clone(),
            source: c.source.clone(),
            upload: c.upload,
            download: c.download,
            first_seen: now_ms,
            last_seen: now_ms,
            closed: false,
            closed_at: None,
        };
        r
    }

    fn refresh(self, c: &ConnectionInfo, now_ms: i64) -> (r: Self)
        ensures
            r@ == refreshed(self@, c@, now_ms),
    {
        let ghost before = self@;
        let old_rule_empty = self.rule.as_str().is_empty() && !c.rule.as_str().is_empty();
        let r = RequestRecord {
            id: self.id,
            history_seq: self.history_seq,
            destination: if same(self.destination.as_str(), "—") && !same(
                c.destination.as_str(),
                "—",
            ) {
                c.destination.clone()
            } else {
                self.destination
            },
            host: if self.host.as_str().is_empty() && !c.host.as_str().is_empty() {
                c.host.clone()
            } else {
                self.host
            },
            network: self.network,
            conn_type: self.conn_type,
            node: if !c.node.as_str().is_empty() && !same(c.node.as_str(), "—") {
                c.node.clone()
            } else {
                self.node
            },
            chains: if c.chains.len() > 0 {
                clone_strings(&c.chains)
            } else {
                self.chains
            },
            rule: if old_rule_empty {
                c.rule.clone()
            } else {
                self.rule
            },
            rule_payload: if old_rule_empty {
                c.rule_payload.clone()
            } else {
                self.rule_payload
            },
            process: if self.process.as_str().is_empty() && !c.process.as_str().is_empty() {
                c.process.clone()
            } else {
                self.process
            },
            source: self.source,
            upload: if c.upload < self.upload {
                self.upload
            } else {
                c.upload
            },
            download: if c.download < self.download {
                self.download
            } else {
                c.download
            },
            first_seen: self.first_seen,
            last_seen: now_ms,
            closed: false,
            closed_at: None,
        };
        r
    }

    fn end(self, seq: u64, now_ms: i64) -> (r: Self)
        ensures
            r@ == ended(self@, seq, now_ms),
    {
        let mut r = self;
        r.history_seq = seq;
        r.closed = true;
        r.closed_at = Some(now_ms);
        r.last_seen = now_ms;
        r
    }

    /// Whether the record shows the text that is looked for, in any case; blank text
    /// is shown by all.
    pub fn matches_query(&self, q: &str) -> (r: bool)
        ensures
            r == shows(self@, q@),
    {
        let key = lower(trim(q));
        let k = key.as_str();
        k.is_empty() || field_shows(self.destination.as_str(), k) || field_shows(
            self.host.as_str(),
            k,
        ) || field_shows(self.node.as_str(), k) || field_shows(self.rule.as_str(), k)
            || field_shows(self.rule_payload.as_str(), k) || field_shows(self.process.as_str(), k)
            || field_shows(self.source.as_str(), k) || field_shows(self.network.as_str(), k)
    }
}

fn field_shows(field: &str, key: &str) -> (r: bool)
    ensures
        r == holds_text(lowered(field@), key@),
{
    let low = lower(field);
    contains(low.as_str(), key)
}

/// The record shows the text that is looked for, in any case.
pub open spec fn shows(r: RecordModel, q: Seq<char>) -> bool {
    let k = lowered(trimmed(q));
    ||| k.len() == 0
    ||| holds_text(lowered(r.destination), k)
    ||| holds_text(lowered(r.host), k)
    ||| holds_text(lowered(r.node), k)
    ||| holds_text(lowered(r.rule), k)
    ||| holds_text(lowered(r.rule_payload), k)
    ||| holds_text(lowered(r.process), k)
    ||| holds_text(lowered(r.source), k)
    ||| holds_text(lowered(r.network), k)
}

// ---------------------------------------------------------------------------
// The journal and its model
// ---------------------------------------------------------------------------
#[derive(Debug)]
pub struct Journal {
    /// The connections that are open.
    pub live_connections: Vec<ConnectionInfo>,
    pub live_revision: u64,
    /// The revision of the set of open connections alone.
    pub live_order_revision: u64,
    /// The revision at which each open connection last changed.
    pub live_item_revisions: Table<u64>,
    /// The connections that were closed, with the revision at which they were.
    pub live_removals: VecDeque<(u64, String)>,
    /// The last revision whose removals are no longer all known.
    pub live_diff_floor: u64,
    pub request_by_id: Table<RequestRecord>,
    /// The keys of the requests, the newest first.
    pub request_order: VecDeque<String>,
    /// The number of the request that closed last.
    pub journal_seq: u64,
}

pub type Records = Map<Seq<char>, RecordModel>;

pub struct JournalModel {
    pub live: Seq<ConnectionModel>,
    pub revision: u64,
    pub order_revision: u64,
    pub item_revisions: Map<Seq<char>, u64>,
    pub removals: Seq<(u64, Seq<char>)>,
    pub floor: u64,
    pub records: Records,
    pub order: Seq<Seq<char>>,
    pub seq: u64,
}

pub open spec fn record_views(m: Map<Seq<char>, RequestRecord>) -> Records {
    m.map_values(|r: RequestRecord| r@)
}

pub open spec fn removal_views(v: Seq<(u64, String)>) -> Seq<(u64, Seq<char>)> {
    Seq::new(v.len(), |i: int| (v[i].0, v[i].1@))
}

impl View for Journal {
    type V = JournalModel;

    open spec fn view(&self) -> JournalModel {
        JournalModel {
            live: connection_views(self.live_connections@),
            revision: self.live_revision,
            order_revision: self.live_order_revision,
            item_revisions: self.live_item_revisions@,
            removals: removal_views(self.live_removals@),
            floor: self.live_diff_floor,
            records: record_views(self.request_by_id@),
            order: views(self.request_order@),
            seq: self.journal_seq,
        }
    }
}

pub open spec fn next(n: u64) -> u64 {
    if n == u64::MAX {
        n
    } else {
        (n + 1) as u64
    }
}

fn next_of(n: u64) -> (r: u64)
    ensures
        r == next(n),
{
    if n == u64::MAX {
        n
    } else {
        n + 1
    }
}

/// The oldest requests are dropped until the journal can keep the rest.
pub open spec fn capped(records: Records, order: Seq<Seq<char>>) -> (Records, Seq<Seq<char>>)
    decreases order.len(),
{
    if order.len() > MAX_REQUEST_HISTORY {
        capped(records.remove(order.last()), order.drop_last())
    } else {
        (records, order)
    }
}

/// The requests once an open connection was seen.
pub open spec fn noted_open(
    records: Records,
    order: Seq<Seq<char>>,
    c: ConnectionModel,
    now: i64,
) -> (Records, Seq<Seq<char>>) {
    let k = history_key(c);
    if records.contains_key(k) {
        (records.insert(k, refreshed(records[k], c, now)), order)
    } else {
        capped(records.insert(k, opened(c, now)), seq![k] + order)
    }
}

pub open spec fn noted_all_open(
    records: Records,
    order: Seq<Seq<char>>,
    conns: Seq<ConnectionModel>,
    now: i64,
) -> (Records, Seq<Seq<char>>)
    decreases conns.len(),
{
    if conns.len() == 0 {
        (records, order)
    } else {
        let (r, o) = noted_all_open(records, order, conns.drop_last(), now);
        noted_open(r, o, conns.last(), now)
    }
}

/// A connection of that key is in the list.
pub open spec fn has_connection(conns: Seq<ConnectionModel>, k: Seq<char>) -> bool {
    exists|i: int| 0 <= i < conns.len() && history_key(#[trigger] conns[i]) == k
}

/// The last connection of that key.
pub open spec fn last_connection(conns: Seq<ConnectionModel>, k: Seq<char>) -> Option<
    ConnectionModel,
>
    decreases conns.len(),
{
    if conns.len() == 0 {
        None
    } else if history_key(conns.last()) == k {
        Some(conns.last())
    } else {
        last_connection(conns.drop_last(), k)
    }
}

/// The requests once one connection was looked for: its request ends where it is no
/// longer there.
pub open spec fn noted_gone(
    records: Records,
    seq: u64,
    c: ConnectionModel,
    conns: Seq<ConnectionModel>,
    now: i64,
) -> (Records, u64) {
    let k = history_key(c);
    if !has_connection(conns, k) && records.contains_key(k) && !records[k].closed {
        (records.insert(k, ended(records[k], next(seq), now)), next(seq))
    } else {
        (records, seq)
    }
}

pub open spec fn noted_all_gone(
    records: Records,
    seq: u64,
    live: Seq<ConnectionModel>,
    conns: Seq<ConnectionModel>,
    now: i64,
) -> (Records, u64)
    decreases live.len(),
{
    if live.len() == 0 {
        (records, seq)
    } else {
        let (r, s) = noted_all_gone(records, seq, live.drop_last(), conns, now);
        noted_gone(r, s, live.last(), conns, now)
    }
}

/// The keys of the connections that are gone, each once, in their order.
pub open spec fn gone_keys(live: Seq<ConnectionModel>, conns: Seq<ConnectionModel>) -> Seq<
    Seq<char>,
>
    decreases live.len(),
{
    if live.len() == 0 {
        Seq::empty()
    } else {
        let before = gone_keys(live.drop_last(), conns);
        let k = history_key(live.last());
        if has_connection(conns, k) || before.contains(k) {
            before
        } else {
            before.push(k)
        }
    }
}

/// The revisions of the connections once those that are new or changed have the
/// revision `rev`.
pub open spec fn touched(
    revisions: Map<Seq<char>, u64>,
    live: Seq<ConnectionModel>,
    conns: Seq<ConnectionModel>,
    rev: u64,
) -> Map<Seq<char>, u64>
    decreases conns.len(),
{
    if conns.len() == 0 {
        revisions
    } else {
        let before = touched(revisions, live, conns.drop_last(), rev);
        let c = conns.last();
        if last_connection(live, history_key(c)) == Some(c) {
            before
        } else {
            before.insert(history_key(c), rev)
        }
    }
}

pub open spec fn without_keys(revisions: Map<Seq<char>, u64>, keys: Seq<Seq<char>>) -> Map<
    Seq<char>,
    u64,
>
    decreases keys.len(),
{
    if keys.len() == 0 {
        revisions
    } else {
        without_keys(revisions, keys.drop_last()).remove(keys.last())
    }
}

pub open spec fn removals_at(keys: Seq<Seq<char>>, rev: u64) -> Seq<(u64, Seq<char>)> {
    Seq::new(keys.len(), |i: int| (rev, keys[i]))
}

/// The oldest removals are dropped until the journal can keep the rest; the floor
/// rises to the last that was dropped.
pub open spec fn capped_removals(removals: Seq<(u64, Seq<char>)>, floor: u64) -> (
    Seq<(u64, Seq<char>)>,
    u64,
)
    decreases removals.len(),
{
    if removals.len() > MAX_LIVE_REMOVAL_HISTORY {
        capped_removals(removals.drop_first(), removals[0].0)
    } else {
        (removals, floor)
    }
}

/// Some connection is new.
pub open spec fn any_new(live: Seq<ConnectionModel>, conns: Seq<ConnectionModel>) -> bool {
    exists|i: int|
        0 <= i < conns.len() && last_connection(live, history_key(#[trigger] conns[i])) is None
}

/// The open connections once the core reports `conns`.
pub open spec fn relisted(j: JournalModel, conns: Seq<ConnectionModel>) -> JournalModel {
    if j.live == conns {
        j
    } else {
        let rev = next(j.revision);
        let gone = gone_keys(j.live, conns);
        let kept = capped_removals(j.removals + removals_at(gone, rev), j.floor);
        JournalModel {
            live: conns,
            revision: rev,
            order_revision: if any_new(j.live, conns) || gone.len() > 0 {
                next(j.order_revision)
            } else {
                j.order_revision
            },
            item_revisions: without_keys(touched(j.item_revisions, j.live, conns, rev), gone),
            removals: kept.0,
            floor: kept.1,
            ..j
        }
    }
}

/// The journal once the core reports `conns`: open connections are noted, those that
/// are gone are closed, and the list of open ones is replaced.
pub open spec fn ingested(j: JournalModel, conns: Seq<ConnectionModel>, now: i64) -> JournalModel {
    let (opened_records, order) = noted_all_open(j.records, j.order, conns, now);
    let (records, seq) = noted_all_gone(opened_records, j.seq, j.live, conns, now);
    relisted(JournalModel { records, order, seq, ..j }, conns)
}

/// A journal in which nothing happened.
pub open spec fn empty_journal() -> JournalModel {
    JournalModel {
        live: Seq::empty(),
        revision: 0,
        order_revision: 0,
        item_revisions: Map::empty(),
        removals: Seq::empty(),
        floor: 0,
        records: Map::empty(),
        order: Seq::empty(),
        seq: 0,
    }
}

pub proof fn lemma_last_connection(conns: Seq<ConnectionModel>, k: Seq<char>)
    ensures
        last_connection(conns, k) is Some <==> has_connection(conns, k),
        last_connection(conns, k) is Some ==> history_key(last_connection(conns, k)->0) == k,
    decreases conns.len(),
{
    if conns.len() > 0 {
        let t = conns.drop_last();
        lemma_last_connection(t, k);
        if history_key(conns.last()) == k {
            assert(history_key(conns[conns.len() - 1]) == k);
        } else {
            if has_connection(conns, k) {
                let i = choose|i: int| 0 <= i < conns.len() && history_key(#[trigger] conns[i]) == k;
                assert(t[i] == conns[i]);
            }
            if has_connection(t, k) {
                let i = choose|i: int| 0 <= i < t.len() && history_key(#[trigger] t[i]) == k;
                assert(conns[i] == t[i]);
            }
        }
    }
}

/// The keys of connections, by their views.
pub open spec fn keys_of(conns: Seq<ConnectionModel>) -> Seq<Seq<char>> {
    Seq::new(conns.len(), |i: int| history_key(conns[i]))
}

pub proof fn lemma_keys_of(conns: Seq<ConnectionModel>, k: Seq<char>)
    ensures
        keys_of(conns).contains(k) <==> has_connection(conns, k),
{
    if keys_of(conns).contains(k) {
        let i = choose|i: int| 0 <= i < keys_of(conns).len() && keys_of(conns)[i] == k;
        assert(history_key(conns[i]) == k);
    }
    if has_connection(conns, k) {
        let i = choose|i: int| 0 <= i < conns.len() && history_key(#[trigger] conns[i]) == k;
        assert(keys_of(conns)[i] == k);
    }
}

fn keys_of_all(conns: &Vec<ConnectionInfo>) -> (r: Vec<String>)
    ensures
        views(r@) == keys_of(connection_views(conns@)),
        r@.len() == conns@.len(),
{
    let mut out: Vec<String> = Vec::new();
    for i in 0..conns.len()
        invariant
            out@.len() == i,
            forall|j: int| 0 <= j < i ==> (#[trigger] out@[j])@ == history_key(conns@[j]@),
    {
        out.push(connection_history_key(&conns[i]));
    }
    proof {
        assert(views(out@) =~= keys_of(connection_views(conns@)));
    }
    out
}

impl Journal {
    pub fn new() -> (r: Self)
        ensures
            r@ == empty_journal(),
    {
        let j = Journal {
            live_connections: Vec::new(),
            live_revision: 0,
            live_order_revision: 0,
            live_item_revisions: Table::new(),
            live_removals: VecDeque::new(),
            live_diff_floor: 0,
            request_by_id: Table::new(),
            request_order: VecDeque::new(),
            journal_seq: 0,
        };
        proof {
            assert(j@.live =~= Seq::empty());
            assert(j@.removals =~= Seq::empty());
            assert(j@.order =~= Seq::empty());
            assert(j@.records =~= Map::empty());
        }
        j
    }

    /// Notes one open connection among the requests.
    fn note_open(&mut self, c: &ConnectionInfo, key: &str, now_ms: i64)
        requires
            key@ == history_key(c@),
        ensures
            final(self)@ == (JournalModel {
                records: noted_open(old(self)@.records, old(self)@.order, c@, now_ms).0,
                order: noted_open(old(self)@.records, old(self)@.order, c@, now_ms).1,
                ..old(self)@
            }),
    {
        let ghost start = self@;
        let ghost k = key@;
        match self.request_by_id.remove(key) {
            Some(rec) => {
                let r = rec.refresh(c, now_ms);
                self.request_by_id.insert(key.to_owned(), r);
                proof {
                    assert(start.records.contains_key(k));
                    assert(self@.records =~= start.records.insert(
                        k,
                        refreshed(start.records[k], c@, now_ms),
                    ));
                }
            },
            None => {
                proof {
                    assert(!start.records.contains_key(k));
                }
                let rec = RequestRecord::from_connection(c, now_ms);
                self.request_by_id.insert(key.to_owned(), rec);
                self.request_order.push_front(key.to_owned());
                let ghost r0 = start.records.insert(k, opened(c@, now_ms));
                let ghost o0 = seq![k] + start.order;
                proof {
                    assert(self@.records =~= r0);
                    assert(self@.order =~= o0);
                }
                while self.request_order.len() > MAX_REQUEST_HISTORY
                    invariant
                        self@ == (JournalModel {
                            records: self@.records,
                            order: self@.order,
                            ..start
                        }),
                        capped(self@.records, self@.order) == capped(r0, o0),
                    decreases self.request_order@.len(),
                {
                    let ghost before = self@;
                    match self.request_order.pop_back() {
                        Some(old_key) => {
                            let _ = self.request_by_id.remove(old_key.as_str());
                            proof {
                                assert(self@.order =~= before.order.drop_last());
                                assert(before.order.last() == old_key@);
                                assert(self@.records =~= before.records.remove(old_key@));
                            }
                        },
                        None => {},
                    }
                }
            },
        }
    }

    /// Closes the request of a connection that is gone.
    fn note_gone(&mut self, key: &str, now_ms: i64)
        ensures
            ({
                let s = old(self)@;
                let k = key@;
                final(self)@ == if s.records.contains_key(k) && !s.records[k].closed {
                    JournalModel {
                        records: s.records.insert(k, ended(s.records[k], next(s.seq), now_ms)),
                        seq: next(s.seq),
                        ..s
                    }
                } else {
                    s
                }
            }),
    {
        let ghost start = self@;
        let ghost k = key@;
        let open = match self.request_by_id.get(key) {
            Some(rec) => !rec.closed,
            None => false,
        };
        if open {
            if let Some(rec) = self.request_by_id.remove(key) {
                let seq = next_of(self.journal_seq);
                let r = rec.end(seq, now_ms);
                self.journal_seq = seq;
                self.request_by_id.insert(key.to_owned(), r);
                proof {
                    assert(self@.records =~= start.records.insert(
                        k,
                        ended(start.records[k], seq, now_ms),
                    ));
                }
            }
        }
    }

    /// Replaces the list of open connections.
    fn relist(&mut self, connections: Vec<ConnectionInfo>, keys: &Vec<String>)
        requires
            views(keys@) == keys_of(connection_views(connections@)),
            keys@.len() == connections@.len(),
        ensures
            final(self)@ == relisted(old(self)@, connection_views(connections@)),
    {
        let ghost start = self@;
        let ghost conns = connection_views(connections@);
        if same_connections(&self.live_connections, &connections) {
            return ;
        }
        let revision = next_of(self.live_revision);
        let mut changed = false;
        let mut i: usize = 0;
        proof {
            assert(conns.take(0) =~= Seq::empty());
        }
        while i < connections.len()
            invariant
                i <= connections@.len(),
                conns == connection_views(connections@),
                views(keys@) == keys_of(conns),
                keys@.len() == connections@.len(),
                connection_views(self.live_connections@) == start.live,
                self@ == (JournalModel { item_revisions: self@.item_revisions, ..start }),
                self@.item_revisions == touched(
                    start.item_revisions,
                    start.live,
                    conns.take(i as int),
                    revision,
                ),
                changed == any_new(start.live, conns.take(i as int)),
            decreases connections@.len() - i,
        {
            let ghost whole = conns.take(i + 1);
            let ghost c = connections@[i as int]@;
            proof {
                assert(whole.drop_last() =~= conns.take(i as int));
                assert(whole.last() == c);
                assert(views(keys@)[i as int] == history_key(c));
                lemma_any_new_step(start.live, conns, i as int);
            }
            match find_last(&self.live_connections, keys[i].as_str()) {
                Some(p) => {
                    if !same_connection(&self.live_connections[p], &connections[i]) {
                        self.live_item_revisions.insert(keys[i].clone(), revision);
                    }
                },
                None => {
                    changed = true;
                    self.live_item_revisions.insert(keys[i].clone(), revision);
                },
            }
            i += 1;
        }
        proof {
            assert(conns.take(i as int) =~= conns);
        }
        let gone = find_gone(&self.live_connections, keys);
        let ghost gone_model = gone_keys(start.live, conns);
        proof {
            lemma_gone_by_keys(start.live, conns);
        }
        let ghost touched_map = self@.item_revisions;
        let mut g: usize = 0;
        proof {
            assert(gone_model.take(0) =~= Seq::empty());
            assert(start.removals + removals_at(gone_model.take(0), revision) =~= start.removals);
        }
        while g < gone.len()
            invariant
                g <= gone@.len(),
                views(gone@) == gone_model,
                self@ == (JournalModel {
                    item_revisions: without_keys(touched_map, gone_model.take(g as int)),
                    removals: start.removals + removals_at(gone_model.take(g as int), revision),
                    ..start
                }),
            decreases gone@.len() - g,
        {
            let ghost part = gone_model.take(g + 1);
            let ghost before = self@;
            proof {
                assert(part.drop_last() =~= gone_model.take(g as int));
                assert(part.last() == gone@[g as int]@);
            }
            let _ = self.live_item_revisions.remove(gone[g].as_str());
            self.live_removals.push_back((revision, gone[g].clone()));
            proof {
                assert(self@.removals =~= before.removals.push((revision, gone@[g as int]@)));
                assert(self@.removals =~= start.removals + removals_at(part, revision));
            }
            g += 1;
        }
        proof {
            assert(gone_model.take(g as int) =~= gone_model);
        }
        self.live_revision = revision;
        if changed || gone.len() > 0 {
            self.live_order_revision = next_of(self.live_order_revision);
        }
        self.cap_removals();
        self.live_connections = connections;
    }

    /// Drops the removals that the journal does not keep.
    fn cap_removals(&mut self)
        ensures
            final(self)@ == (JournalModel {
                removals: capped_removals(old(self)@.removals, old(self)@.floor).0,
                floor: capped_removals(old(self)@.removals, old(self)@.floor).1,
                ..old(self)@
            }),
    {
        let ghost start = self@;
        while self.live_removals.len() > MAX_LIVE_REMOVAL_HISTORY
            invariant
                self@ == (JournalModel {
                    removals: self@.removals,
                    floor: self@.floor,
                    ..start
                }),
                capped_removals(self@.removals, self@.floor) == capped_removals(
                    start.removals,
                    start.floor,
                ),
            decreases self.live_removals@.len(),
        {
            let ghost before = self@;
            match self.live_removals.pop_front() {
                Some((rev, _)) => {
                    self.live_diff_floor = rev;
                    proof {
                        assert(self@.removals =~= before.removals.drop_first());
                        assert(before.removals[0].0 == rev);
                    }
                },
                None => {},
            }
        }
    }

    /// Takes over the connections that the core reports.
    pub fn ingest_connections(&mut self, connections: Vec<ConnectionInfo>, now_ms: i64)
        ensures
            final(self)@ == ingested(old(self)@, connection_views(connections@), now_ms),
    {
        let ghost start = self@;
        let ghost conns = connection_views(connections@);
        let keys = keys_of_all(&connections);
        let mut i: usize = 0;
        proof {
            assert(conns.take(0) =~= Seq::empty());
        }
        while i < connections.len()
            invariant
                i <= connections@.len(),
                conns == connection_views(connections@),
                views(keys@) == keys_of(conns),
                keys@.len() == connections@.len(),
                self@ == (JournalModel {
                    records: noted_all_open(
                        start.records,
                        start.order,
                        conns.take(i as int),
                        now_ms,
                    ).0,
                    order: noted_all_open(
                        start.records,
                        start.order,
                        conns.take(i as int),
                        now_ms,
                    ).1,
                    ..start
                }),
            decreases connections@.len() - i,
        {
            proof {
                assert(conns.take(i + 1).drop_last() =~= conns.take(i as int));
                assert(conns.take(i + 1).last() == connections@[i as int]@);
                assert(views(keys@)[i as int] == history_key(connections@[i as int]@));
            }
            self.note_open(&connections[i], keys[i].as_str(), now_ms);
            i += 1;
        }
        proof {
            assert(conns.take(i as int) =~= conns);
        }
        let ghost mid = self@;
        let live_keys = keys_of_all(&self.live_connections);
        let mut l: usize = 0;
        proof {
            assert(mid.live.take(0) =~= Seq::empty());
        }
        while l < live_keys.len()
            invariant
                l <= live_keys@.len(),
                views(keys@) == keys_of(conns),
                views(live_keys@) == keys_of(mid.live),
                live_keys@.len() == mid.live.len(),
                self@ == (JournalModel {
                    records: noted_all_gone(
                        mid.records,
                        mid.seq,
                        mid.live.take(l as int),
                        conns,
                        now_ms,
                    ).0,
                    seq: noted_all_gone(
                        mid.records,
                        mid.seq,
                        mid.live.take(l as int),
                        conns,
                        now_ms,
                    ).1,
                    ..mid
                }),
            decreases live_keys@.len() - l,
        {
            let ghost k = live_keys@[l as int]@;
            proof {
                assert(mid.live.take(l + 1).drop_last() =~= mid.live.take(l as int));
                assert(mid.live.take(l + 1).last() == mid.live[l as int]);
                assert(views(live_keys@)[l as int] == history_key(mid.live[l as int]));
                lemma_keys_of(conns, k);
            }
            if !list_holds(&keys, live_keys[l].as_str()) {
                self.note_gone(live_keys[l].as_str(), now_ms);
            }
            l += 1;
        }
        proof {
            assert(mid.live.take(l as int) =~= mid.live);
        }
        self.relist(connections, &keys);
    }

    /// Empties the list of open connections.
    pub fn clear_live_connections(&mut self)
        ensures
            final(self)@ == live_cleared(old(self)@),
    {
        let ghost start = self@;
        if self.live_connections.len() == 0 {
            return ;
        }
        let revision = next_of(self.live_revision);
        let keys = keys_of_all(&self.live_connections);
        let ghost models = keys_of(start.live);
        let mut g: usize = 0;
        proof {
            assert(models.take(0) =~= Seq::empty());
            assert(start.removals + removals_at(models.take(0), revision) =~= start.removals);
        }
        while g < keys.len()
            invariant
                g <= keys@.len(),
                views(keys@) == models,
                self@ == (JournalModel {
                    item_revisions: without_keys(start.item_revisions, models.take(g as int)),
                    removals: start.removals + removals_at(models.take(g as int), revision),
                    ..start
                }),
            decreases keys@.len() - g,
        {
            let ghost part = models.take(g + 1);
            let ghost before = self@;
            proof {
                assert(part.drop_last() =~= models.take(g as int));
                assert(part.last() == keys@[g as int]@);
            }
            let _ = self.live_item_revisions.remove(keys[g].as_str());
            self.live_removals.push_back((revision, keys[g].clone()));
            proof {
                assert(self@.removals =~= before.removals.push((revision, keys@[g as int]@)));
                assert(self@.removals =~= start.removals + removals_at(part, revision));
            }
            g += 1;
        }
        proof {
            assert(models.take(g as int) =~= models);
        }
        self.live_revision = revision;
        self.live_order_revision = next_of(self.live_order_revision);
        self.live_connections = Vec::new();
        proof {
            assert(self@.live =~= Seq::empty());
        }
        self.cap_removals();
    }
}

/// The journal with no open connection.
pub open spec fn live_cleared(j: JournalModel) -> JournalModel {
    if j.live.len() == 0 {
        j
    } else {
        let rev = next(j.revision);
        let keys = keys_of(j.live);
        let kept = capped_removals(j.removals + removals_at(keys, rev), j.floor);
        JournalModel {
            live: Seq::empty(),
            revision: rev,
            order_revision: next(j.order_revision),
            item_revisions: without_keys(j.item_revisions, keys),
            removals: kept.0,
            floor: kept.1,
            ..j
        }
    }
}

proof fn lemma_any_new_step(live: Seq<ConnectionModel>, conns: Seq<ConnectionModel>, i: int)
    requires
        0 <= i < conns.len(),
    ensures
        any_new(live, conns.take(i + 1)) == (any_new(live, conns.take(i)) || last_connection(
            live,
            history_key(conns[i]),
        ) is None),
{
    let a = conns.take(i);
    let b = conns.take(i + 1);
    if any_new(live, b) {
        let j = choose|j: int|
            0 <= j < b.len() && last_connection(live, history_key(#[trigger] b[j])) is None;
        if j < i {
            assert(a[j] == b[j]);
        } else {
            assert(b[j] == conns[i]);
        }
    }
    if any_new(live, a) {
        let j = choose|j: int|
            0 <= j < a.len() && last_connection(live, history_key(#[trigger] a[j])) is None;
        assert(b[j] == a[j]);
    }
    assert(b[i] == conns[i]);
}

fn same_connections(a: &Vec<ConnectionInfo>, b: &Vec<ConnectionInfo>) -> (r: bool)
    ensures
        r == (connection_views(a@) == connection_views(b@)),
{
    if a.len() != b.len() {
        proof {
            assert(connection_views(a@).len() != connection_views(b@).len());
        }
        return false;
    }
    for i in 0..a.len()
        invariant
            a@.len() == b@.len(),
            forall|j: int| 0 <= j < i ==> (#[trigger] a@[j])@ == b@[j]@,
    {
        if !same_connection(&a[i], &b[i]) {
            proof {
                assert(connection_views(a@)[i as int] != connection_views(b@)[i as int]);
            }
            return false;
        }
    }
    proof {
        assert(connection_views(a@) =~= connection_views(b@));
    }
    true
}

/// The position of the last connection of that key.
fn find_last(conns: &Vec<ConnectionInfo>, key: &str) -> (r: Option<usize>)
    ensures
        match r {
            Some(i) => i < conns@.len() && last_connection(connection_views(conns@), key@) == Some(
                conns@[i as int]@,
            ),
            None => last_connection(connection_views(conns@), key@) is None,
        },
{
    let ghost models = connection_views(conns@);
    let mut i: usize = conns.len();
    proof {
        assert(models.take(i as int) =~= models);
    }
    while i > 0
        invariant
            i <= conns@.len(),
            models == connection_views(conns@),
            last_connection(models, key@) == last_connection(models.take(i as int), key@),
        decreases i,
    {
        proof {
            assert(models.take(i as int).last() == conns@[i - 1]@);
            assert(models.take(i as int).drop_last() =~= models.take(i - 1));
        }
        let k = connection_history_key(&conns[i - 1]);
        if same(k.as_str(), key) {
            return Some(i - 1);
        }
        i -= 1;
    }
    None
}

/// The keys of `live` that are not in `seen`, each once.
pub open spec fn missing_keys(live: Seq<Seq<char>>, seen: Seq<Seq<char>>) -> Seq<Seq<char>>
    decreases live.len(),
{
    if live.len() == 0 {
        Seq::empty()
    } else {
        let before = missing_keys(live.drop_last(), seen);
        if seen.contains(live.last()) || before.contains(live.last()) {
            before
        } else {
            before.push(live.last())
        }
    }
}

proof fn lemma_gone_by_keys(live: Seq<ConnectionModel>, conns: Seq<ConnectionModel>)
    ensures
        missing_keys(keys_of(live), keys_of(conns)) == gone_keys(live, conns),
    decreases live.len(),
{
    if live.len() > 0 {
        lemma_gone_by_keys(live.drop_last(), conns);
        assert(keys_of(live).drop_last() =~= keys_of(live.drop_last()));
        lemma_keys_of(conns, history_key(live.last()));
    }
}

fn find_gone(live: &Vec<ConnectionInfo>, seen: &Vec<String>) -> (r: Vec<String>)
    ensures
        views(r@) == missing_keys(keys_of(connection_views(live@)), views(seen@)),
{
    let keys = keys_of_all(live);
    let ghost models = keys_of(connection_views(live@));
    let mut out: Vec<String> = Vec::new();
    proof {
        assert(views(out@) =~= missing_keys(models.take(0), views(seen@)));
    }
    for i in 0..keys.len()
        invariant
            views(keys@) == models,
            views(out@) == missing_keys(models.take(i as int), views(seen@)),
    {
        let ghost whole = models.take(i + 1);
        let ghost before = out@;
        proof {
            assert(whole.drop_last() =~= models.take(i as int));
            assert(whole.last() == keys@[i as int]@);
        }
        if !list_holds(seen, keys[i].as_str()) && !list_holds(&out, keys[i].as_str()) {
            out.push(keys[i].clone());
            proof {
                assert(views(out@) =~= views(before).push(keys@[i as int]@));
            }
        }
    }
    proof {
        assert(models.take(models.len() as int) =~= models);
    }
    out
}

} // verus!
