//! That a receiver of batches has what the journal has.

use crate::journal::{
    any_new, capped_removals, empty_journal, gone_keys, has_connection, history_key, ingested, keys_of,
    last_connection, lemma_keys_of, lemma_last_connection, live_cleared, next, removals_at, touched,
    without_keys, ConnectionModel, JournalModel, MAX_LIVE_REMOVAL_HISTORY,
};
use crate::traffic::{
    changed_since, needs_full, removed_behind, sent_removals, sent_rows,
};
use vstd::prelude::*;

verus! {

/// What a receiver holds: the open connections under their keys.
pub type Held = Map<Seq<char>, ConnectionModel>;

/// The open connections under their keys.
pub open spec fn held_of(live: Seq<ConnectionModel>) -> Held {
    Map::new(|k: Seq<char>| has_connection(live, k), |k: Seq<char>| last_connection(live, k)->0)
}

/// What the receiver holds after one row.
pub open spec fn with_rows(held: Held, rows: Seq<ConnectionModel>) -> Held
    decreases rows.len(),
{
    if rows.len() == 0 {
        held
    } else {
        with_rows(held, rows.drop_last()).insert(history_key(rows.last()), rows.last())
    }
}

/// What the receiver holds after the batch for the revision `since`: all rows in place of
/// what it held, or without the removed ones and with the rows.
pub open spec fn merged(held: Held, j: JournalModel, since: Option<u64>) -> Held {
    if since == Some(j.revision) {
        held
    } else if needs_full(j, since) {
        with_rows(Map::empty(), sent_rows(j, since))
    } else {
        with_rows(
            held.remove_keys(sent_removals(j, since).to_set()),
            sent_rows(j, since),
        )
    }
}

pub open spec fn removed_at(removals: Seq<(u64, Seq<char>)>, k: Seq<char>, rev: u64) -> bool {
    exists|i: int| 0 <= i < removals.len() && (#[trigger] removals[i]).1 == k && removals[i].0 > rev
}

/// The revisions of a journal are in order.
pub open spec fn in_order(j: JournalModel) -> bool {
    &&& j.floor <= j.revision
    &&& forall|k: Seq<char>|
        #[trigger] has_connection(j.live, k) ==> j.item_revisions.contains_key(k)
            && j.item_revisions[k] <= j.revision
    &&& forall|i: int|
        0 <= i < j.removals.len() ==> j.floor <= (#[trigger] j.removals[i]).0 <= j.revision
    &&& forall|a: int, b: int|
        0 <= a < b < j.removals.len() ==> (#[trigger] j.removals[a]).0 <= (
        #[trigger] j.removals[b]).0
    &&& forall|i: int|
        0 <= i < j.removals.len() && has_connection(j.live, (#[trigger] j.removals[i]).1)
            ==> j.item_revisions[j.removals[i].1] > j.removals[i].0
}

/// The journal can still tell a receiver, which held `held` at the revision `since`, what
/// changed.
pub open spec fn can_tell(j: JournalModel, since: u64, held: Held) -> bool {
    &&& since <= j.revision
    &&& forall|k: Seq<char>|
        #[trigger] has_connection(j.live, k) ==> j.item_revisions[k] > since || (held.contains_key(
            k,
        ) && held[k] == last_connection(j.live, k)->0)
    &&& since == j.revision || since < j.floor || forall|k: Seq<char>|
        #[trigger] held.contains_key(k) && !has_connection(j.live, k) ==> removed_at(
            j.removals,
            k,
            since,
        )
    &&& since == j.revision ==> held == held_of(j.live)
}

/// One of the connections of that key is not the one that is open.
pub open spec fn differs(live: Seq<ConnectionModel>, conns: Seq<ConnectionModel>, k: Seq<char>) -> bool {
    exists|i: int|
        0 <= i < conns.len() && history_key(#[trigger] conns[i]) == k && last_connection(live, k)
            != Some(conns[i])
}

proof fn lemma_differs_step(live: Seq<ConnectionModel>, conns: Seq<ConnectionModel>, k: Seq<char>)
    requires
        conns.len() > 0,
    ensures
        differs(live, conns, k) == (differs(live, conns.drop_last(), k) || (history_key(
            conns.last(),
        ) == k && last_connection(live, k) != Some(conns.last()))),
{
    let t = conns.drop_last();
    if differs(live, conns, k) {
        let i = choose|i: int|
            0 <= i < conns.len() && history_key(#[trigger] conns[i]) == k && last_connection(
                live,
                k,
            ) != Some(conns[i]);
        if i < t.len() {
            assert(t[i] == conns[i]);
        }
    }
    if differs(live, t, k) {
        let i = choose|i: int|
            0 <= i < t.len() && history_key(#[trigger] t[i]) == k && last_connection(live, k)
                != Some(t[i]);
        assert(conns[i] == t[i]);
    }
    assert(conns[conns.len() - 1] == conns.last());
}

proof fn lemma_touched(
    revisions: Map<Seq<char>, u64>,
    live: Seq<ConnectionModel>,
    conns: Seq<ConnectionModel>,
    rev: u64,
    k: Seq<char>,
)
    ensures
        ({
            let m = touched(revisions, live, conns, rev);
            if differs(live, conns, k) {
                m.contains_key(k) && m[k] == rev
            } else {
                m.contains_key(k) == revisions.contains_key(k) && m[k] == revisions[k]
            }
        }),
    decreases conns.len(),
{
    if conns.len() > 0 {
        lemma_touched(revisions, live, conns.drop_last(), rev, k);
        lemma_differs_step(live, conns, k);
    }
}

/// Where no connection of a key differs, the last one is the one that was open.
proof fn lemma_same_last(live: Seq<ConnectionModel>, conns: Seq<ConnectionModel>, k: Seq<char>)
    requires
        !differs(live, conns, k),
        has_connection(conns, k),
    ensures
        has_connection(live, k),
        last_connection(live, k) == last_connection(conns, k),
    decreases conns.len(),
{
    lemma_last_connection(live, k);
    lemma_last_connection(conns, k);
    lemma_differs_step(live, conns, k);
    if history_key(conns.last()) != k {
        let t = conns.drop_last();
        lemma_last_connection(t, k);
        lemma_same_last(live, t, k);
    }
}

proof fn lemma_without(revisions: Map<Seq<char>, u64>, keys: Seq<Seq<char>>, k: Seq<char>)
    ensures
        without_keys(revisions, keys).contains_key(k) == (revisions.contains_key(k)
            && !keys.contains(k)),
        !keys.contains(k) ==> without_keys(revisions, keys)[k] == revisions[k],
    decreases keys.len(),
{
    if keys.len() > 0 {
        let t = keys.drop_last();
        lemma_without(revisions, t, k);
        if keys.contains(k) {
            let i = choose|i: int| 0 <= i < keys.len() && keys[i] == k;
            if i < t.len() {
                assert(t[i] == k);
            }
        }
        if t.contains(k) {
            let i = choose|i: int| 0 <= i < t.len() && t[i] == k;
            assert(keys[i] == k);
        }
        assert(keys[keys.len() - 1] == keys.last());
    }
}

proof fn lemma_gone(live: Seq<ConnectionModel>, conns: Seq<ConnectionModel>, k: Seq<char>)
    ensures
        gone_keys(live, conns).contains(k) == (has_connection(live, k) && !has_connection(conns, k)),
    decreases live.len(),
{
    if live.len() > 0 {
        let t = live.drop_last();
        lemma_gone(t, conns, k);
        let before = gone_keys(t, conns);
        let here = gone_keys(live, conns);
        let last = history_key(live.last());
        assert(has_connection(live, k) == (has_connection(t, k) || last == k)) by {
            if has_connection(live, k) {
                let i = choose|i: int| 0 <= i < live.len() && history_key(#[trigger] live[i]) == k;
                if i < t.len() {
                    assert(t[i] == live[i]);
                }
            }
            if has_connection(t, k) {
                let i = choose|i: int| 0 <= i < t.len() && history_key(#[trigger] t[i]) == k;
                assert(live[i] == t[i]);
            }
            assert(live[live.len() - 1] == live.last());
        }
        if !(has_connection(conns, last) || before.contains(last)) {
            assert(here == before.push(last));
            if here.contains(k) {
                let i = choose|i: int| 0 <= i < here.len() && here[i] == k;
                if i < before.len() {
                    assert(before[i] == k);
                }
            }
            if before.contains(k) {
                let i = choose|i: int| 0 <= i < before.len() && before[i] == k;
                assert(here[i] == k);
            }
            assert(here[before.len() as int] == last);
        }
    }
}

/// How many removals are dropped.
pub open spec fn dropped(removals: Seq<(u64, Seq<char>)>) -> int {
    if removals.len() > MAX_LIVE_REMOVAL_HISTORY {
        removals.len() - MAX_LIVE_REMOVAL_HISTORY
    } else {
        0
    }
}

proof fn lemma_capped(removals: Seq<(u64, Seq<char>)>, floor: u64)
    ensures
        capped_removals(removals, floor).0 == removals.skip(dropped(removals)),
        capped_removals(removals, floor).1 == if dropped(removals) > 0 {
            removals[dropped(removals) - 1].0
        } else {
            floor
        },
    decreases removals.len(),
{
    if removals.len() > MAX_LIVE_REMOVAL_HISTORY {
        let t = removals.drop_first();
        lemma_capped(t, removals[0].0);
        assert(t.skip(dropped(t)) =~= removals.skip(dropped(removals)));
    } else {
        assert(removals.skip(0) =~= removals);
    }
}

/// From one journal to the next: `n` has the next revision, the connections that changed
/// have it too, and those that are gone were removed at it.
pub open spec fn moves_on(j: JournalModel, n: JournalModel, gone: Seq<Seq<char>>) -> bool {
    &&& n.revision == j.revision + 1
    &&& forall|k: Seq<char>| #[trigger]
        gone.contains(k) <==> has_connection(j.live, k) && !has_connection(n.live, k)
    &&& forall|k: Seq<char>|
        #[trigger] has_connection(n.live, k) ==> n.item_revisions.contains_key(k) && {
            ||| n.item_revisions[k] == n.revision
            ||| has_connection(j.live, k) && n.item_revisions[k] == j.item_revisions[k]
                && last_connection(n.live, k) == last_connection(j.live, k)
        }
    &&& forall|k: Seq<char>|
        #[trigger] has_connection(n.live, k) && !has_connection(j.live, k) ==> n.item_revisions[k]
            == n.revision
    &&& n.removals == capped_removals(j.removals + removals_at(gone, n.revision), j.floor).0
    &&& n.floor == capped_removals(j.removals + removals_at(gone, n.revision), j.floor).1
}

proof fn lemma_moves_on_keeps(j: JournalModel, n: JournalModel, gone: Seq<Seq<char>>)
    requires
        in_order(j),
        moves_on(j, n, gone),
    ensures
        in_order(n),
{
    let all = j.removals + removals_at(gone, n.revision);
    let d = dropped(all);
    lemma_capped(all, j.floor);
    assert forall|i: int| 0 <= i < all.len() implies j.floor <= (#[trigger] all[i]).0
        <= n.revision by {
        if i < j.removals.len() {
            assert(all[i] == j.removals[i]);
        }
    }
    assert forall|a: int, b: int| 0 <= a < b < all.len() implies (#[trigger] all[a]).0 <= (
    #[trigger] all[b]).0 by {
        if a < j.removals.len() {
            assert(all[a] == j.removals[a]);
        }
        if b < j.removals.len() {
            assert(all[b] == j.removals[b]);
        }
    }
    assert forall|i: int| 0 <= i < n.removals.len() implies n.floor <= (#[trigger] n.removals[i]).0
        <= n.revision by {
        assert(n.removals[i] == all[i + d]);
    }
    assert forall|a: int, b: int| 0 <= a < b < n.removals.len() implies (#[trigger] n.removals[a]).0
        <= (#[trigger] n.removals[b]).0 by {
        assert(n.removals[a] == all[a + d]);
        assert(n.removals[b] == all[b + d]);
    }
    assert forall|k: Seq<char>| #[trigger] has_connection(n.live, k) implies
        n.item_revisions.contains_key(k) && n.item_revisions[k] <= n.revision by {
        if has_connection(j.live, k) {
        }
    }
    assert forall|i: int|
        0 <= i < n.removals.len() && has_connection(
            n.live,
            (#[trigger] n.removals[i]).1,
        ) implies n.item_revisions[n.removals[i].1] > n.removals[i].0 by {
        let x = i + d;
        let k = n.removals[i].1;
        assert(n.removals[i] == all[x]);
        if x < j.removals.len() {
            assert(all[x] == j.removals[x]);
            if n.item_revisions[k] != n.revision {
                assert(has_connection(j.live, k));
            }
        } else {
            let g = x - j.removals.len();
            assert(all[x] == removals_at(gone, n.revision)[g]);
            assert(gone[g] == k);
            assert(gone.contains(k));
        }
    }
}

proof fn lemma_moves_on_can_tell(
    j: JournalModel,
    n: JournalModel,
    gone: Seq<Seq<char>>,
    since: u64,
    held: Held,
)
    requires
        in_order(j),
        moves_on(j, n, gone),
        can_tell(j, since, held),
    ensures
        can_tell(n, since, held),
{
    let all = j.removals + removals_at(gone, n.revision);
    let d = dropped(all);
    lemma_capped(all, j.floor);
    lemma_moves_on_keeps(j, n, gone);
    assert forall|k: Seq<char>| #[trigger] has_connection(n.live, k) implies n.item_revisions[k]
        > since || (held.contains_key(k) && held[k] == last_connection(n.live, k)->0) by {
        if n.item_revisions[k] != n.revision {
            assert(has_connection(j.live, k));
        }
    }
    if !(since < n.floor) {
        if d > 0 {
            assert(all[d - 1].0 <= since);
        }
        assert(j.floor <= n.floor) by {
            if d > 0 {
                if d - 1 < j.removals.len() {
                    assert(all[d - 1] == j.removals[d - 1]);
                }
            }
        }
        assert forall|k: Seq<char>| #[trigger] held.contains_key(k) && !has_connection(
            n.live,
            k,
        ) implies removed_at(n.removals, k, since) by {
            let x = if has_connection(j.live, k) {
                assert(gone.contains(k));
                let g = choose|g: int| 0 <= g < gone.len() && gone[g] == k;
                assert(removals_at(gone, n.revision)[g] == (n.revision, k));
                assert(all[j.removals.len() + g] == (n.revision, k));
                j.removals.len() + g
            } else {
                if since == j.revision {
                    assert(held_of(j.live).contains_key(k));
                }
                let i = choose|i: int|
                    0 <= i < j.removals.len() && (#[trigger] j.removals[i]).1 == k && j.removals[i].0
                        > since;
                assert(all[i] == j.removals[i]);
                i
            };
            assert(all[x].1 == k && all[x].0 > since);
            if x < d {
                if x < d - 1 {
                    assert forall|a: int, b: int| 0 <= a < b < all.len() implies (
                    #[trigger] all[a]).0 <= (#[trigger] all[b]).0 by {
                        if a < j.removals.len() {
                            assert(all[a] == j.removals[a]);
                        }
                        if b < j.removals.len() {
                            assert(all[b] == j.removals[b]);
                        }
                    }
                    assert(all[x].0 <= all[d - 1].0);
                }
            }
            assert(n.removals[x - d] == all[x]);
        }
    }
}

proof fn lemma_ingest_moves_on(j: JournalModel, conns: Seq<ConnectionModel>, now: i64)
    requires
        in_order(j),
        j.revision < u64::MAX,
        j.live != conns,
    ensures
        moves_on(j, ingested(j, conns, now), gone_keys(j.live, conns)),
{
    let n = ingested(j, conns, now);
    let gone = gone_keys(j.live, conns);
    let rev = next(j.revision);
    assert forall|k: Seq<char>| #[trigger]
        gone.contains(k) <==> has_connection(j.live, k) && !has_connection(n.live, k) by {
        lemma_gone(j.live, conns, k);
    }
    assert forall|k: Seq<char>| #[trigger] has_connection(
        n.live,
        k,
    ) implies n.item_revisions.contains_key(k) && {
        ||| n.item_revisions[k] == n.revision
        ||| has_connection(j.live, k) && n.item_revisions[k] == j.item_revisions[k]
            && last_connection(n.live, k) == last_connection(j.live, k)
    } by {
        lemma_gone(j.live, conns, k);
        lemma_touched(j.item_revisions, j.live, conns, rev, k);
        lemma_without(touched(j.item_revisions, j.live, conns, rev), gone, k);
        if !differs(j.live, conns, k) {
            lemma_same_last(j.live, conns, k);
        }
    }
    assert forall|k: Seq<char>| #[trigger] has_connection(n.live, k) && !has_connection(
        j.live,
        k,
    ) implies n.item_revisions[k] == n.revision by {
        if n.item_revisions[k] != n.revision {
            assert(has_connection(j.live, k));
        }
    }
}

proof fn lemma_clear_moves_on(j: JournalModel)
    requires
        j.revision < u64::MAX,
        j.live.len() > 0,
    ensures
        moves_on(j, live_cleared(j), keys_of(j.live)),
{
    let n = live_cleared(j);
    assert forall|k: Seq<char>| #[trigger]
        keys_of(j.live).contains(k) <==> has_connection(j.live, k) && !has_connection(n.live, k) by {
        lemma_keys_of(j.live, k);
    }
}

/// In a new journal the revisions are in order.
pub proof fn law_new_journal_is_in_order()
    ensures
        in_order(empty_journal()),
{
}

/// What the core reports, and an emptied list, keep the revisions in order.
pub proof fn law_revisions_stay_in_order(j: JournalModel, conns: Seq<ConnectionModel>, now: i64)
    requires
        in_order(j),
        j.revision < u64::MAX,
    ensures
        in_order(ingested(j, conns, now)),
        in_order(live_cleared(j)),
{
    if j.live != conns {
        lemma_ingest_moves_on(j, conns, now);
        lemma_moves_on_keeps(j, ingested(j, conns, now), gone_keys(j.live, conns));
    }
    if j.live.len() > 0 {
        lemma_clear_moves_on(j);
        lemma_moves_on_keeps(j, live_cleared(j), keys_of(j.live));
    }
}

/// The same keys are in both lists.
pub open spec fn same_members(a: Seq<ConnectionModel>, b: Seq<ConnectionModel>) -> bool {
    forall|k: Seq<char>| #[trigger] has_connection(a, k) <==> has_connection(b, k)
}

/// The revision of the order changes with the set of open connections, and only with it:
/// when the core reports which are open, and when the list is emptied. So a receiver that
/// has the revision of a journal has the set of its connections too.
pub proof fn law_order_revision_follows_members(
    j: JournalModel,
    conns: Seq<ConnectionModel>,
    now: i64,
)
    requires
        j.order_revision < u64::MAX,
    ensures
        ingested(j, conns, now).order_revision == if same_members(j.live, conns) {
            j.order_revision as int
        } else {
            j.order_revision + 1
        },
        live_cleared(j).order_revision == if same_members(j.live, Seq::empty()) {
            j.order_revision as int
        } else {
            j.order_revision + 1
        },
{
    let gone = gone_keys(j.live, conns);
    if same_members(j.live, conns) {
        if gone.len() > 0 {
            assert(gone.contains(gone[0]));
            lemma_gone(j.live, conns, gone[0]);
        }
        if any_new(j.live, conns) {
            let i = choose|i: int|
                0 <= i < conns.len() && last_connection(j.live, history_key(#[trigger] conns[i]))
                    is None;
            lemma_last_connection(j.live, history_key(conns[i]));
            assert(has_connection(conns, history_key(conns[i])));
        }
    } else {
        let k = choose|k: Seq<char>|
            !(#[trigger] has_connection(j.live, k) <==> has_connection(conns, k));
        if has_connection(j.live, k) {
            lemma_gone(j.live, conns, k);
        } else {
            let i = choose|i: int| 0 <= i < conns.len() && history_key(#[trigger] conns[i]) == k;
            lemma_last_connection(j.live, k);
            assert(last_connection(j.live, history_key(conns[i])) is None);
        }
    }
    if j.live.len() > 0 {
        assert(has_connection(j.live, history_key(j.live[0])));
    }
}

/// A journal can tell what changed to a receiver that holds what it has.
pub proof fn law_can_tell_at_once(j: JournalModel)
    requires
        in_order(j),
    ensures
        can_tell(j, j.revision, held_of(j.live)),
{
    assert forall|k: Seq<char>| #[trigger] has_connection(j.live, k) implies held_of(
        j.live,
    ).contains_key(k) && held_of(j.live)[k] == last_connection(j.live, k)->0 by {}
}

/// It still can after the next report of the core, and after the list was emptied.
pub proof fn law_can_still_tell(
    j: JournalModel,
    conns: Seq<ConnectionModel>,
    now: i64,
    since: u64,
    held: Held,
)
    requires
        in_order(j),
        j.revision < u64::MAX,
        can_tell(j, since, held),
    ensures
        can_tell(ingested(j, conns, now), since, held),
        can_tell(live_cleared(j), since, held),
{
    if j.live != conns {
        lemma_ingest_moves_on(j, conns, now);
        lemma_moves_on_can_tell(
            j,
            ingested(j, conns, now),
            gone_keys(j.live, conns),
            since,
            held,
        );
    }
    if j.live.len() > 0 {
        lemma_clear_moves_on(j);
        lemma_moves_on_can_tell(j, live_cleared(j), keys_of(j.live), since, held);
    }
}

proof fn lemma_with_rows(held: Held, live: Seq<ConnectionModel>, p: spec_fn(ConnectionModel) -> bool, k: Seq<char>)
    requires
        forall|a: ConnectionModel, b: ConnectionModel|
            history_key(a) == history_key(b) ==> #[trigger] p(a) == #[trigger] p(b),
    ensures
        ({
            let m = with_rows(held, live.filter(p));
            if has_connection(live, k) && p(last_connection(live, k)->0) {
                m.contains_key(k) && m[k] == last_connection(live, k)->0
            } else {
                m.contains_key(k) == held.contains_key(k) && m[k] == held[k]
            }
        }),
    decreases live.len(),
{
    reveal(Seq::filter);
    lemma_last_connection(live, k);
    if live.len() > 0 {
        let t = live.drop_last();
        lemma_with_rows(held, t, p, k);
        lemma_last_connection(t, k);
        let c = live.last();
        assert(live[live.len() - 1] == c);
        if p(c) {
            assert(live.filter(p) == t.filter(p).push(c));
            assert(live.filter(p).drop_last() =~= t.filter(p));
        }
        if history_key(c) == k {
            if !p(c) && has_connection(t, k) {
                assert(p(last_connection(t, k)->0) == p(c));
            }
        }
    } else {
        assert(live.filter(p) =~= Seq::empty());
    }
}

/// A receiver that merges the batch for its revision holds what the journal has, and so
/// does one that had nothing and asks for all.
pub proof fn law_merged_batch_is_in_step(j: JournalModel, since: Option<u64>, held: Held)
    requires
        in_order(j),
        since is Some ==> can_tell(j, since->0, held),
    ensures
        merged(held, j, since) == held_of(j.live),
{
    if since != Some(j.revision) {
        let full = needs_full(j, since);
        let rev = crate::traffic::rev_or_zero(since);
        let p = changed_since(j, full, rev);
        let gone = sent_removals(j, since);
        let base = if full {
            Map::empty()
        } else {
            held.remove_keys(gone.to_set())
        };
        let m = merged(held, j, since);
        assert forall|k: Seq<char>|
            #[trigger] m.contains_key(k) == held_of(j.live).contains_key(k) && (m.contains_key(k)
                ==> m[k] == held_of(j.live)[k]) by {
            lemma_with_rows(base, j.live, p, k);
            lemma_last_connection(j.live, k);
            if !full {
                lemma_removed(j, rev, k);
                if has_connection(j.live, k) && !p(last_connection(j.live, k)->0) {
                    assert(!gone.to_set().contains(k));
                }
                if !has_connection(j.live, k) && held.contains_key(k) {
                    assert(removed_at(j.removals, k, rev));
                    assert(gone.to_set().contains(k));
                }
            }
        }
        assert(m =~= held_of(j.live));
    }
}

proof fn lemma_removed(j: JournalModel, rev: u64, k: Seq<char>)
    requires
        in_order(j),
        !needs_full(j, Some(rev)),
    ensures
        sent_removals(j, Some(rev)).contains(k) == removed_at(j.removals, k, rev),
        removed_at(j.removals, k, rev) && has_connection(j.live, k) ==> j.item_revisions[k] > rev,
{
    let f = removed_behind(rev);
    let kept = j.removals.filter(f);
    let gone = sent_removals(j, Some(rev));
    if gone.contains(k) {
        let i = choose|i: int| 0 <= i < gone.len() && gone[i] == k;
        assert(kept.contains(kept[i]));
        j.removals.lemma_filter_contains_rev(f, kept[i]);
        j.removals.lemma_filter_pred(f, i);
        let x = kept[i];
        let y = choose|y: int| 0 <= y < j.removals.len() && j.removals[y] == x;
        assert(j.removals[y].1 == k);
    }
    if removed_at(j.removals, k, rev) {
        let i = choose|i: int|
            0 <= i < j.removals.len() && (#[trigger] j.removals[i]).1 == k && j.removals[i].0 > rev;
        j.removals.lemma_filter_contains(f, i);
        let x = j.removals[i];
        let y = choose|y: int| 0 <= y < kept.len() && kept[y] == x;
        assert(gone[y] == k);
    }
}

} // verus!
