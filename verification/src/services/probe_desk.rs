//! Probes that are under way: equal ones are made once, and only so many at a time.

use crate::services::latency::{
    is_fresh, made_room, prunes, CachedProbe, LatencyResult, ProbeCache, Probes,
    GLOBAL_CONCURRENCY,
};
use crate::table::Table;
use vstd::prelude::*;

verus! {

/// What one who asks for a probe does.
#[derive(Debug)]
pub enum DeskStep {
    /// Take this result, which is new enough.
    Take(LatencyResult),
    /// Wait until the equal probe that is under way has ended, and ask again.
    Wait,
    /// Wait until any probe has ended, and ask again.
    Queue,
    /// Make the probe.
    Probe,
}

/// The probes that are under way, and what others came to.
#[derive(Debug)]
pub struct ProbeDesk {
    pub cache: ProbeCache,
    /// Since when each probe is under way, in milliseconds of a steady clock.
    pub under_way: Table<u64>,
}

pub type UnderWay = Map<Seq<char>, u64>;

/// What one who asks for a probe does.
pub open spec fn desk_step(c: Probes, w: UnderWay, key: Seq<char>, now_ms: u64) -> DeskStep {
    if c.contains_key(key) && is_fresh(c[key], now_ms) {
        DeskStep::Take(c[key].result)
    } else if w.contains_key(key) {
        DeskStep::Wait
    } else if w.dom().len() >= GLOBAL_CONCURRENCY {
        DeskStep::Queue
    } else {
        DeskStep::Probe
    }
}

/// The probes that are under way after one was asked for.
pub open spec fn asked_for(c: Probes, w: UnderWay, key: Seq<char>, now_ms: u64) -> UnderWay {
    if desk_step(c, w, key, now_ms) is Probe {
        w.insert(key, now_ms)
    } else {
        w
    }
}

/// The results after one was asked for: one that is too old is dropped.
pub open spec fn looked_up(c: Probes, key: Seq<char>, now_ms: u64) -> Probes {
    if c.contains_key(key) && is_fresh(c[key], now_ms) {
        c
    } else {
        c.remove(key)
    }
}

impl ProbeDesk {
    pub fn new(now_ms: u64) -> (r: Self)
        ensures
            r.cache.entries@ == Map::<Seq<char>, CachedProbe>::empty(),
            r.cache.last_prune_ms == now_ms,
            r.under_way@ == Map::<Seq<char>, u64>::empty(),
    {
        ProbeDesk { cache: ProbeCache::new(now_ms), under_way: Table::new() }
    }

    /// A probe is asked for.
    pub fn ask(&mut self, key: &str, now_ms: u64) -> (r: DeskStep)
        ensures
            r == desk_step(old(self).cache.entries@, old(self).under_way@, key@, now_ms),
            final(self).cache.entries@ == looked_up(old(self).cache.entries@, key@, now_ms),
            final(self).cache.last_prune_ms == old(self).cache.last_prune_ms,
            final(self).under_way@ == asked_for(
                old(self).cache.entries@,
                old(self).under_way@,
                key@,
                now_ms,
            ),
    {
        if let Some(result) = self.cache.cached_result(key, now_ms) {
            return DeskStep::Take(result);
        }
        if self.under_way.contains_key(key) {
            return DeskStep::Wait;
        }
        if self.under_way.len() >= GLOBAL_CONCURRENCY {
            return DeskStep::Queue;
        }
        self.under_way.insert(key.to_owned(), now_ms);
        DeskStep::Probe
    }

    /// A probe has ended: its result is kept, for those who wait for it too.
    pub fn ended(&mut self, key: String, result: LatencyResult, now_ms: u64)
        ensures
            final(self).under_way@ == old(self).under_way@.remove(key@),
            exists|kept: Probes|
                {
                    &&& #[trigger] made_room(
                        old(self).cache.entries@,
                        old(self).cache.last_prune_ms,
                        key@,
                        now_ms,
                        kept,
                    )
                    &&& final(self).cache.entries@ == kept.insert(
                        key@,
                        (CachedProbe { at_ms: now_ms, result }),
                    )
                },
            final(self).cache.last_prune_ms == if prunes(
                old(self).cache.entries@,
                old(self).cache.last_prune_ms,
                key@,
                now_ms,
            ) {
                now_ms
            } else {
                old(self).cache.last_prune_ms
            },
    {
        let _ = self.under_way.remove(key.as_str());
        self.cache.cache_result(key, result, now_ms);
    }

    /// A probe was given up: nothing is kept of it.
    pub fn lost(&mut self, key: &str)
        ensures
            final(self).under_way@ == old(self).under_way@.remove(key@),
            final(self).cache == old(self).cache,
    {
        let _ = self.under_way.remove(key);
    }
}

/// A probe that is under way is not made a second time, whatever else is kept meanwhile.
pub proof fn law_equal_probes_are_made_once(
    c: Probes,
    w: UnderWay,
    key: Seq<char>,
    now_ms: u64,
    later: Probes,
    later_ms: u64,
)
    requires
        desk_step(c, w, key, now_ms) is Probe,
    ensures
        !(desk_step(later, asked_for(c, w, key, now_ms), key, later_ms) is Probe),
{
}

/// There are never more probes under way than may be.
pub proof fn law_probes_keep_to_their_limit(c: Probes, w: UnderWay, key: Seq<char>, now_ms: u64)
    requires
        w.dom().finite(),
        w.dom().len() <= GLOBAL_CONCURRENCY,
    ensures
        asked_for(c, w, key, now_ms).dom().finite(),
        asked_for(c, w, key, now_ms).dom().len() <= GLOBAL_CONCURRENCY,
{
    assert(w.insert(key, now_ms).dom() =~= w.dom().insert(key));
}

/// One who waited for a probe takes its result, as long as that is new enough.
pub proof fn law_waiting_takes_the_result(
    kept: Probes,
    w: UnderWay,
    key: Seq<char>,
    result: LatencyResult,
    at_ms: u64,
    now_ms: u64,
)
    requires
        is_fresh((CachedProbe { at_ms, result }), now_ms),
    ensures
        desk_step(kept.insert(key, (CachedProbe { at_ms, result })), w.remove(key), key, now_ms)
            == DeskStep::Take(result),
{
}

} // verus!
