//! Cores that exit by themselves are started again, a few times.

use crate::runtime::CoreState;
use vstd::prelude::*;

verus! {

/// Milliseconds between two looks at the cores.
pub const WATCHDOG_POLL_MS: u64 = 2000;

/// How often a core is started again within the window.
pub const WATCHDOG_MAX_ATTEMPTS: usize = 3;

/// The window, in milliseconds.
pub const WATCHDOG_WINDOW_MS: u64 = 600000;

/// A core is started again where it ran at the last look and does not now, by an error, with
/// no operation on it under way, and not too often.
pub fn watchdog_should_restart(
    was_running: bool,
    now_running: bool,
    transitioning: bool,
    core_state: CoreState,
    attempts_in_window: usize,
) -> (r: bool)
    ensures
        r == (was_running && !now_running && !transitioning && core_state == CoreState::Error
            && attempts_in_window < WATCHDOG_MAX_ATTEMPTS),
{
    !now_running && was_running && !transitioning && core_state == CoreState::Error
        && attempts_in_window < WATCHDOG_MAX_ATTEMPTS
}

/// What a watch keeps of one core.
#[derive(Debug)]
pub struct CoreWatch {
    pub was_running: bool,
    /// When it was started again, in milliseconds of a steady clock.
    pub attempts: Vec<u64>,
}

/// The attempt lies within the window.
pub open spec fn is_recent(now_ms: u64) -> spec_fn(u64) -> bool {
    |t: u64| now_ms - t < WATCHDOG_WINDOW_MS
}

/// The core is started again.
pub open spec fn revives(
    w: CoreWatch,
    now_ms: u64,
    now_running: bool,
    transitioning: bool,
    state: CoreState,
    allowed: bool,
) -> bool {
    &&& w.was_running
    &&& !now_running
    &&& !transitioning
    &&& state == CoreState::Error
    &&& w.attempts@.filter(is_recent(now_ms)).len() < WATCHDOG_MAX_ATTEMPTS
    &&& allowed
}

impl CoreWatch {
    pub fn new() -> (r: Self)
        ensures
            !r.was_running,
            r.attempts@.len() == 0,
    {
        CoreWatch { was_running: false, attempts: Vec::new() }
    }

    fn forget_old(&mut self, now_ms: u64)
        ensures
            final(self).attempts@ == old(self).attempts@.filter(is_recent(now_ms)),
            final(self).was_running == old(self).was_running,
    {
        let ghost p = is_recent(now_ms);
        let ghost all = self.attempts@;
        let mut kept: Vec<u64> = Vec::new();
        proof {
            reveal(Seq::filter);
            assert(all.take(0).filter(p) =~= Seq::empty());
        }
        for i in 0..self.attempts.len()
            invariant
                p == is_recent(now_ms),
                all == self.attempts@,
                kept@ == all.take(i as int).filter(p),
        {
            let t: u64 = self.attempts[i];
            proof {
                reveal(Seq::filter);
                assert(all.take(i + 1).drop_last() =~= all.take(i as int));
                assert(all.take(i + 1).last() == t);
            }
            if now_ms < t || now_ms - t < WATCHDOG_WINDOW_MS {
                kept.push(t);
            }
        }
        proof {
            assert(all.take(all.len() as int) =~= all);
        }
        self.attempts = kept;
    }

    /// A look at the core. The result says that it is started again; `allowed` is one more
    /// condition for that.
    pub fn look(
        &mut self,
        now_ms: u64,
        now_running: bool,
        transitioning: bool,
        state: CoreState,
        allowed: bool,
    ) -> (r: bool)
        ensures
            r == revives(*old(self), now_ms, now_running, transitioning, state, allowed),
            final(self).was_running == now_running,
            final(self).attempts@ == if r {
                old(self).attempts@.filter(is_recent(now_ms)).push(now_ms)
            } else {
                old(self).attempts@.filter(is_recent(now_ms))
            },
    {
        self.forget_old(now_ms);
        let again = watchdog_should_restart(
            self.was_running,
            now_running,
            transitioning,
            state,
            self.attempts.len(),
        ) && allowed;
        if again {
            self.attempts.push(now_ms);
        }
        self.was_running = now_running;
        again
    }
}

/// The watch over both cores.
#[derive(Debug)]
pub struct Watchdog {
    pub core: CoreWatch,
    pub sidecar: CoreWatch,
}

/// What a look at the cores asks for.
#[derive(Debug, Clone, Copy, PartialEq, Eq, Structural)]
pub struct WatchStep {
    /// A restart that may start the core.
    pub revive_core: bool,
    /// A restart of the core that runs, for the second one.
    pub restart_for_sidecar: bool,
}

impl Watchdog {
    pub fn new() -> (r: Self)
        ensures
            !r.core.was_running && r.core.attempts@.len() == 0,
            !r.sidecar.was_running && r.sidecar.attempts@.len() == 0,
    {
        Watchdog { core: CoreWatch::new(), sidecar: CoreWatch::new() }
    }

    /// A look at the cores. The second one is left out where the session could not be asked,
    /// and is started again only beside a core that runs.
    pub fn look(
        &mut self,
        now_ms: u64,
        now_running: bool,
        transitioning: bool,
        state: CoreState,
        sidecar: Option<(bool, CoreState)>,
    ) -> (r: WatchStep)
        ensures
            r.revive_core == revives(
                old(self).core,
                now_ms,
                now_running,
                transitioning,
                state,
                true,
            ),
            final(self).core.was_running == now_running,
            final(self).core.attempts@ == if r.revive_core {
                old(self).core.attempts@.filter(is_recent(now_ms)).push(now_ms)
            } else {
                old(self).core.attempts@.filter(is_recent(now_ms))
            },
            match sidecar {
                None => !r.restart_for_sidecar && final(self).sidecar == old(self).sidecar,
                Some(s) => {
                    &&& r.restart_for_sidecar == revives(
                        old(self).sidecar,
                        now_ms,
                        s.0,
                        transitioning,
                        s.1,
                        now_running,
                    )
                    &&& final(self).sidecar.was_running == s.0
                    &&& final(self).sidecar.attempts@ == if r.restart_for_sidecar {
                        old(self).sidecar.attempts@.filter(is_recent(now_ms)).push(now_ms)
                    } else {
                        old(self).sidecar.attempts@.filter(is_recent(now_ms))
                    }
                },
            },
    {
        let revive_core = self.core.look(now_ms, now_running, transitioning, state, true);
        let restart_for_sidecar = match sidecar {
            None => false,
            Some((running, sidecar_state)) => self.sidecar.look(
                now_ms,
                running,
                transitioning,
                sidecar_state,
                now_running,
            ),
        };
        WatchStep { revive_core, restart_for_sidecar }
    }
}

/// A core is started again at most three times within the window: a list of attempts that a
/// look leaves has never more of them within the window.
pub proof fn law_attempts_are_bounded(
    w: CoreWatch,
    now_ms: u64,
    now_running: bool,
    transitioning: bool,
    state: CoreState,
    allowed: bool,
)
    requires
        w.attempts@.len() <= WATCHDOG_MAX_ATTEMPTS,
    ensures
        revives(w, now_ms, now_running, transitioning, state, allowed) ==> w.attempts@.filter(
            is_recent(now_ms),
        ).push(now_ms).len() <= WATCHDOG_MAX_ATTEMPTS,
        w.attempts@.filter(is_recent(now_ms)).len() <= WATCHDOG_MAX_ATTEMPTS,
{
    w.attempts@.lemma_filter_len(is_recent(now_ms));
}

} // verus!
