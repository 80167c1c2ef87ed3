//! The queue of changes that wait for a restart of the core.
//!
//! Changes are gathered until none came for a while, and one restart applies them all.
//! Those that come during a restart make one next batch.

use crate::table::{has_key, lemma_row, row_of, Table};
use crate::text::{concat2, contains, holds_text, views};
use vstd::prelude::*;

verus! {

/// How many milliseconds the queue is to be quiet before a batch is taken.
pub const DEBOUNCE_MS: u64 = 500;

/// How many milliseconds a batch waits where the core is busy.
pub const CORE_BUSY_RETRY_MS: u64 = 500;

#[derive(Debug)]
pub struct RuleApplyQueue {
    /// The rule sets that were turned on or off, by their ids.
    pub pending: Table<bool>,
    /// Files that are removed once the changes are applied.
    pub cleanup_after_apply: Vec<String>,
    pub restart_requested: bool,
    /// The restart may revive a core that exited by itself.
    pub force_restart: bool,
    /// Something else than a rule set changed.
    pub generic_change: bool,
    pub revision: u64,
    pub worker_running: bool,
}

/// The changes that one restart applies.
#[derive(Debug)]
pub struct ApplyBatch {
    pub toggles: Table<bool>,
    pub cleanup_after_apply: Vec<String>,
    pub generic_change: bool,
    pub force_restart: bool,
}

pub type Toggles = Map<Seq<char>, bool>;

pub struct QueueModel {
    pub pending: Toggles,
    pub cleanup: Seq<Seq<char>>,
    pub restart_requested: bool,
    pub force_restart: bool,
    pub generic_change: bool,
    pub revision: u64,
    pub worker_running: bool,
}

pub struct BatchModel {
    pub toggles: Toggles,
    pub cleanup: Seq<Seq<char>>,
    pub generic_change: bool,
    pub force_restart: bool,
}

impl View for RuleApplyQueue {
    type V = QueueModel;

    open spec fn view(&self) -> QueueModel {
        QueueModel {
            pending: self.pending@,
            cleanup: views(self.cleanup_after_apply@),
            restart_requested: self.restart_requested,
            force_restart: self.force_restart,
            generic_change: self.generic_change,
            revision: self.revision,
            worker_running: self.worker_running,
        }
    }
}

impl View for ApplyBatch {
    type V = BatchModel;

    open spec fn view(&self) -> BatchModel {
        BatchModel {
            toggles: self.toggles@,
            cleanup: views(self.cleanup_after_apply@),
            generic_change: self.generic_change,
            force_restart: self.force_restart,
        }
    }
}

/// The next revision; behind the last one the first.
pub open spec fn bumped(n: u64) -> u64 {
    if n == u64::MAX {
        0
    } else {
        (n + 1) as u64
    }
}

fn bump(n: u64) -> (r: u64)
    ensures
        r == bumped(n),
{
    if n == u64::MAX {
        0
    } else {
        n + 1
    }
}

pub open spec fn toggled(q: QueueModel, id: Seq<char>, enabled: bool) -> QueueModel {
    QueueModel {
        pending: q.pending.insert(id, enabled),
        restart_requested: true,
        revision: bumped(q.revision),
        worker_running: true,
        ..q
    }
}

pub open spec fn restart_asked(q: QueueModel, cleanup: Seq<Seq<char>>, force: bool) -> QueueModel {
    QueueModel {
        cleanup: q.cleanup + cleanup,
        restart_requested: true,
        force_restart: q.force_restart || force,
        generic_change: true,
        revision: bumped(q.revision),
        worker_running: true,
        ..q
    }
}

/// The queue once a batch was taken.
pub open spec fn emptied(q: QueueModel) -> QueueModel {
    QueueModel {
        pending: Map::empty(),
        cleanup: Seq::empty(),
        restart_requested: false,
        force_restart: false,
        generic_change: false,
        ..q
    }
}

/// All that the queue holds.
pub open spec fn whole_batch(q: QueueModel) -> BatchModel {
    BatchModel {
        toggles: q.pending,
        cleanup: q.cleanup,
        generic_change: q.generic_change,
        force_restart: q.force_restart,
    }
}

/// The queue with a batch put back; what was turned on or off since stays.
pub open spec fn put_back(q: QueueModel, b: BatchModel) -> QueueModel {
    QueueModel {
        pending: b.toggles.union_prefer_right(q.pending),
        cleanup: q.cleanup + b.cleanup,
        generic_change: q.generic_change || b.generic_change,
        force_restart: q.force_restart || b.force_restart,
        restart_requested: true,
        revision: bumped(q.revision),
        ..q
    }
}

/// The rule sets of a batch that did not change since it was taken.
pub open spec fn settled_toggles(q: QueueModel, batch: Toggles) -> Toggles {
    batch.remove_keys(q.pending.dom())
}

/// A queue with nothing in it.
pub open spec fn empty_queue() -> QueueModel {
    QueueModel {
        pending: Map::empty(),
        cleanup: Seq::empty(),
        restart_requested: false,
        force_restart: false,
        generic_change: false,
        revision: 0,
        worker_running: false,
    }
}

impl Default for RuleApplyQueue {
    fn default() -> (r: Self)
        ensures
            r@ == empty_queue(),
    {
        let q = RuleApplyQueue {
            pending: Table::new(),
            cleanup_after_apply: Vec::new(),
            restart_requested: false,
            force_restart: false,
            generic_change: false,
            revision: 0,
            worker_running: false,
        };
        proof {
            assert(q@.cleanup =~= Seq::empty());
        }
        q
    }
}

/// Appends texts.
fn extend(list: &mut Vec<String>, more: Vec<String>)
    ensures
        views(final(list)@) == views(old(list)@) + views(more@),
{
    let ghost start = views(list@);
    let ghost all = views(more@);
    proof {
        assert(start + all.take(0) =~= start);
    }
    for s in it: more
        invariant
            all == views(it.seq()),
            views(list@) == start + all.take(it.index()),
    {
        let ghost before = list@;
        let ghost v = s@;
        proof {
            assert(all[it.index()] == v);
            assert(all.take(it.index() + 1) =~= all.take(it.index()).push(v));
        }
        list.push(s);
        proof {
            assert(views(list@) =~= views(before).push(v));
        }
    }
    proof {
        assert(all.take(all.len() as int) =~= all);
    }
}

impl RuleApplyQueue {
    pub fn is_running(&self) -> (r: bool)
        ensures
            r == self@.worker_running,
    {
        self.worker_running
    }

    /// A rule set was turned on or off. The result says that a worker has to be started.
    pub fn enqueue_toggle(&mut self, id: String, enabled: bool) -> (r: bool)
        ensures
            final(self)@ == toggled(old(self)@, id@, enabled),
            r == !old(self)@.worker_running,
    {
        self.pending.insert(id, enabled);
        self.restart_requested = true;
        self.revision = bump(self.revision);
        let start = !self.worker_running;
        self.worker_running = true;
        start
    }

    /// Something else changed. The result says that a worker has to be started.
    pub fn enqueue_restart(&mut self, cleanup_after_apply: Vec<String>, force: bool) -> (r: bool)
        ensures
            final(self)@ == restart_asked(old(self)@, views(cleanup_after_apply@), force),
            r == !old(self)@.worker_running,
    {
        extend(&mut self.cleanup_after_apply, cleanup_after_apply);
        self.restart_requested = true;
        self.force_restart = self.force_restart || force;
        self.generic_change = true;
        self.revision = bump(self.revision);
        let start = !self.worker_running;
        self.worker_running = true;
        start
    }

    pub fn revision(&self) -> (r: u64)
        ensures
            r == self@.revision,
    {
        self.revision
    }

    /// Takes all changes, where none came since `observed_revision`.
    pub fn take_if_unchanged(&mut self, observed_revision: u64) -> (r: Option<ApplyBatch>)
        ensures
            if old(self)@.revision == observed_revision && old(self)@.restart_requested {
                r is Some && r->0@ == whole_batch(old(self)@) && final(self)@ == emptied(old(self)@)
            } else {
                r is None && final(self)@ == old(self)@
            },
    {
        if self.revision != observed_revision || !self.restart_requested {
            return None;
        }
        let mut toggles: Table<bool> = Table::new();
        std::mem::swap(&mut toggles, &mut self.pending);
        let mut cleanup: Vec<String> = Vec::new();
        std::mem::swap(&mut cleanup, &mut self.cleanup_after_apply);
        let generic_change = self.generic_change;
        let force_restart = self.force_restart;
        self.restart_requested = false;
        self.generic_change = false;
        self.force_restart = false;
        proof {
            assert(self@.cleanup =~= Seq::empty());
        }
        Some(ApplyBatch { toggles, cleanup_after_apply: cleanup, generic_change, force_restart })
    }

    /// Puts a batch back that was not applied. What changed since stays as it is.
    pub fn requeue_older_batch(&mut self, batch: ApplyBatch)
        ensures
            final(self)@ == put_back(old(self)@, batch@),
    {
        let ghost start = self@;
        let n: usize = batch.toggles.len();
        let ghost rows = batch.toggles.rows();
        for i in 0..n
            invariant
                n == rows.len(),
                rows == batch.toggles.rows(),
                self@ == (QueueModel { pending: self@.pending, ..start }),
                forall|k: Seq<char>| #[trigger]
                    self@.pending.contains_key(k) ==> start.pending.contains_key(k)
                        || batch.toggles@.contains_key(k),
                forall|k: Seq<char>|
                    #[trigger] start.pending.contains_key(k) ==> self@.pending.contains_key(k)
                        && self@.pending[k] == start.pending[k],
                forall|k: Seq<char>|
                    self@.pending.contains_key(k) && !#[trigger] start.pending.contains_key(k)
                        ==> self@.pending[k] == batch.toggles@[k],
                forall|x: int|
                    0 <= x < i ==> self@.pending.contains_key((#[trigger] rows[x]).0@),
                crate::table::distinct_keys(rows),
        {
            proof {
                lemma_row(rows, i as int);
            }
            let key = batch.toggles.key_at(i);
            if !self.pending.contains_key(key.as_str()) {
                self.pending.insert(key.clone(), *batch.toggles.value_at(i));
            }
        }
        proof {
            let want = batch@.toggles.union_prefer_right(start.pending);
            assert forall|k: Seq<char>|
                #[trigger] self@.pending.contains_key(k) == want.contains_key(k) && (
                self@.pending.contains_key(k) ==> self@.pending[k] == want[k]) by {
                if batch.toggles@.contains_key(k) {
                    assert(has_key(rows, k));
                    let x = row_of(rows, k);
                    assert(rows[x].0@ == k);
                }
                if start.pending.contains_key(k) {
                }
            }
            assert(self@.pending =~= want);
        }
        extend(&mut self.cleanup_after_apply, batch.cleanup_after_apply);
        self.generic_change = self.generic_change || batch.generic_change;
        self.force_restart = self.force_restart || batch.force_restart;
        self.restart_requested = true;
        self.revision = bump(self.revision);
    }

    /// The worker ends, where nothing waits.
    pub fn finish_if_empty(&mut self) -> (r: bool)
        ensures
            r == !old(self)@.restart_requested,
            final(self)@ == if r {
                QueueModel { worker_running: false, ..old(self)@ }
            } else {
                old(self)@
            },
    {
        if !self.restart_requested {
            self.worker_running = false;
            true
        } else {
            false
        }
    }

    /// The rule sets of a batch that did not change since it was taken.
    pub fn terminal_subset(&self, batch: &Table<bool>) -> (r: Table<bool>)
        ensures
            r@ == settled_toggles(self@, batch@),
    {
        let n: usize = batch.len();
        let ghost rows = batch.rows();
        let mut out: Table<bool> = Table::new();
        for i in 0..n
            invariant
                n == rows.len(),
                rows == batch.rows(),
                crate::table::distinct_keys(rows),
                forall|k: Seq<char>| #[trigger]
                    out@.contains_key(k) ==> batch@.contains_key(k)
                        && !self@.pending.contains_key(k) && out@[k] == batch@[k],
                forall|x: int|
                    0 <= x < i && !self@.pending.contains_key((#[trigger] rows[x]).0@)
                        ==> out@.contains_key(rows[x].0@),
        {
            proof {
                lemma_row(rows, i as int);
            }
            let key = batch.key_at(i);
            if !self.pending.contains_key(key.as_str()) {
                out.insert(key.clone(), *batch.value_at(i));
            }
        }
        proof {
            let want = settled_toggles(self@, batch@);
            assert forall|k: Seq<char>|
                #[trigger] out@.contains_key(k) == want.contains_key(k) && (out@.contains_key(k)
                    ==> out@[k] == want[k]) by {
                if batch@.contains_key(k) {
                    assert(has_key(rows, k));
                    let x = row_of(rows, k);
                    assert(rows[x].0@ == k);
                }
            }
            assert(out@ =~= want);
        }
        out
    }
}

/// Changes are being applied.
pub fn is_pending(queue: &RuleApplyQueue) -> (r: bool)
    ensures
        r == queue@.worker_running,
{
    queue.is_running()
}

// ---------------------------------------------------------------------------
// The worker
// ---------------------------------------------------------------------------
/// How a restart ended.
#[derive(Debug, Clone, Copy, PartialEq, Eq, Structural)]
pub enum ApplyEnd {
    Applied,
    /// The core was busy; the batch waits.
    Busy,
    Failed,
}

/// What follows a restart.
#[derive(Debug)]
pub struct ApplyOutcome {
    pub end: ApplyEnd,
    /// The rule sets that are told of the end, as they are now.
    pub toggles: Table<bool>,
    /// What they are told where it failed.
    pub toggle_error: Option<String>,
    /// What is told of the configuration where it failed.
    pub config_error: Option<String>,
    /// The files that are removed.
    pub cleanup: Vec<String>,
    /// The worker ends.
    pub worker_ends: bool,
}

/// The core is being switched by another operation.
pub open spec fn is_busy_error(text: Seq<char>) -> bool {
    holds_text(text, "内核正在切换"@)
}

/// How a restart ended, by its error.
pub open spec fn end_of_restart(error: Option<Seq<char>>) -> ApplyEnd {
    match error {
        None => ApplyEnd::Applied,
        Some(e) => if is_busy_error(e) {
            ApplyEnd::Busy
        } else {
            ApplyEnd::Failed
        },
    }
}

impl ApplyBatch {
    /// The user is told of the restart: it may start the core, or the core runs.
    pub fn announces_restart(&self, core_running: bool) -> (r: bool)
        ensures
            r == (self@.force_restart || core_running),
    {
        self.force_restart || core_running
    }
}

impl RuleApplyQueue {
    /// A restart for the batch ended, with an error or without. A batch that met a busy core
    /// is put back; else the worker ends where nothing waits.
    pub fn restart_ended(&mut self, batch: ApplyBatch, error: Option<&str>) -> (r: ApplyOutcome)
        ensures
            ({
                let e = match error {
                    Some(s) => Some(s@),
                    None => None,
                };
                let end = end_of_restart(e);
                let q = old(self)@;
                &&& r.end == end
                &&& r.toggles@ == if end is Busy {
                    Map::empty()
                } else {
                    settled_toggles(q, batch@.toggles)
                }
                &&& r.toggle_error is Some <==> end is Failed
                &&& r.config_error is Some <==> end is Failed
                &&& end is Failed ==> r.toggle_error->0@ == "已保存，但重启内核失败: "@ + e->0
                    && r.config_error->0@ == "配置已保存，但应用到内核失败: "@ + e->0
                &&& views(r.cleanup@) == if end is Applied {
                    batch@.cleanup
                } else {
                    Seq::empty()
                }
                &&& r.worker_ends == (!(end is Busy) && !q.restart_requested)
                &&& final(self)@ == if end is Busy {
                    put_back(q, batch@)
                } else if !q.restart_requested {
                    QueueModel { worker_running: false, ..q }
                } else {
                    q
                }
            }),
    {
        let failed: Option<&str> = match error {
            None => None,
            Some(e) => {
                if contains(e, "内核正在切换") {
                    self.requeue_older_batch(batch);
                    let out = ApplyOutcome {
                        end: ApplyEnd::Busy,
                        toggles: Table::new(),
                        toggle_error: None,
                        config_error: None,
                        cleanup: Vec::new(),
                        worker_ends: false,
                    };
                    proof {
                        assert(views(out.cleanup@) =~= Seq::empty());
                    }
                    return out;
                }
                Some(e)
            },
        };
        let toggles = self.terminal_subset(&batch.toggles);
        let ends = self.finish_if_empty();
        match failed {
            None => ApplyOutcome {
                end: ApplyEnd::Applied,
                toggles,
                toggle_error: None,
                config_error: None,
                cleanup: batch.cleanup_after_apply,
                worker_ends: ends,
            },
            Some(e) => {
                let out = ApplyOutcome {
                    end: ApplyEnd::Failed,
                    toggles,
                    toggle_error: Some(concat2("已保存，但重启内核失败: ", e)),
                    config_error: Some(concat2("配置已保存，但应用到内核失败: ", e)),
                    cleanup: Vec::new(),
                    worker_ends: ends,
                };
                proof {
                    assert(views(out.cleanup@) =~= Seq::empty());
                }
                out
            },
        }
    }
}

// ---------------------------------------------------------------------------
// Laws
// ---------------------------------------------------------------------------
/// A queue that waits for a restart has a worker.
pub open spec fn has_worker(q: QueueModel) -> bool {
    q.restart_requested ==> q.worker_running
}

/// Every change asks for a restart and has a worker; the worker goes only where nothing
/// waits.
pub proof fn law_changes_have_a_worker(
    q: QueueModel,
    id: Seq<char>,
    enabled: bool,
    cleanup: Seq<Seq<char>>,
    force: bool,
    b: BatchModel,
)
    requires
        has_worker(q),
    ensures
        has_worker(empty_queue()),
        has_worker(toggled(q, id, enabled)) && toggled(q, id, enabled).restart_requested,
        has_worker(restart_asked(q, cleanup, force)) && restart_asked(
            q,
            cleanup,
            force,
        ).restart_requested,
        has_worker(emptied(q)),
        q.worker_running ==> has_worker(put_back(q, b)),
        !q.restart_requested ==> has_worker(QueueModel { worker_running: false, ..q }),
{
}

/// A batch that is taken and put back is the next batch, with what changed since: the newer
/// value of a rule set wins, and nothing of either is lost.
pub proof fn law_put_back_batch_is_kept(q: QueueModel, b: BatchModel)
    ensures
        ({
            let next = whole_batch(put_back(q, b));
            &&& put_back(q, b).restart_requested
            &&& next.toggles.dom() == b.toggles.dom().union(q.pending.dom())
            &&& forall|k: Seq<char>|
                #[trigger] q.pending.contains_key(k) ==> next.toggles[k] == q.pending[k]
            &&& forall|k: Seq<char>|
                #[trigger] b.toggles.contains_key(k) && !q.pending.contains_key(k)
                    ==> next.toggles[k] == b.toggles[k]
            &&& next.cleanup == q.cleanup + b.cleanup
            &&& next.force_restart == (q.force_restart || b.force_restart)
            &&& next.generic_change == (q.generic_change || b.generic_change)
        }),
{
    let next = whole_batch(put_back(q, b));
    assert(next.toggles.dom() =~= b.toggles.dom().union(q.pending.dom()));
}

/// Only a change that asks for it makes a batch that may start a core.
pub proof fn law_plain_changes_start_no_core(
    q: QueueModel,
    id: Seq<char>,
    enabled: bool,
    cleanup: Seq<Seq<char>>,
)
    requires
        !q.force_restart,
    ensures
        !whole_batch(toggled(q, id, enabled)).force_restart,
        !whole_batch(restart_asked(q, cleanup, false)).force_restart,
        whole_batch(restart_asked(q, cleanup, true)).force_restart,
        !emptied(q).force_restart,
{
}

/// The last value of a rule set before a restart is the one that is applied.
pub proof fn law_latest_toggle_wins(q: QueueModel, id: Seq<char>, first: bool, last: bool)
    ensures
        whole_batch(toggled(toggled(q, id, first), id, last)).toggles == q.pending.insert(id, last),
        bumped(q.revision) != q.revision,
{
    assert(q.pending.insert(id, first).insert(id, last) =~= q.pending.insert(id, last));
}

} // verus!
