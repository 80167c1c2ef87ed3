//! The state of the client, and what its operations decide.

use crate::core_kind::CoreKind;
use crate::domain::node::{id_cut_ok, node_tag, outbound_tag};
use crate::domain::settings::{runtime_of, AppSettings, AutoSelectMode, CaptureMode, OutboundMode};
use crate::error::{AppError, ErrorModel};
use crate::history::history_cleared;
use crate::journal::{connection_views, ConnectionInfo, ConnectionModel};
use crate::rule_apply::{empty_queue, RuleApplyQueue};
use crate::runtime::{
    sampled, shows_session, shut_down, started_at, ApiEndpoint, ConnectionsSnapshot, CoreFacts,
    CoreState, MetricsEndpoint, ProxyStatus, Runtime, TrafficTotals,
};
use crate::storage::AppStore;
use crate::text::{clone_strings, concat2, lowered, opt_view, same, trim, trimmed};
use crate::traffic::{
    is_batch, is_request_batch, opt_views, page_limit, row_views, shows_connections, copy_rows,
    ConnectionView, LiveConnectionBatch, RequestBatch,
};
use crate::view_cache::{
    cache_merged, cached_batch, cached_requests, empty_cache, CacheModel, QueryModel,
    TrafficViewCache,
};
use vstd::prelude::*;

verus! {

/// Milliseconds between two looks at the node that the core selected.
pub const KERNEL_SELECTION_POLL_MS: u64 = 2000;

/// Milliseconds that such a look may take.
pub const KERNEL_SELECTION_HTTP_TIMEOUT_MS: u64 = 800;

/// The looks at the node that the core selected: one at a time, and not too often.
#[derive(Debug, Clone, Copy)]
pub struct KernelSelectionPoll {
    pub in_flight: bool,
    /// When the last one began, in milliseconds of a steady clock.
    pub last_started: Option<u64>,
}

impl Default for KernelSelectionPoll {
    fn default() -> (r: Self)
        ensures
            !r.in_flight,
            r.last_started is None,
    {
        KernelSelectionPoll { in_flight: false, last_started: None }
    }
}

impl KernelSelectionPoll {
    /// A look may begin.
    pub open spec fn may_start(self, now_ms: u64) -> bool {
        &&& !self.in_flight
        &&& match self.last_started {
            Some(last) => now_ms - last >= KERNEL_SELECTION_POLL_MS,
            None => true,
        }
    }

    /// Begins a look, where one may begin.
    pub fn try_start(&mut self, now_ms: u64) -> (r: bool)
        ensures
            r == old(self).may_start(now_ms),
            *final(self) == if r {
                KernelSelectionPoll { in_flight: true, last_started: Some(now_ms) }
            } else {
                *old(self)
            },
    {
        let recent = match self.last_started {
            Some(last) => now_ms < last || now_ms - last < KERNEL_SELECTION_POLL_MS,
            None => false,
        };
        if self.in_flight || recent {
            return false;
        }
        self.in_flight = true;
        self.last_started = Some(now_ms);
        true
    }

    pub fn finish(&mut self)
        ensures
            *final(self) == (KernelSelectionPoll { in_flight: false, ..*old(self) }),
    {
        self.in_flight = false;
    }
}

/// The settings once a node was selected. A selection by hand ends every automatic one.
pub open spec fn node_picked(s: AppSettings, id: String, manual: bool) -> AppSettings {
    AppSettings {
        current_node_id: Some(id),
        auto_select: if manual {
            AutoSelectMode::Off
        } else {
            s.auto_select
        },
        smart_switch: if manual {
            false
        } else {
            s.smart_switch
        },
        ..s
    }
}

/// Selects a node. The result says that the core selected by itself before.
pub fn apply_selected_node(settings: &mut AppSettings, node_id: String, manual: bool) -> (r: bool)
    ensures
        *final(settings) == node_picked(*old(settings), node_id, manual),
        r == (old(settings).auto_select is Kernel),
{
    let was_kernel = settings.auto_select.is_kernel();
    let (mode, smart) = auto_after(settings, manual);
    put_picked(settings, Some(node_id), mode, smart);
    was_kernel
}

fn auto_after(settings: &AppSettings, manual: bool) -> (r: (AutoSelectMode, bool))
    ensures
        r == if manual {
            (AutoSelectMode::Off, false)
        } else {
            (settings.auto_select, settings.smart_switch)
        },
{
    if manual {
        (AutoSelectMode::Off, false)
    } else {
        (settings.auto_select, settings.smart_switch)
    }
}

fn put_picked(settings: &mut AppSettings, id: Option<String>, mode: AutoSelectMode, smart: bool)
    ensures
        *final(settings) == (AppSettings {
            current_node_id: id,
            auto_select: mode,
            smart_switch: smart,
            ..*old(settings)
        }),
{
    settings.current_node_id = id;
    settings.auto_select = mode;
    settings.smart_switch = smart;
}

/// The state of the client. Where an operation says `busy`, another one holds the session or
/// the store at that moment.
#[derive(Debug)]
pub struct AppState {
    pub store: AppStore,
    pub runtime: Runtime,
    /// The status that was shown last.
    pub status_cache: ProxyStatus,
    pub traffic_view_cache: TrafficViewCache,
    /// The window is shown.
    pub ui_visible: bool,
    /// The user asked to quit.
    pub exit_allowed: bool,
    /// The core is being started, stopped or replaced.
    pub core_transitioning: bool,
    /// Addresses of subscriptions that wait for the form which adds them.
    pub pending_import_urls: Option<Vec<String>>,
    pub rule_apply_queue: RuleApplyQueue,
    pub kernel_selection_poll: KernelSelectionPoll,
}

/// The refusal while the core is being switched.
pub open spec fn switching() -> ErrorModel {
    ErrorModel::Core("内核正在切换，请稍候"@)
}

fn switching_error() -> (r: AppError)
    ensures
        r@ == switching(),
{
    AppError::Core("内核正在切换，请稍候".to_owned())
}

impl AppState {
    /// The client starts with a store that was read.
    pub fn load(store: AppStore, facts: &CoreFacts, now_secs: i64) -> (r: Self)
        ensures
            r.store == store,
            shows_session(r.status_cache, r.runtime, store, *facts),
            r.runtime.core_started_at == started_at(None, facts.running, now_secs),
            (Runtime { core_started_at: None, ..r.runtime }).is_fresh(),
            r.traffic_view_cache@ == empty_cache(),
            r.ui_visible,
            !r.exit_allowed,
            !r.core_transitioning,
            r.pending_import_urls is None,
            r.rule_apply_queue@ == empty_queue(),
            !r.kernel_selection_poll.in_flight,
            r.kernel_selection_poll.last_started is None,
    {
        let mut runtime = Runtime::new();
        let status_cache = runtime.status(&store, facts, now_secs);
        AppState {
            store,
            runtime,
            status_cache,
            traffic_view_cache: TrafficViewCache::default(),
            ui_visible: true,
            exit_allowed: false,
            core_transitioning: false,
            pending_import_urls: None,
            rule_apply_queue: RuleApplyQueue::default(),
            kernel_selection_poll: KernelSelectionPoll::default(),
        }
    }

    pub fn set_pending_import_urls(&mut self, urls: Vec<String>)
        ensures
            *final(self) == (AppState { pending_import_urls: Some(urls), ..*old(self) }),
    {
        self.pending_import_urls = Some(urls);
    }

    pub fn peek_pending_import_urls(&self) -> (r: Option<Vec<String>>)
        ensures
            opt_views(r) == opt_views(self.pending_import_urls),
    {
        match &self.pending_import_urls {
            Some(v) => Some(clone_strings(v)),
            None => None,
        }
    }

    pub fn clear_pending_import_urls(&mut self)
        ensures
            *final(self) == (AppState { pending_import_urls: None, ..*old(self) }),
    {
        self.pending_import_urls = None;
    }

    pub fn set_ui_visible(&mut self, visible: bool)
        ensures
            *final(self) == (AppState { ui_visible: visible, ..*old(self) }),
    {
        self.ui_visible = visible;
    }

    pub fn is_ui_visible(&self) -> (r: bool)
        ensures
            r == self.ui_visible,
    {
        self.ui_visible
    }

    pub fn allow_exit(&mut self)
        ensures
            *final(self) == (AppState { exit_allowed: true, ..*old(self) }),
    {
        self.exit_allowed = true;
    }

    pub fn is_exit_allowed(&self) -> (r: bool)
        ensures
            r == self.exit_allowed,
    {
        self.exit_allowed
    }

    pub fn is_core_transitioning(&self) -> (r: bool)
        ensures
            r == self.core_transitioning,
    {
        self.core_transitioning
    }

    /// Looks something up in the store.
    pub fn with_store<F, T>(&self, f: F) -> (r: Result<T, AppError>) where
        F: FnOnce(&AppStore) -> Result<T, AppError>,

        requires
            f.requires((&self.store,)),
        ensures
            f.ensures((&self.store,), r),
    {
        f(&self.store)
    }

    /// Changes the store.
    pub fn with_store_mut<F, T>(&mut self, f: F) -> (r: Result<T, AppError>) where
        F: FnOnce(&mut AppStore) -> Result<T, AppError>,

        requires
            forall|s: &mut AppStore| *s == old(self).store ==> #[trigger] f.requires((s,)),
        ensures
            exists|s: &mut AppStore|
                {
                    &&& *s == old(self).store
                    &&& #[trigger] f.ensures((s,), r)
                    &&& *final(self) == (AppState { store: *final(s), ..*old(self) })
                },
    {
        f(&mut self.store)
    }

    /// The store, for one who alone may change it.
    pub fn lock_store(&mut self) -> (r: &mut AppStore)
        ensures
            *r == old(self).store,
            *final(self) == (AppState { store: *final(r), ..*old(self) }),
    {
        &mut self.store
    }

    /// The session, for one who alone may change it.
    pub fn lock_runtime(&mut self) -> (r: &mut Runtime)
        ensures
            *r == old(self).runtime,
            *final(self) == (AppState { runtime: *final(r), ..*old(self) }),
    {
        &mut self.runtime
    }

    pub fn unload_ui_on_tray(&self) -> (r: bool)
        ensures
            r == self.store.settings.unload_ui_on_tray,
    {
        self.store.settings.unload_ui_on_tray
    }

    /// Begins an operation on the core; a second one is refused until the first has ended.
    pub fn begin_core_transition(&mut self) -> (r: Result<(), AppError>)
        ensures
            *final(self) == (AppState { core_transitioning: true, ..*old(self) }),
            r is Err <==> old(self).core_transitioning,
            r is Err ==> r->Err_0@ == switching(),
    {
        if self.core_transitioning {
            return Err(switching_error());
        }
        self.core_transitioning = true;
        Ok(())
    }

    pub fn end_core_transition(&mut self)
        ensures
            *final(self) == (AppState { core_transitioning: false, ..*old(self) }),
    {
        self.core_transitioning = false;
    }

    pub fn cache_status(&mut self, status: &ProxyStatus)
        ensures
            *final(self) == (AppState { status_cache: *status, ..*old(self) }),
    {
        self.status_cache = status.copy();
    }

    pub fn cached_status(&self) -> (r: ProxyStatus)
        ensures
            r == self.status_cache,
    {
        self.status_cache.copy()
    }

    pub fn mark_cached_core_state(&mut self, core_state: CoreState)
        ensures
            *final(self) == (AppState {
                status_cache: ProxyStatus { core_state, ..old(self).status_cache },
                ..*old(self)
            }),
    {
        self.status_cache.core_state = core_state;
    }

    pub fn cached_core_state(&self) -> (r: CoreState)
        ensures
            r == self.status_cache.core_state,
    {
        self.status_cache.core_state
    }

    /// The controller of the core, for work that does not wait.
    pub fn try_clash_api_clone(&self, busy: bool) -> (r: Option<ApiEndpoint>)
        ensures
            r == if self.core_transitioning || busy {
                None
            } else {
                self.runtime.api
            },
    {
        if self.core_transitioning || busy {
            return None;
        }
        self.runtime.clash_api_clone()
    }

    /// The counters of the Xray core, for work that does not wait.
    pub fn try_xray_metrics_clone(&self, busy: bool) -> (r: Option<MetricsEndpoint>)
        ensures
            r == if self.core_transitioning || busy {
                None
            } else {
                self.runtime.xray_metrics
            },
    {
        if self.core_transitioning || busy {
            return None;
        }
        self.runtime.xray_metrics_clone()
    }

    /// Takes over counters of the Xray core, where they are those of the session that runs.
    pub fn try_apply_metrics_snapshot(
        &mut self,
        busy: bool,
        metrics: &MetricsEndpoint,
        active: bool,
        totals: TrafficTotals,
        speed: Option<(u64, u64)>,
        now_ms: i64,
        steady_ms: u64,
    ) -> (r: bool)
        ensures
            r == (!old(self).core_transitioning && !busy && active && match old(
                self,
            ).runtime.xray_metrics {
                Some(m) => m.session == metrics.session,
                None => false,
            }),
            !r ==> *final(self) == *old(self),
            r ==> {
                &&& sampled(
                    old(self).runtime,
                    final(self).runtime,
                    Seq::empty(),
                    TrafficTotals { connections: 0, ..totals },
                    speed,
                    now_ms,
                    steady_ms,
                )
                &&& *final(self) == (AppState { runtime: final(self).runtime, ..*old(self) })
            },
    {
        let current = match &self.runtime.xray_metrics {
            Some(m) => m.session == metrics.session,
            None => false,
        };
        if self.core_transitioning || busy || !active || !current {
            return false;
        }
        let none: Vec<ConnectionInfo> = Vec::new();
        proof {
            assert(connection_views(none@) =~= Seq::empty());
        }
        self.runtime.apply_snapshot(
            ConnectionsSnapshot {
                upload_total: totals.upload_total,
                download_total: totals.download_total,
                connections: none,
            },
            speed,
            now_ms,
            steady_ms,
        );
        true
    }

    /// The name of the selected node in a generated session.
    pub open spec fn generated_node_name(self) -> Option<Seq<char>> {
        if runtime_of(self.store.settings.runtime_source@) is Singbox {
            None
        } else {
            match opt_view(self.store.settings.current_node_id) {
                Some(id) => match self.store.node_pos(id) {
                    Some(p) => Some(self.store.nodes@[p].node.name@),
                    None => None,
                },
                None => None,
            }
        }
    }

    /// The name of the selected node in a generated session.
    pub fn generated_current_node_name(&self, store_busy: bool) -> (r: Option<String>)
        ensures
            opt_view(r) == if store_busy {
                None
            } else {
                self.generated_node_name()
            },
    {
        if store_busy || self.store.settings.runtime_source().is_custom() {
            return None;
        }
        match &self.store.settings.current_node_id {
            Some(id) => match self.store.find_node(id.as_str()) {
                Some(n) => Some(n.name.clone()),
                None => None,
            },
            None => None,
        }
    }

    /// Takes over connections of the core, where they are those of the session that runs.
    /// Connections that name only the main group get the name of the selected node.
    pub fn try_apply_connection_snapshot(
        &mut self,
        busy: bool,
        store_busy: bool,
        api: &ApiEndpoint,
        active: bool,
        snapshot: ConnectionsSnapshot,
        speed: Option<(u64, u64)>,
        now_ms: i64,
        steady_ms: u64,
    ) -> (r: bool)
        ensures
            r == (!old(self).core_transitioning && !busy && active && match old(
                self,
            ).runtime.api {
                Some(a) => a.session == api.session,
                None => false,
            }),
            !r ==> *final(self) == *old(self),
            r ==> {
                &&& sampled(
                    old(self).runtime,
                    final(self).runtime,
                    main_group_named(
                        connection_views(snapshot.connections@),
                        if store_busy {
                            None
                        } else {
                            old(self).generated_node_name()
                        },
                    ),
                    TrafficTotals {
                        upload_total: snapshot.upload_total,
                        download_total: snapshot.download_total,
                        connections: snapshot.connections@.len() as u32,
                    },
                    speed,
                    now_ms,
                    steady_ms,
                )
                &&& *final(self) == (AppState { runtime: final(self).runtime, ..*old(self) })
            },
    {
        let current = match &self.runtime.api {
            Some(a) => a.session == api.session,
            None => false,
        };
        if self.core_transitioning || busy || !active || !current {
            return false;
        }
        let name = self.generated_current_node_name(store_busy);
        let upload_total = snapshot.upload_total;
        let download_total = snapshot.download_total;
        let connections = name_main_group(snapshot.connections, &name);
        self.runtime.apply_snapshot(
            ConnectionsSnapshot { upload_total, download_total, connections },
            speed,
            now_ms,
            steady_ms,
        );
        true
    }
}

/// The connections, with the name of a node in place of the main group.
pub open spec fn main_group_named(conns: Seq<ConnectionModel>, name: Option<Seq<char>>) -> Seq<
    ConnectionModel,
> {
    match name {
        Some(n) => Seq::new(
            conns.len(),
            |i: int|
                if conns[i].node == "proxy"@ {
                    ConnectionModel { node: n, ..conns[i] }
                } else {
                    conns[i]
                },
        ),
        None => conns,
    }
}

fn name_main_group(conns: Vec<ConnectionInfo>, name: &Option<String>) -> (r: Vec<ConnectionInfo>)
    ensures
        connection_views(r@) == main_group_named(connection_views(conns@), opt_view(*name)),
        r@.len() == conns@.len(),
{
    match name {
        None => conns,
        Some(n) => {
            let ghost all = connection_views(conns@);
            let ghost want = main_group_named(all, Some(n@));
            let mut out: Vec<ConnectionInfo> = Vec::new();
            for c in it: conns
                invariant
                    all == connection_views(it.seq()),
                    want == main_group_named(all, Some(n@)),
                    out@.len() == it.index(),
                    forall|j: int|
                        0 <= j < it.index() ==> (#[trigger] out@[j])@ == want[j],
            {
                let ghost m = c@;
                proof {
                    assert(all[it.index()] == m);
                }
                let mut d = c;
                if same(d.node.as_str(), "proxy") {
                    d.node = n.clone();
                }
                out.push(d);
            }
            proof {
                assert(connection_views(out@) =~= want);
            }
            out
        },
    }
}

// ---------------------------------------------------------------------------
// What is shown
// ---------------------------------------------------------------------------
/// The session once its status was asked for: the moment of its start is noted.
pub open spec fn with_start(rt: Runtime, facts: CoreFacts, now_secs: i64) -> Runtime {
    Runtime { core_started_at: started_at(rt.core_started_at, facts.running, now_secs), ..rt }
}

fn show_status(rt: &mut Runtime, store: &AppStore, facts: &CoreFacts, now_secs: i64) -> (r:
    ProxyStatus)
    ensures
        shows_session(r, *final(rt), *store, *facts),
        *final(rt) == with_start(*old(rt), *facts, now_secs),
{
    rt.status(store, facts, now_secs)
}

impl AppState {
    /// The status: the one that was shown last, where the session cannot be asked.
    pub fn proxy_status(&mut self, busy: bool, facts: &CoreFacts, now_secs: i64) -> (r: ProxyStatus)
        ensures
            old(self).core_transitioning || busy ==> r == old(self).status_cache && *final(self)
                == *old(self),
            !old(self).core_transitioning && !busy ==> {
                &&& shows_session(r, final(self).runtime, old(self).store, *facts)
                &&& *final(self) == (AppState {
                    runtime: with_start(old(self).runtime, *facts, now_secs),
                    status_cache: r,
                    ..*old(self)
                })
            },
    {
        if self.core_transitioning || busy {
            return self.status_cache.copy();
        }
        self.fresh_status(facts, now_secs)
    }

    fn fresh_status(&mut self, facts: &CoreFacts, now_secs: i64) -> (r: ProxyStatus)
        ensures
            shows_session(r, final(self).runtime, old(self).store, *facts),
            *final(self) == (AppState {
                runtime: with_start(old(self).runtime, *facts, now_secs),
                status_cache: r,
                ..*old(self)
            }),
    {
        let status = show_status(&mut self.runtime, &self.store, facts, now_secs);
        self.status_cache = status.copy();
        status
    }

    /// Whether the core runs. During an operation on it, it does not; where the session
    /// cannot be asked, what was shown last counts.
    pub fn is_core_running(&mut self, busy: bool, facts: &CoreFacts) -> (r: bool)
        ensures
            r == if old(self).core_transitioning {
                false
            } else if busy {
                old(self).status_cache.running
            } else {
                facts.running
            },
            *final(self) == if old(self).core_transitioning || busy {
                *old(self)
            } else {
                AppState {
                    status_cache: ProxyStatus {
                        running: facts.running,
                        core_state: facts.state,
                        ..old(self).status_cache
                    },
                    ..*old(self)
                }
            },
    {
        if self.core_transitioning {
            return false;
        }
        if busy {
            return self.status_cache.running;
        }
        self.status_cache.running = facts.running;
        self.status_cache.core_state = facts.state;
        facts.running
    }

    /// What the second core does, where the session can be asked.
    pub fn poll_sidecar(&self, busy: bool, facts: &CoreFacts) -> (r: Option<(bool, CoreState)>)
        ensures
            r == if busy {
                None
            } else {
                Some((facts.sidecar_running, facts.sidecar_state))
            },
    {
        if busy {
            None
        } else {
            Some((facts.sidecar_running, facts.sidecar_state))
        }
    }

    /// All open connections, or those that were shown last.
    pub fn live_connection_views(&mut self, busy: bool) -> (r: Vec<ConnectionView>)
        requires
            old(self).store.ids_can_be_cut(),
        ensures
            old(self).core_transitioning || busy ==> row_views(r@)
                == old(self).traffic_view_cache@.live && *final(self) == *old(self),
            !old(self).core_transitioning && !busy ==> {
                &&& shows_connections(r@, old(self).runtime.journal@.live, old(self).store.tag_map())
                &&& final(self).traffic_view_cache@ == (CacheModel {
                    live: row_views(r@),
                    ..old(self).traffic_view_cache@
                })
                &&& *final(self) == (AppState {
                    traffic_view_cache: final(self).traffic_view_cache,
                    ..*old(self)
                })
            },
    {
        if self.core_transitioning || busy {
            return copy_rows(&self.traffic_view_cache.live);
        }
        let rows = self.runtime.live_connections(&self.store);
        self.traffic_view_cache.live = copy_rows(&rows);
        rows
    }

    /// What changed among the open connections; from what was shown last, where the session
    /// cannot be asked. What is given is what is kept as shown.
    pub fn live_connection_batch(
        &mut self,
        busy: bool,
        since_revision: Option<u64>,
        last_order_revision: Option<u64>,
    ) -> (r: LiveConnectionBatch)
        requires
            old(self).store.ids_can_be_cut(),
        ensures
            old(self).core_transitioning || busy ==> r@ == cached_batch(
                old(self).traffic_view_cache@,
                since_revision,
            ) && *final(self) == *old(self),
            !old(self).core_transitioning && !busy ==> {
                &&& is_batch(
                    r,
                    old(self).runtime.journal@,
                    old(self).store.tag_map(),
                    since_revision,
                    last_order_revision,
                )
                &&& final(self).traffic_view_cache@ == cache_merged(
                    old(self).traffic_view_cache@,
                    r@,
                )
                &&& *final(self) == (AppState {
                    traffic_view_cache: final(self).traffic_view_cache,
                    ..*old(self)
                })
            },
    {
        if self.core_transitioning || busy {
            return self.traffic_view_cache.batch(since_revision);
        }
        let batch = self.runtime.live_connection_batch(
            &self.store,
            since_revision,
            last_order_revision,
        );
        self.traffic_view_cache.merge(&batch);
        batch
    }

    /// The requests that closed; those that were shown last, where the session cannot be
    /// asked.
    pub fn request_views(
        &mut self,
        busy: bool,
        query: Option<&str>,
        limit: Option<usize>,
        failures_only: bool,
        after_seq: Option<u64>,
    ) -> (r: RequestBatch)
        requires
            old(self).store.ids_can_be_cut(),
        ensures
            ({
                let q = trimmed(
                    match query {
                        Some(s) => s@,
                        None => Seq::empty(),
                    },
                );
                let asked = !old(self).core_transitioning && !busy;
                let kept = QueryModel {
                    query: q,
                    limit,
                    rows: row_views(r.entries@),
                    cursor: r.cursor,
                };
                &&& !asked ==> r@ == cached_requests(
                    old(self).traffic_view_cache@,
                    q,
                    limit,
                    failures_only,
                    after_seq,
                ) && *final(self) == *old(self)
                &&& asked ==> is_request_batch(
                    r,
                    old(self).runtime.journal@,
                    old(self).store.tag_map(),
                    q,
                    page_limit(limit),
                    after_seq,
                    failures_only,
                )
                &&& asked && after_seq is Some ==> *final(self) == *old(self)
                &&& asked && after_seq is None ==> {
                    &&& final(self).traffic_view_cache@ == if failures_only {
                        CacheModel { failures: kept, ..old(self).traffic_view_cache@ }
                    } else {
                        CacheModel { requests: kept, ..old(self).traffic_view_cache@ }
                    }
                    &&& *final(self) == (AppState {
                        traffic_view_cache: final(self).traffic_view_cache,
                        ..*old(self)
                    })
                }
            }),
    {
        let q: &str = match query {
            Some(s) => trim(s),
            None => {
                proof {
                    reveal_strlit("");
                    assert(""@ =~= Seq::empty());
                }
                trim("")
            },
        };
        if self.core_transitioning || busy {
            return self.traffic_view_cache.cached_views(q, limit, failures_only, after_seq);
        }
        let rows = if failures_only {
            self.runtime.request_failures(&self.store, Some(q), limit, after_seq)
        } else {
            self.runtime.request_history(&self.store, Some(q), limit, after_seq)
        };
        if after_seq.is_none() {
            self.traffic_view_cache.keep_requests(q, limit, failures_only, &rows);
        }
        rows
    }

    /// Forgets the requests that closed, where the session can be asked.
    pub fn clear_request_history_nonblocking(&mut self, busy: bool) -> (r: Result<(), AppError>)
        ensures
            old(self).core_transitioning ==> r is Err && r->Err_0@ == switching(),
            !old(self).core_transitioning && busy ==> r is Err && r->Err_0@ == ErrorModel::Core(
                "内核正忙，请稍候"@,
            ),
            r is Err ==> *final(self) == *old(self),
            !old(self).core_transitioning && !busy ==> {
                &&& r is Ok
                &&& final(self).runtime.journal@ == history_cleared(old(self).runtime.journal@)
                &&& final(self).traffic_view_cache@ == (CacheModel {
                    requests: QueryModel {
                        rows: Seq::empty(),
                        ..old(self).traffic_view_cache@.requests
                    },
                    failures: QueryModel {
                        rows: Seq::empty(),
                        ..old(self).traffic_view_cache@.failures
                    },
                    ..old(self).traffic_view_cache@
                })
                &&& *final(self) == (AppState {
                    runtime: Runtime {
                        journal: final(self).runtime.journal,
                        ..old(self).runtime
                    },
                    traffic_view_cache: final(self).traffic_view_cache,
                    ..*old(self)
                })
            },
    {
        if self.core_transitioning {
            return Err(switching_error());
        }
        if busy {
            return Err(AppError::Core("内核正忙，请稍候".to_owned()));
        }
        self.runtime.clear_request_history();
        self.traffic_view_cache.clear_requests();
        Ok(())
    }
}

// ---------------------------------------------------------------------------
// Starts and restarts
// ---------------------------------------------------------------------------
/// The system's proxy is turned on with the start.
pub open spec fn wants_system_proxy(mode: CaptureMode, asked: bool) -> bool {
    match mode {
        CaptureMode::System => true,
        CaptureMode::Tun => false,
        CaptureMode::Off => asked,
    }
}

/// What is left to do about the system's proxy after a start.
#[derive(Debug, Clone, Copy, PartialEq, Eq, Structural)]
pub enum Ownership {
    /// Note that the client owns the system's proxy, with this port.
    Record(u16),
    /// Remove what an earlier run of the client may have left, by this port.
    CleanUp(u16),
}

/// What a change of the settings asks of the core.
#[derive(Debug, Clone, Copy, PartialEq, Eq, Structural)]
pub enum RestartStep {
    /// Nothing changed.
    Nothing,
    /// The store is saved.
    Save,
    /// The store is saved, and the core is restarted.
    SaveAndRestart,
}

fn put_capture(settings: &mut AppSettings, mode: CaptureMode, tun: bool)
    ensures
        *final(settings) == (AppSettings {
            capture_mode: mode,
            tun_enabled: tun,
            ..*old(settings)
        }),
{
    settings.capture_mode = mode;
    settings.tun_enabled = tun;
}

/// The store with a capture mode.
pub open spec fn with_capture(store: AppStore, mode: CaptureMode, tun: bool) -> AppStore {
    AppStore {
        settings: AppSettings { capture_mode: mode, tun_enabled: tun, ..store.settings },
        ..store
    }
}

/// The store takes a capture mode, where it changes.
fn store_capture(store: &mut AppStore, changes: bool, mode: CaptureMode, tun: bool)
    ensures
        *final(store) == if changes {
            with_capture(*old(store), mode, tun)
        } else {
            *old(store)
        },
{
    if changes {
        put_capture(&mut store.settings, mode, tun);
    }
}

fn put_outbound_mode(store: &mut AppStore, mode: OutboundMode)
    ensures
        *final(store) == (AppStore {
            settings: AppSettings { outbound_mode: mode, ..old(store).settings },
            ..*old(store)
        }),
{
    store.settings.outbound_mode = mode;
}

fn put_api_secret(store: &mut AppStore, secret: String)
    ensures
        *final(store) == (AppStore {
            settings: AppSettings { clash_api_secret: Some(secret), ..old(store).settings },
            ..*old(store)
        }),
{
    store.settings.clash_api_secret = Some(secret);
}

fn put_selected_node(store: &mut AppStore, id: String, manual: bool) -> (r: bool)
    ensures
        *final(store) == (AppStore {
            settings: node_picked(old(store).settings, id, manual),
            ..*old(store)
        }),
        r == (old(store).settings.auto_select is Kernel),
{
    apply_selected_node(&mut store.settings, id, manual)
}

/// The state once settings changed that the core has to be restarted for, where it runs.
pub open spec fn restart_marked(s: AppState, store: AppStore, running: bool) -> AppState {
    AppState {
        store,
        core_transitioning: true,
        status_cache: if running {
            ProxyStatus { core_state: CoreState::Starting, ..s.status_cache }
        } else {
            s.status_cache
        },
        ..s
    }
}

/// A start begins: `on` says that the system's proxy is turned on with it.
pub open spec fn start_begun(before: AppState, asked: bool, on: bool, after: AppState) -> bool {
    let mode = before.store.settings.capture_mode;
    &&& on == wants_system_proxy(mode, asked)
    &&& after.store == if on && mode == CaptureMode::Off {
        with_capture(before.store, CaptureMode::System, false)
    } else {
        before.store
    }
    &&& after == (AppState {
        core_transitioning: true,
        status_cache: ProxyStatus { core_state: CoreState::Starting, ..before.status_cache },
        store: after.store,
        ..before
    })
}

impl AppState {
    fn mark_restart(&mut self, running: bool) -> (r: RestartStep)
        ensures
            *final(self) == restart_marked(*old(self), old(self).store, running),
            r == if running {
                RestartStep::SaveAndRestart
            } else {
                RestartStep::Save
            },
    {
        self.core_transitioning = true;
        if running {
            self.status_cache.core_state = CoreState::Starting;
            RestartStep::SaveAndRestart
        } else {
            RestartStep::Save
        }
    }

    /// A start begins: whether the system's proxy is turned on with it. A saved wish wins
    /// over the caller's; a first wish is saved.
    pub fn start_proxy(&mut self, enable_system_proxy: bool) -> (r: Result<bool, AppError>)
        ensures
            old(self).core_transitioning ==> r is Err && r->Err_0@ == switching() && *final(self)
                == *old(self),
            !old(self).core_transitioning ==> r is Ok && start_begun(
                *old(self),
                enable_system_proxy,
                r->Ok_0,
                *final(self),
            ),
            r is Ok ==> r->Ok_0 == (final(self).store.settings.capture_mode == CaptureMode::System),
            r is Ok && old(self).store.settings.capture_mode != CaptureMode::Off ==> final(self).store
                == old(self).store,
    {
        if self.core_transitioning {
            return Err(switching_error());
        }
        self.core_transitioning = true;
        self.status_cache.core_state = CoreState::Starting;
        let mode = self.store.settings.capture_mode;
        let on = match mode {
            CaptureMode::System => true,
            CaptureMode::Tun => false,
            CaptureMode::Off => enable_system_proxy,
        };
        store_capture(
            &mut self.store,
            on && mode == CaptureMode::Off,
            CaptureMode::System,
            false,
        );
        Ok(on)
    }

    /// A stop begins.
    pub fn stop_proxy(&mut self) -> (r: Result<(), AppError>)
        ensures
            r is Err <==> old(self).core_transitioning,
            r is Err ==> r->Err_0@ == switching() && *final(self) == *old(self),
            r is Ok ==> *final(self) == (AppState {
                core_transitioning: true,
                status_cache: ProxyStatus {
                    core_state: CoreState::Stopping,
                    ..old(self).status_cache
                },
                ..*old(self)
            }),
    {
        if self.core_transitioning {
            return Err(switching_error());
        }
        self.core_transitioning = true;
        self.status_cache.core_state = CoreState::Stopping;
        Ok(())
    }

    /// A restart begins: whether the system's proxy is on after it.
    pub fn restart_proxy(&mut self) -> (r: Result<bool, AppError>)
        ensures
            r is Err <==> old(self).core_transitioning,
            r is Err ==> r->Err_0@ == switching() && *final(self) == *old(self),
            r is Ok ==> r->Ok_0 == (old(self).store.settings.capture_mode == CaptureMode::System)
                && *final(self) == (AppState {
                core_transitioning: true,
                status_cache: ProxyStatus {
                    core_state: CoreState::Starting,
                    ..old(self).status_cache
                },
                ..*old(self)
            }),
    {
        if self.core_transitioning {
            return Err(switching_error());
        }
        self.core_transitioning = true;
        self.status_cache.core_state = CoreState::Starting;
        Ok(self.store.settings.capture_mode == CaptureMode::System)
    }

    /// After a start: what is left to do about the system's proxy.
    pub fn proxy_ownership(&self, status: &ProxyStatus) -> (r: Ownership)
        ensures
            r == if status.system_proxy {
                Ownership::Record(self.store.settings.mixed_port)
            } else {
                Ownership::CleanUp(self.store.settings.mixed_port)
            },
    {
        if status.system_proxy {
            Ownership::Record(self.store.settings.mixed_port)
        } else {
            Ownership::CleanUp(self.store.settings.mixed_port)
        }
    }

    /// The client exits. The result says that none of its settings is left in the system, so
    /// that what an earlier run may have left can be removed.
    pub fn shutdown_runtime(&mut self, restored: Result<(), AppError>) -> (r: bool)
        ensures
            r == (!old(self).runtime.system_proxy_on || restored is Ok),
            shut_down(old(self).runtime, final(self).runtime, r),
            *final(self) == (AppState { runtime: final(self).runtime, ..*old(self) }),
    {
        self.runtime.shutdown(restored)
    }

    /// The port by which what an earlier run may have left of the system's proxy is told from
    /// the settings of others.
    pub fn cleanup_stale_system_proxy(&self) -> (r: u16)
        ensures
            r == self.store.settings.mixed_port,
    {
        self.store.settings.mixed_port
    }

    /// Whether changed settings restart the core: where it runs, and not a profile of the
    /// user, which is never rewritten.
    pub fn restart_if_running(&self, running: bool) -> (r: Result<bool, AppError>)
        ensures
            self.core_transitioning ==> r is Err && r->Err_0@ == switching(),
            !self.core_transitioning ==> r == Ok::<bool, AppError>(
                running && runtime_of(self.store.settings.runtime_source@) is Generated,
            ),
    {
        if self.core_transitioning {
            return Err(switching_error());
        }
        Ok(running && !self.store.settings.runtime_source().is_custom())
    }

    /// Selects between rules, everything through the proxy, and nothing through it.
    pub fn set_outbound_mode(&mut self, mode: OutboundMode, running: bool) -> (r: Result<
        RestartStep,
        AppError,
    >)
        ensures
            ({
                let s = old(self).store.settings;
                if old(self).core_transitioning {
                    r is Err && r->Err_0@ == switching() && *final(self) == *old(self)
                } else if runtime_of(s.runtime_source@) is Singbox {
                    r is Err && r->Err_0@ == ErrorModel::Core(
                        "自写配置模式下无法切换规则 / 全局 / 直连"@,
                    ) && *final(self) == *old(self)
                } else if s.outbound_mode == mode {
                    r == Ok::<RestartStep, AppError>(RestartStep::Nothing) && *final(self) == *old(
                        self,
                    )
                } else {
                    &&& r == Ok::<RestartStep, AppError>(
                        if running {
                            RestartStep::SaveAndRestart
                        } else {
                            RestartStep::Save
                        },
                    )
                    &&& final(self).store == (AppStore {
                        settings: AppSettings { outbound_mode: mode, ..s },
                        ..old(self).store
                    })
                    &&& *final(self) == restart_marked(*old(self), final(self).store, running)
                }
            }),
    {
        if self.core_transitioning {
            return Err(switching_error());
        }
        if self.store.settings.runtime_source().is_custom() {
            return Err(
                AppError::Core("自写配置模式下无法切换规则 / 全局 / 直连".to_owned()),
            );
        }
        if self.store.settings.outbound_mode == mode {
            return Ok(RestartStep::Nothing);
        }
        put_outbound_mode(&mut self.store, mode);
        Ok(self.mark_restart(running))
    }

    /// Takes a new secret for the controller over.
    pub fn regenerate_api_secret(&mut self, secret: String, running: bool) -> (r: Result<
        RestartStep,
        AppError,
    >)
        ensures
            ({
                let s = old(self).store.settings;
                if old(self).core_transitioning {
                    r is Err && r->Err_0@ == switching() && *final(self) == *old(self)
                } else if runtime_of(s.runtime_source@) is Singbox {
                    r is Err && r->Err_0@ == ErrorModel::Core(
                        "自写配置模式下无法重新生成密钥，请在配置文件里自行修改"@,
                    ) && *final(self) == *old(self)
                } else if !s.api_secret_enabled {
                    r is Err && r->Err_0@ == ErrorModel::Core(
                        "密钥已关闭，请先开启密钥保护后再重新生成"@,
                    ) && *final(self) == *old(self)
                } else {
                    &&& r == Ok::<RestartStep, AppError>(
                        if running {
                            RestartStep::SaveAndRestart
                        } else {
                            RestartStep::Save
                        },
                    )
                    &&& final(self).store == (AppStore {
                        settings: AppSettings { clash_api_secret: Some(secret), ..s },
                        ..old(self).store
                    })
                    &&& *final(self) == restart_marked(*old(self), final(self).store, running)
                }
            }),
    {
        if self.core_transitioning {
            return Err(switching_error());
        }
        if self.store.settings.runtime_source().is_custom() {
            return Err(
                AppError::Core(
                    "自写配置模式下无法重新生成密钥，请在配置文件里自行修改".to_owned(),
                ),
            );
        }
        if !self.store.settings.api_secret_enabled {
            return Err(
                AppError::Core("密钥已关闭，请先开启密钥保护后再重新生成".to_owned()),
            );
        }
        put_api_secret(&mut self.store, secret);
        Ok(self.mark_restart(running))
    }
}

// ---------------------------------------------------------------------------
// How traffic is captured
// ---------------------------------------------------------------------------
/// What a change of the capture mode asks for, in this order: remove what an earlier run may
/// have left of the system's proxy; save the store and, where it runs, restart the core; turn
/// the system's proxy on or off; note or forget that the client owns it.
#[derive(Debug, Clone, Copy, PartialEq, Eq, Structural)]
pub struct CapturePlan {
    pub mode: CaptureMode,
    pub clean_up: bool,
    /// All is as it should be.
    pub unchanged: bool,
    pub save_tun: bool,
    pub restart: bool,
    pub system_proxy: bool,
}

/// The plan for a mode.
pub open spec fn capture_plan_of(
    mode: CaptureMode,
    settings: AppSettings,
    proxy_on: bool,
    running: bool,
) -> CapturePlan {
    let tun = mode == CaptureMode::Tun;
    let system = mode == CaptureMode::System;
    let unchanged = settings.tun_enabled == tun && proxy_on == system && settings.capture_mode
        == mode;
    CapturePlan {
        mode,
        clean_up: !system && !proxy_on,
        unchanged,
        save_tun: !unchanged && settings.tun_enabled != tun,
        restart: !unchanged && settings.tun_enabled != tun && running,
        system_proxy: system,
    }
}

impl AppState {
    fn plan_capture(&self, mode: &str, running: bool) -> (r: Result<CapturePlan, AppError>)
        ensures
            match CaptureMode::of_word(lowered(trimmed(mode@))) {
                None => r is Err && r->Err_0@ == ErrorModel::Core(
                    "capture mode must be off | system | tun"@,
                ),
                Some(m) => if runtime_of(self.store.settings.runtime_source@) is Singbox && m
                    == CaptureMode::Tun {
                    r is Err && r->Err_0@ == ErrorModel::Core(
                        "自写配置模式下无法改写 TUN，请在配置文件里自行声明"@,
                    )
                } else {
                    r == Ok::<CapturePlan, AppError>(
                        capture_plan_of(
                            m,
                            self.store.settings,
                            self.runtime.system_proxy_on,
                            running,
                        ),
                    )
                },
            },
    {
        let m = match CaptureMode::parse(mode) {
            Some(m) => m,
            None => {
                return Err(AppError::Core("capture mode must be off | system | tun".to_owned()));
            },
        };
        if self.store.settings.runtime_source().is_custom() && m == CaptureMode::Tun {
            return Err(
                AppError::Core(
                    "自写配置模式下无法改写 TUN，请在配置文件里自行声明".to_owned(),
                ),
            );
        }
        let tun = m == CaptureMode::Tun;
        let system = m == CaptureMode::System;
        let tun_now = self.store.settings.tun_enabled;
        let on = self.runtime.system_proxy_on;
        let unchanged = tun_now == tun && on == system && self.store.settings.capture_mode == m;
        Ok(
            CapturePlan {
                mode: m,
                clean_up: !system && !on,
                unchanged,
                save_tun: !unchanged && tun_now != tun,
                restart: !unchanged && tun_now != tun && running,
                system_proxy: system,
            },
        )
    }

    /// What a change of the capture mode asks for; the switch of the core begins.
    pub fn set_capture_mode(&mut self, mode: &str, running: bool) -> (r: Result<
        CapturePlan,
        AppError,
    >)
        ensures
            old(self).core_transitioning ==> r is Err && r->Err_0@ == switching(),
            !old(self).core_transitioning ==> match CaptureMode::of_word(lowered(trimmed(mode@))) {
                None => r is Err && r->Err_0@ == ErrorModel::Core(
                    "capture mode must be off | system | tun"@,
                ),
                Some(m) => if runtime_of(old(self).store.settings.runtime_source@) is Singbox && m
                    == CaptureMode::Tun {
                    r is Err && r->Err_0@ == ErrorModel::Core(
                        "自写配置模式下无法改写 TUN，请在配置文件里自行声明"@,
                    )
                } else {
                    r == Ok::<CapturePlan, AppError>(
                        capture_plan_of(
                            m,
                            old(self).store.settings,
                            old(self).runtime.system_proxy_on,
                            running,
                        ),
                    )
                },
            },
            *final(self) == (AppState {
                core_transitioning: old(self).core_transitioning || r is Ok,
                ..*old(self)
            }),
    {
        if self.core_transitioning {
            return Err(switching_error());
        }
        let plan = self.plan_capture(mode, running);
        if plan.is_ok() {
            self.core_transitioning = true;
        }
        plan
    }

    /// The settings take a plan over.
    pub fn capture_mode_set(&mut self, plan: &CapturePlan)
        ensures
            final(self).store == if plan.unchanged {
                old(self).store
            } else {
                with_capture(old(self).store, plan.mode, plan.mode == CaptureMode::Tun)
            },
            *final(self) == (AppState { store: final(self).store, ..*old(self) }),
    {
        store_capture(
            &mut self.store,
            !plan.unchanged,
            plan.mode,
            plan.mode == CaptureMode::Tun,
        );
    }

    /// What it takes to turn the system's proxy on or off.
    pub fn set_system_proxy(&mut self, enabled: bool, running: bool) -> (r: Result<
        CapturePlan,
        AppError,
    >)
        ensures
            old(self).core_transitioning ==> r is Err && r->Err_0@ == switching(),
            !old(self).core_transitioning ==> r == Ok::<CapturePlan, AppError>(
                capture_plan_of(
                    if enabled {
                        CaptureMode::System
                    } else {
                        CaptureMode::Off
                    },
                    old(self).store.settings,
                    old(self).runtime.system_proxy_on,
                    running,
                ),
            ),
            *final(self) == (AppState { core_transitioning: true, ..*old(self) }),
    {
        proof {
            lemma_mode_words();
        }
        self.set_capture_mode(
            if enabled {
                "system"
            } else {
                "off"
            },
            running,
        )
    }

    /// What it takes to turn the network interface on or off.
    pub fn set_tun_enabled(&mut self, enabled: bool, running: bool) -> (r: Result<
        CapturePlan,
        AppError,
    >)
        ensures
            if old(self).core_transitioning {
                r is Err && r->Err_0@ == switching()
            } else if enabled && runtime_of(old(self).store.settings.runtime_source@) is Singbox {
                r is Err && r->Err_0@ == ErrorModel::Core(
                    "自写配置模式下无法改写 TUN，请在配置文件里自行声明"@,
                )
            } else {
                r == Ok::<CapturePlan, AppError>(
                    capture_plan_of(
                        if enabled {
                            CaptureMode::Tun
                        } else {
                            CaptureMode::Off
                        },
                        old(self).store.settings,
                        old(self).runtime.system_proxy_on,
                        running,
                    ),
                )
            },
            *final(self) == (AppState {
                core_transitioning: old(self).core_transitioning || r is Ok,
                ..*old(self)
            }),
    {
        proof {
            lemma_mode_words();
        }
        self.set_capture_mode(
            if enabled {
                "tun"
            } else {
                "off"
            },
            running,
        )
    }
}

proof fn lemma_word_is_plain(s: Seq<char>)
    requires
        s.len() > 0,
        forall|i: int| 0 <= i < s.len() ==> 'a' <= #[trigger] s[i] <= 'z',
    ensures
        lowered(trimmed(s)) == s,
{
    crate::text::lemma_trimmed_same(s);
    assert(lowered(s) =~= s);
}

proof fn lemma_mode_words()
    ensures
        CaptureMode::of_word(lowered(trimmed("off"@))) == Some(CaptureMode::Off),
        CaptureMode::of_word(lowered(trimmed("system"@))) == Some(CaptureMode::System),
        CaptureMode::of_word(lowered(trimmed("tun"@))) == Some(CaptureMode::Tun),
{
    reveal_strlit("off");
    reveal_strlit("system");
    reveal_strlit("tun");
    lemma_word_is_plain("off"@);
    lemma_word_is_plain("system"@);
    lemma_word_is_plain("tun"@);
    crate::domain::settings::law_capture_mode_reads_back(CaptureMode::Off);
    crate::domain::settings::law_capture_mode_reads_back(CaptureMode::System);
    crate::domain::settings::law_capture_mode_reads_back(CaptureMode::Tun);
}

/// The ways of capturing traffic exclude each other: once a plan is carried out, the network
/// interface is on for that mode alone, and so is the system's proxy.
pub proof fn law_capture_modes_exclude_each_other(
    mode: CaptureMode,
    settings: AppSettings,
    proxy_on: bool,
    running: bool,
    after: AppSettings,
)
    requires
        ({
            let p = capture_plan_of(mode, settings, proxy_on, running);
            if p.unchanged {
                after == settings
            } else {
                after == (AppSettings {
                    capture_mode: p.mode,
                    tun_enabled: p.mode == CaptureMode::Tun,
                    ..settings
                })
            }
        }),
    ensures
        after.capture_mode == mode,
        after.tun_enabled == (mode == CaptureMode::Tun),
        capture_plan_of(mode, settings, proxy_on, running).system_proxy == (mode
            == CaptureMode::System),
        capture_plan_of(mode, after, mode == CaptureMode::System, running).unchanged,
{
}

// ---------------------------------------------------------------------------
// The selected node
// ---------------------------------------------------------------------------
/// What a selection asks of the core.
#[derive(Debug)]
pub struct SelectPlan {
    /// The tag of the node.
    pub tag: String,
    /// All connections are closed after it.
    pub close: bool,
    /// The controller that selects the node at once; without one the selection only counts
    /// from the next start.
    pub live: Option<ApiEndpoint>,
}

/// What keeps a node from being selected.
pub open spec fn select_refusal(store: AppStore, id: Seq<char>, manual: bool) -> Option<ErrorModel> {
    let kind = CoreKind::of_word(lowered(trimmed(store.settings.core_type@)));
    if runtime_of(store.settings.runtime_source@) is Singbox {
        Some(ErrorModel::Core("自写配置模式下无法切换节点"@))
    } else if !manual && !(store.settings.auto_select is Smart) {
        Some(ErrorModel::Core("智能切换已关闭"@))
    } else {
        node_refusal(store, kind, id)
    }
}

/// What keeps a node from being selected under a core.
pub open spec fn node_refusal(store: AppStore, kind: CoreKind, id: Seq<char>) -> Option<ErrorModel> {
    match store.node_pos(id) {
        None => Some(ErrorModel::NotFound(id)),
        Some(p) => if !kind.serves_node(store.nodes@[p].node) {
            Some(not_served(kind))
        } else {
            None
        },
    }
}

/// What is said of a node that the core does not serve.
pub open spec fn not_served(kind: CoreKind) -> ErrorModel {
    ErrorModel::Core(
        kind.shown() + " 内核不支持该节点（协议/传输/REALITY 限制），请切换内核或选择其他节点"@,
    )
}

fn not_served_error(kind: CoreKind) -> (r: AppError)
    ensures
        r@ == not_served(kind),
{
    AppError::Core(
        concat2(
            kind.display_name(),
            " 内核不支持该节点（协议/传输/REALITY 限制），请切换内核或选择其他节点",
        ),
    )
}

/// The tag of a node that the core serves.
fn selectable_tag(store: &AppStore, kind: CoreKind, node_id: &str) -> (r: Result<String, AppError>)
    requires
        store.node_pos(node_id@) is Some ==> id_cut_ok(node_id@),
    ensures
        match node_refusal(*store, kind, node_id@) {
            Some(e) => r is Err && r->Err_0@ == e,
            None => r is Ok && r->Ok_0@ == node_tag(node_id@),
        },
{
    let node = match store.find_node(node_id) {
        Some(n) => n,
        None => {
            return Err(AppError::NotFound(node_id.to_owned()));
        },
    };
    if !kind.supports_node(node) {
        return Err(not_served_error(kind));
    }
    Ok(outbound_tag(node))
}

impl AppState {
    fn plan_selection(&self, node_id: &str, manual: bool, close_if_enabled: bool) -> (r: Result<
        SelectPlan,
        AppError,
    >)
        requires
            self.store.node_pos(node_id@) is Some ==> id_cut_ok(node_id@),
        ensures
            match select_refusal(self.store, node_id@, manual) {
                Some(e) => r is Err && r->Err_0@ == e,
                None => {
                    &&& r is Ok
                    &&& r->Ok_0.tag@ == node_tag(node_id@)
                    &&& r->Ok_0.close == (close_if_enabled
                        && self.store.settings.close_connections_on_switch)
                    &&& r->Ok_0.live == if CoreKind::of_word(
                        lowered(trimmed(self.store.settings.core_type@)),
                    ) == CoreKind::Xray || (manual && self.store.settings.auto_select is Kernel) {
                        None
                    } else {
                        self.runtime.api
                    }
                },
            },
    {
        let kind = CoreKind::parse(self.store.settings.core_type.as_str());
        if self.store.settings.runtime_source().is_custom() {
            return Err(AppError::Core("自写配置模式下无法切换节点".to_owned()));
        }
        if !manual && !self.store.settings.auto_select.is_smart() {
            return Err(AppError::Core("智能切换已关闭".to_owned()));
        }
        let tag = match selectable_tag(&self.store, kind, node_id) {
            Ok(t) => t,
            Err(e) => {
                return Err(e);
            },
        };
        let close = close_if_enabled && self.store.settings.close_connections_on_switch;
        let kernel_auto = manual && self.store.settings.auto_select.is_kernel();
        let live = if kind == CoreKind::Xray || kernel_auto {
            None
        } else {
            self.runtime.clash_api_clone()
        };
        Ok(SelectPlan { tag, close, live })
    }

    /// What the selection of a node asks of the core; until it is done, nothing else switches
    /// the core. A core that selects by itself, and the Xray core, cannot be told at once.
    pub fn select_current_node_serialized(
        &mut self,
        node_id: &str,
        manual: bool,
        close_if_enabled: bool,
    ) -> (r: Result<SelectPlan, AppError>)
        requires
            old(self).store.node_pos(node_id@) is Some ==> id_cut_ok(node_id@),
        ensures
            old(self).core_transitioning ==> r is Err && r->Err_0@ == switching(),
            !old(self).core_transitioning ==> match select_refusal(
                old(self).store,
                node_id@,
                manual,
            ) {
                Some(e) => r is Err && r->Err_0@ == e,
                None => {
                    &&& r is Ok
                    &&& r->Ok_0.tag@ == node_tag(node_id@)
                    &&& r->Ok_0.close == (close_if_enabled
                        && old(self).store.settings.close_connections_on_switch)
                    &&& r->Ok_0.live == if CoreKind::of_word(
                        lowered(trimmed(old(self).store.settings.core_type@)),
                    ) == CoreKind::Xray || (manual && old(
                        self,
                    ).store.settings.auto_select is Kernel) {
                        None
                    } else {
                        old(self).runtime.api
                    }
                },
            },
            *final(self) == (AppState {
                core_transitioning: old(self).core_transitioning || r is Ok,
                ..*old(self)
            }),
    {
        if self.core_transitioning {
            return Err(switching_error());
        }
        let plan = self.plan_selection(node_id, manual, close_if_enabled);
        if plan.is_ok() {
            self.core_transitioning = true;
        }
        plan
    }

    /// A node was selected. The result says that the core has to be restarted for it.
    pub fn current_node_selected(&mut self, node_id: &str, manual: bool, running: bool) -> (r: bool)
        ensures
            exists|id: String|
                {
                    &&& id@ == node_id@
                    &&& final(self).store == (AppStore {
                        settings: #[trigger] node_picked(old(self).store.settings, id, manual),
                        ..old(self).store
                    })
                },
            *final(self) == (AppState { store: final(self).store, ..*old(self) }),
            r == (old(self).store.settings.auto_select is Kernel || (CoreKind::of_word(
                lowered(trimmed(old(self).store.settings.core_type@)),
            ) == CoreKind::Xray && running)),
    {
        let kind = CoreKind::parse(self.store.settings.core_type.as_str());
        let id = node_id.to_owned();
        let was_kernel = put_selected_node(&mut self.store, id, manual);
        was_kernel || (kind == CoreKind::Xray && running)
    }

    /// The controller that selects a node of a group at once.
    pub fn select_group_live_serialized(&mut self) -> (r: Result<Option<ApiEndpoint>, AppError>)
        ensures
            r is Err <==> old(self).core_transitioning,
            r is Err ==> r->Err_0@ == switching(),
            r is Ok ==> r->Ok_0 == old(self).runtime.api,
            *final(self) == (AppState { core_transitioning: true, ..*old(self) }),
    {
        match self.begin_core_transition() {
            Ok(()) => Ok(self.runtime.clash_api_clone()),
            Err(e) => Err(e),
        }
    }

    /// The node that the core selected is to be looked at.
    pub fn starts_kernel_sync(&mut self, now_ms: u64) -> (r: bool)
        ensures
            r == (old(self).store.settings.auto_select is Kernel && !old(self).core_transitioning
                && old(self).kernel_selection_poll.may_start(now_ms)),
            *final(self) == if r {
                AppState {
                    kernel_selection_poll: KernelSelectionPoll {
                        in_flight: true,
                        last_started: Some(now_ms),
                    },
                    ..*old(self)
                }
            } else {
                *old(self)
            },
    {
        if !self.store.settings.auto_select.is_kernel() || self.core_transitioning {
            return false;
        }
        self.kernel_selection_poll.try_start(now_ms)
    }

    /// The node that the core selected, by its tag, becomes the selected one. The result is
    /// its id, where that changes something.
    pub fn sync_kernel_selection(&mut self, tag: &str) -> (r: Option<String>)
        requires
            old(self).store.ids_can_be_cut(),
        ensures
            ({
                let id = tagged_id(old(self).store.nodes@, tag@);
                let now = opt_view(old(self).store.settings.current_node_id);
                &&& opt_view(r) == if old(self).store.settings.auto_select is Kernel && id is Some
                    && id != now {
                    id
                } else {
                    None
                }
                &&& r is None ==> *final(self) == *old(self)
                &&& r is Some ==> {
                    &&& opt_view(final(self).store.settings.current_node_id) == id
                    &&& final(self).store == (AppStore {
                        settings: AppSettings {
                            current_node_id: final(self).store.settings.current_node_id,
                            ..old(self).store.settings
                        },
                        ..old(self).store
                    })
                    &&& *final(self) == (AppState { store: final(self).store, ..*old(self) })
                }
            }),
    {
        if !self.store.settings.auto_select.is_kernel() {
            return None;
        }
        match id_of_tag(&self.store, tag) {
            None => None,
            Some(id) => {
                let known = match &self.store.settings.current_node_id {
                    Some(c) => same(c.as_str(), id.as_str()),
                    None => false,
                };
                if known {
                    return None;
                }
                crate::start::put_current_node(&mut self.store, Some(id.clone()));
                Some(id)
            },
        }
    }
}

/// The id of the first node with that tag.
pub open spec fn tagged_id(nodes: Seq<crate::storage::StoredNode>, tag: Seq<char>) -> Option<Seq<char>>
    decreases nodes.len(),
{
    if nodes.len() == 0 {
        None
    } else {
        match tagged_id(nodes.drop_last(), tag) {
            Some(id) => Some(id),
            None => if node_tag(nodes.last().node.id@) == tag {
                Some(nodes.last().node.id@)
            } else {
                None
            },
        }
    }
}

proof fn lemma_tagged_is_kept(nodes: Seq<crate::storage::StoredNode>, tag: Seq<char>, n: int)
    requires
        0 <= n <= nodes.len(),
        tagged_id(nodes.take(n), tag) is Some,
    ensures
        tagged_id(nodes, tag) == tagged_id(nodes.take(n), tag),
    decreases nodes.len(),
{
    if n < nodes.len() {
        assert(nodes.drop_last().take(n) =~= nodes.take(n));
        lemma_tagged_is_kept(nodes.drop_last(), tag, n);
    } else {
        assert(nodes.take(n) =~= nodes);
    }
}

pub fn id_of_tag(store: &AppStore, tag: &str) -> (r: Option<String>)
    requires
        store.ids_can_be_cut(),
    ensures
        opt_view(r) == tagged_id(store.nodes@, tag@),
{
    let ghost all = store.nodes@;
    proof {
        assert(all.take(0) =~= Seq::empty());
    }
    for i in 0..store.nodes.len()
        invariant
            store.ids_can_be_cut(),
            all == store.nodes@,
            tagged_id(all.take(i as int), tag@) is None,
    {
        proof {
            assert(all.take(i + 1).drop_last() =~= all.take(i as int));
            assert(all.take(i + 1).last() == all[i as int]);
        }
        let t = outbound_tag(&store.nodes[i].node);
        if same(t.as_str(), tag) {
            proof {
                lemma_tagged_is_kept(all, tag@, i + 1);
            }
            return Some(store.nodes[i].node.id.clone());
        }
    }
    proof {
        assert(all.take(all.len() as int) =~= all);
    }
    None
}

} // verus!
