//! The session: the core that runs, the proxy of the system, and the traffic.

use crate::core_kind::CoreKind;
use crate::domain::settings::{runtime_of, RuntimeModel, RuntimeSource};
use crate::domain::subscription::Subscription;
use crate::error::{AppError, ErrorModel};
use crate::health::{is_sample_list, stats_of, PassiveNodeStats};
use crate::history::history_cleared;
use crate::journal::{
    connection_views, empty_journal, ingested, live_cleared, ConnectionInfo, ConnectionModel,
    Journal,
};
use crate::storage::{node_tag_info_map, AppStore};
use crate::text::{clone_opt, opt_view, same};
use crate::traffic::{
    is_batch, is_request_batch, page_limit, query_text, shows_connections, ConnectionView,
    LiveConnectionBatch, RequestBatch,
};
use vstd::prelude::*;

verus! {

/// What the core is doing.
#[derive(Debug, Clone, Copy, PartialEq, Eq, Structural)]
pub enum CoreState {
    Stopped,
    Starting,
    Running,
    Stopping,
    Error,
}

/// What is known of the processes of the cores at one moment.
#[derive(Debug)]
pub struct CoreFacts {
    pub running: bool,
    pub state: CoreState,
    pub kind: CoreKind,
    pub error: Option<String>,
    /// The memory that the core holds, in bytes.
    pub memory_bytes: Option<u64>,
    /// The core runs with the rights of an administrator.
    pub elevated: bool,
    pub sidecar_running: bool,
    pub sidecar_state: CoreState,
}

/// The proxy settings of the system before the client changed them.
#[derive(Debug, Clone, PartialEq, Eq)]
pub struct SystemProxySnapshot {
    pub detail: String,
}

/// The address and the secret of a controller.
#[derive(Debug, Clone, PartialEq, Eq)]
pub struct ApiEndpoint {
    pub host: String,
    pub port: u16,
    pub secret: String,
    /// The start of a core that it belongs to.
    pub session: u64,
}

impl ApiEndpoint {
    fn copy(&self) -> (r: Self)
        ensures
            r == *self,
    {
        ApiEndpoint {
            host: self.host.clone(),
            port: self.port,
            secret: self.secret.clone(),
            session: self.session,
        }
    }
}

/// The address where the Xray core serves its counters.
#[derive(Debug, Clone, PartialEq, Eq)]
pub struct MetricsEndpoint {
    pub host: String,
    pub port: u16,
    /// The start of a core that it belongs to.
    pub session: u64,
}

#[derive(Debug, Clone, Copy, PartialEq, Eq, Structural)]
pub struct TrafficTotals {
    pub upload_total: u64,
    pub download_total: u64,
    pub connections: u32,
}

/// The connections of the core at one moment, with what they carried so far.
#[derive(Debug)]
pub struct ConnectionsSnapshot {
    pub upload_total: u64,
    pub download_total: u64,
    pub connections: Vec<ConnectionInfo>,
}

/// A reading of a process.
#[derive(Debug, Clone, Copy, PartialEq, Eq)]
pub struct ProcessMemInfo {
    pub rss_bytes: Option<u64>,
    pub is_root: Option<bool>,
}

/// A reading of a process that is kept for a while.
#[derive(Debug, Clone, Copy)]
pub struct MemoryCache {
    pub pid: u32,
    pub bytes: u64,
    pub is_root: Option<bool>,
    /// When it was read, in milliseconds of a steady clock.
    pub at_ms: u64,
}

/// For how many milliseconds a reading of a process is kept.
pub const MEMORY_CACHE_MS: u64 = 5000;

#[derive(Debug)]
pub struct Runtime {
    /// The ports that the second core listens on.
    pub sidecar_ports: Vec<u16>,
    pub system_proxy_on: bool,
    pub proxy_snapshot: Option<SystemProxySnapshot>,
    pub api: Option<ApiEndpoint>,
    pub xray_metrics: Option<MetricsEndpoint>,
    pub last_config_path: Option<String>,
    pub last_binary_path: Option<String>,
    /// The last counters, and when they came, in milliseconds of a steady clock.
    pub traffic_prev: Option<(u64, TrafficTotals)>,
    /// Bytes a second, up and down.
    pub traffic_speed: (u64, u64),
    pub journal: Journal,
    /// When connections were last taken over, in milliseconds of a steady clock.
    pub last_sample_at: Option<u64>,
    /// When the core started, in seconds of the calendar.
    pub core_started_at: Option<i64>,
    /// The port that a profile of the user listens on.
    pub custom_inbound_port: Option<u16>,
    pub custom_has_clash_api: bool,
    pub custom_has_tun: bool,
    pub core_memory_cache: Option<MemoryCache>,
}

/// What is shown of the session.
#[derive(Debug)]
pub struct ProxyStatus {
    pub running: bool,
    pub core_state: CoreState,
    pub system_proxy: bool,
    pub tun_enabled: bool,
    pub capture_mode: String,
    pub outbound_mode: String,
    pub mixed_port: u16,
    pub api_port: u16,
    pub current_node_id: Option<String>,
    pub error: Option<String>,
    pub core_path: Option<String>,
    pub config_path: Option<String>,
    pub upload_speed: u64,
    pub download_speed: u64,
    pub upload_total: u64,
    pub download_total: u64,
    pub connections: u32,
    pub smart_switch: bool,
    pub auto_select: String,
    pub core_started_at: Option<i64>,
    pub runtime_source: String,
    pub runtime_profile_id: Option<String>,
    pub runtime_profile_name: Option<String>,
    pub custom_has_clash_api: bool,
    pub custom_has_tun: bool,
    pub custom_inbound_port: Option<u16>,
    pub core_memory_bytes: Option<u64>,
    pub core_type: String,
    pub core_elevated: bool,
    pub sidecar_running: bool,
}

impl ProxyStatus {
    /// A second status like it.
    pub fn copy(&self) -> (r: Self)
        ensures
            r == *self,
    {
        ProxyStatus {
            running: self.running,
            core_state: self.core_state,
            system_proxy: self.system_proxy,
            tun_enabled: self.tun_enabled,
            capture_mode: self.capture_mode.clone(),
            outbound_mode: self.outbound_mode.clone(),
            mixed_port: self.mixed_port,
            api_port: self.api_port,
            current_node_id: clone_opt(&self.current_node_id),
            error: clone_opt(&self.error),
            core_path: clone_opt(&self.core_path),
            config_path: clone_opt(&self.config_path),
            upload_speed: self.upload_speed,
            download_speed: self.download_speed,
            upload_total: self.upload_total,
            download_total: self.download_total,
            connections: self.connections,
            smart_switch: self.smart_switch,
            auto_select: self.auto_select.clone(),
            core_started_at: self.core_started_at,
            runtime_source: self.runtime_source.clone(),
            runtime_profile_id: clone_opt(&self.runtime_profile_id),
            runtime_profile_name: clone_opt(&self.runtime_profile_name),
            custom_has_clash_api: self.custom_has_clash_api,
            custom_has_tun: self.custom_has_tun,
            custom_inbound_port: self.custom_inbound_port,
            core_memory_bytes: self.core_memory_bytes,
            core_type: self.core_type.clone(),
            core_elevated: self.core_elevated,
            sidecar_running: self.sidecar_running,
        }
    }
}

/// The name of the first subscription of that id.
pub open spec fn first_name(subs: Seq<Subscription>, id: Seq<char>) -> Option<Seq<char>>
    decreases subs.len(),
{
    if subs.len() == 0 {
        None
    } else {
        match first_name(subs.drop_last(), id) {
            Some(n) => Some(n),
            None => if subs.last().id@ == id {
                Some(subs.last().name@)
            } else {
                None
            },
        }
    }
}

fn name_of_first(subs: &Vec<Subscription>, id: &str) -> (r: Option<String>)
    ensures
        opt_view(r) == first_name(subs@, id@),
{
    proof {
        assert(subs@.take(0) =~= Seq::empty());
    }
    for i in 0..subs.len()
        invariant
            first_name(subs@.take(i as int), id@) is None,
    {
        proof {
            assert(subs@.take(i + 1).drop_last() =~= subs@.take(i as int));
            assert(subs@.take(i + 1).last() == subs@[i as int]);
        }
        if same(subs[i].id.as_str(), id) {
            proof {
                lemma_first_name_is_kept(subs@, id@, i + 1);
            }
            return Some(subs[i].name.clone());
        }
    }
    proof {
        assert(subs@.take(subs@.len() as int) =~= subs@);
    }
    None
}

proof fn lemma_first_name_is_kept(subs: Seq<Subscription>, id: Seq<char>, n: int)
    requires
        0 <= n <= subs.len(),
        first_name(subs.take(n), id) is Some,
    ensures
        first_name(subs, id) == first_name(subs.take(n), id),
    decreases subs.len(),
{
    if n < subs.len() {
        assert(subs.drop_last().take(n) =~= subs.take(n));
        lemma_first_name_is_kept(subs.drop_last(), id, n);
    } else {
        assert(subs.take(n) =~= subs);
    }
}

pub open spec fn totals_of(prev: Option<(u64, TrafficTotals)>) -> TrafficTotals {
    match prev {
        Some(p) => p.1,
        None => TrafficTotals { upload_total: 0, download_total: 0, connections: 0 },
    }
}

/// When the core started, once its state is known.
pub open spec fn started_at(known: Option<i64>, running: bool, now_secs: i64) -> Option<i64> {
    if !running {
        None
    } else if known is None {
        Some(now_secs)
    } else {
        known
    }
}

/// `s` shows the session.
pub open spec fn shows_session(
    s: ProxyStatus,
    rt: Runtime,
    store: AppStore,
    facts: CoreFacts,
) -> bool {
    let set = store.settings;
    let source = runtime_of(set.runtime_source@);
    &&& s.running == facts.running
    &&& s.core_state == facts.state
    &&& s.system_proxy == rt.system_proxy_on
    &&& s.tun_enabled == set.tun_enabled
    &&& s.capture_mode@ == set.capture_mode.name()
    &&& s.outbound_mode@ == set.outbound_mode.name()
    &&& s.mixed_port == match rt.custom_inbound_port {
        Some(p) => p,
        None => set.mixed_port,
    }
    &&& s.api_port == set.api_port
    &&& s.current_node_id == set.current_node_id
    &&& s.error == facts.error
    &&& s.core_path == rt.last_binary_path
    &&& s.config_path == rt.last_config_path
    &&& s.upload_speed == rt.traffic_speed.0
    &&& s.download_speed == rt.traffic_speed.1
    &&& s.upload_total == totals_of(rt.traffic_prev).upload_total
    &&& s.download_total == totals_of(rt.traffic_prev).download_total
    &&& s.connections == totals_of(rt.traffic_prev).connections
    &&& s.smart_switch == (set.auto_select is Smart)
    &&& s.auto_select@ == set.auto_select.name()
    &&& s.core_started_at == rt.core_started_at
    &&& s.runtime_source@ == if source is Generated {
        "generated"@
    } else {
        "singbox"@
    }
    &&& opt_view(s.runtime_profile_id) == profile_id(source)
    &&& opt_view(s.runtime_profile_name) == match profile_id(source) {
        Some(id) => first_name(store.subscriptions@, id),
        None => None,
    }
    &&& s.custom_has_clash_api == rt.custom_has_clash_api
    &&& s.custom_has_tun == rt.custom_has_tun
    &&& s.custom_inbound_port == rt.custom_inbound_port
    &&& s.core_memory_bytes == facts.memory_bytes
    &&& s.core_type@ == if facts.running {
        facts.kind.name()
    } else {
        set.core_type@
    }
    &&& s.core_elevated == facts.elevated
    &&& s.sidecar_running == (facts.running && facts.sidecar_running)
}

/// The id of the profile that the session runs.
pub open spec fn profile_id(source: RuntimeModel) -> Option<Seq<char>> {
    match source {
        RuntimeModel::Generated => None,
        RuntimeModel::Singbox(id) => Some(id),
    }
}

/// What to do for a reading of the core's process.
#[derive(Debug, Clone, Copy)]
pub enum MemoryPlan {
    /// No process is known.
    NoProcess,
    /// The kept reading is new enough.
    Kept(ProcessMemInfo),
    /// The process has to be read.
    Read(u32),
}

/// The session once connections of the core were taken over: `speed` is what the traffic
/// came to, where that could be told.
pub open spec fn sampled(
    before: Runtime,
    after: Runtime,
    conns: Seq<ConnectionModel>,
    totals: TrafficTotals,
    speed: Option<(u64, u64)>,
    now_ms: i64,
    steady_ms: u64,
) -> bool {
    &&& after.journal@ == ingested(before.journal@, conns, now_ms)
    &&& after == (Runtime {
        journal: after.journal,
        traffic_prev: Some((steady_ms, totals)),
        traffic_speed: match speed {
            Some(s) if before.traffic_prev is Some => s,
            _ => before.traffic_speed,
        },
        last_sample_at: Some(steady_ms),
        ..before
    })
}

/// The session once the client exits; `cleared` says that the system's proxy was put back.
pub open spec fn shut_down(before: Runtime, after: Runtime, cleared: bool) -> bool {
    &&& after.journal@ == live_cleared(before.journal@)
    &&& after.sidecar_ports@.len() == 0
    &&& after == (Runtime {
        system_proxy_on: before.system_proxy_on && !cleared,
        proxy_snapshot: if before.system_proxy_on && cleared {
            None
        } else {
            before.proxy_snapshot
        },
        api: None,
        xray_metrics: None,
        sidecar_ports: after.sidecar_ports,
        journal: after.journal,
        traffic_prev: None,
        traffic_speed: (0, 0),
        ..before
    })
}

impl Runtime {
    /// Nothing ran yet.
    pub open spec fn is_fresh(self) -> bool {
        &&& self.sidecar_ports@.len() == 0
        &&& !self.system_proxy_on
        &&& self.proxy_snapshot is None
        &&& self.api is None
        &&& self.xray_metrics is None
        &&& self.last_config_path is None
        &&& self.last_binary_path is None
        &&& self.traffic_prev is None
        &&& self.traffic_speed == (0u64, 0u64)
        &&& self.journal@ == empty_journal()
        &&& self.last_sample_at is None
        &&& self.core_started_at is None
        &&& self.custom_inbound_port is None
        &&& !self.custom_has_clash_api
        &&& !self.custom_has_tun
        &&& self.core_memory_cache is None
    }

    pub fn new() -> (r: Self)
        ensures
            r.is_fresh(),
    {
        Runtime {
            sidecar_ports: Vec::new(),
            system_proxy_on: false,
            proxy_snapshot: None,
            api: None,
            xray_metrics: None,
            last_config_path: None,
            last_binary_path: None,
            traffic_prev: None,
            traffic_speed: (0, 0),
            journal: Journal::new(),
            last_sample_at: None,
            core_started_at: None,
            custom_inbound_port: None,
            custom_has_clash_api: false,
            custom_has_tun: false,
            core_memory_cache: None,
        }
    }

    /// The controller of the core.
    pub fn api_clone(&self) -> (r: Option<ApiEndpoint>)
        ensures
            r == self.api,
    {
        match &self.api {
            Some(a) => Some(a.copy()),
            None => None,
        }
    }

    pub fn clash_api_clone(&self) -> (r: Option<ApiEndpoint>)
        ensures
            r == self.api,
    {
        self.api_clone()
    }

    /// The counters of the Xray core.
    pub fn xray_metrics_clone(&self) -> (r: Option<MetricsEndpoint>)
        ensures
            r == self.xray_metrics,
    {
        match &self.xray_metrics {
            Some(m) => Some(
                MetricsEndpoint { host: m.host.clone(), port: m.port, session: m.session },
            ),
            None => None,
        }
    }

    /// What is shown of the session. A core that exited by itself has no start any more;
    /// one that runs and has none got it now.
    pub fn status(&mut self, store: &AppStore, facts: &CoreFacts, now_secs: i64) -> (r: ProxyStatus)
        ensures
            *final(self) == (Runtime {
                core_started_at: started_at(old(self).core_started_at, facts.running, now_secs),
                ..*old(self)
            }),
            shows_session(r, *final(self), *store, *facts),
    {
        if !facts.running {
            self.core_started_at = None;
        } else if self.core_started_at.is_none() {
            self.core_started_at = Some(now_secs);
        }
        let settings = &store.settings;
        let source = settings.runtime_source();
        let totals = match &self.traffic_prev {
            Some((_, t)) => *t,
            None => TrafficTotals { upload_total: 0, download_total: 0, connections: 0 },
        };
        let (word, id, name) = match &source {
            RuntimeSource::Generated => ("generated", None, None),
            RuntimeSource::Singbox { id } => (
                "singbox",
                Some(id.clone()),
                name_of_first(&store.subscriptions, id.as_str()),
            ),
        };
        ProxyStatus {
            running: facts.running,
            core_state: facts.state,
            system_proxy: self.system_proxy_on,
            tun_enabled: settings.tun_enabled,
            capture_mode: settings.capture_mode.as_str().to_owned(),
            outbound_mode: settings.outbound_mode.as_str().to_owned(),
            mixed_port: match self.custom_inbound_port {
                Some(p) => p,
                None => settings.mixed_port,
            },
            api_port: settings.api_port,
            current_node_id: clone_opt(&settings.current_node_id),
            error: clone_opt(&facts.error),
            core_path: clone_opt(&self.last_binary_path),
            config_path: clone_opt(&self.last_config_path),
            upload_speed: self.traffic_speed.0,
            download_speed: self.traffic_speed.1,
            upload_total: totals.upload_total,
            download_total: totals.download_total,
            connections: totals.connections,
            smart_switch: settings.auto_select.is_smart(),
            auto_select: settings.auto_select.as_str().to_owned(),
            core_started_at: self.core_started_at,
            runtime_source: word.to_owned(),
            runtime_profile_id: id,
            runtime_profile_name: name,
            custom_has_clash_api: self.custom_has_clash_api,
            custom_has_tun: self.custom_has_tun,
            custom_inbound_port: self.custom_inbound_port,
            core_memory_bytes: facts.memory_bytes,
            core_type: if facts.running {
                facts.kind.as_str().to_owned()
            } else {
                settings.core_type.clone()
            },
            core_elevated: facts.elevated,
            sidecar_running: facts.running && facts.sidecar_running,
        }
    }

    /// Whether the core's process has to be read.
    pub fn core_mem_info(&self, pid: Option<u32>, now_ms: u64) -> (r: MemoryPlan)
        ensures
            match pid {
                None => r is NoProcess,
                Some(p) => match self.core_memory_cache {
                    Some(c) if c.pid == p && (now_ms < c.at_ms || now_ms - c.at_ms
                        < MEMORY_CACHE_MS) => r == MemoryPlan::Kept(
                        ProcessMemInfo { rss_bytes: Some(c.bytes), is_root: c.is_root },
                    ),
                    _ => r == MemoryPlan::Read(p),
                },
            },
    {
        match pid {
            None => MemoryPlan::NoProcess,
            Some(p) => {
                if let Some(c) = self.core_memory_cache {
                    if c.pid == p && (now_ms < c.at_ms || now_ms - c.at_ms < MEMORY_CACHE_MS) {
                        return MemoryPlan::Kept(
                            ProcessMemInfo { rss_bytes: Some(c.bytes), is_root: c.is_root },
                        );
                    }
                }
                MemoryPlan::Read(p)
            },
        }
    }

    /// Keeps a reading of the core's process, where it has one.
    pub fn keep_mem_info(&mut self, pid: u32, info: ProcessMemInfo, now_ms: u64)
        ensures
            *final(self) == (Runtime {
                core_memory_cache: match info.rss_bytes {
                    Some(bytes) => Some(
                        MemoryCache { pid, bytes, is_root: info.is_root, at_ms: now_ms },
                    ),
                    None => old(self).core_memory_cache,
                },
                ..*old(self)
            }),
    {
        if let Some(bytes) = info.rss_bytes {
            self.core_memory_cache = Some(
                MemoryCache { pid, bytes, is_root: info.is_root, at_ms: now_ms },
            );
        }
    }

    /// How a node fared of late.
    pub fn passive_node_stats(&self, node_tag: &str, lookback_ms: i64, now_ms: i64) -> (r:
        PassiveNodeStats)
        ensures
            exists|keys: Seq<Seq<char>>|
                #[trigger] is_sample_list(self.journal@, keys, node_tag@, lookback_ms, now_ms) && r
                    == stats_of(self.journal@, keys),
    {
        self.journal.passive_node_stats(node_tag, lookback_ms, now_ms)
    }

    /// Takes over the connections and the counters of the core. `speed` is what the
    /// counters make since the last time, and is left out where that is too short ago.
    pub fn apply_snapshot(
        &mut self,
        snap: ConnectionsSnapshot,
        speed: Option<(u64, u64)>,
        now_ms: i64,
        steady_ms: u64,
    )
        ensures
            sampled(
                *old(self),
                *final(self),
                connection_views(snap.connections@),
                TrafficTotals {
                    upload_total: snap.upload_total,
                    download_total: snap.download_total,
                    connections: snap.connections@.len() as u32,
                },
                speed,
                now_ms,
                steady_ms,
            ),
    {
        let totals = TrafficTotals {
            upload_total: snap.upload_total,
            download_total: snap.download_total,
            connections: snap.connections.len() as u32,
        };
        if self.traffic_prev.is_some() {
            if let Some(s) = speed {
                self.traffic_speed = s;
            }
        }
        self.traffic_prev = Some((steady_ms, totals));
        self.journal.ingest_connections(snap.connections, now_ms);
        self.last_sample_at = Some(steady_ms);
    }

    /// What the counters rose by since the last time, up and down, with the milliseconds
    /// in between; nothing where there was no last time.
    pub fn traffic_since(&self, upload_total: u64, download_total: u64, steady_ms: u64) -> (r:
        Option<(u64, u64, u64)>)
        ensures
            r == match self.traffic_prev {
                Some(p) => Some(
                    (
                        rise(p.1.upload_total, upload_total),
                        rise(p.1.download_total, download_total),
                        rise(p.0, steady_ms),
                    ),
                ),
                None => None,
            },
    {
        match &self.traffic_prev {
            Some((at, t)) => Some(
                (
                    upload_total.saturating_sub(t.upload_total),
                    download_total.saturating_sub(t.download_total),
                    steady_ms.saturating_sub(*at),
                ),
            ),
            None => None,
        }
    }

    /// Takes over the connections that the core reports.
    pub fn ingest_connections(&mut self, connections: Vec<ConnectionInfo>, now_ms: i64)
        ensures
            final(self).journal@ == ingested(
                old(self).journal@,
                connection_views(connections@),
                now_ms,
            ),
            *final(self) == (Runtime { journal: final(self).journal, ..*old(self) }),
    {
        self.journal.ingest_connections(connections, now_ms);
    }

    /// All open connections.
    pub fn live_connections(&self, store: &AppStore) -> (r: Vec<ConnectionView>)
        requires
            store.ids_can_be_cut(),
        ensures
            shows_connections(r@, self.journal@.live, store.tag_map()),
    {
        let tags = node_tag_info_map(store);
        self.journal.live_views(&tags)
    }

    /// What changed among the open connections since a revision.
    pub fn live_connection_batch(
        &self,
        store: &AppStore,
        since_revision: Option<u64>,
        last_order_revision: Option<u64>,
    ) -> (r: LiveConnectionBatch)
        requires
            store.ids_can_be_cut(),
        ensures
            is_batch(
                r,
                self.journal@,
                store.tag_map(),
                since_revision,
                last_order_revision,
            ),
    {
        let tags = node_tag_info_map(store);
        self.journal.live_connection_batch(&tags, since_revision, last_order_revision)
    }

    /// The requests that closed.
    pub fn request_history(
        &self,
        store: &AppStore,
        query: Option<&str>,
        limit: Option<usize>,
        after_seq: Option<u64>,
    ) -> (r: RequestBatch)
        requires
            store.ids_can_be_cut(),
        ensures
            is_request_batch(
                r,
                self.journal@,
                store.tag_map(),
                query_text(query),
                page_limit(limit),
                after_seq,
                false,
            ),
    {
        let tags = node_tag_info_map(store);
        self.journal.request_batch(&tags, query, limit, after_seq, false)
    }

    /// The requests that closed and look as if they had failed.
    pub fn request_failures(
        &self,
        store: &AppStore,
        query: Option<&str>,
        limit: Option<usize>,
        after_seq: Option<u64>,
    ) -> (r: RequestBatch)
        requires
            store.ids_can_be_cut(),
        ensures
            is_request_batch(
                r,
                self.journal@,
                store.tag_map(),
                query_text(query),
                page_limit(limit),
                after_seq,
                true,
            ),
    {
        let tags = node_tag_info_map(store);
        self.journal.request_batch(&tags, query, limit, after_seq, true)
    }

    /// Forgets the requests that closed.
    pub fn clear_request_history(&mut self)
        ensures
            final(self).journal@ == history_cleared(old(self).journal@),
            *final(self) == (Runtime { journal: final(self).journal, ..*old(self) }),
    {
        self.journal.clear_request_history();
    }
}

pub open spec fn rise(from: u64, to: u64) -> u64 {
    if to > from {
        (to - from) as u64
    } else {
        0
    }
}

// ---------------------------------------------------------------------------
// The proxy of the system, and the end of a session
// ---------------------------------------------------------------------------
/// What a change of the system's proxy asks for.
#[derive(Debug, Clone, Copy, PartialEq, Eq, Structural)]
pub enum ProxyChange {
    /// It is as it should be.
    Nothing,
    /// Point the system at this port of the machine.
    Enable(u16),
    /// Put the settings back that were there before.
    Restore,
}

/// What a stop asks for next.
#[derive(Debug, Clone, Copy, PartialEq, Eq, Structural)]
pub enum StopStep {
    RestoreProxy,
    StopCore,
}

impl Runtime {
    /// The port that the system is pointed at.
    pub open spec fn proxy_port(self, store: AppStore) -> Option<u16> {
        if runtime_of(store.settings.runtime_source@) is Singbox {
            self.custom_inbound_port
        } else {
            Some(store.settings.mixed_port)
        }
    }

    /// What it takes to turn the system's proxy on or off.
    pub fn plan_system_proxy(&self, store: &AppStore, enabled: bool) -> (r: Result<
        ProxyChange,
        AppError,
    >)
        ensures
            enabled == self.system_proxy_on ==> r == Ok::<ProxyChange, AppError>(
                ProxyChange::Nothing,
            ),
            !enabled && self.system_proxy_on ==> r == Ok::<ProxyChange, AppError>(
                ProxyChange::Restore,
            ),
            enabled && !self.system_proxy_on ==> match self.proxy_port(*store) {
                Some(port) => r == Ok::<ProxyChange, AppError>(ProxyChange::Enable(port)),
                None => r is Err && r->Err_0@ == ErrorModel::Core(
                    "当前自写配置没有 mixed/http/socks inbound，无法开启系统代理"@,
                ),
            },
    {
        if enabled == self.system_proxy_on {
            return Ok(ProxyChange::Nothing);
        }
        if !enabled {
            return Ok(ProxyChange::Restore);
        }
        let port = if store.settings.runtime_source().is_custom() {
            self.custom_inbound_port
        } else {
            Some(store.settings.mixed_port)
        };
        match port {
            Some(p) => Ok(ProxyChange::Enable(p)),
            None => Err(
                AppError::Core(
                    "当前自写配置没有 mixed/http/socks inbound，无法开启系统代理".to_owned(),
                ),
            ),
        }
    }

    /// The system was pointed at the client, or was not.
    pub fn proxy_enabled(&mut self, result: Result<SystemProxySnapshot, AppError>) -> (r: Result<
        (),
        AppError,
    >)
        ensures
            match result {
                Ok(snap) => r is Ok && *final(self) == (Runtime {
                    system_proxy_on: true,
                    proxy_snapshot: Some(snap),
                    ..*old(self)
                }),
                Err(e) => r == Err::<(), AppError>(e) && *final(self) == *old(self),
            },
    {
        match result {
            Ok(snap) => {
                self.proxy_snapshot = Some(snap);
                self.system_proxy_on = true;
                Ok(())
            },
            Err(e) => Err(e),
        }
    }

    /// The system's settings were put back, or were not. Only where they were does the
    /// session forget them.
    pub fn proxy_restored(&mut self, result: Result<(), AppError>) -> (r: Result<(), AppError>)
        ensures
            result is Ok ==> r is Ok,
            result is Err ==> r == Err::<(), AppError>(result->Err_0),
            *final(self) == if result is Ok {
                Runtime { system_proxy_on: false, proxy_snapshot: None, ..*old(self) }
            } else {
                *old(self)
            },
    {
        match result {
            Ok(()) => {
                self.system_proxy_on = false;
                self.proxy_snapshot = None;
                Ok(())
            },
            Err(e) => Err(e),
        }
    }

    /// Turns the system's proxy on or off. `enable` and `restore` are what the system
    /// answered to the step that [`Runtime::plan_system_proxy`] asked for.
    pub fn set_system_proxy(
        &mut self,
        store: &AppStore,
        enabled: bool,
        enable: Result<SystemProxySnapshot, AppError>,
        restore: Result<(), AppError>,
        facts: &CoreFacts,
        now_secs: i64,
    ) -> (r: Result<ProxyStatus, AppError>)
        ensures
            r is Ok ==> shows_session(r->Ok_0, *final(self), *store, *facts),
            enabled == old(self).system_proxy_on ==> r is Ok && *final(self) == (Runtime {
                core_started_at: started_at(old(self).core_started_at, facts.running, now_secs),
                ..*old(self)
            }),
            enabled && !old(self).system_proxy_on ==> match old(self).proxy_port(*store) {
                None => r is Err && r->Err_0@ == ErrorModel::Core(
                    "当前自写配置没有 mixed/http/socks inbound，无法开启系统代理"@,
                ) && *final(self) == *old(self),
                Some(port) => match enable {
                    Err(e) => r == Err::<ProxyStatus, AppError>(e) && *final(self) == *old(self),
                    Ok(snap) => r is Ok && *final(self) == (Runtime {
                        system_proxy_on: true,
                        proxy_snapshot: Some(snap),
                        core_started_at: started_at(
                            old(self).core_started_at,
                            facts.running,
                            now_secs,
                        ),
                        ..*old(self)
                    }),
                },
            },
            !enabled && old(self).system_proxy_on ==> match restore {
                Err(e) => r == Err::<ProxyStatus, AppError>(e) && *final(self) == *old(self),
                Ok(()) => r is Ok && *final(self) == (Runtime {
                    system_proxy_on: false,
                    proxy_snapshot: None,
                    core_started_at: started_at(
                        old(self).core_started_at,
                        facts.running,
                        now_secs,
                    ),
                    ..*old(self)
                }),
            },
    {
        match self.plan_system_proxy(store, enabled) {
            Err(e) => {
                return Err(e);
            },
            Ok(ProxyChange::Nothing) => {},
            Ok(ProxyChange::Enable(_)) => {
                match self.proxy_enabled(enable) {
                    Ok(()) => {},
                    Err(e) => {
                        return Err(e);
                    },
                }
            },
            Ok(ProxyChange::Restore) => {
                match self.proxy_restored(restore) {
                    Ok(()) => {},
                    Err(e) => {
                        return Err(e);
                    },
                }
            },
        }
        Ok(self.status(store, facts, now_secs))
    }

    /// What a stop does first: where the system points at the client, its settings are put
    /// back before the core goes.
    pub fn stop_begins(&self) -> (r: StopStep)
        ensures
            r == if self.system_proxy_on {
                StopStep::RestoreProxy
            } else {
                StopStep::StopCore
            },
    {
        if self.system_proxy_on {
            StopStep::RestoreProxy
        } else {
            StopStep::StopCore
        }
    }

    /// Forgets the clients of the core and the ports of the second one, before the
    /// processes are stopped.
    pub fn release_clients(&mut self)
        ensures
            final(self).sidecar_ports@.len() == 0,
            *final(self) == (Runtime {
                api: None,
                xray_metrics: None,
                sidecar_ports: final(self).sidecar_ports,
                ..*old(self)
            }),
    {
        self.api = None;
        self.xray_metrics = None;
        self.sidecar_ports = Vec::new();
    }

    /// The second core has to be stopped.
    pub fn sidecar_needs_stop(facts: &CoreFacts) -> (r: bool)
        ensures
            r == (facts.sidecar_running || facts.sidecar_state != CoreState::Stopped),
    {
        facts.sidecar_running || facts.sidecar_state != CoreState::Stopped
    }

    /// The core was stopped, or was not. The clients are forgotten either way; the open
    /// connections and the start only where it was.
    pub fn stop_core(&mut self, stopped: Result<(), AppError>) -> (r: Result<(), AppError>)
        ensures
            stopped is Ok ==> r is Ok,
            stopped is Err ==> r == Err::<(), AppError>(stopped->Err_0),
            final(self).sidecar_ports@.len() == 0,
            final(self).journal@ == if stopped is Ok {
                live_cleared(old(self).journal@)
            } else {
                old(self).journal@
            },
            *final(self) == (Runtime {
                api: None,
                xray_metrics: None,
                sidecar_ports: final(self).sidecar_ports,
                core_started_at: if stopped is Ok {
                    None
                } else {
                    old(self).core_started_at
                },
                journal: final(self).journal,
                ..*old(self)
            }),
    {
        self.release_clients();
        match stopped {
            Ok(()) => {
                self.core_started_at = None;
                self.journal.clear_live_connections();
                Ok(())
            },
            Err(e) => Err(e),
        }
    }

    /// The user stops the session. `restored` is what the system answered where the session
    /// had changed its proxy; the core is stopped only behind that, with the result
    /// `stopped`. Where the settings could not be put back, everything stays as it is.
    pub fn stop_proxy(
        &mut self,
        store: &AppStore,
        restored: Result<(), AppError>,
        stopped: Result<(), AppError>,
        facts: &CoreFacts,
        now_secs: i64,
    ) -> (r: Result<ProxyStatus, AppError>)
        ensures
            r is Ok ==> shows_session(r->Ok_0, *final(self), *store, *facts),
            old(self).system_proxy_on && restored is Err ==> *final(self) == *old(self) && r
                == Err::<ProxyStatus, AppError>(restored->Err_0),
            !(old(self).system_proxy_on && restored is Err) ==> {
                &&& !final(self).system_proxy_on
                &&& old(self).system_proxy_on ==> final(self).proxy_snapshot is None
                &&& final(self).api is None
                &&& final(self).xray_metrics is None
                &&& final(self).sidecar_ports@.len() == 0
                &&& stopped is Err ==> r == Err::<ProxyStatus, AppError>(stopped->Err_0)
                    && final(self).journal@ == old(self).journal@
                &&& stopped is Ok ==> r is Ok && final(self).journal@ == live_cleared(
                    old(self).journal@,
                )
                &&& *final(self) == (Runtime {
                    system_proxy_on: false,
                    proxy_snapshot: if old(self).system_proxy_on {
                        None
                    } else {
                        old(self).proxy_snapshot
                    },
                    api: None,
                    xray_metrics: None,
                    sidecar_ports: final(self).sidecar_ports,
                    core_started_at: if stopped is Ok {
                        started_at(None, facts.running, now_secs)
                    } else {
                        old(self).core_started_at
                    },
                    journal: final(self).journal,
                    ..*old(self)
                })
            },
    {
        if self.system_proxy_on {
            match self.proxy_restored(restored) {
                Ok(()) => {},
                Err(e) => {
                    return Err(e);
                },
            }
        }
        match self.stop_core(stopped) {
            Ok(()) => {},
            Err(e) => {
                return Err(e);
            },
        }
        Ok(self.status(store, facts, now_secs))
    }

    /// The client exits. `restored` is what the system answered where the session had
    /// changed its proxy. The result says that none of the client's settings is left in
    /// the system.
    pub fn shutdown(&mut self, restored: Result<(), AppError>) -> (r: bool)
        ensures
            r == (!old(self).system_proxy_on || restored is Ok),
            shut_down(*old(self), *final(self), r),
    {
        let cleared = if self.system_proxy_on {
            self.proxy_restored(restored).is_ok()
        } else {
            true
        };
        self.release_clients();
        self.journal.clear_live_connections();
        self.traffic_prev = None;
        self.traffic_speed = (0, 0);
        cleared
    }
}

impl Default for Runtime {
    fn default() -> (r: Self)
        ensures
            r.is_fresh(),
    {
        Runtime::new()
    }
}

/// Which of the two processes answers for the log of a core.
#[derive(Debug, Clone, Copy, PartialEq, Eq, Structural)]
pub enum LogOwner {
    Sidecar,
    Main,
    Nobody,
}

/// Which process answers for the log of a core: the second one where it ran that core and
/// has a log, else the main one where it ran that core.
pub open spec fn owner_of_log(
    kind: CoreKind,
    sidecar_kind: CoreKind,
    sidecar_has_log: bool,
    main_kind: CoreKind,
) -> LogOwner {
    if sidecar_kind == kind && sidecar_has_log {
        LogOwner::Sidecar
    } else if main_kind == kind {
        LogOwner::Main
    } else {
        LogOwner::Nobody
    }
}

impl Runtime {
    /// Which process the end of a core's log is asked of.
    pub fn core_log_tail_for(
        &self,
        kind: CoreKind,
        sidecar_kind: CoreKind,
        sidecar_has_log: bool,
        main_kind: CoreKind,
    ) -> (r: LogOwner)
        ensures
            r == owner_of_log(kind, sidecar_kind, sidecar_has_log, main_kind),
    {
        if sidecar_kind == kind && sidecar_has_log {
            LogOwner::Sidecar
        } else if main_kind == kind {
            LogOwner::Main
        } else {
            LogOwner::Nobody
        }
    }

    /// Which process is told to clear a core's log: the one that is asked for its end.
    pub fn core_log_clear_for(
        &self,
        kind: CoreKind,
        sidecar_kind: CoreKind,
        sidecar_has_log: bool,
        main_kind: CoreKind,
    ) -> (r: LogOwner)
        ensures
            r == owner_of_log(kind, sidecar_kind, sidecar_has_log, main_kind),
    {
        self.core_log_tail_for(kind, sidecar_kind, sidecar_has_log, main_kind)
    }

    /// The core was stopped for a restart, or was not. The result says whether the system's
    /// proxy is on, which a restart leaves alone.
    pub fn restart_core(&mut self, stopped: Result<(), AppError>) -> (r: Result<bool, AppError>)
        ensures
            stopped is Ok ==> r == Ok::<bool, AppError>(old(self).system_proxy_on)
                && final(self).journal@ == live_cleared(old(self).journal@)
                && final(self).core_started_at is None,
            stopped is Err ==> r == Err::<bool, AppError>(stopped->Err_0) && final(self).journal@
                == old(self).journal@,
            final(self).sidecar_ports@.len() == 0,
            *final(self) == (Runtime {
                api: None,
                xray_metrics: None,
                sidecar_ports: final(self).sidecar_ports,
                core_started_at: if stopped is Ok {
                    None
                } else {
                    old(self).core_started_at
                },
                journal: final(self).journal,
                ..*old(self)
            }),
    {
        let on = self.system_proxy_on;
        match self.stop_core(stopped) {
            Ok(()) => Ok(on),
            Err(e) => Err(e),
        }
    }
}

} // verus!
