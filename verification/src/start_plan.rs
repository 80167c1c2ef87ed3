//! The start of a session, up to the configuration of its core.

use crate::core_kind::CoreKind;
use crate::domain::node::ProxyNode;
use crate::domain::settings::{runtime_of, AppSettings, RuntimeModel};
use crate::error::{AppError, ErrorModel};
use crate::runtime::{shows_session, started_at, CoreFacts, ProxyStatus, Runtime};
use crate::sidecar::{compute_sidecar_plan, delegated, SidecarPlan};
use crate::start::{
    check_start, custom_profile, profile_content, resolve_clash_api_secret, secret_of,
    start_refusal, start_route, StartRoute, StartSupplies,
};
use crate::storage::AppStore;
use crate::text::{lowered, opt_view, trimmed};
use vstd::prelude::*;

verus! {

/// A generated session whose configuration can be made.
#[derive(Debug)]
pub struct GeneratedStart {
    pub kind: CoreKind,
    /// The secret of the controller; empty for none.
    pub secret: String,
    pub sidecar: Option<SidecarPlan>,
    /// The core needs the rights of an administrator.
    pub elevated: bool,
}

/// What a start goes on with.
#[derive(Debug)]
pub enum StartPlan {
    /// The core runs already.
    Running(ProxyStatus),
    /// The profile of this id, with its configuration.
    Custom { id: String, content: String },
    Generated(GeneratedStart),
}

/// The kind of core that the settings ask for.
pub open spec fn core_asked(settings: AppSettings) -> CoreKind {
    CoreKind::of_word(lowered(trimmed(settings.core_type@)))
}

/// The nodes that the second core would serve, with their ports.
pub open spec fn handed_over(store: AppStore, nodes: Seq<ProxyNode>, diag_port: u16) -> Seq<
    (Seq<char>, u16),
> {
    delegated(store.settings, store.chains@, nodes, diag_port)
}

/// The store once the secret of the controller is settled: the Xray core has none.
pub open spec fn secret_settled(
    kind: CoreKind,
    before: AppStore,
    after: AppStore,
    generated: Seq<char>,
) -> bool {
    if kind == CoreKind::Xray {
        after == before
    } else {
        &&& opt_view(after.settings.clash_api_secret) == secret_of(before.settings, generated)
        &&& after == (AppStore {
            settings: AppSettings {
                clash_api_secret: after.settings.clash_api_secret,
                ..before.settings
            },
            ..before
        })
    }
}

/// The plan of a generated session.
pub open spec fn is_generated_start(
    g: GeneratedStart,
    kind: CoreKind,
    store: AppStore,
    nodes: Seq<ProxyNode>,
    diag_port: u16,
    generated: Seq<char>,
) -> bool {
    let ports = handed_over(store, nodes, diag_port);
    &&& g.kind == kind
    &&& g.elevated == store.settings.tun_enabled
    &&& g.secret@ == secret_used(kind, store.settings, generated)
    &&& is_sidecar(g.sidecar, ports)
}

/// The plan for those nodes and ports; none for none.
pub open spec fn is_sidecar(plan: Option<SidecarPlan>, ports: Seq<(Seq<char>, u16)>) -> bool {
    match plan {
        Some(p) => ports.len() > 0 && p@ == ports,
        None => ports.len() == 0,
    }
}

/// The session once a generated one begins: nothing of a profile is left.
pub open spec fn without_profile(rt: Runtime) -> Runtime {
    Runtime {
        custom_inbound_port: None,
        custom_has_clash_api: false,
        custom_has_tun: false,
        ..rt
    }
}

/// The secret that the controller starts with: the Xray core has none.
pub open spec fn secret_used(kind: CoreKind, settings: AppSettings, generated: Seq<char>) -> Seq<char> {
    if kind == CoreKind::Xray || secret_of(settings, generated) is None {
        Seq::empty()
    } else {
        secret_of(settings, generated)->0
    }
}

fn settle_secret(kind: CoreKind, store: &mut AppStore, generated: String) -> (r: String)
    ensures
        r@ == secret_used(kind, old(store).settings, generated@),
        secret_settled(kind, *old(store), *final(store), generated@),
{
    if kind == CoreKind::Xray {
        let r = String::new();
        proof {
            assert(r@ =~= Seq::empty());
        }
        r
    } else {
        resolve_clash_api_secret(store, generated)
    }
}

/// The nodes for the second core, and the rights that the session needs, where nothing keeps
/// it from starting.
fn check_generated(
    kind: CoreKind,
    store: &AppStore,
    nodes: &Vec<ProxyNode>,
    s: &StartSupplies,
    diag_port: u16,
) -> (r: Result<(Option<SidecarPlan>, bool), AppError>)
    ensures
        match start_refusal(
            kind,
            store.settings,
            nodes@,
            handed_over(*store, nodes@, diag_port).len() > 0,
            *s,
        ) {
            Some(e) => r is Err && r->Err_0@ == e,
            None => r is Ok && (r->Ok_0).1 == store.settings.tun_enabled && is_sidecar(
                (r->Ok_0).0,
                handed_over(*store, nodes@, diag_port),
            ),
        },
{
    let sidecar = compute_sidecar_plan(&store.settings, &store.chains, nodes, diag_port);
    match check_start(kind, &store.settings, nodes, sidecar.is_some(), s) {
        Ok(()) => Ok((sidecar, store.settings.tun_enabled)),
        Err(e) => Err(e),
    }
}

impl Runtime {
    /// A generated session begins: `nodes` are those of the enabled subscriptions, `generated`
    /// is a new secret for the case that one is needed.
    pub fn start_generated(
        &mut self,
        kind: CoreKind,
        store: &mut AppStore,
        nodes: &Vec<ProxyNode>,
        s: &StartSupplies,
        generated: String,
        diag_port: u16,
    ) -> (r: Result<GeneratedStart, AppError>)
        ensures
            *final(self) == without_profile(*old(self)),
            match start_refusal(
                kind,
                old(store).settings,
                nodes@,
                handed_over(*old(store), nodes@, diag_port).len() > 0,
                *s,
            ) {
                Some(e) => r is Err && r->Err_0@ == e && *final(store) == *old(store),
                None => r is Ok && is_generated_start(
                    r->Ok_0,
                    kind,
                    *old(store),
                    nodes@,
                    diag_port,
                    generated@,
                ) && secret_settled(kind, *old(store), *final(store), generated@),
            },
    {
        self.generated_begins();
        let (sidecar, elevated) = match check_generated(kind, store, nodes, s, diag_port) {
            Ok(x) => x,
            Err(e) => {
                return Err(e);
            },
        };
        let secret = settle_secret(kind, store, generated);
        Ok(GeneratedStart { kind, secret, sidecar, elevated })
    }

    /// A session begins, in the way that the settings ask for.
    pub fn start_proxy(
        &mut self,
        store: &mut AppStore,
        nodes: &Vec<ProxyNode>,
        facts: &CoreFacts,
        s: &StartSupplies,
        generated: String,
        diag_port: u16,
        now_secs: i64,
    ) -> (r: Result<StartPlan, AppError>)
        ensures
            facts.running ==> {
                &&& r is Ok && r->Ok_0 is Running
                &&& shows_session(r->Ok_0->Running_0, *final(self), *old(store), *facts)
                &&& *final(self) == (Runtime {
                    core_started_at: started_at(old(self).core_started_at, true, now_secs),
                    ..*old(self)
                })
                &&& *final(store) == *old(store)
            },
            !facts.running ==> match runtime_of(old(store).settings.runtime_source@) {
                RuntimeModel::Singbox(id) => {
                    &&& *final(self) == *old(self)
                    &&& *final(store) == *old(store)
                    &&& match profile_content(old(store).subscriptions@, id) {
                        Some(c) => r is Ok && r->Ok_0 is Custom && r->Ok_0->id@ == id
                            && r->Ok_0->content@ == c,
                        None => r is Err && r->Err_0@ == ErrorModel::Core(
                            "selected sing-box profile was not found"@,
                        ),
                    }
                },
                RuntimeModel::Generated => {
                    let kind = core_asked(old(store).settings);
                    &&& *final(self) == without_profile(*old(self))
                    &&& match start_refusal(
                        kind,
                        old(store).settings,
                        nodes@,
                        handed_over(*old(store), nodes@, diag_port).len() > 0,
                        *s,
                    ) {
                        Some(e) => r is Err && r->Err_0@ == e && *final(store) == *old(store),
                        None => r is Ok && r->Ok_0 is Generated && is_generated_start(
                            r->Ok_0->Generated_0,
                            kind,
                            *old(store),
                            nodes@,
                            diag_port,
                            generated@,
                        ) && secret_settled(kind, *old(store), *final(store), generated@),
                    }
                },
            },
    {
        match start_route(facts.running, &store.settings) {
            StartRoute::Running => Ok(StartPlan::Running(self.status(store, facts, now_secs))),
            StartRoute::Custom(id) => {
                match custom_profile(store, id.as_str()) {
                    Ok(content) => Ok(StartPlan::Custom { id, content }),
                    Err(e) => Err(e),
                }
            },
            StartRoute::Generated(kind) => {
                match self.start_generated(kind, store, nodes, s, generated, diag_port) {
                    Ok(g) => Ok(StartPlan::Generated(g)),
                    Err(e) => Err(e),
                }
            },
        }
    }
}

/// The secret of one start is that of the next, whatever new secret that is offered.
pub proof fn law_start_keeps_its_secret(
    kind: CoreKind,
    before: AppStore,
    after: AppStore,
    last: AppStore,
    first: Seq<char>,
    second: Seq<char>,
)
    requires
        trimmed(first).len() > 0,
        secret_settled(kind, before, after, first),
        secret_settled(kind, after, last, second),
    ensures
        opt_view(last.settings.clash_api_secret) == opt_view(after.settings.clash_api_secret),
{
}

} // verus!
