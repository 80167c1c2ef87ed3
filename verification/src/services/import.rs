//! Imports of subscriptions: what becomes of the nodes that a parser found.

use crate::digest::{short_hash, short_hash_of};
use crate::domain::node::{
    id_cut_ok, seeds, settled_ids, IdSeed, ParseResult, ProxyNode, SkippedProxy, SubscriptionFormat,
};
use crate::domain::subscription::{
    merged, no_traffic, SourceModel, Subscription, SubscriptionSource, SubscriptionTraffic,
};
use crate::error::{AppError, ErrorModel};
use crate::services::disposition::{disposition_name, parse_disposition_filename_str};
use crate::services::quota::{
    apply_remark_name, comment_userinfo, head_lines, header_userinfo, is_remark_name, noted,
    parse_subscription_userinfo, parse_userinfo_from_content, remark, FloatReading, Header,
    TrafficModel,
};
use crate::text::{
    byte_len, concat2, concat3, decimal, decimal_of, has_prefix, list_holds, long_decimal_of,
    opt_view, starts_with, trim, trimmed, views,
};
use crate::web::{
    canonical_subscription_url, canonical_url, lossy_text, parse_url, text_lossy, url_parsed,
};
use vstd::prelude::*;
use vstd::utf8::{decode_utf8, encode_utf8, valid_utf8};

verus! {

/// The longest body that is imported, in bytes.
pub const MAX_BODY_BYTES: usize = 8_388_608;

/// What an import gives.
#[derive(Debug)]
pub struct ImportOutcome {
    pub subscription: Subscription,
    pub nodes: Vec<ProxyNode>,
    /// The entries that the parser left out.
    pub skipped: Vec<SkippedProxy>,
}

/// What an import needs to know from outside: the moment, and what texts read as
/// that stand for floating-point numbers and for sizes.
#[derive(Debug)]
pub struct ImportContext {
    /// Unix seconds.
    pub now: i64,
    /// Nanoseconds since the Unix epoch.
    pub nanos: Option<u128>,
    pub sizes: Vec<(String, u64)>,
    pub floats: Vec<(String, FloatReading)>,
}

/// The `User-Agent` of fetches: panels that look for a Clash client accept it.
pub fn subscription_user_agent() -> (r: String)
    ensures
        r@ == "satelite-proxy/0.1 clash-verge/v2.5 flclash/1"@,
{
    "satelite-proxy/0.1 clash-verge/v2.5 flclash/1".to_owned()
}

/// The name of a format.
pub open spec fn format_name(f: SubscriptionFormat) -> Seq<char> {
    match f {
        SubscriptionFormat::ClashYaml => "clash_yaml"@,
        SubscriptionFormat::UriList => "uri_list"@,
        SubscriptionFormat::Base64UriList => "base64_uri_list"@,
        SubscriptionFormat::SingboxJson => "singbox_json"@,
        SubscriptionFormat::Manual => "manual"@,
    }
}

pub fn format_label(f: SubscriptionFormat) -> (r: String)
    ensures
        r@ == format_name(f),
{
    match f {
        SubscriptionFormat::ClashYaml => "clash_yaml".to_owned(),
        SubscriptionFormat::UriList => "uri_list".to_owned(),
        SubscriptionFormat::Base64UriList => "base64_uri_list".to_owned(),
        SubscriptionFormat::SingboxJson => "singbox_json".to_owned(),
        SubscriptionFormat::Manual => "manual".to_owned(),
    }
}

/// The host of a URL, as the name of a subscription.
pub open spec fn url_name(url: Seq<char>) -> Seq<char> {
    match url_parsed(url) {
        Some(u) => match u.host {
            Some(h) => h,
            None => "Subscription"@,
        },
        None => "Subscription"@,
    }
}

/// The host of a URL, as the name of a subscription.
pub fn name_from_url(url: &str) -> (r: String)
    ensures
        r@ == url_name(url@),
{
    match parse_url(url) {
        Some(u) => match u.host {
            Some(h) => h,
            None => "Subscription".to_owned(),
        },
        None => "Subscription".to_owned(),
    }
}

/// The text that the id of a subscription is a hash of. A node that was entered by
/// hand is told apart by its moment.
pub open spec fn id_text(source: SourceModel, nanos: Option<u128>) -> Seq<char> {
    match source {
        SourceModel::Url(url) => "url|"@ + (match canonical_url(url) {
            Some(c) => c,
            None => trimmed(url),
        }),
        SourceModel::File(path) => "file|"@ + path,
        SourceModel::Text(content) => "text|"@ + content,
        SourceModel::Node(Some(uri)) => "node|"@ + uri,
        SourceModel::Node(None) => "node|manual"@ + (match nanos {
            Some(n) => decimal(n as nat),
            None => Seq::empty(),
        }),
        SourceModel::Singbox(content) => "singbox|"@ + content,
    }
}

/// The id of a subscription: a hash of its source.
pub fn subscription_id(source: &SubscriptionSource, nanos: Option<u128>) -> (r: String)
    ensures
        r@ == short_hash(id_text(source@, nanos), 16),
{
    let text = match source {
        SubscriptionSource::Url { url } => {
            let key = match canonical_subscription_url(url.as_str()) {
                Some(c) => c,
                None => trim(url.as_str()).to_owned(),
            };
            concat2("url|", key.as_str())
        },
        SubscriptionSource::File { path } => concat2("file|", path.as_str()),
        SubscriptionSource::Text { content } => concat2("text|", content.as_str()),
        SubscriptionSource::Node { uri } => match uri {
            Some(u) => concat2("node|", u.as_str()),
            None => {
                let n = match nanos {
                    Some(n) => long_decimal_of(n),
                    None => String::new(),
                };
                concat2("node|manual", n.as_str())
            },
        },
        SubscriptionSource::Singbox { content } => concat2("singbox|", content.as_str()),
    };
    short_hash_of(text.as_str(), 16)
}

// ---------------------------------------------------------------------------
// Nodes
// ---------------------------------------------------------------------------
/// The node is not a notice.
pub open spec fn is_real(sizes: Seq<(String, u64)>) -> spec_fn(ProxyNode) -> bool {
    |n: ProxyNode| remark(n.name@, sizes) is None
}

/// What the names of nodes say of the quota, taken one after the other.
pub open spec fn noted_all(nodes: Seq<ProxyNode>, sizes: Seq<(String, u64)>) -> TrafficModel
    decreases nodes.len(),
{
    if nodes.len() == 0 {
        no_traffic()@
    } else {
        let before = noted_all(nodes.drop_last(), sizes);
        match remark(nodes.last().name@, sizes) {
            Some(m) => noted(before, m),
            None => before,
        }
    }
}

/// Something is known of the quota.
pub open spec fn quota_known(t: TrafficModel) -> bool {
    ||| t.upload is Some
    ||| t.download is Some
    ||| t.total is Some
    ||| t.quota_remaining is Some
    ||| t.expire is Some
    ||| t.expire_text is Some
}

/// An optional quota, by its view.
pub open spec fn traffic_is(t: Option<SubscriptionTraffic>, m: TrafficModel) -> bool {
    match t {
        Some(x) => quota_known(m) && x@ == m,
        None => !quota_known(m),
    }
}

/// Takes the notices out of the nodes: providers put them among these, with the
/// quota in their names.
pub fn split_remark_nodes(nodes: Vec<ProxyNode>, sizes: &Vec<(String, u64)>) -> (r: (
    Option<SubscriptionTraffic>,
    Vec<ProxyNode>,
))
    ensures
        traffic_is(r.0, noted_all(nodes@, sizes@)),
        r.1@ == nodes@.filter(is_real(sizes@)),
{
    let ghost all = nodes@;
    let mut traffic = SubscriptionTraffic::default();
    let mut rest: Vec<ProxyNode> = Vec::new();
    proof {
        reveal(Seq::filter);
        assert(all.take(0).filter(is_real(sizes@)) =~= Seq::empty());
    }
    for n in it: nodes
        invariant
            it.seq() == all,
            traffic@ == noted_all(all.take(it.index()), sizes@),
            rest@ == all.take(it.index()).filter(is_real(sizes@)),
    {
        let ghost whole = all.take(it.index() + 1);
        proof {
            reveal(Seq::filter);
            assert(whole.drop_last() =~= all.take(it.index()));
            assert(whole.last() == n);
        }
        if !apply_remark_name(n.name.as_str(), &mut traffic, sizes) {
            rest.push(n);
        }
    }
    proof {
        assert(all.take(all.len() as int) =~= all);
    }
    if traffic.is_empty() {
        (None, rest)
    } else {
        (Some(traffic), rest)
    }
}

/// The name that a node is given in place of a notice.
pub open spec fn plain_name(n: ProxyNode) -> Seq<char> {
    n.protocol.name() + "-"@ + n.server@ + "-"@ + decimal(n.port as nat)
}

/// A node under another name.
pub open spec fn same_but_name(a: ProxyNode, b: ProxyNode) -> bool {
    b == (ProxyNode { name: b.name, ..a })
}

/// `b` is `a`, under a plain name where `a` is a notice.
pub open spec fn plainly_named(a: ProxyNode, b: ProxyNode, sizes: Seq<(String, u64)>) -> bool {
    &&& same_but_name(a, b)
    &&& b.name@ == if remark(a.name@, sizes) is Some {
        plain_name(a)
    } else {
        a.name@
    }
}

fn name_plainly(nodes: Vec<ProxyNode>, sizes: &Vec<(String, u64)>) -> (r: Vec<ProxyNode>)
    ensures
        r@.len() == nodes@.len(),
        forall|i: int|
            0 <= i < nodes@.len() ==> plainly_named(nodes@[i], #[trigger] r@[i], sizes@),
{
    let ghost all = nodes@;
    let mut out: Vec<ProxyNode> = Vec::new();
    for n in it: nodes
        invariant
            it.seq() == all,
            out@.len() == it.index(),
            forall|i: int|
                0 <= i < it.index() ==> plainly_named(all[i], #[trigger] out@[i], sizes@),
    {
        let mut node = n;
        if is_remark_name(node.name.as_str(), sizes) {
            let mut name = concat3(node.protocol.as_str(), "-", node.server.as_str());
            name.append("-");
            let port = decimal_of(node.port as u64);
            name.append(port.as_str());
            node.name = name;
        }
        out.push(node);
    }
    out
}

/// A node of the same backend and name is among the nodes.
pub open spec fn holds_instance(nodes: Seq<ProxyNode>, key: Seq<char>) -> bool {
    exists|i: int| 0 <= i < nodes.len() && (#[trigger] nodes[i]).instance() == key
}

/// The nodes without those whose backend and name stand before them already.
pub open spec fn distinct_nodes(nodes: Seq<ProxyNode>) -> Seq<ProxyNode>
    decreases nodes.len(),
{
    if nodes.len() == 0 {
        nodes
    } else {
        let before = distinct_nodes(nodes.drop_last());
        if holds_instance(before, nodes.last().instance()) {
            before
        } else {
            before.push(nodes.last())
        }
    }
}

/// Leaves out nodes whose backend and name stand before them already. Nodes that
/// share a backend under different names stay.
pub fn dedupe_nodes(nodes: Vec<ProxyNode>) -> (r: Vec<ProxyNode>)
    ensures
        r@ == distinct_nodes(nodes@),
{
    let ghost all = nodes@;
    let mut keys: Vec<String> = Vec::new();
    let mut out: Vec<ProxyNode> = Vec::new();
    for n in it: nodes
        invariant
            it.seq() == all,
            out@ == distinct_nodes(all.take(it.index())),
            keys@.len() == out@.len(),
            forall|i: int| 0 <= i < out@.len() ==> (#[trigger] keys@[i])@ == out@[i].instance(),
    {
        let ghost whole = all.take(it.index() + 1);
        proof {
            assert(whole.drop_last() =~= all.take(it.index()));
            assert(whole.last() == n);
        }
        let key = n.instance_key();
        let seen = list_holds(&keys, key.as_str());
        proof {
            if seen {
                let i = choose|i: int| 0 <= i < views(keys@).len() && views(keys@)[i] == key@;
                assert(keys@[i]@ == key@);
                assert(out@[i].instance() == key@);
            }
            if holds_instance(out@, key@) {
                let i = choose|i: int|
                    0 <= i < out@.len() && (#[trigger] out@[i]).instance() == key@;
                assert(keys@[i]@ == key@);
                assert(views(keys@)[i] == key@);
            }
        }
        if !seen {
            keys.push(key);
            out.push(n);
        }
    }
    proof {
        assert(all.take(all.len() as int) =~= all);
    }
    out
}

/// No two of the nodes that are left share a backend and a name.
pub proof fn law_distinct_nodes_are_distinct(nodes: Seq<ProxyNode>, i: int, j: int)
    requires
        0 <= i < j < distinct_nodes(nodes).len(),
    ensures
        distinct_nodes(nodes)[i].instance() != distinct_nodes(nodes)[j].instance(),
    decreases nodes.len(),
{
    let before = distinct_nodes(nodes.drop_last());
    if !holds_instance(before, nodes.last().instance()) && j == before.len() {
        assert(before[i].instance() != nodes.last().instance());
    } else {
        law_distinct_nodes_are_distinct(nodes.drop_last(), i, j);
    }
}

/// What the ids of the nodes are made of: their backends.
pub open spec fn backend_seeds(nodes: Seq<ProxyNode>) -> Seq<IdSeed> {
    Seq::new(
        nodes.len(),
        |i: int|
            IdSeed {
                id: short_hash(nodes[i].identity(), 16),
                server: nodes[i].server@,
                port: nodes[i].port,
                protocol: nodes[i].protocol,
            },
    )
}

/// A node under another id, with no latency measured.
pub open spec fn freshly_identified(a: ProxyNode, b: ProxyNode) -> bool {
    b == (ProxyNode { id: b.id, latency_ms: None, latency_at: None, ..a })
}

fn identify(nodes: Vec<ProxyNode>) -> (r: Vec<ProxyNode>)
    ensures
        r@.len() == nodes@.len(),
        forall|i: int|
            0 <= i < nodes@.len() ==> {
                &&& freshly_identified(nodes@[i], #[trigger] r@[i])
                &&& r@[i].id@ == settled_ids(
                    backend_seeds(nodes@),
                    nodes@.len() as int,
                ).0[i]
            },
{
    let ghost all = nodes@;
    let mut out: Vec<ProxyNode> = Vec::new();
    for n in it: nodes
        invariant
            it.seq() == all,
            out@.len() == it.index(),
            forall|i: int|
                0 <= i < it.index() ==> {
                    &&& freshly_identified(all[i], #[trigger] out@[i])
                    &&& out@[i].id@ == short_hash(all[i].identity(), 16)
                    &&& id_cut_ok(out@[i].id@)
                },
    {
        let mut node = n.with_backend_id();
        node.latency_ms = None;
        node.latency_at = None;
        proof {
            lemma_short_hash_cut(n.identity(), node.id@);
        }
        out.push(node);
    }
    proof {
        assert(seeds(out@) =~= backend_seeds(all));
    }
    let _ = ProxyNode::ensure_unique_ids(&mut out);
    out
}

proof fn lemma_short_hash_cut(text: Seq<char>, id: Seq<char>)
    requires
        id == short_hash(text, 16),
        id.len() == 32,
    ensures
        id_cut_ok(id),
{
    crate::digest::lemma_hex_ascii(crate::digest::sha256(encode_utf8(text)).take(16));
    crate::text::lemma_ascii_cut(id, 16);
}

/// The nodes that an import keeps, before their ids are made: without notices where
/// their quota is taken, or else with plain names in the place of notices; and each
/// backend once under each name.
pub open spec fn kept_nodes(
    found: Seq<ProxyNode>,
    kept: Seq<ProxyNode>,
    take_quota: bool,
    sizes: Seq<(String, u64)>,
) -> bool {
    if take_quota {
        kept == distinct_nodes(found.filter(is_real(sizes)))
    } else {
        exists|named: Seq<ProxyNode>|
            #![trigger distinct_nodes(named)]
            {
                &&& named.len() == found.len()
                &&& forall|i: int|
                    0 <= i < found.len() ==> plainly_named(found[i], #[trigger] named[i], sizes)
                &&& kept == distinct_nodes(named)
            }
    }
}

/// The nodes that come out of an import: those that are kept, under the ids of their
/// backends.
pub open spec fn imported_nodes(
    found: Seq<ProxyNode>,
    out: Seq<ProxyNode>,
    take_quota: bool,
    sizes: Seq<(String, u64)>,
) -> bool {
    exists|kept: Seq<ProxyNode>|
        #![trigger kept_nodes(found, kept, take_quota, sizes)]
        {
            &&& kept_nodes(found, kept, take_quota, sizes)
            &&& out.len() == kept.len()
            &&& forall|i: int|
                0 <= i < kept.len() ==> {
                    &&& freshly_identified(kept[i], #[trigger] out[i])
                    &&& out[i].id@ == settled_ids(backend_seeds(kept), kept.len() as int).0[i]
                }
        }
}

/// The quota that the names of nodes give, where it is taken from them.
pub open spec fn names_quota(
    t: Option<SubscriptionTraffic>,
    found: Seq<ProxyNode>,
    take_quota: bool,
    sizes: Seq<(String, u64)>,
) -> bool {
    if take_quota {
        traffic_is(t, noted_all(found, sizes))
    } else {
        t is None
    }
}

/// A subscription that was just imported: switched on, without updates.
pub open spec fn fresh_subscription(
    s: Subscription,
    id: Seq<char>,
    name: Seq<char>,
    source: SourceModel,
    format: SubscriptionFormat,
    nodes: nat,
    skipped: nat,
    now: i64,
) -> bool {
    &&& s.id@ == id
    &&& s.name@ == name
    &&& s.source@ == source
    &&& s.last_update == now
    &&& s.node_count == nodes as u32
    &&& s.format is Some
    &&& s.format->0@ == format_name(format)
    &&& s.skipped_count == skipped as u32
    &&& !s.auto_update
    &&& s.auto_update_interval_min == 1440
}

/// The id of an import: the one that is there, or that of the source.
pub open spec fn import_id(
    existing: Option<String>,
    source: SourceModel,
    nanos: Option<u128>,
) -> Seq<char> {
    match existing {
        Some(id) => id@,
        None => short_hash(id_text(source, nanos), 16),
    }
}

/// Makes a subscription and its nodes of what a parser found. Ids are made of the
/// backends of the nodes, so that they stay when a provider renames a node, and when
/// the subscription is imported again from elsewhere.
pub fn build_outcome(
    name: String,
    source: SubscriptionSource,
    parsed: ParseResult,
    existing_id: Option<String>,
    extract_quota: bool,
    cx: &ImportContext,
) -> (r: ImportOutcome)
    ensures
        fresh_subscription(
            r.subscription,
            import_id(existing_id, source@, cx.nanos),
            name@,
            source@,
            parsed.format,
            r.nodes@.len(),
            parsed.skipped@.len(),
            cx.now,
        ),
        r.subscription.enabled,
        !r.subscription.via_proxy,
        r.subscription.user_agent is None,
        names_quota(r.subscription.traffic, parsed.nodes@, extract_quota, cx.sizes@),
        imported_nodes(parsed.nodes@, r.nodes@, extract_quota, cx.sizes@),
        r.skipped == parsed.skipped,
{
    let id = match existing_id {
        Some(id) => id,
        None => subscription_id(&source, cx.nanos),
    };
    let format = format_label(parsed.format);
    let skipped: usize = parsed.skipped.len();
    let ghost found = parsed.nodes@;
    let (traffic, candidates) = if extract_quota {
        split_remark_nodes(parsed.nodes, &cx.sizes)
    } else {
        (None, name_plainly(parsed.nodes, &cx.sizes))
    };
    let ghost named = candidates@;
    let kept = dedupe_nodes(candidates);
    let ghost kept_model = kept@;
    let node_count: u32 = kept.len() as u32;
    let nodes = identify(kept);
    proof {
        assert(kept_model == distinct_nodes(named));
        assert(kept_nodes(found, kept_model, extract_quota, cx.sizes@));
    }
    let subscription = Subscription {
        id,
        name,
        source,
        last_update: cx.now,
        node_count,
        enabled: true,
        format: Some(format),
        skipped_count: skipped as u32,
        via_proxy: false,
        auto_update: false,
        auto_update_interval_min: 1440,
        traffic,
        user_agent: None,
    };
    ImportOutcome { subscription, nodes, skipped: parsed.skipped }
}

/// The id of a node that an import keeps does not depend on its name, nor on where
/// the subscription came from: where the backends of the nodes have ids of their own,
/// each node has the id of its backend.
pub proof fn law_ids_follow_backends(
    found: Seq<ProxyNode>,
    kept: Seq<ProxyNode>,
    out: Seq<ProxyNode>,
)
    requires
        out.len() == kept.len(),
        forall|i: int|
            0 <= i < kept.len() ==> (#[trigger] out[i]).id@ == settled_ids(
                backend_seeds(kept),
                kept.len() as int,
            ).0[i],
        forall|i: int, j: int|
            0 <= i < j < kept.len() ==> crate::domain::node::id_prefix(
                short_hash((#[trigger] kept[i]).identity(), 16),
            ) != crate::domain::node::id_prefix(
                short_hash((#[trigger] kept[j]).identity(), 16),
            ),
    ensures
        forall|i: int|
            0 <= i < kept.len() ==> (#[trigger] out[i]).id@ == short_hash(kept[i].identity(), 16),
{
    let s = backend_seeds(kept);
    assert forall|i: int, j: int| 0 <= i < j < s.len() implies crate::domain::node::id_prefix(
        (#[trigger] s[i]).id,
    ) != crate::domain::node::id_prefix((#[trigger] s[j]).id) by {
        assert(s[i].id == short_hash(kept[i].identity(), 16));
        assert(s[j].id == short_hash(kept[j].identity(), 16));
    }
    crate::domain::node::law_distinct_ids_are_kept(s);
    assert forall|i: int| 0 <= i < kept.len() implies (#[trigger] out[i]).id@ == short_hash(
        kept[i].identity(),
        16,
    ) by {
        assert(settled_ids(s, s.len() as int).0[i] == s[i].id);
    }
}

// ---------------------------------------------------------------------------
// Imports
// ---------------------------------------------------------------------------
/// A name that was entered, without the white space around it; the default where it
/// is blank.
pub open spec fn name_or(name: Option<String>, default: Seq<char>) -> Seq<char> {
    if name is Some && trimmed(name->0@).len() > 0 {
        trimmed(name->0@)
    } else {
        default
    }
}

fn entered_name(name: &Option<String>) -> (r: Option<String>)
    ensures
        r is Some == (name is Some && trimmed(name->0@).len() > 0),
        r is Some ==> r->0@ == trimmed(name->0@),
{
    match name {
        Some(n) => {
            let t = trim(n.as_str());
            if t.is_empty() {
                None
            } else {
                Some(t.to_owned())
            }
        },
        None => None,
    }
}

/// The message for a body that is too long.
pub open spec fn too_large(what: Seq<char>, len: nat) -> Seq<char> {
    what + " too large ("@ + decimal(len) + " bytes, max 8388608)"@
}

fn too_large_message(what: &str, len: u64) -> (r: String)
    ensures
        r@ == too_large(what@, len as nat),
{
    let mut s = concat2(what, " too large (");
    let n = decimal_of(len);
    s.append(n.as_str());
    s.append(" bytes, max 8388608)");
    s
}

/// Why a pasted text is not imported, before it is parsed.
pub open spec fn text_refused(content: Seq<char>) -> Option<ErrorModel> {
    let t = trimmed(content);
    if t.len() == 0 {
        Some(ErrorModel::EmptySubscription)
    } else if encode_utf8(t).len() > MAX_BODY_BYTES {
        Some(ErrorModel::Io(too_large("config"@, encode_utf8(t).len())))
    } else {
        None
    }
}

/// The text that is parsed; an error where it is empty or too long.
pub fn check_text(content: &str) -> (r: Result<String, AppError>)
    ensures
        match r {
            Ok(t) => text_refused(content@) is None && t@ == trimmed(content@),
            Err(e) => text_refused(content@) == Some(e@),
        },
{
    let t = trim(content);
    if t.is_empty() {
        return Err(AppError::EmptySubscription);
    }
    let n: usize = byte_len(t);
    if n > MAX_BODY_BYTES {
        return Err(AppError::Io(too_large_message("config", n as u64)));
    }
    Ok(t.to_owned())
}

/// The subscription and the nodes that an import gives, apart from what the kind of
/// import adds.
pub open spec fn is_import(
    o: ImportOutcome,
    name: Seq<char>,
    source: SourceModel,
    parsed: ParseResult,
    existing: Option<String>,
    take_quota: bool,
    cx: ImportContext,
) -> bool {
    &&& fresh_subscription(
        o.subscription,
        import_id(existing, source, cx.nanos),
        name,
        source,
        parsed.format,
        o.nodes@.len(),
        parsed.skipped@.len(),
        cx.now,
    )
    &&& imported_nodes(parsed.nodes@, o.nodes@, take_quota, cx.sizes@)
    &&& o.skipped == parsed.skipped
}

/// Imports a pasted text, given what a parser made of it. The parser's error comes
/// out where the text itself is not refused.
pub fn import_from_text(
    name: Option<String>,
    content: String,
    existing_id: Option<String>,
    parsed: Result<ParseResult, AppError>,
    cx: &ImportContext,
) -> (r: Result<ImportOutcome, AppError>)
    ensures
        match r {
            Ok(o) => {
                &&& text_refused(content@) is None
                &&& parsed is Ok
                &&& is_import(
                    o,
                    name_or(name, "多节点"@),
                    SourceModel::Text(trimmed(content@)),
                    parsed->Ok_0,
                    existing_id,
                    false,
                    *cx,
                )
                &&& o.subscription.enabled
                &&& !o.subscription.via_proxy
                &&& o.subscription.user_agent is None
                &&& o.subscription.traffic is None
            },
            Err(e) => match text_refused(content@) {
                Some(m) => e@ == m,
                None => parsed is Err && e == parsed->Err_0,
            },
        },
{
    let text = match check_text(content.as_str()) {
        Ok(t) => t,
        Err(e) => {
            return Err(e);
        },
    };
    let found = match parsed {
        Ok(p) => p,
        Err(e) => {
            return Err(e);
        },
    };
    let display = match entered_name(&name) {
        Some(n) => n,
        None => "多节点".to_owned(),
    };
    Ok(build_outcome(display, SubscriptionSource::Text { content: text }, found, existing_id, false, cx))
}

/// What a file is found to be.
#[derive(Debug)]
pub struct FileFacts {
    pub exists: bool,
    /// Its length in bytes, or why that is not known.
    pub len: Result<u64, AppError>,
    /// Its text, or why it could not be read.
    pub content: Result<String, AppError>,
    /// Its name without folder and extension.
    pub stem: Option<String>,
}

/// Imports a file: its text, under its name where none was entered. The text is
/// copied, and the path is not kept.
pub fn import_from_file_with_id(
    name: Option<String>,
    path: &str,
    file: FileFacts,
    existing_id: Option<String>,
    parsed: Result<ParseResult, AppError>,
    cx: &ImportContext,
) -> (r: Result<ImportOutcome, AppError>)
    ensures
        !file.exists ==> r is Err && r->Err_0@ == ErrorModel::Io("file not found: "@ + path@),
        file.exists && file.len is Err ==> r is Err && r->Err_0 == file.len->Err_0,
        file.exists && file.len is Ok && file.len->Ok_0 > MAX_BODY_BYTES ==> r is Err
            && r->Err_0@ == ErrorModel::Io(too_large("file"@, file.len->Ok_0 as nat)),
        file.exists && file.len is Ok && file.len->Ok_0 <= MAX_BODY_BYTES && file.content is Err
            ==> r is Err && r->Err_0 == file.content->Err_0,
        file.exists && file.len is Ok && file.len->Ok_0 <= MAX_BODY_BYTES && file.content is Ok
            ==> match r {
            Ok(o) => {
                &&& text_refused(file.content->Ok_0@) is None
                &&& parsed is Ok
                &&& is_import(
                    o,
                    file_label(name, file.stem),
                    SourceModel::Text(trimmed(file.content->Ok_0@)),
                    parsed->Ok_0,
                    existing_id,
                    false,
                    *cx,
                )
                &&& o.subscription.enabled
                &&& o.subscription.traffic is None
                &&& !o.subscription.via_proxy
                &&& o.subscription.user_agent is None
            },
            Err(e) => match text_refused(file.content->Ok_0@) {
                Some(m) => e@ == m,
                None => parsed is Err && e == parsed->Err_0,
            },
        },
{
    if !file.exists {
        return Err(AppError::Io(concat2("file not found: ", path)));
    }
    let len: u64 = match file.len {
        Ok(n) => n,
        Err(e) => {
            return Err(e);
        },
    };
    if len > MAX_BODY_BYTES as u64 {
        return Err(AppError::Io(too_large_message("file", len)));
    }
    let content = match file.content {
        Ok(c) => c,
        Err(e) => {
            return Err(e);
        },
    };
    let display = match entered_name(&name) {
        Some(n) => n,
        None => match file.stem {
            Some(s) => s,
            None => "Local config".to_owned(),
        },
    };
    import_from_text(Some(display), content, existing_id, parsed, cx)
}

/// The name of a file's subscription.
pub open spec fn file_label(name: Option<String>, stem: Option<String>) -> Seq<char> {
    let label = name_or(
        name,
        match stem {
            Some(s) => s@,
            None => "Local config"@,
        },
    );
    if trimmed(label).len() > 0 {
        trimmed(label)
    } else {
        "多节点"@
    }
}

/// Imports a file under the id of its text.
pub fn import_from_file(
    name: Option<String>,
    path: &str,
    file: FileFacts,
    parsed: Result<ParseResult, AppError>,
    cx: &ImportContext,
) -> (r: Result<ImportOutcome, AppError>)
    ensures
        !file.exists ==> r is Err && r->Err_0@ == ErrorModel::Io("file not found: "@ + path@),
        file.exists && file.len is Err ==> r is Err && r->Err_0 == file.len->Err_0,
        file.exists && file.len is Ok && file.len->Ok_0 > MAX_BODY_BYTES ==> r is Err
            && r->Err_0@ == ErrorModel::Io(too_large("file"@, file.len->Ok_0 as nat)),
        file.exists && file.len is Ok && file.len->Ok_0 <= MAX_BODY_BYTES && file.content is Err
            ==> r is Err && r->Err_0 == file.content->Err_0,
        file.exists && file.len is Ok && file.len->Ok_0 <= MAX_BODY_BYTES && file.content is Ok
            ==> match r {
            Ok(o) => {
                &&& text_refused(file.content->Ok_0@) is None
                &&& parsed is Ok
                &&& is_import(
                    o,
                    file_label(name, file.stem),
                    SourceModel::Text(trimmed(file.content->Ok_0@)),
                    parsed->Ok_0,
                    None,
                    false,
                    *cx,
                )
                &&& o.subscription.enabled
                &&& o.subscription.traffic is None
                &&& !o.subscription.via_proxy
                &&& o.subscription.user_agent is None
            },
            Err(e) => match text_refused(file.content->Ok_0@) {
                Some(m) => e@ == m,
                None => parsed is Err && e == parsed->Err_0,
            },
        },
{
    import_from_file_with_id(name, path, file, None, parsed, cx)
}

proof fn lemma_nothing_imported(
    found: Seq<ProxyNode>,
    out: Seq<ProxyNode>,
    sizes: Seq<(String, u64)>,
)
    requires
        found.len() == 0,
        imported_nodes(found, out, false, sizes),
    ensures
        out.len() == 0,
{
    assert forall|kept: Seq<ProxyNode>| kept_nodes(found, kept, false, sizes) implies kept.len()
        == 0 by {
        let named = choose|named: Seq<ProxyNode>|
            #![trigger distinct_nodes(named)]
            {
                &&& named.len() == found.len()
                &&& forall|i: int|
                    0 <= i < found.len() ==> plainly_named(found[i], #[trigger] named[i], sizes)
                &&& kept == distinct_nodes(named)
            };
        assert(named.len() == 0);
    }
}

/// Imports a complete sing-box configuration, given in the form in which a validator
/// left it: it has no nodes of its own, and is switched off until it is chosen.
pub fn import_from_singbox(
    name: Option<String>,
    normalized: Result<String, AppError>,
    existing_id: Option<String>,
    cx: &ImportContext,
) -> (r: Result<ImportOutcome, AppError>)
    ensures
        match r {
            Ok(o) => {
                &&& normalized is Ok
                &&& fresh_subscription(
                    o.subscription,
                    import_id(existing_id, SourceModel::Singbox(normalized->Ok_0@), cx.nanos),
                    name_or(name, "sing-box"@),
                    SourceModel::Singbox(normalized->Ok_0@),
                    SubscriptionFormat::SingboxJson,
                    0,
                    0,
                    cx.now,
                )
                &&& !o.subscription.enabled
                &&& o.subscription.traffic is None
                &&& !o.subscription.via_proxy
                &&& o.subscription.user_agent is None
                &&& o.nodes@.len() == 0
                &&& o.skipped@.len() == 0
            },
            Err(e) => normalized is Err && e == normalized->Err_0,
        },
{
    let content = match normalized {
        Ok(c) => c,
        Err(e) => {
            return Err(e);
        },
    };
    let display = match entered_name(&name) {
        Some(n) => n,
        None => "sing-box".to_owned(),
    };
    let parsed = ParseResult {
        nodes: Vec::new(),
        skipped: Vec::new(),
        format: SubscriptionFormat::SingboxJson,
    };
    let ghost found = parsed.nodes@;
    let mut outcome = build_outcome(
        display,
        SubscriptionSource::Singbox { content },
        parsed,
        existing_id,
        false,
        cx,
    );
    proof {
        lemma_nothing_imported(found, outcome.nodes@, cx.sizes@);
    }
    outcome.subscription.enabled = false;
    Ok(outcome)
}

/// What one node was entered as.
#[derive(Debug)]
pub enum NodeEntry {
    /// A share link, and what a parser made of it.
    Link { uri: String, parsed: Result<ParseResult, AppError> },
    /// A form, and what a parser made of it.
    Form { parsed: Result<ParseResult, AppError> },
    /// Neither.
    Missing,
}

/// The text of a share link that was entered; `None` where it is blank, and the form
/// counts.
pub fn entered_link(uri: Option<String>) -> (r: Option<String>)
    ensures
        r is Some == (uri is Some && trimmed(uri->0@).len() > 0),
        r is Some ==> r->0@ == trimmed(uri->0@),
{
    entered_name(&uri)
}

/// The name of a node's subscription: as entered, or that of the node.
pub open spec fn node_label(name: Option<String>, nodes: Seq<ProxyNode>) -> Seq<char> {
    name_or(
        name,
        if nodes.len() > 0 {
            nodes[0].name@
        } else {
            "Node"@
        },
    )
}

/// Imports one node, by its share link or by a form.
pub fn import_from_node(
    name: Option<String>,
    entry: NodeEntry,
    existing_id: Option<String>,
    cx: &ImportContext,
) -> (r: Result<ImportOutcome, AppError>)
    ensures
        match entry {
            NodeEntry::Missing => r is Err && r->Err_0@ == ErrorModel::SubscriptionParse(
                "node requires a share URI or a filled form"@,
            ),
            NodeEntry::Link { uri, parsed } => match parsed {
                Err(e) => r is Err && r->Err_0 == e,
                Ok(p) => r is Ok && is_import(
                    r->Ok_0,
                    node_label(name, p.nodes@),
                    SourceModel::Node(Some(uri@)),
                    p,
                    existing_id,
                    false,
                    *cx,
                ) && r->Ok_0.subscription.enabled && r->Ok_0.subscription.traffic is None
                    && !r->Ok_0.subscription.via_proxy && r->Ok_0.subscription.user_agent is None,
            },
            NodeEntry::Form { parsed } => match parsed {
                Err(e) => r is Err && r->Err_0 == e,
                Ok(p) => r is Ok && is_import(
                    r->Ok_0,
                    node_label(name, p.nodes@),
                    SourceModel::Node(None),
                    p,
                    existing_id,
                    false,
                    *cx,
                ) && r->Ok_0.subscription.enabled && r->Ok_0.subscription.traffic is None
                    && !r->Ok_0.subscription.via_proxy && r->Ok_0.subscription.user_agent is None,
            },
        },
{
    let (uri, parsed) = match entry {
        NodeEntry::Link { uri, parsed } => (Some(uri), parsed),
        NodeEntry::Form { parsed } => (None, parsed),
        NodeEntry::Missing => {
            return Err(
                AppError::SubscriptionParse(
                    "node requires a share URI or a filled form".to_owned(),
                ),
            );
        },
    };
    let found = match parsed {
        Ok(p) => p,
        Err(e) => {
            return Err(e);
        },
    };
    let display = match entered_name(&name) {
        Some(n) => n,
        None => if found.nodes.len() > 0 {
            found.nodes[0].name.clone()
        } else {
            "Node".to_owned()
        },
    };
    Ok(build_outcome(display, SubscriptionSource::Node { uri }, found, existing_id, false, cx))
}

/// The port of the proxy that a fetch goes through where none is known.
pub const DEFAULT_PROXY_PORT: u16 = 2080;

/// The proxy that a fetch goes through, where it goes through one: the client's own.
pub fn fetch_proxy(via_proxy: bool, mixed_port: Option<u16>) -> (r: Option<String>)
    ensures
        opt_view(r) == if via_proxy {
            Some(
                "http://127.0.0.1:"@ + decimal(
                    (match mixed_port {
                        Some(port) => port,
                        None => DEFAULT_PROXY_PORT,
                    }) as nat,
                ),
            )
        } else {
            None
        },
{
    if !via_proxy {
        return None;
    }
    let port: u16 = match mixed_port {
        Some(port) => port,
        None => DEFAULT_PROXY_PORT,
    };
    let digits = decimal_of(port as u64);
    Some(concat2("http://127.0.0.1:", digits.as_str()))
}

/// The text of a body that was fetched.
pub fn body_text(bytes: &[u8]) -> (r: String)
    ensures
        r@ == lossy_text(bytes@),
        valid_utf8(bytes@) ==> r@ == decode_utf8(bytes@),
{
    text_lossy(bytes)
}

/// Why a URL is not fetched.
pub open spec fn url_refused(url: Seq<char>) -> Option<ErrorModel> {
    let t = trimmed(url);
    if t.len() == 0 {
        Some(ErrorModel::Fetch("url is empty"@))
    } else if !has_prefix(t, "http://"@) && !has_prefix(t, "https://"@) {
        Some(ErrorModel::Fetch("url must start with http:// or https://"@))
    } else {
        None
    }
}

/// The URL that is fetched; an error where it is empty or of another scheme.
pub fn check_url(url: &str) -> (r: Result<String, AppError>)
    ensures
        match r {
            Ok(t) => url_refused(url@) is None && t@ == trimmed(url@),
            Err(e) => url_refused(url@) == Some(e@),
        },
{
    let t = trim(url);
    if t.is_empty() {
        return Err(AppError::Fetch("url is empty".to_owned()));
    }
    if !starts_with(t, "http://") && !starts_with(t, "https://") {
        return Err(AppError::Fetch("url must start with http:// or https://".to_owned()));
    }
    Ok(t.to_owned())
}

/// The `User-Agent` of a fetch: as entered, or the built-in one.
pub fn fetch_agent(user_agent: &Option<String>) -> (r: String)
    ensures
        r@ == name_or(*user_agent, "satelite-proxy/0.1 clash-verge/v2.5 flclash/1"@),
{
    match entered_name(user_agent) {
        Some(ua) => ua,
        None => subscription_user_agent(),
    }
}

/// The message for a fetch that failed, which hints at the proxy where it was used.
pub fn fetch_failure(via_proxy: bool, cause: &str) -> (r: AppError)
    ensures
        r@ == ErrorModel::Fetch(
            if via_proxy {
                "via proxy failed ("@ + cause@
                    + "). 请确认已启动代理核心，且 mixed 端口正确"@
            } else {
                cause@
            },
        ),
{
    if via_proxy {
        AppError::Fetch(
            concat3(
                "via proxy failed (",
                cause,
                "). 请确认已启动代理核心，且 mixed 端口正确",
            ),
        )
    } else {
        AppError::Fetch(cause.to_owned())
    }
}

/// A response, as far as an import reads it.
#[derive(Debug)]
pub struct FetchedBody {
    pub headers: Vec<Header>,
    /// The value of `Content-Disposition`, where there is one.
    pub disposition: Option<String>,
    pub content: String,
}

/// The name of a fetched subscription: as entered, as the response offers, or the
/// host of its URL.
pub open spec fn fetched_name(
    name: Option<String>,
    disposition: Option<String>,
    url: Seq<char>,
) -> Seq<char> {
    name_or(
        name,
        if disposition is Some && disposition_name(disposition->0@) is Some {
            disposition_name(disposition->0@)->0
        } else {
            url_name(url)
        },
    )
}

/// The quota of a fetched subscription: as the headers say, then as a comment in the
/// body says, then as the names of nodes say.
pub open spec fn fetched_quota(
    t: Option<SubscriptionTraffic>,
    body: FetchedBody,
    found: Seq<ProxyNode>,
    cx: ImportContext,
) -> bool {
    exists|names: Option<SubscriptionTraffic>|
        #![trigger names_quota(names, found, true, cx.sizes@)]
        {
            &&& names_quota(names, found, true, cx.sizes@)
            &&& t == merged(
                header_userinfo(body.headers@, cx.floats@),
                merged(comment_userinfo(head_lines(body.content@), cx.floats@), names),
            )
        }
}

/// Imports what was fetched from a URL, given what a parser made of its body.
pub fn import_fetched(
    name: Option<String>,
    url: String,
    existing_id: Option<String>,
    via_proxy: bool,
    user_agent: Option<String>,
    body: &FetchedBody,
    parsed: ParseResult,
    cx: &ImportContext,
) -> (r: ImportOutcome)
    ensures
        is_import(
            r,
            fetched_name(name, body.disposition, url@),
            SourceModel::Url(url@),
            parsed,
            existing_id,
            true,
            *cx,
        ),
        r.subscription.enabled,
        r.subscription.via_proxy == via_proxy,
        opt_view(r.subscription.user_agent) == if user_agent is Some && trimmed(
            user_agent->0@,
        ).len() > 0 {
            Some(trimmed(user_agent->0@))
        } else {
            None
        },
        fetched_quota(r.subscription.traffic, *body, parsed.nodes@, *cx),
{
    let offered = match &body.disposition {
        Some(d) => parse_disposition_filename_str(d.as_str()),
        None => None,
    };
    let display = match entered_name(&name) {
        Some(n) => n,
        None => match offered {
            Some(n) => n,
            None => name_from_url(url.as_str()),
        },
    };
    let from_headers = parse_subscription_userinfo(&body.headers, &cx.floats);
    let from_comment = parse_userinfo_from_content(body.content.as_str(), &cx.floats);
    let mut outcome = build_outcome(
        display,
        SubscriptionSource::Url { url },
        parsed,
        existing_id,
        true,
        cx,
    );
    let ghost names = outcome.subscription.traffic;
    let from_names = outcome.subscription.traffic.take();
    let inner = SubscriptionTraffic::merge(from_comment, from_names);
    outcome.subscription.traffic = SubscriptionTraffic::merge(from_headers, inner);
    outcome.subscription.via_proxy = via_proxy;
    outcome.subscription.user_agent = entered_name(&user_agent);
    proof {
        assert(names_quota(names, parsed.nodes@, true, cx.sizes@));
    }
    outcome
}

} // verus!
