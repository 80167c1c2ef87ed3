//! Subscriptions: where nodes come from.

use crate::clock::{elapsed, since};
use crate::domain::node::{ManualNodeDraft, NodeSummary};
use crate::text::{
    byte_len, byte_prefix, byte_take, chars_of, clone_opt, concat2, concat3, cut_ok,
    lemma_trimmed_same, lines, lower, lowered, opt_view, same, text_lines, trim,
    trimmed, views, find, find_pos, holds_text,
};
use crate::web::{parse_url, url_parsed, UrlModel, UrlParts};
use vstd::prelude::*;
use vstd::utf8::{encode_utf8, is_ascii_chars};

verus! {

/// How a subscription was imported.
#[derive(Debug, Clone, PartialEq, Eq)]
pub enum SubscriptionSource {
    Url { url: String },
    File { path: String },
    /// A configuration that was pasted.
    Text { content: String },
    /// One node, by its share link or by a form.
    Node { uri: Option<String> },
    /// A complete sing-box configuration, which is run as it is.
    Singbox { content: String },
}

pub enum SourceModel {
    Url(Seq<char>),
    File(Seq<char>),
    Text(Seq<char>),
    Node(Option<Seq<char>>),
    Singbox(Seq<char>),
}

impl View for SubscriptionSource {
    type V = SourceModel;

    open spec fn view(&self) -> SourceModel {
        match self {
            SubscriptionSource::Url { url } => SourceModel::Url(url@),
            SubscriptionSource::File { path } => SourceModel::File(path@),
            SubscriptionSource::Text { content } => SourceModel::Text(content@),
            SubscriptionSource::Node { uri } => SourceModel::Node(opt_view(*uri)),
            SubscriptionSource::Singbox { content } => SourceModel::Singbox(content@),
        }
    }
}

impl SubscriptionSource {
    /// Whether the nodes of the subscription go into generated configurations.
    pub fn contributes_nodes(&self) -> (r: bool)
        ensures
            r == !(self@ is Singbox),
    {
        !matches!(self, SubscriptionSource::Singbox { .. })
    }

    pub fn is_remote(&self) -> (r: bool)
        ensures
            r == (self@ is Url),
    {
        matches!(self, SubscriptionSource::Url { .. })
    }

    pub fn duplicate(&self) -> (r: Self)
        ensures
            r == *self,
    {
        match self {
            SubscriptionSource::Url { url } => SubscriptionSource::Url { url: url.clone() },
            SubscriptionSource::File { path } => SubscriptionSource::File { path: path.clone() },
            SubscriptionSource::Text { content } => SubscriptionSource::Text {
                content: content.clone(),
            },
            SubscriptionSource::Node { uri } => SubscriptionSource::Node { uri: clone_opt(uri) },
            SubscriptionSource::Singbox { content } => SubscriptionSource::Singbox {
                content: content.clone(),
            },
        }
    }
}

/// A source as it is stored. Sources that older versions do not know are stored as
/// files under a path that none has, with a mark in `profile`.
#[derive(Debug, Clone)]
pub struct SourceWire {
    pub kind: String,
    pub url: Option<String>,
    pub path: Option<String>,
    pub content: Option<String>,
    pub uri: Option<String>,
    pub profile: Option<String>,
}

pub struct WireModel {
    pub kind: Seq<char>,
    pub url: Option<Seq<char>>,
    pub path: Option<Seq<char>>,
    pub content: Option<Seq<char>>,
    pub uri: Option<Seq<char>>,
    pub profile: Option<Seq<char>>,
}

impl View for SourceWire {
    type V = WireModel;

    open spec fn view(&self) -> WireModel {
        WireModel {
            kind: self.kind@,
            url: opt_view(self.url),
            path: opt_view(self.path),
            content: opt_view(self.content),
            uri: opt_view(self.uri),
            profile: opt_view(self.profile),
        }
    }
}

pub open spec fn wire_file(
    path: Seq<char>,
    content: Option<Seq<char>>,
    uri: Option<Seq<char>>,
    profile: Option<Seq<char>>,
) -> WireModel {
    WireModel { kind: "file"@, url: None, path: Some(path), content, uri, profile }
}

/// The stored form of a source.
pub open spec fn stored(s: SourceModel) -> WireModel {
    match s {
        SourceModel::Url(url) => WireModel {
            kind: "url"@,
            url: Some(url),
            path: None,
            content: None,
            uri: None,
            profile: None,
        },
        SourceModel::File(path) => wire_file(path, None, None, None),
        SourceModel::Text(content) => wire_file(
            "satelite:text"@,
            Some(content),
            None,
            Some("text"@),
        ),
        SourceModel::Node(uri) => wire_file("satelite:node"@, None, uri, Some("node"@)),
        SourceModel::Singbox(content) => wire_file(
            "satelite:singbox"@,
            Some(content),
            None,
            Some("singbox"@),
        ),
    }
}

pub open spec fn model_or_empty(o: Option<Seq<char>>) -> Seq<char> {
    match o {
        Some(s) => s,
        None => Seq::empty(),
    }
}

/// The source that a stored form stands for; otherwise the kind that is unknown.
pub open spec fn source_of(w: WireModel) -> Result<SourceModel, Seq<char>> {
    let kind = lowered(trimmed(w.kind));
    let profile = lowered(trimmed(model_or_empty(w.profile)));
    let path = trimmed(model_or_empty(w.path));
    if kind == "url"@ {
        Ok(SourceModel::Url(model_or_empty(w.url)))
    } else if kind == "text"@ || profile == "text"@ || path == "satelite:text"@ {
        Ok(SourceModel::Text(model_or_empty(w.content)))
    } else if kind == "node"@ || profile == "node"@ || path == "satelite:node"@ {
        Ok(
            SourceModel::Node(
                match w.uri {
                    Some(u) if trimmed(u).len() > 0 => Some(u),
                    _ => None,
                },
            ),
        )
    } else if kind == "singbox"@ || profile == "singbox"@ || path == "satelite:singbox"@ {
        Ok(SourceModel::Singbox(model_or_empty(w.content)))
    } else if kind == "file"@ || kind.len() == 0 {
        Ok(SourceModel::File(path))
    } else {
        Err(kind)
    }
}

/// Puts a source into the form that is stored.
pub fn source_to_wire(source: &SubscriptionSource) -> (r: SourceWire)
    ensures
        r@ == stored(source@),
{
    match source {
        SubscriptionSource::Url { url } => SourceWire {
            kind: "url".to_owned(),
            url: Some(url.clone()),
            path: None,
            content: None,
            uri: None,
            profile: None,
        },
        SubscriptionSource::File { path } => SourceWire {
            kind: "file".to_owned(),
            url: None,
            path: Some(path.clone()),
            content: None,
            uri: None,
            profile: None,
        },
        SubscriptionSource::Text { content } => SourceWire {
            kind: "file".to_owned(),
            url: None,
            path: Some("satelite:text".to_owned()),
            content: Some(content.clone()),
            uri: None,
            profile: Some("text".to_owned()),
        },
        SubscriptionSource::Node { uri } => SourceWire {
            kind: "file".to_owned(),
            url: None,
            path: Some("satelite:node".to_owned()),
            content: None,
            uri: clone_opt(uri),
            profile: Some("node".to_owned()),
        },
        SubscriptionSource::Singbox { content } => SourceWire {
            kind: "file".to_owned(),
            url: None,
            path: Some("satelite:singbox".to_owned()),
            content: Some(content.clone()),
            uri: None,
            profile: Some("singbox".to_owned()),
        },
    }
}

fn opt_str(o: &Option<String>) -> (r: &str)
    ensures
        r@ == model_or_empty(opt_view(*o)),
{
    match o {
        Some(s) => s.as_str(),
        None => {
            proof {
                reveal_strlit("");
                assert(""@ =~= Seq::empty());
            }
            ""
        },
    }
}

fn opt_string(o: Option<String>) -> (r: String)
    ensures
        r@ == model_or_empty(opt_view(o)),
{
    match o {
        Some(s) => s,
        None => String::new(),
    }
}

/// Reads the stored form of a source. A kind that is not known is an error, which
/// names it.
pub fn source_from_wire(wire: SourceWire) -> (r: Result<SubscriptionSource, String>)
    ensures
        match r {
            Ok(s) => source_of(wire@) == Ok::<SourceModel, Seq<char>>(s@),
            Err(e) => source_of(wire@) is Err && e@ == "unknown subscription source kind: "@
                + source_of(wire@)->Err_0,
        },
{
    let kind_key = lower(trim(wire.kind.as_str()));
    let profile_key = lower(trim(opt_str(&wire.profile)));
    let path = trim(opt_str(&wire.path)).to_owned();
    let kind = kind_key.as_str();
    let profile = profile_key.as_str();
    if same(kind, "url") {
        return Ok(SubscriptionSource::Url { url: opt_string(wire.url) });
    }
    if same(kind, "text") || same(profile, "text") || same(path.as_str(), "satelite:text") {
        return Ok(SubscriptionSource::Text { content: opt_string(wire.content) });
    }
    if same(kind, "node") || same(profile, "node") || same(path.as_str(), "satelite:node") {
        let uri = match wire.uri {
            Some(u) => if trim(u.as_str()).is_empty() {
                None
            } else {
                Some(u)
            },
            None => None,
        };
        return Ok(SubscriptionSource::Node { uri });
    }
    if same(kind, "singbox") || same(profile, "singbox") || same(
        path.as_str(),
        "satelite:singbox",
    ) {
        return Ok(SubscriptionSource::Singbox { content: opt_string(wire.content) });
    }
    if same(kind, "file") || kind.is_empty() {
        return Ok(SubscriptionSource::File { path });
    }
    Err(concat2("unknown subscription source kind: ", kind))
}

/// A source that is stored and read again is the same, but for a share link that is
/// blank, and for a file whose path has white space around it or is one of those
/// that other sources are stored under.
pub proof fn law_source_reads_back(s: SourceModel)
    requires
        s matches SourceModel::Node(Some(uri)) ==> trimmed(uri).len() > 0,
        s matches SourceModel::File(path) ==> trimmed(path) == path && path != "satelite:text"@
            && path != "satelite:node"@ && path != "satelite:singbox"@,
    ensures
        source_of(stored(s)) == Ok::<SourceModel, Seq<char>>(s),
{
    reveal_strlit("url");
    reveal_strlit("file");
    reveal_strlit("text");
    reveal_strlit("node");
    reveal_strlit("singbox");
    reveal_strlit("satelite:text");
    reveal_strlit("satelite:node");
    reveal_strlit("satelite:singbox");
    lemma_trimmed_same("url"@);
    lemma_trimmed_same("file"@);
    lemma_trimmed_same("text"@);
    lemma_trimmed_same("node"@);
    lemma_trimmed_same("singbox"@);
    lemma_trimmed_same("satelite:text"@);
    lemma_trimmed_same("satelite:node"@);
    lemma_trimmed_same("satelite:singbox"@);
    lemma_trimmed_same(Seq::<char>::empty());
    assert(lowered("url"@) =~= "url"@);
    assert(lowered("file"@) =~= "file"@);
    assert(lowered("text"@) =~= "text"@);
    assert(lowered("node"@) =~= "node"@);
    assert(lowered("singbox"@) =~= "singbox"@);
    assert(lowered(Seq::<char>::empty()) =~= Seq::<char>::empty());
    assert("file"@.len() != "url"@.len());
    assert("file"@[0] != "text"@[0]);
    assert("file"@[0] != "node"@[0]);
    assert("file"@.len() != "singbox"@.len());
    assert("node"@[0] != "text"@[0]);
    assert("singbox"@.len() != "text"@.len());
    assert("singbox"@.len() != "node"@.len());
    assert("satelite:text"@[9] != "satelite:node"@[9]);
    assert("satelite:singbox"@.len() != "satelite:text"@.len());
    assert("satelite:singbox"@.len() != "satelite:node"@.len());
    assert("text"@.len() > 0 && "node"@.len() > 0 && "singbox"@.len() > 0);
}

/// The traffic quota of a subscription.
#[derive(Debug)]
pub struct SubscriptionTraffic {
    /// Bytes uploaded.
    pub upload: Option<u64>,
    /// Bytes downloaded.
    pub download: Option<u64>,
    /// The quota in bytes; 0 means that there is none.
    pub total: Option<u64>,
    /// Bytes that are left, where a subscription says so itself.
    pub quota_remaining: Option<u64>,
    /// When the subscription ends, in Unix seconds.
    pub expire: Option<i64>,
    /// When the subscription ends, where that is no moment.
    pub expire_text: Option<String>,
}

impl Clone for SubscriptionTraffic {
    fn clone(&self) -> (r: Self)
        ensures
            r == *self,
    {
        SubscriptionTraffic {
            upload: self.upload,
            download: self.download,
            total: self.total,
            quota_remaining: self.quota_remaining,
            expire: self.expire,
            expire_text: clone_opt(&self.expire_text),
        }
    }
}

/// Nothing is known of the quota.
pub open spec fn no_traffic() -> SubscriptionTraffic {
    SubscriptionTraffic {
        upload: None,
        download: None,
        total: None,
        quota_remaining: None,
        expire: None,
        expire_text: None,
    }
}

impl Default for SubscriptionTraffic {
    fn default() -> (r: Self)
        ensures
            r == no_traffic(),
    {
        SubscriptionTraffic {
            upload: None,
            download: None,
            total: None,
            quota_remaining: None,
            expire: None,
            expire_text: None,
        }
    }
}

pub open spec fn num_or_zero(o: Option<u64>) -> int {
    match o {
        Some(n) => n as int,
        None => 0,
    }
}

/// The first of two values that is there.
pub open spec fn first_of<A>(a: Option<A>, b: Option<A>) -> Option<A> {
    if a is Some {
        a
    } else {
        b
    }
}

/// What is known of the quota from one source, completed from another.
pub open spec fn completed(a: SubscriptionTraffic, b: SubscriptionTraffic) -> SubscriptionTraffic {
    SubscriptionTraffic {
        upload: first_of(a.upload, b.upload),
        download: first_of(a.download, b.download),
        total: first_of(a.total, b.total),
        quota_remaining: first_of(a.quota_remaining, b.quota_remaining),
        expire: first_of(a.expire, b.expire),
        expire_text: first_of(a.expire_text, b.expire_text),
    }
}

pub open spec fn known(t: SubscriptionTraffic) -> Option<SubscriptionTraffic> {
    if t == no_traffic() {
        None
    } else {
        Some(t)
    }
}

/// What two sources say together, the first before the second.
pub open spec fn merged(
    a: Option<SubscriptionTraffic>,
    b: Option<SubscriptionTraffic>,
) -> Option<SubscriptionTraffic> {
    match (a, b) {
        (None, None) => None,
        (Some(x), None) => known(x),
        (None, Some(y)) => known(y),
        (Some(x), Some(y)) => known(completed(x, y)),
    }
}

impl SubscriptionTraffic {
    pub open spec fn used_bytes(self) -> int {
        let sum = num_or_zero(self.upload) + num_or_zero(self.download);
        if sum > u64::MAX {
            u64::MAX as int
        } else {
            sum
        }
    }

    pub fn used(&self) -> (r: u64)
        ensures
            r == self.used_bytes(),
    {
        let up: u64 = match self.upload {
            Some(n) => n,
            None => 0,
        };
        let down: u64 = match self.download {
            Some(n) => n,
            None => 0,
        };
        up.saturating_add(down)
    }

    /// The bytes that are left: as the subscription says, or as its quota leaves.
    pub fn remaining(&self) -> (r: Option<u64>)
        ensures
            match r {
                Some(n) => match self.quota_remaining {
                    Some(q) => n == q,
                    None => self.total is Some && self.total->0 > 0 && n == if self.total->0
                        > self.used_bytes() {
                        self.total->0 - self.used_bytes()
                    } else {
                        0
                    },
                },
                None => self.quota_remaining is None && (self.total is None || self.total->0 == 0),
            },
    {
        if let Some(q) = self.quota_remaining {
            return Some(q);
        }
        match self.total {
            Some(t) => if t > 0 {
                Some(t.saturating_sub(self.used()))
            } else {
                None
            },
            None => None,
        }
    }

    pub fn is_empty(&self) -> (r: bool)
        ensures
            r == (*self == no_traffic()),
    {
        self.upload.is_none() && self.download.is_none() && self.total.is_none()
            && self.quota_remaining.is_none() && self.expire.is_none() && self.expire_text.is_none()
    }

    /// What `primary` says, and where it says nothing, what `fallback` says.
    pub fn merge(primary: Option<Self>, fallback: Option<Self>) -> (r: Option<Self>)
        ensures
            r == merged(primary, fallback),
    {
        match (primary, fallback) {
            (None, None) => None,
            (Some(a), None) => if a.is_empty() {
                None
            } else {
                Some(a)
            },
            (None, Some(a)) => if a.is_empty() {
                None
            } else {
                Some(a)
            },
            (Some(a), Some(b)) => {
                let t = SubscriptionTraffic {
                    upload: if a.upload.is_none() {
                        b.upload
                    } else {
                        a.upload
                    },
                    download: if a.download.is_none() {
                        b.download
                    } else {
                        a.download
                    },
                    total: if a.total.is_none() {
                        b.total
                    } else {
                        a.total
                    },
                    quota_remaining: if a.quota_remaining.is_none() {
                        b.quota_remaining
                    } else {
                        a.quota_remaining
                    },
                    expire: if a.expire.is_none() {
                        b.expire
                    } else {
                        a.expire
                    },
                    expire_text: if a.expire_text.is_none() {
                        b.expire_text
                    } else {
                        a.expire_text
                    },
                };
                if t.is_empty() {
                    None
                } else {
                    Some(t)
                }
            },
        }
    }
}

/// Merging three sources gives the same in whichever order they are brought
/// together, as long as the order of precedence stays.
pub proof fn law_merge_is_associative(
    a: Option<SubscriptionTraffic>,
    b: Option<SubscriptionTraffic>,
    c: Option<SubscriptionTraffic>,
)
    ensures
        merged(merged(a, b), c) == merged(a, merged(b, c)),
{
}

#[derive(Debug, Clone)]
pub struct Subscription {
    pub id: String,
    pub name: String,
    pub source: SubscriptionSource,
    /// Unix seconds.
    pub last_update: i64,
    pub node_count: u32,
    pub enabled: bool,
    pub format: Option<String>,
    /// Entries that the last import left out.
    pub skipped_count: u32,
    /// The URL is fetched through the local proxy.
    pub via_proxy: bool,
    pub auto_update: bool,
    /// Minutes between updates.
    pub auto_update_interval_min: u32,
    pub traffic: Option<SubscriptionTraffic>,
    /// The `User-Agent` of fetches; the built-in one where there is none.
    pub user_agent: Option<String>,
}

pub fn default_auto_update_interval_min() -> (r: u32)
    ensures
        r == 1440,
{
    1440
}

/// A subscription as lists show it.
#[derive(Debug, Clone)]
pub struct SubscriptionView {
    pub id: String,
    pub name: String,
    pub source_kind: String,
    pub source_display: String,
    pub last_update: i64,
    pub node_count: u32,
    pub enabled: bool,
    pub format: Option<String>,
    pub skipped_count: u32,
    pub auto_update: bool,
    pub auto_update_interval_min: u32,
    pub traffic: Option<SubscriptionTraffic>,
    pub node_summary: Option<NodeSummary>,
}

/// A subscription as its form shows it.
#[derive(Debug, Clone)]
pub struct SubscriptionDetail {
    pub id: String,
    pub name: String,
    pub source_kind: String,
    pub url: Option<String>,
    pub path: Option<String>,
    pub content: Option<String>,
    pub uri: Option<String>,
    pub node: Option<ManualNodeDraft>,
    pub last_update: i64,
    pub node_count: u32,
    pub enabled: bool,
    pub format: Option<String>,
    pub skipped_count: u32,
    pub via_proxy: bool,
    pub auto_update: bool,
    pub auto_update_interval_min: u32,
    pub traffic: Option<SubscriptionTraffic>,
    pub user_agent: Option<String>,
}

pub open spec fn at_least_one(n: u32) -> u32 {
    if n < 1 {
        1
    } else {
        n
    }
}

pub open spec fn source_kind(s: SourceModel) -> Seq<char> {
    match s {
        SourceModel::Url(_) => "url"@,
        SourceModel::File(_) => "file"@,
        SourceModel::Text(_) => "text"@,
        SourceModel::Node(_) => "node"@,
        SourceModel::Singbox(_) => "singbox"@,
    }
}

/// What a list shows of a source. The last part of a file's path is handed in.
pub open spec fn source_label(s: SourceModel, file_name: Option<Seq<char>>) -> Seq<char> {
    match s {
        SourceModel::Url(url) => masked_url(url, url_parsed(url)),
        SourceModel::File(path) => match file_name {
            Some(name) => name,
            None => path,
        },
        SourceModel::Text(content) => shortened(
            match first_line(text_lines(content)) {
                Some(line) => line,
                None => "pasted config"@,
            },
            48,
        ),
        SourceModel::Node(uri) => match uri {
            Some(u) => masked_uri(u),
            None => "manual node"@,
        },
        SourceModel::Singbox(_) => "sing-box"@,
    }
}

/// A character that separates the parts of a path on some system.
pub open spec fn is_separator(c: char) -> bool {
    c == '/' || c == '\\'
}

/// A path that begins as those of shares and devices do on some systems, which are read by
/// rules of their own.
pub open spec fn begins_with_two_separators(path: Seq<char>) -> bool {
    path.len() >= 2 && is_separator(path[0]) && is_separator(path[1])
}

/// What follows the last slash.
pub open spec fn behind_last_slash(path: Seq<char>) -> Seq<char>
    decreases path.len(),
{
    if path.len() == 0 || path.last() == '/' {
        Seq::empty()
    } else {
        behind_last_slash(path.drop_last()).push(path.last())
    }
}

/// The last part of a path, whatever slashes end the path.
pub open spec fn last_part(path: Seq<char>) -> Seq<char>
    decreases path.len(),
{
    if path.len() > 0 && path.last() == '/' {
        last_part(path.drop_last())
    } else {
        behind_last_slash(path)
    }
}

/// A text that is a file's name on every system.
pub open spec fn plain_file_name(name: Seq<char>) -> bool {
    &&& name.len() > 0
    &&& !name.contains('/')
    &&& !name.contains('\\')
    &&& !name.contains(':')
    &&& name != "."@
    &&& name != ".."@
}

/// What a system may take for the name of the file at a path: the last part, where that is
/// a name on every system; nothing, where there is no last part or where it leads back to
/// the directory above; else some text of the path.
pub open spec fn names_file(path: Seq<char>, name: Option<Seq<char>>) -> bool {
    &&& name is Some ==> (name->0).len() > 0 && holds_text(path, name->0)
    &&& !begins_with_two_separators(path) ==> {
        &&& name is Some ==> !(name->0).contains('/')
        &&& plain_file_name(last_part(path)) ==> name == Some(last_part(path))
        &&& last_part(path).len() == 0 || last_part(path) == ".."@ ==> name is None
    }
}

/// `std::path::Path::file_name`, where the name is text: the last part of the path, where
/// that is a plain name, and nothing where the path has no part or ends in two dots. Which
/// characters besides a slash separate the parts of a path, and how a path is read that
/// begins with two separators, differs between systems. So for other last parts, and for
/// such paths, no more is stated than that a name is a text out of the path.
#[verifier::external_body]
fn file_name_of(path: &str) -> (r: Option<String>)
    ensures
        names_file(path@, opt_view(r)),
{
    std::path::Path::new(path).file_name().and_then(|s| s.to_str()).map(|s| s.to_string())
}

impl Subscription {
    /// The fields that a list takes over.
    pub open spec fn shown_as(self, v: SubscriptionView, file_name: Option<Seq<char>>) -> bool {
        &&& v.id == self.id
        &&& v.name == self.name
        &&& v.source_kind@ == source_kind(self.source@)
        &&& v.source_display@ == source_label(self.source@, file_name)
        &&& v.last_update == self.last_update
        &&& v.node_count == self.node_count
        &&& v.enabled == self.enabled
        &&& v.format == self.format
        &&& v.skipped_count == self.skipped_count
        &&& v.auto_update == self.auto_update
        &&& v.auto_update_interval_min == at_least_one(self.auto_update_interval_min)
        &&& v.traffic == self.traffic
        &&& v.node_summary is None
    }

    /// A list shows the subscription, with the name of its file.
    pub open spec fn shown(self, v: SubscriptionView) -> bool {
        exists|name: Option<Seq<char>>|
            #![trigger self.shown_as(v, name)]
            self.shown_as(v, name) && (self.source@ matches SourceModel::File(path) ==> names_file(
                path,
                name,
            ))
    }

    /// A list can show the source: a text that is no URL is cut between characters.
    pub open spec fn can_be_shown(self) -> bool {
        match self.source@ {
            SourceModel::Url(url) => mask_ok(url, url_parsed(url)),
            _ => true,
        }
    }

    /// The subscription as lists show it: without what its source keeps secret.
    pub fn to_view(&self) -> (r: SubscriptionView)
        requires
            self.can_be_shown(),
        ensures
            self.shown(r),
    {
        let name = match &self.source {
            SubscriptionSource::File { path } => file_name_of(path.as_str()),
            _ => None,
        };
        let ghost part = opt_view(name);
        let r = self.view_with_file_name(name);
        proof {
            assert(self.shown_as(r, part));
        }
        r
    }

    /// The subscription as lists show it, where they can show it.
    pub fn try_to_view(&self) -> (r: Option<SubscriptionView>)
        ensures
            r is Some == self.can_be_shown(),
            r is Some ==> self.shown(r->0),
    {
        if let SubscriptionSource::Url { url } = &self.source {
            if parse_url(url.as_str()).is_none() && byte_len(url.as_str()) > 48
                && !url.as_str().is_char_boundary(48) {
                return None;
            }
        }
        Some(self.to_view())
    }

    /// The subscription as lists show it, given the last part of its file's path.
    pub fn view_with_file_name(&self, file_name: Option<String>) -> (r: SubscriptionView)
        requires
            self.can_be_shown(),
        ensures
            self.shown_as(r, opt_view(file_name)),
    {
        let (kind, label): (&str, String) = match &self.source {
            SubscriptionSource::Url { url } => ("url", mask_url_for_display(url.as_str())),
            SubscriptionSource::File { path } => (
                "file",
                match file_name {
                    Some(name) => name,
                    None => path.clone(),
                },
            ),
            SubscriptionSource::Text { content } => {
                let line = match first_nonempty_line(content.as_str()) {
                    Some(line) => line,
                    None => "pasted config".to_owned(),
                };
                ("text", truncate_display(line.as_str(), 48))
            },
            SubscriptionSource::Node { uri } => (
                "node",
                match uri {
                    Some(u) => mask_share_uri(u.as_str()),
                    None => "manual node".to_owned(),
                },
            ),
            SubscriptionSource::Singbox { .. } => ("singbox", "sing-box".to_owned()),
        };
        SubscriptionView {
            id: self.id.clone(),
            name: self.name.clone(),
            source_kind: kind.to_owned(),
            source_display: label,
            last_update: self.last_update,
            node_count: self.node_count,
            enabled: self.enabled,
            format: clone_opt(&self.format),
            skipped_count: self.skipped_count,
            auto_update: self.auto_update,
            auto_update_interval_min: if self.auto_update_interval_min < 1 {
                1
            } else {
                self.auto_update_interval_min
            },
            traffic: match &self.traffic {
                Some(t) => Some(t.clone()),
                None => None,
            },
            node_summary: None,
        }
    }

    /// The subscription as its form shows it: with the source as it is.
    pub fn to_detail(&self) -> (r: SubscriptionDetail)
        ensures
            r.id == self.id,
            r.name == self.name,
            r.source_kind@ == source_kind(self.source@),
            opt_view(r.url) == match self.source@ {
                SourceModel::Url(url) => Some(url),
                _ => None,
            },
            opt_view(r.path) == match self.source@ {
                SourceModel::File(path) => Some(path),
                _ => None,
            },
            opt_view(r.content) == match self.source@ {
                SourceModel::Text(content) => Some(content),
                SourceModel::Singbox(content) => Some(content),
                _ => None,
            },
            opt_view(r.uri) == match self.source@ {
                SourceModel::Node(uri) => uri,
                _ => None,
            },
            r.node is None,
            r.last_update == self.last_update,
            r.node_count == self.node_count,
            r.enabled == self.enabled,
            r.format == self.format,
            r.skipped_count == self.skipped_count,
            r.via_proxy == self.via_proxy,
            r.auto_update == self.auto_update,
            r.auto_update_interval_min == at_least_one(self.auto_update_interval_min),
            r.traffic == self.traffic,
            r.user_agent == self.user_agent,
    {
        let kind: &str = match &self.source {
            SubscriptionSource::Url { .. } => "url",
            SubscriptionSource::File { .. } => "file",
            SubscriptionSource::Text { .. } => "text",
            SubscriptionSource::Node { .. } => "node",
            SubscriptionSource::Singbox { .. } => "singbox",
        };
        SubscriptionDetail {
            id: self.id.clone(),
            name: self.name.clone(),
            source_kind: kind.to_owned(),
            url: match &self.source {
                SubscriptionSource::Url { url } => Some(url.clone()),
                _ => None,
            },
            path: match &self.source {
                SubscriptionSource::File { path } => Some(path.clone()),
                _ => None,
            },
            content: match &self.source {
                SubscriptionSource::Text { content } => Some(content.clone()),
                SubscriptionSource::Singbox { content } => Some(content.clone()),
                _ => None,
            },
            uri: match &self.source {
                SubscriptionSource::Node { uri } => clone_opt(uri),
                _ => None,
            },
            node: None,
            last_update: self.last_update,
            node_count: self.node_count,
            enabled: self.enabled,
            format: clone_opt(&self.format),
            skipped_count: self.skipped_count,
            via_proxy: self.via_proxy,
            auto_update: self.auto_update,
            auto_update_interval_min: if self.auto_update_interval_min < 1 {
                1
            } else {
                self.auto_update_interval_min
            },
            traffic: match &self.traffic {
                Some(t) => Some(t.clone()),
                None => None,
            },
            user_agent: clone_opt(&self.user_agent),
        }
    }

    /// Whether the subscription is to be fetched again.
    pub fn is_auto_update_due(&self, now_secs: i64) -> (r: bool)
        ensures
            r == (self.auto_update && elapsed(now_secs, self.last_update) >= at_least_one(
                self.auto_update_interval_min,
            ) * 60),
    {
        if !self.auto_update {
            return false;
        }
        let minutes: u32 = if self.auto_update_interval_min < 1 {
            1
        } else {
            self.auto_update_interval_min
        };
        let interval: i64 = (minutes as i64) * 60;
        since(now_secs, self.last_update) >= interval
    }
}

/// The first line that is not blank, without the white space around it.
pub open spec fn first_line(lines: Seq<Seq<char>>) -> Option<Seq<char>>
    decreases lines.len(),
{
    if lines.len() == 0 {
        None
    } else if trimmed(lines[0]).len() > 0 {
        Some(trimmed(lines[0]))
    } else {
        first_line(lines.drop_first())
    }
}

pub fn first_nonempty_line(s: &str) -> (r: Option<String>)
    ensures
        opt_view(r) == first_line(text_lines(s@)),
{
    let all = lines(s);
    let ghost models = views(all@);
    proof {
        assert(models.skip(0) =~= models);
    }
    let mut i: usize = 0;
    while i < all.len()
        invariant
            i <= all.len(),
            models == views(all@),
            models == text_lines(s@),
            first_line(models) == first_line(models.skip(i as int)),
        decreases all.len() - i,
    {
        let ghost rest = models.skip(i as int);
        proof {
            assert(rest[0] == all@[i as int]@);
            assert(rest.drop_first() =~= models.skip(i + 1));
        }
        let line = trim(all[i].as_str());
        if !line.is_empty() {
            return Some(line.to_owned());
        }
        i += 1;
    }
    None
}

/// The first `max` characters, with a mark where there are more.
pub open spec fn shortened(s: Seq<char>, max: int) -> Seq<char> {
    if s.len() <= max {
        s
    } else {
        s.take(max) + "…"@
    }
}

pub fn truncate_display(s: &str, max: usize) -> (r: String)
    ensures
        r@ == shortened(s@, max as int),
{
    let n: usize = s.unicode_len();
    if n <= max {
        s.to_owned()
    } else {
        proof {
            assert(s@.subrange(0, max as int) =~= s@.take(max as int));
        }
        concat2(s.substring_char(0, max), "…")
    }
}

/// The position of the first of `?`, `#` and `/`, or the length of `s`.
pub open spec fn host_end(s: Seq<char>) -> int
    decreases s.len(),
{
    if s.len() == 0 || s[0] == '?' || s[0] == '#' || s[0] == '/' {
        0
    } else {
        1 + host_end(s.drop_first())
    }
}

/// What follows the last `@` of `s`; all of `s` without one.
pub open spec fn after_at(s: Seq<char>) -> Seq<char>
    decreases s.len(),
{
    if s.len() == 0 {
        s
    } else if s.last() == '@' {
        Seq::empty()
    } else {
        after_at(s.drop_last()).push(s.last())
    }
}

/// A share link without its credentials: the scheme and the host. `at` is where
/// `://` stands in it.
pub open spec fn masked_at(uri: Seq<char>, at: int) -> Seq<char> {
    let rest = uri.skip(at + 3);
    uri.take(at) + "://"@ + after_at(rest.take(host_end(rest)))
}

/// A share link as lists show it: without its credentials, or shortened where it
/// has no scheme.
pub open spec fn masked_uri(raw: Seq<char>) -> Seq<char> {
    let uri = trimmed(raw);
    match find_pos(uri, "://"@) {
        Some(at) => masked_at(uri, at),
        None => shortened(uri, 40),
    }
}

proof fn lemma_host_end(s: Seq<char>, k: int)
    requires
        0 <= k <= s.len(),
        forall|j: int| 0 <= j < k ==> s[j] != '?' && s[j] != '#' && s[j] != '/',
        k < s.len() ==> s[k] == '?' || s[k] == '#' || s[k] == '/',
    ensures
        host_end(s) == k,
    decreases k,
{
    if k > 0 {
        assert(s.drop_first()[k - 1] == s[k] || k == s.len());
        lemma_host_end(s.drop_first(), k - 1);
    }
}

proof fn lemma_after_at(s: Seq<char>, k: int)
    requires
        0 <= k <= s.len(),
        forall|j: int| k <= j < s.len() ==> s[j] != '@',
        k > 0 ==> s[k - 1] == '@',
    ensures
        after_at(s) == s.skip(k),
    decreases s.len(),
{
    if k < s.len() {
        lemma_after_at(s.drop_last(), k);
        assert(s.drop_last().skip(k).push(s.last()) =~= s.skip(k));
    } else if s.len() > 0 {
        assert(s.last() == '@');
        assert(s.skip(k) =~= Seq::empty());
    } else {
        assert(s.skip(k) =~= s);
    }
}

/// A share link as lists show it.
pub fn mask_share_uri(uri: &str) -> (r: String)
    ensures
        r@ == masked_uri(uri@),
{
    let uri = trim(uri);
    match find(uri, "://") {
        Some(at) => {
            let v = chars_of(uri);
            let n: usize = v.len();
            proof {
                reveal_strlit("://");
            }
            let start: usize = at + 3;
            let ghost rest = uri@.skip(start as int);
            let mut end: usize = start;
            while end < n && v[end] != '?' && v[end] != '#' && v[end] != '/'
                invariant
                    v@ == uri@,
                    n == v@.len(),
                    start <= end <= n,
                    rest == uri@.skip(start as int),
                    forall|j: int|
                        0 <= j < end - start ==> rest[j] != '?' && rest[j] != '#' && rest[j] != '/',
                decreases n - end,
            {
                end += 1;
            }
            let ghost host = rest.take(end - start);
            let mut from: usize = end;
            while from > start && v[from - 1] != '@'
                invariant
                    v@ == uri@,
                    n == v@.len(),
                    start <= from <= end <= n,
                    rest == uri@.skip(start as int),
                    host == rest.take(end - start),
                    forall|j: int| from - start <= j < host.len() ==> host[j] != '@',
                decreases from,
            {
                from -= 1;
            }
            proof {
                lemma_host_end(rest, end - start);
                if from > start {
                    assert(host[from - start - 1] == v@[from - 1]);
                }
                lemma_after_at(host, from - start);
                assert(host.skip(from - start) =~= uri@.subrange(from as int, end as int));
                assert(uri@.subrange(0, at as int) =~= uri@.take(at as int));
            }
            concat3(uri.substring_char(0, at), "://", uri.substring_char(from, end))
        },
        None => truncate_display(uri, 40),
    }
}

/// The first `n` bytes of a text, with a mark where there are more.
pub open spec fn cut_bytes(s: Seq<char>, n: int) -> Seq<char> {
    if encode_utf8(s).len() > n {
        byte_prefix(s, n) + "…"@
    } else {
        s
    }
}

/// A URL as lists show it: the start of its path, and no query. A text that is no
/// URL is shown by its start.
pub open spec fn masked_url(url: Seq<char>, parsed: Option<UrlModel>) -> Seq<char> {
    match parsed {
        Some(u) => u.scheme + "://"@ + (match u.host {
            Some(h) => h,
            None => "?"@,
        }) + cut_bytes(u.path, 24) + (if u.query is Some {
            "?…"@
        } else {
            Seq::empty()
        }),
        None => cut_bytes(url, 48),
    }
}

/// A text that is no URL can be cut after 48 bytes, where it has more.
pub open spec fn mask_ok(url: Seq<char>, parsed: Option<UrlModel>) -> bool {
    parsed is None && encode_utf8(url).len() > 48 ==> cut_ok(url, 48)
}

fn cut_display(s: &str, n: usize) -> (r: String)
    requires
        encode_utf8(s@).len() > n ==> cut_ok(s@, n as int),
    ensures
        r@ == cut_bytes(s@, n as int),
{
    if byte_len(s) > n {
        concat2(byte_take(s, n), "…")
    } else {
        s.to_owned()
    }
}

/// A URL as lists show it.
pub fn mask_url_for_display(url: &str) -> (r: String)
    requires
        mask_ok(url@, url_parsed(url@)),
    ensures
        r@ == masked_url(url@, url_parsed(url@)),
{
    match parse_url(url) {
        Some(u) => mask_url_parts(&u),
        None => cut_display(url, 48),
    }
}

/// A URL that was taken apart, as lists show it.
pub fn mask_url_parts(u: &UrlParts) -> (r: String)
    requires
        is_ascii_chars(u.path@),
    ensures
        r@ == masked_url(Seq::empty(), Some(u@)),
{
    proof {
        if encode_utf8(u.path@).len() > 24 {
            vstd::utf8::is_ascii_chars_encode_utf8(u.path@);
            crate::text::lemma_ascii_cut(u.path@, 24);
        }
    }
    let path = cut_display(u.path.as_str(), 24);
    let host: &str = match &u.host {
        Some(h) => h.as_str(),
        None => "?",
    };
    let mut s = concat3(u.scheme.as_str(), "://", host);
    s.append(path.as_str());
    if u.query.is_some() {
        s.append("?…");
    }
    proof {
        assert(s@ =~= masked_url(Seq::empty(), Some(u@)));
    }
    s
}

} // verus!
