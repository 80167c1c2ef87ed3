//! Proxy nodes: what a subscription hands over and a core can dial.

use crate::digest::{short_hash, short_hash_of};
use crate::text::{
    byte_len, byte_prefix, byte_take, concat2, concat3, cut_ok, decimal, decimal_of,
    list_holds, lower, lowered, min_int, opt_view, same, views,
};
use vstd::prelude::*;
use vstd::utf8::encode_utf8;

verus! {

/// Outbound protocols.
#[derive(Debug, Clone, Copy, PartialEq, Eq, Structural)]
pub enum Protocol {
    Shadowsocks,
    Vmess,
    Vless,
    Trojan,
    Hysteria2,
    Tuic,
    Socks5,
    Http,
    Hysteria,
    ShadowTls,
    Ssh,
    Naive,
    Tor,
    WireGuard,
    /// AnyTLS (sing-box 1.12 and later).
    AnyTls,
    /// Snell (sing-box 1.14 and later, versions 4 and 6).
    Snell,
}

impl Protocol {
    /// The name of the protocol in configurations.
    pub open spec fn name(self) -> Seq<char> {
        match self {
            Protocol::Shadowsocks => "shadowsocks"@,
            Protocol::Vmess => "vmess"@,
            Protocol::Vless => "vless"@,
            Protocol::Trojan => "trojan"@,
            Protocol::Hysteria2 => "hysteria2"@,
            Protocol::Tuic => "tuic"@,
            Protocol::Socks5 => "socks5"@,
            Protocol::Http => "http"@,
            Protocol::Hysteria => "hysteria"@,
            Protocol::ShadowTls => "shadowtls"@,
            Protocol::Ssh => "ssh"@,
            Protocol::Naive => "naive"@,
            Protocol::Tor => "tor"@,
            Protocol::WireGuard => "wireguard"@,
            Protocol::AnyTls => "anytls"@,
            Protocol::Snell => "snell"@,
        }
    }

    /// The short name that some configurations use beside the name.
    pub open spec fn alias(self) -> Option<Seq<char>> {
        match self {
            Protocol::Shadowsocks => Some("ss"@),
            Protocol::Hysteria2 => Some("hy2"@),
            Protocol::Socks5 => Some("socks"@),
            Protocol::Http => Some("https"@),
            Protocol::Hysteria => Some("hy"@),
            Protocol::WireGuard => Some("wg"@),
            _ => None,
        }
    }

    /// A configuration's type field that stands for the protocol, in any case.
    pub open spec fn is_named(self, t: Seq<char>) -> bool {
        lowered(t) == self.name() || self.alias() == Some(lowered(t))
    }

    pub fn as_str(self) -> (r: &'static str)
        ensures
            r@ == self.name(),
    {
        match self {
            Protocol::Shadowsocks => "shadowsocks",
            Protocol::Vmess => "vmess",
            Protocol::Vless => "vless",
            Protocol::Trojan => "trojan",
            Protocol::Hysteria2 => "hysteria2",
            Protocol::Tuic => "tuic",
            Protocol::Socks5 => "socks5",
            Protocol::Http => "http",
            Protocol::Hysteria => "hysteria",
            Protocol::ShadowTls => "shadowtls",
            Protocol::Ssh => "ssh",
            Protocol::Naive => "naive",
            Protocol::Tor => "tor",
            Protocol::WireGuard => "wireguard",
            Protocol::AnyTls => "anytls",
            Protocol::Snell => "snell",
        }
    }

    /// The protocol that a Clash `type` field names.
    pub fn from_clash_type(t: &str) -> (r: Option<Self>)
        ensures
            match r {
                Some(p) => p.is_named(t@),
                None => forall|p: Protocol| !p.is_named(t@),
            },
    {
        let key = lower(t);
        let k = key.as_str();
        if same(k, "ss") || same(k, "shadowsocks") {
            Some(Protocol::Shadowsocks)
        } else if same(k, "vmess") {
            Some(Protocol::Vmess)
        } else if same(k, "vless") {
            Some(Protocol::Vless)
        } else if same(k, "trojan") {
            Some(Protocol::Trojan)
        } else if same(k, "hysteria2") || same(k, "hy2") {
            Some(Protocol::Hysteria2)
        } else if same(k, "tuic") {
            Some(Protocol::Tuic)
        } else if same(k, "socks5") || same(k, "socks") {
            Some(Protocol::Socks5)
        } else if same(k, "http") || same(k, "https") {
            Some(Protocol::Http)
        } else if same(k, "hysteria") || same(k, "hy") {
            Some(Protocol::Hysteria)
        } else if same(k, "shadowtls") {
            Some(Protocol::ShadowTls)
        } else if same(k, "ssh") {
            Some(Protocol::Ssh)
        } else if same(k, "naive") {
            Some(Protocol::Naive)
        } else if same(k, "tor") {
            Some(Protocol::Tor)
        } else if same(k, "wireguard") || same(k, "wg") {
            Some(Protocol::WireGuard)
        } else if same(k, "anytls") {
            Some(Protocol::AnyTls)
        } else if same(k, "snell") {
            Some(Protocol::Snell)
        } else {
            None
        }
    }

    /// The protocol that a sing-box `type` field names: the Clash names.
    pub fn from_singbox_type(t: &str) -> (r: Option<Self>)
        ensures
            match r {
                Some(p) => p.is_named(t@),
                None => forall|p: Protocol| !p.is_named(t@),
            },
    {
        Protocol::from_clash_type(t)
    }

    /// Protocols that never accept a plain TCP connect on `server:port`, being
    /// carried by QUIC: a TCP probe of them times out whatever their health.
    pub open spec fn udp_only(self) -> bool {
        self is Hysteria2 || self is Hysteria || self is Tuic
    }

    pub fn is_udp_only(self) -> (r: bool)
        ensures
            r == self.udp_only(),
    {
        matches!(self, Protocol::Hysteria2 | Protocol::Hysteria | Protocol::Tuic)
    }

    pub open spec fn served_by_xray(self) -> bool {
        ||| self is Shadowsocks
        ||| self is Vmess
        ||| self is Vless
        ||| self is Trojan
        ||| self is Hysteria2
        ||| self is Socks5
        ||| self is Http
        ||| self is WireGuard
    }

    /// Whether the Xray core can serve the protocol as an outbound.
    pub fn xray_supported(self) -> (r: bool)
        ensures
            r == self.served_by_xray(),
    {
        matches!(
            self,
            Protocol::Shadowsocks
                | Protocol::Vmess
                | Protocol::Vless
                | Protocol::Trojan
                | Protocol::Hysteria2
                | Protocol::Socks5
                | Protocol::Http
                | Protocol::WireGuard
        )
    }

    pub open spec fn served_by_mihomo(self) -> bool {
        !(self is Naive || self is Tor || self is ShadowTls)
    }

    /// Whether the mihomo core can serve the protocol as an outbound.
    pub fn mihomo_supported(self) -> (r: bool)
        ensures
            r == self.served_by_mihomo(),
    {
        !matches!(self, Protocol::Naive | Protocol::Tor | Protocol::ShadowTls)
    }
}

proof fn lemma_protocol_names_differ()
    ensures
        forall|p: Protocol, q: Protocol| #[trigger] p.name() == #[trigger] q.name() ==> p == q,
        forall|p: Protocol, q: Protocol|
            (#[trigger] p.alias()) is Some && p.alias() == Some(#[trigger] q.name()) ==> p == q,
        forall|p: Protocol, q: Protocol|
            (#[trigger] p.alias()) is Some && p.alias() == (#[trigger] q.alias()) ==> p == q,
        forall|p: Protocol| lowered(#[trigger] p.name()) == p.name(),
{
    reveal_strlit("shadowsocks");
    reveal_strlit("vmess");
    reveal_strlit("vless");
    reveal_strlit("trojan");
    reveal_strlit("hysteria2");
    reveal_strlit("tuic");
    reveal_strlit("socks5");
    reveal_strlit("http");
    reveal_strlit("hysteria");
    reveal_strlit("shadowtls");
    reveal_strlit("ssh");
    reveal_strlit("naive");
    reveal_strlit("tor");
    reveal_strlit("wireguard");
    reveal_strlit("anytls");
    reveal_strlit("snell");
    reveal_strlit("ss");
    reveal_strlit("hy2");
    reveal_strlit("socks");
    reveal_strlit("https");
    reveal_strlit("hy");
    reveal_strlit("wg");
    assert forall|p: Protocol, q: Protocol| #[trigger] p.name() == #[trigger] q.name() implies p
        == q by {
        assert(p.name().len() == q.name().len());
        assert(p.name()[0] == q.name()[0] && p.name()[1] == q.name()[1]);
    }
    assert forall|p: Protocol, q: Protocol|
        (#[trigger] p.alias()) is Some && p.alias() == Some(#[trigger] q.name()) implies p == q by {
        assert(p.alias()->0.len() == q.name().len());
        assert(p.alias()->0[0] == q.name()[0] && p.alias()->0[1] == q.name()[1]);
    }
    assert forall|p: Protocol, q: Protocol|
        (#[trigger] p.alias()) is Some && p.alias() == (#[trigger] q.alias()) implies p == q by {
        assert(p.alias()->0.len() == q.alias()->0.len());
        assert(p.alias()->0[0] == q.alias()->0[0] && p.alias()->0[1] == q.alias()->0[1]);
    }
    assert forall|p: Protocol| lowered(#[trigger] p.name()) == p.name() by {
        assert(lowered(p.name()) =~= p.name());
    }
}

/// A type field names one protocol at most.
pub proof fn law_type_names_one_protocol(t: Seq<char>, p: Protocol, q: Protocol)
    requires
        p.is_named(t),
        q.is_named(t),
    ensures
        p == q,
{
    lemma_protocol_names_differ();
}

/// The name of a protocol, read as a type field, gives the protocol back.
pub proof fn law_protocol_name_reads_back(p: Protocol, q: Protocol)
    requires
        q.is_named(p.name()),
    ensures
        q == p,
        p.is_named(p.name()),
{
    lemma_protocol_names_differ();
}

#[derive(Debug, Clone, PartialEq, Eq)]
pub struct TlsConfig {
    pub enabled: bool,
    pub server_name: Option<String>,
    pub insecure: Option<bool>,
    pub alpn: Option<Vec<String>>,
    pub utls_fingerprint: Option<String>,
    pub reality_public_key: Option<String>,
    pub reality_short_id: Option<String>,
}

impl Default for TlsConfig {
    fn default() -> (r: Self)
        ensures
            !r.enabled,
            r.server_name is None,
            r.insecure is None,
            r.alpn is None,
            r.utls_fingerprint is None,
            r.reality_public_key is None,
            r.reality_short_id is None,
    {
        TlsConfig {
            enabled: false,
            server_name: None,
            insecure: None,
            alpn: None,
            utls_fingerprint: None,
            reality_public_key: None,
            reality_short_id: None,
        }
    }
}

#[allow(inconsistent_fields)]
#[derive(Debug, Clone, PartialEq, Eq)]
pub enum Transport {
    Tcp,
    Ws {
        path: Option<String>,
        headers: Option<std::collections::BTreeMap<String, String>>,
        max_early_data: Option<u32>,
    },
    Grpc { service_name: Option<String> },
    Http { path: Option<String>, host: Option<Vec<String>> },
    HttpUpgrade { path: Option<String>, host: Option<String> },
    /// Split HTTP, which only the Xray core speaks: a node with this transport
    /// is served by the Xray core or by the Xray sidecar.
    Xhttp {
        path: Option<String>,
        host: Option<String>,
        /// `auto`, `packet-up`, `stream-up` or `stream-one`.
        mode: Option<String>,
    },
}

/// Parameters of the shadow-tls plugin of a Shadowsocks node.
#[derive(Debug, Clone, PartialEq)]
pub struct ShadowTlsOpts {
    pub host: String,
    pub password: String,
    /// Protocol version, 1 to 3.
    pub version: u8,
    pub fingerprint: Option<String>,
}

/// The fields that only one protocol has.
#[allow(inconsistent_fields)]
#[derive(Debug, Clone, PartialEq)]
pub enum ProtocolConfig {
    Shadowsocks {
        method: String,
        password: String,
        plugin: Option<String>,
        plugin_opts: Option<String>,
        shadow_tls: Option<ShadowTlsOpts>,
    },
    Vmess { uuid: String, alter_id: u16, security: String },
    Vless { uuid: String, flow: Option<String>, packet_encoding: String },
    Trojan { password: String },
    Hysteria2 {
        password: String,
        up_mbps: Option<u32>,
        down_mbps: Option<u32>,
        obfs: Option<String>,
        obfs_password: Option<String>,
    },
    Tuic {
        uuid: String,
        password: String,
        congestion_control: Option<String>,
        udp_relay_mode: Option<String>,
        zero_rtt_handshake: bool,
    },
    Socks5 { username: Option<String>, password: Option<String> },
    Http { username: Option<String>, password: Option<String>, path: Option<String> },
    Hysteria {
        auth: String,
        auth_base64: bool,
        up_mbps: Option<u32>,
        down_mbps: Option<u32>,
        obfs: Option<String>,
    },
    ShadowTls { version: u8, password: Option<String> },
    Ssh {
        user: String,
        password: Option<String>,
        private_key: Option<String>,
        private_key_passphrase: Option<String>,
        host_key: Vec<String>,
    },
    Naive { username: String, password: String, quic: bool },
    Tor { executable_path: String, extra_args: Vec<String>, data_directory: Option<String> },
    /// A WireGuard endpoint, as a node that can be selected.
    WireGuard {
        local_address: Vec<String>,
        private_key: String,
        peer_public_key: String,
        pre_shared_key: Option<String>,
        reserved: Vec<u8>,
        mtu: Option<u32>,
    },
    AnyTls { password: String },
    Snell {
        psk: String,
        /// Protocol version, 4 or 6.
        version: u8,
        userkey: Option<String>,
        reuse: Option<bool>,
        /// Version 4: `http`, `none` or `tls`.
        obfs_mode: Option<String>,
        obfs_host: Option<String>,
        /// Version 6: `default`, `unshaped` or `unsafe-raw`.
        mode: Option<String>,
    },
}

/// The security of a VMess node that names none.
pub fn default_vmess_security() -> (r: String)
    ensures
        r@ == "auto"@,
{
    "auto".to_owned()
}

/// The packet encoding of a VLESS node that names none.
pub fn default_vless_packet_encoding() -> (r: String)
    ensures
        r@ == "xudp"@,
{
    "xudp".to_owned()
}

/// A node in the form that all subscriptions are brought to.
#[derive(Debug, Clone, PartialEq)]
pub struct ProxyNode {
    pub id: String,
    pub name: String,
    pub protocol: Protocol,
    pub server: String,
    pub port: u16,
    pub tls: Option<TlsConfig>,
    pub transport: Option<Transport>,
    pub udp: Option<bool>,
    pub config: ProtocolConfig,
    /// The `type` field or URI scheme that the node came with.
    pub source: Option<String>,
    /// The last measured latency.
    pub latency_ms: Option<u32>,
    /// When the latency was measured, in Unix seconds.
    pub latency_at: Option<i64>,
}

/// The id of a node: a digest of its name, server, port and protocol.
pub open spec fn node_id(
    name: Seq<char>,
    server: Seq<char>,
    port: u16,
    protocol: Protocol,
) -> Seq<char> {
    short_hash(
        name + "|"@ + server + "|"@ + decimal(port as nat) + "|"@ + protocol.name(),
        16,
    )
}

pub open spec fn or_empty(o: Option<String>) -> Seq<char> {
    match o {
        Some(s) => s@,
        None => Seq::empty(),
    }
}

/// The credentials of a node, by which two nodes of one server differ.
pub open spec fn credentials(config: ProtocolConfig) -> Seq<char> {
    match config {
        ProtocolConfig::Shadowsocks { method, password, .. } => method@ + "|"@ + password@,
        ProtocolConfig::Vmess { uuid, .. } => uuid@,
        ProtocolConfig::Vless { uuid, .. } => uuid@,
        ProtocolConfig::Trojan { password } => password@,
        ProtocolConfig::AnyTls { password } => password@,
        ProtocolConfig::Hysteria2 { password, .. } => password@,
        ProtocolConfig::Tuic { uuid, password, .. } => uuid@ + "|"@ + password@,
        ProtocolConfig::Socks5 { username, password } => or_empty(username) + "|"@ + or_empty(
            password,
        ),
        ProtocolConfig::Http { username, password, .. } => or_empty(username) + "|"@ + or_empty(
            password,
        ),
        ProtocolConfig::Hysteria { auth, .. } => auth@,
        ProtocolConfig::ShadowTls { password, .. } => or_empty(password),
        ProtocolConfig::Ssh { user, password, private_key, .. } => user@ + "|"@ + or_empty(password)
            + "|"@ + or_empty(private_key),
        ProtocolConfig::Naive { username, password, .. } => username@ + "|"@ + password@,
        ProtocolConfig::Tor { executable_path, .. } => executable_path@,
        ProtocolConfig::WireGuard { private_key, peer_public_key, .. } => private_key@ + "|"@
            + peer_public_key@,
        ProtocolConfig::Snell { psk, version, .. } => decimal(version as nat) + "|"@ + psk@,
    }
}

/// The bytes of an id that outbound tags are made of: 16 of them, or all.
pub open spec fn tag_len(id: Seq<char>) -> int {
    min_int(encode_utf8(id).len() as int, 16)
}

/// The part of an id that outbound tags are made of.
pub open spec fn id_prefix(id: Seq<char>) -> Seq<char> {
    byte_prefix(id, tag_len(id))
}

/// The prefix of an id can be cut off.
pub open spec fn id_cut_ok(id: Seq<char>) -> bool {
    cut_ok(id, tag_len(id))
}

/// The id that follows `id` at the given salt.
pub open spec fn salted_id(
    id: Seq<char>,
    server: Seq<char>,
    port: u16,
    protocol: Protocol,
    salt: int,
) -> Seq<char> {
    node_id("dup:"@ + id + ":"@ + decimal(salt as nat), server, port, protocol)
}

/// What the ids of a node are made of.
pub struct IdSeed {
    pub id: Seq<char>,
    pub server: Seq<char>,
    pub port: u16,
    pub protocol: Protocol,
}

pub open spec fn seed(node: ProxyNode) -> IdSeed {
    IdSeed { id: node.id@, server: node.server@, port: node.port, protocol: node.protocol }
}

pub open spec fn seeds(nodes: Seq<ProxyNode>) -> Seq<IdSeed> {
    Seq::new(nodes.len(), |i: int| seed(nodes[i]))
}

/// The id that a node keeps beside the prefixes `taken`, and how many ids were
/// tried before it: its own id, or the first of the salted ids behind `salt`
/// whose prefix is free. The salts end at `i32::MAX`.
pub open spec fn settled(s: IdSeed, taken: Set<Seq<char>>, salt: int) -> (Seq<char>, nat)
    decreases i32::MAX - salt,
{
    if !taken.contains(id_prefix(s.id)) || salt >= i32::MAX {
        (s.id, 0)
    } else {
        let next = IdSeed { id: salted_id(s.id, s.server, s.port, s.protocol, salt + 1), ..s };
        let (last, n) = settled(next, taken, salt + 1);
        (last, n + 1)
    }
}

/// The ids of the first `k` nodes once they are settled one after the other, and
/// how many ids were tried for them.
pub open spec fn settled_ids(s: Seq<IdSeed>, k: int) -> (Seq<Seq<char>>, nat)
    decreases k,
{
    if k <= 0 {
        (Seq::empty(), 0)
    } else {
        let (ids, n) = settled_ids(s, k - 1);
        let (id, m) = settled(s[k - 1], prefixes(ids), 1);
        (ids.push(id), n + m)
    }
}

/// The prefixes of a sequence of ids.
pub open spec fn prefixes(ids: Seq<Seq<char>>) -> Set<Seq<char>> {
    Set::new(|p: Seq<char>| exists|i: int| 0 <= i < ids.len() && id_prefix(#[trigger] ids[i]) == p)
}

/// A node with another id.
pub open spec fn same_but_id(a: ProxyNode, b: ProxyNode) -> bool {
    &&& a.name == b.name
    &&& a.protocol == b.protocol
    &&& a.server == b.server
    &&& a.port == b.port
    &&& a.tls == b.tls
    &&& a.transport == b.transport
    &&& a.udp == b.udp
    &&& a.config == b.config
    &&& a.source == b.source
    &&& a.latency_ms == b.latency_ms
    &&& a.latency_at == b.latency_at
}

proof fn lemma_node_id_ascii(name: Seq<char>, server: Seq<char>, port: u16, protocol: Protocol, id: Seq<char>)
    requires
        id == node_id(name, server, port, protocol),
        id.len() == 32,
    ensures
        id_cut_ok(id),
        id_prefix(id) == id.take(16),
{
    let text = name + "|"@ + server + "|"@ + decimal(port as nat) + "|"@ + protocol.name();
    crate::digest::lemma_hex_ascii(crate::digest::sha256(encode_utf8(text)).take(16));
    crate::text::lemma_ascii_cut(id, 16);
}

impl ProxyNode {
    pub open spec fn identity(self) -> Seq<char> {
        self.protocol.name() + "|"@ + self.server@ + "|"@ + decimal(self.port as nat) + "|"@
            + credentials(self.config)
    }

    pub open spec fn instance(self) -> Seq<char> {
        self.identity() + "|"@ + self.name@
    }

    /// A stable id, which depends on nothing but the arguments.
    pub fn compute_id(name: &str, server: &str, port: u16, protocol: Protocol) -> (r: String)
        ensures
            r@ == node_id(name@, server@, port, protocol),
            r@.len() == 32,
    {
        let mut s = concat3(name, "|", server);
        s.append("|");
        let p = decimal_of(port as u64);
        s.append(p.as_str());
        s.append("|");
        s.append(protocol.as_str());
        short_hash_of(s.as_str(), 16)
    }

    /// The node under the id that `compute_id` gives it.
    pub fn with_computed_id(self) -> (r: Self)
        ensures
            same_but_id(self, r),
            r.id@ == node_id(self.name@, self.server@, self.port, self.protocol),
    {
        let mut node = self;
        node.id = ProxyNode::compute_id(
            node.name.as_str(),
            node.server.as_str(),
            node.port,
            node.protocol,
        );
        node
    }

    /// The node under an id made of its backend alone: protocol, server, port and
    /// credentials, whatever it is called.
    pub fn with_backend_id(self) -> (r: Self)
        ensures
            same_but_id(self, r),
            r.id@ == short_hash(self.identity(), 16),
            r.id@.len() == 32,
    {
        let mut node = self;
        let key = node.identity_key();
        node.id = short_hash_of(key.as_str(), 16);
        node
    }

    /// The outbound, whatever it is called: equal for two nodes of one protocol,
    /// server and port with the same credentials.
    pub fn identity_key(&self) -> (r: String)
        ensures
            r@ == self.identity(),
    {
        let mut s = concat3(self.protocol.as_str(), "|", self.server.as_str());
        s.append("|");
        let p = decimal_of(self.port as u64);
        s.append(p.as_str());
        s.append("|");
        let c = config_identity(&self.config);
        s.append(c.as_str());
        s
    }

    /// One node that can be selected: the outbound under its display name.
    pub fn instance_key(&self) -> (r: String)
        ensures
            r@ == self.instance(),
    {
        let key = self.identity_key();
        concat3(key.as_str(), "|", self.name.as_str())
    }

    /// Makes the prefixes of the ids differ, from which outbound tags are made:
    /// the first node with a prefix keeps its id, a later one is hashed again,
    /// with a salt that depends on nothing else. Returns how many ids were
    /// rewritten.
    pub fn ensure_unique_ids(nodes: &mut Vec<ProxyNode>) -> (r: usize)
        requires
            forall|i: int| 0 <= i < old(nodes)@.len() ==> id_cut_ok(#[trigger] old(nodes)@[i].id@),
        ensures
            final(nodes)@.len() == old(nodes)@.len(),
            forall|i: int|
                0 <= i < old(nodes)@.len() ==> {
                    &&& same_but_id(old(nodes)@[i], #[trigger] final(nodes)@[i])
                    &&& final(nodes)@[i].id@ == settled_ids(
                        seeds(old(nodes)@),
                        old(nodes)@.len() as int,
                    ).0[i]
                },
            r == min_int(
                settled_ids(seeds(old(nodes)@), old(nodes)@.len() as int).1 as int,
                usize::MAX as int,
            ),
    {
        let ghost start = nodes@;
        let ghost all = seeds(start);
        let mut seen: Vec<String> = Vec::new();
        let mut renamed: usize = 0;
        let mut i: usize = 0;
        while i < nodes.len()
            invariant
                start.len() == nodes@.len(),
                all == seeds(start),
                i <= nodes@.len(),
                forall|j: int| 0 <= j < start.len() ==> id_cut_ok(#[trigger] start[j].id@),
                forall|j: int| i <= j < start.len() ==> nodes@[j] == start[j],
                forall|j: int|
                    0 <= j < i ==> {
                        &&& same_but_id(start[j], #[trigger] nodes@[j])
                        &&& nodes@[j].id@ == settled_ids(all, i as int).0[j]
                    },
                settled_ids(all, i as int).0.len() == i,
                seen@.len() == i,
                forall|j: int|
                    0 <= j < i ==> (#[trigger] seen@[j])@ == id_prefix(
                        settled_ids(all, i as int).0[j],
                    ),
                renamed == min_int(settled_ids(all, i as int).1 as int, usize::MAX as int),
            decreases nodes@.len() - i,
        {
            let ghost before = settled_ids(all, i as int);
            let ghost taken = prefixes(before.0);
            let ghost node = start[i as int];
            let ghost goal = settled(all[i as int], taken, 1);
            let mut id: String = nodes[i].id.clone();
            let mut salt: i32 = 1;
            let ghost mut tried: nat = 0;
            let mut prefix = tag_prefix(id.as_str());
            while list_holds(&seen, prefix.as_str()) && salt < i32::MAX
                invariant
                    i < nodes@.len(),
                    1 <= salt <= i32::MAX,
                    node.server@ == nodes@[i as int].server@,
                    node.port == nodes@[i as int].port,
                    node.protocol == nodes@[i as int].protocol,
                    prefix@ == id_prefix(id@),
                    id_cut_ok(id@),
                    taken == prefixes(before.0),
                    seen@.len() == before.0.len(),
                    forall|j: int|
                        0 <= j < seen@.len() ==> (#[trigger] seen@[j])@ == id_prefix(before.0[j]),
                    goal.0 == settled(
                        (IdSeed { id: id@, ..seed(node) }),
                        taken,
                        salt as int,
                    ).0,
                    goal.1 == tried + settled(
                        (IdSeed { id: id@, ..seed(node) }),
                        taken,
                        salt as int,
                    ).1,
                    renamed == min_int((before.1 + tried) as int, usize::MAX as int),
                decreases i32::MAX - salt,
            {
                proof {
                    lemma_seen_is_taken(seen@, before.0, prefix@);
                }
                salt += 1;
                let mut name = concat3("dup:", id.as_str(), ":");
                let d = decimal_of(salt as u64);
                name.append(d.as_str());
                id =
                ProxyNode::compute_id(
                    name.as_str(),
                    nodes[i].server.as_str(),
                    nodes[i].port,
                    nodes[i].protocol,
                );
                proof {
                    lemma_node_id_ascii(name@, node.server@, node.port, node.protocol, id@);
                    tried = tried + 1;
                }
                prefix = tag_prefix(id.as_str());
                if renamed < usize::MAX {
                    renamed += 1;
                }
            }
            proof {
                lemma_seen_is_taken(seen@, before.0, prefix@);
            }
            nodes[i].id = id;
            seen.push(prefix);
            proof {
                let after = settled_ids(all, i + 1);
                assert(after.0 == before.0.push(goal.0));
                assert(nodes@[i as int].id@ == goal.0);
            }
            i += 1;
        }
        renamed
    }
}

/// The salts run out before an id with a free prefix is found for node `j`.
pub open spec fn out_of_salts(s: Seq<IdSeed>, j: int) -> bool {
    let taken = prefixes(settled_ids(s, j).0);
    taken.contains(id_prefix(settled(s[j], taken, 1).0))
}

proof fn lemma_settled_prefix(s: Seq<IdSeed>, k: int, n: int)
    requires
        0 <= k <= n,
    ensures
        settled_ids(s, k).0.len() == k,
        settled_ids(s, n).0.len() == n,
        forall|i: int| 0 <= i < k ==> settled_ids(s, n).0[i] == settled_ids(s, k).0[i],
    decreases n,
{
    if n > 0 {
        if k < n {
            lemma_settled_prefix(s, k, n - 1);
        } else {
            lemma_settled_prefix(s, k - 1, n - 1);
        }
    }
}

/// The ids that `ensure_unique_ids` leaves have prefixes that differ from those
/// before them, unless the salts ran out.
pub proof fn law_settled_prefixes_differ(s: Seq<IdSeed>, i: int, j: int)
    requires
        0 <= i < j < s.len(),
        !out_of_salts(s, j),
    ensures
        id_prefix(settled_ids(s, s.len() as int).0[i]) != id_prefix(
            settled_ids(s, s.len() as int).0[j],
        ),
{
    lemma_settled_prefix(s, j, s.len() as int);
    lemma_settled_prefix(s, j + 1, s.len() as int);
    let before = settled_ids(s, j).0;
    let id = settled(s[j], prefixes(before), 1).0;
    assert(settled_ids(s, j + 1).0 == before.push(id));
    assert(settled_ids(s, s.len() as int).0[j] == id);
    assert(settled_ids(s, s.len() as int).0[i] == before[i]);
    assert(prefixes(before).contains(id_prefix(before[i])));
}

/// Ids whose prefixes differ already are kept, and nothing is counted.
pub proof fn law_distinct_ids_are_kept(s: Seq<IdSeed>)
    requires
        forall|i: int, j: int|
            0 <= i < j < s.len() ==> id_prefix((#[trigger] s[i]).id) != id_prefix(
                (#[trigger] s[j]).id,
            ),
    ensures
        settled_ids(s, s.len() as int).1 == 0,
        forall|i: int| 0 <= i < s.len() ==> settled_ids(s, s.len() as int).0[i] == #[trigger] s[i].id,
{
    lemma_kept_until(s, s.len() as int);
}

proof fn lemma_kept_until(s: Seq<IdSeed>, k: int)
    requires
        0 <= k <= s.len(),
        forall|i: int, j: int|
            0 <= i < j < s.len() ==> id_prefix((#[trigger] s[i]).id) != id_prefix(
                (#[trigger] s[j]).id,
            ),
    ensures
        settled_ids(s, k).1 == 0,
        settled_ids(s, k).0.len() == k,
        forall|i: int| 0 <= i < k ==> settled_ids(s, k).0[i] == #[trigger] s[i].id,
    decreases k,
{
    if k > 0 {
        lemma_kept_until(s, k - 1);
        let before = settled_ids(s, k - 1).0;
        let p = id_prefix(s[k - 1].id);
        if prefixes(before).contains(p) {
            let i = choose|i: int| 0 <= i < before.len() && id_prefix(#[trigger] before[i]) == p;
            assert(before[i] == s[i].id);
        }
    }
}

proof fn lemma_seen_is_taken(seen: Seq<String>, ids: Seq<Seq<char>>, p: Seq<char>)
    requires
        seen.len() == ids.len(),
        forall|j: int| 0 <= j < seen.len() ==> (#[trigger] seen[j])@ == id_prefix(ids[j]),
    ensures
        views(seen).contains(p) == prefixes(ids).contains(p),
{
    if views(seen).contains(p) {
        let j = choose|j: int| 0 <= j < views(seen).len() && views(seen)[j] == p;
        assert(seen[j]@ == p);
        assert(id_prefix(ids[j]) == p);
    }
    if prefixes(ids).contains(p) {
        let j = choose|j: int| 0 <= j < ids.len() && id_prefix(#[trigger] ids[j]) == p;
        assert(seen[j]@ == p);
        assert(views(seen)[j] == p);
    }
}

/// The part of an id that `outbound_tag` writes into tags.
pub fn tag_prefix(id: &str) -> (r: String)
    requires
        id_cut_ok(id@),
    ensures
        r@ == id_prefix(id@),
{
    let n: usize = byte_len(id);
    let k: usize = if n < 16 {
        n
    } else {
        16
    };
    byte_take(id, k).to_owned()
}

/// The tag of a node's outbound.
pub open spec fn node_tag(id: Seq<char>) -> Seq<char> {
    "node-"@ + id_prefix(id)
}

/// The tag of a node's outbound, in all configurations.
pub fn outbound_tag(node: &ProxyNode) -> (r: String)
    requires
        id_cut_ok(node.id@),
    ensures
        r@ == node_tag(node.id@),
{
    let head = tag_prefix(node.id.as_str());
    concat2("node-", head.as_str())
}

fn text_or_empty(o: &Option<String>) -> (r: String)
    ensures
        r@ == or_empty(*o),
{
    match o {
        Some(s) => s.clone(),
        None => String::new(),
    }
}

/// The credentials of a node.
pub fn config_identity(config: &ProtocolConfig) -> (r: String)
    ensures
        r@ == credentials(*config),
{
    match config {
        ProtocolConfig::Shadowsocks { method, password, .. } => concat3(
            method.as_str(),
            "|",
            password.as_str(),
        ),
        ProtocolConfig::Vmess { uuid, .. } => uuid.clone(),
        ProtocolConfig::Vless { uuid, .. } => uuid.clone(),
        ProtocolConfig::Trojan { password } => password.clone(),
        ProtocolConfig::AnyTls { password } => password.clone(),
        ProtocolConfig::Hysteria2 { password, .. } => password.clone(),
        ProtocolConfig::Tuic { uuid, password, .. } => concat3(
            uuid.as_str(),
            "|",
            password.as_str(),
        ),
        ProtocolConfig::Socks5 { username, password } => {
            let u = text_or_empty(username);
            let p = text_or_empty(password);
            concat3(u.as_str(), "|", p.as_str())
        },
        ProtocolConfig::Http { username, password, .. } => {
            let u = text_or_empty(username);
            let p = text_or_empty(password);
            concat3(u.as_str(), "|", p.as_str())
        },
        ProtocolConfig::Hysteria { auth, .. } => auth.clone(),
        ProtocolConfig::ShadowTls { password, .. } => text_or_empty(password),
        ProtocolConfig::Ssh { user, password, private_key, .. } => {
            let p = text_or_empty(password);
            let k = text_or_empty(private_key);
            let mut s = concat3(user.as_str(), "|", p.as_str());
            s.append("|");
            s.append(k.as_str());
            s
        },
        ProtocolConfig::Naive { username, password, .. } => concat3(
            username.as_str(),
            "|",
            password.as_str(),
        ),
        ProtocolConfig::Tor { executable_path, .. } => executable_path.clone(),
        ProtocolConfig::WireGuard { private_key, peer_public_key, .. } => concat3(
            private_key.as_str(),
            "|",
            peer_public_key.as_str(),
        ),
        ProtocolConfig::Snell { psk, version, .. } => {
            let v = decimal_of(*version as u64);
            concat3(v.as_str(), "|", psk.as_str())
        },
    }
}

/// The facts about a node that lists show.
#[derive(Debug, Clone)]
pub struct NodeSummary {
    pub protocol: String,
    pub server: String,
    pub port: u16,
    pub tls: bool,
    pub transport: Option<String>,
    pub extra: Option<String>,
}

/// The name of a transport, where it is not plain TCP.
pub open spec fn transport_name(t: Option<Transport>) -> Option<Seq<char>> {
    match t {
        Some(Transport::Ws { .. }) => Some("ws"@),
        Some(Transport::Grpc { .. }) => Some("grpc"@),
        Some(Transport::Http { .. }) => Some("http"@),
        Some(Transport::HttpUpgrade { .. }) => Some("httpupgrade"@),
        Some(Transport::Xhttp { .. }) => Some("xhttp"@),
        Some(Transport::Tcp) => None,
        None => None,
    }
}

/// The detail that a list shows of a node: Reality before all else, then what
/// the protocol offers.
pub open spec fn extra_of(node: ProxyNode) -> Option<Seq<char>> {
    if node.tls is Some && node.tls->0.reality_public_key is Some {
        Some("Reality"@)
    } else {
        match node.config {
            ProtocolConfig::Shadowsocks { method, .. } => Some(method@),
            ProtocolConfig::Vless { flow: Some(flow), .. } if flow@.len() > 0 => Some(flow@),
            ProtocolConfig::Vmess { security, .. } => Some(security@),
            ProtocolConfig::Snell { version, .. } => Some("v"@ + decimal(version as nat)),
            _ => None,
        }
    }
}

impl NodeSummary {
    pub fn from_node(node: &ProxyNode) -> (r: Self)
        ensures
            r.protocol@ == node.protocol.name(),
            r.server@ == node.server@,
            r.port == node.port,
            r.tls == (node.tls is Some && node.tls->0.enabled),
            opt_view(r.transport) == transport_name(node.transport),
            opt_view(r.extra) == extra_of(*node),
    {
        let tls = match &node.tls {
            Some(t) => t.enabled,
            None => false,
        };
        let transport: Option<String> = match &node.transport {
            Some(Transport::Ws { .. }) => Some("ws".to_owned()),
            Some(Transport::Grpc { .. }) => Some("grpc".to_owned()),
            Some(Transport::Http { .. }) => Some("http".to_owned()),
            Some(Transport::HttpUpgrade { .. }) => Some("httpupgrade".to_owned()),
            Some(Transport::Xhttp { .. }) => Some("xhttp".to_owned()),
            Some(Transport::Tcp) => None,
            None => None,
        };
        NodeSummary {
            protocol: node.protocol.as_str().to_owned(),
            server: node.server.clone(),
            port: node.port,
            tls,
            transport,
            extra: node_extra(node),
        }
    }
}

/// The detail that a list shows of a node.
pub fn node_extra(node: &ProxyNode) -> (r: Option<String>)
    ensures
        opt_view(r) == extra_of(*node),
{
    if let Some(t) = &node.tls {
        if t.reality_public_key.is_some() {
            return Some("Reality".to_owned());
        }
    }
    match &node.config {
        ProtocolConfig::Shadowsocks { method, .. } => Some(method.clone()),
        ProtocolConfig::Vless { flow, .. } => match flow {
            Some(f) => if f.as_str().is_empty() {
                None
            } else {
                Some(f.clone())
            },
            None => None,
        },
        ProtocolConfig::Vmess { security, .. } => Some(security.clone()),
        ProtocolConfig::Snell { version, .. } => {
            let v = decimal_of(*version as u64);
            Some(concat2("v", v.as_str()))
        },
        _ => None,
    }
}

/// What parsing a subscription body gives.
#[derive(Debug, Clone)]
pub struct ParseResult {
    pub nodes: Vec<ProxyNode>,
    /// The entries that were left out.
    pub skipped: Vec<SkippedProxy>,
    pub format: SubscriptionFormat,
}

#[derive(Debug, Clone)]
pub struct SkippedProxy {
    pub name: Option<String>,
    pub reason: String,
}

#[derive(Debug, Clone, Copy, PartialEq, Eq, Structural)]
pub enum SubscriptionFormat {
    ClashYaml,
    UriList,
    Base64UriList,
    SingboxJson,
    Manual,
}

/// The form in which a node is entered by hand.
#[derive(Debug, Clone, Default)]
pub struct ManualNodeDraft {
    pub protocol: String,
    pub server: String,
    pub port: u16,
    pub name: Option<String>,
    pub password: Option<String>,
    pub uuid: Option<String>,
    pub method: Option<String>,
    pub plugin: Option<String>,
    pub plugin_opts: Option<String>,
    pub alter_id: Option<u16>,
    pub security: Option<String>,
    pub flow: Option<String>,
    pub packet_encoding: Option<String>,
    pub username: Option<String>,
    pub path: Option<String>,
    pub up_mbps: Option<u32>,
    pub down_mbps: Option<u32>,
    pub obfs: Option<String>,
    pub obfs_password: Option<String>,
    pub congestion_control: Option<String>,
    pub udp_relay_mode: Option<String>,
    pub zero_rtt_handshake: Option<bool>,
    pub psk: Option<String>,
    pub version: Option<u8>,
    pub user: Option<String>,
    pub private_key: Option<String>,
    pub private_key_passphrase: Option<String>,
    pub peer_public_key: Option<String>,
    pub local_address: Option<String>,
    pub pre_shared_key: Option<String>,
    pub mtu: Option<u32>,
    pub quic: Option<bool>,
    pub executable_path: Option<String>,
    pub tls: Option<bool>,
    pub sni: Option<String>,
    pub insecure: Option<bool>,
    pub alpn: Option<String>,
    pub fingerprint: Option<String>,
    pub reality_public_key: Option<String>,
    pub reality_short_id: Option<String>,
    pub network: Option<String>,
    pub host: Option<String>,
    pub service_name: Option<String>,
    pub udp: Option<bool>,
}

} // verus!
