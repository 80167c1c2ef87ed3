//! The cores that can serve the traffic.

use crate::domain::node::{Protocol, ProtocolConfig, ProxyNode, TlsConfig, Transport};
use crate::text::{lower, lowered, same, trim, trimmed};
use vstd::prelude::*;

verus! {

#[derive(Debug, Clone, Copy, PartialEq, Eq, Structural)]
pub enum CoreKind {
    SingBox,
    Xray,
    Mihomo,
}

/// Reality is the outer layer.
pub open spec fn has_reality(tls: Option<TlsConfig>) -> bool {
    match tls {
        Some(t) => t.reality_public_key is Some,
        None => false,
    }
}

pub open spec fn over_web_socket(t: Option<Transport>) -> bool {
    match t {
        Some(t) => t is Ws,
        None => false,
    }
}

/// Neither plain nor over a web socket.
pub open spec fn over_other_transport(t: Option<Transport>) -> bool {
    match t {
        Some(t) => !(t is Ws) && !(t is Tcp),
        None => false,
    }
}

pub open spec fn has_obfs(c: ProtocolConfig) -> bool {
    match c {
        ProtocolConfig::Hysteria2 { password, up_mbps, down_mbps, obfs, obfs_password } =>
            obfs is Some,
        _ => false,
    }
}

impl CoreKind {
    pub open spec fn name(self) -> Seq<char> {
        match self {
            CoreKind::SingBox => "singbox"@,
            CoreKind::Xray => "xray"@,
            CoreKind::Mihomo => "mihomo"@,
        }
    }

    /// The core that a word stands for.
    pub open spec fn of_word(w: Seq<char>) -> CoreKind {
        if w == "xray"@ {
            CoreKind::Xray
        } else if w == "mihomo"@ {
            CoreKind::Mihomo
        } else {
            CoreKind::SingBox
        }
    }

    /// The core serves the protocol.
    pub open spec fn serves(self, p: Protocol) -> bool {
        match self {
            CoreKind::SingBox => true,
            CoreKind::Xray => p.served_by_xray(),
            CoreKind::Mihomo => p.served_by_mihomo(),
        }
    }

    /// The core serves the node: it has the protocol, and the node none of the shapes
    /// that the core lacks.
    pub open spec fn serves_node(self, n: ProxyNode) -> bool {
        self.serves(n.protocol) && match self {
            CoreKind::SingBox => true,
            CoreKind::Xray => !has_obfs(n.config) && !(has_reality(n.tls) && over_web_socket(
                n.transport,
            )),
            CoreKind::Mihomo => !(n.protocol == Protocol::Vmess && over_other_transport(
                n.transport,
            )),
        }
    }

    pub fn as_str(self) -> (r: &'static str)
        ensures
            r@ == self.name(),
    {
        match self {
            CoreKind::SingBox => "singbox",
            CoreKind::Xray => "xray",
            CoreKind::Mihomo => "mihomo",
        }
    }

    /// The name that is shown.
    pub fn display_name(self) -> (r: &'static str)
        ensures
            r@ == self.shown(),
    {
        match self {
            CoreKind::SingBox => "sing-box",
            CoreKind::Xray => "Xray",
            CoreKind::Mihomo => "mihomo",
        }
    }

    pub open spec fn shown(self) -> Seq<char> {
        match self {
            CoreKind::SingBox => "sing-box"@,
            CoreKind::Xray => "Xray"@,
            CoreKind::Mihomo => "mihomo"@,
        }
    }

    /// Reads a core's name; an unknown one stands for sing-box.
    pub fn parse(s: &str) -> (r: Self)
        ensures
            r == CoreKind::of_word(lowered(trimmed(s@))),
    {
        let key = lower(trim(s));
        if same(key.as_str(), "xray") {
            CoreKind::Xray
        } else if same(key.as_str(), "mihomo") {
            CoreKind::Mihomo
        } else {
            CoreKind::SingBox
        }
    }

    pub fn supports(self, p: Protocol) -> (r: bool)
        ensures
            r == self.serves(p),
    {
        match self {
            CoreKind::SingBox => true,
            CoreKind::Xray => p.xray_supported(),
            CoreKind::Mihomo => p.mihomo_supported(),
        }
    }

    pub fn supports_node(self, n: &ProxyNode) -> (r: bool)
        ensures
            r == self.serves_node(*n),
    {
        if !self.supports(n.protocol) {
            return false;
        }
        match self {
            CoreKind::SingBox => true,
            CoreKind::Xray => {
                let obfs = match &n.config {
                    ProtocolConfig::Hysteria2 { obfs, .. } => obfs.is_some(),
                    _ => false,
                };
                let reality = match &n.tls {
                    Some(t) => t.reality_public_key.is_some(),
                    None => false,
                };
                let ws = match &n.transport {
                    Some(t) => matches!(t, Transport::Ws { .. }),
                    None => false,
                };
                !obfs && !(reality && ws)
            },
            CoreKind::Mihomo => {
                let other = match &n.transport {
                    Some(t) => !matches!(t, Transport::Ws { .. }) && !matches!(t, Transport::Tcp),
                    None => false,
                };
                !(n.protocol == Protocol::Vmess && other)
            },
        }
    }
}

/// A core's name reads back.
pub proof fn law_core_name_reads_back(k: CoreKind)
    ensures
        CoreKind::of_word(k.name()) == k,
{
    reveal_strlit("singbox");
    reveal_strlit("xray");
    reveal_strlit("mihomo");
    assert("singbox"@.len() == 7 && "xray"@.len() == 4 && "mihomo"@.len() == 6);
}

} // verus!
