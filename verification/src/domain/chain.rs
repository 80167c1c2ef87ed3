//! Node pools and chains of hops.

use crate::digest::{hex, lemma_hex_ascii, sha256, stamped_bytes, stamped_hash, stamped_hash_of, Stamp};
use crate::domain::node::{node_id, Protocol};
use crate::text::{byte_len, byte_skip, byte_suffix, concat2, cut_ok, has_prefix, trim, trimmed};
use vstd::prelude::*;
use vstd::utf8::{encode_utf8, is_ascii_chars};

verus! {

/// How a [`NodePool`] selects its members.
#[derive(Debug, Clone)]
pub enum PoolMode {
    /// A fixed set of node ids.
    Explicit { node_ids: Vec<String> },
    /// A filter by keywords, applied to the nodes of the moment.
    Keyword { include_words: Vec<String>, exclude_words: Vec<String> },
}

/// A node pool with a name, which chains and rules refer to.
#[derive(Debug, Clone)]
pub struct NodePool {
    pub id: String,
    pub name: String,
    pub mode: PoolMode,
}

/// The id of a pool that is created under a name.
pub open spec fn pool_id(name: Seq<char>, stamp: Stamp) -> Seq<char> {
    "pool-"@ + stamped_hash(name, stamp)
}

/// The id of a chain that is created under a name.
pub open spec fn chain_id(name: Seq<char>, stamp: Stamp) -> Seq<char> {
    "chain-"@ + stamped_hash(name, stamp)
}

/// Where the last 20 bytes of an id start.
pub open spec fn tail_start(id: Seq<char>) -> int {
    if encode_utf8(id).len() <= 20 {
        0
    } else {
        encode_utf8(id).len() - 20
    }
}

impl NodePool {
    pub fn new(name: &str, mode: PoolMode, stamp: Stamp) -> (r: Self)
        ensures
            r.id@ == pool_id(name@, stamp),
            r.name@ == trimmed(name@),
            r.mode == mode,
            cut_ok(r.id@, tail_start(r.id@)),
            "pool-"@ + byte_suffix(r.id@, tail_start(r.id@)) == r.id@,
    {
        let id = NodePool::generate_id(name, stamp);
        proof {
            lemma_hex_ascii(sha256(stamped_bytes(name@, stamp)).take(10));
            law_pool_tag_is_the_id(id@, stamped_hash(name@, stamp));
        }
        NodePool { id, name: trim(name).to_owned(), mode }
    }

    fn generate_id(name: &str, stamp: Stamp) -> (r: String)
        ensures
            r@ == pool_id(name@, stamp),
            stamped_hash(name@, stamp).len() == 20,
    {
        let hash = stamped_hash_of(name, stamp);
        concat2("pool-", hash.as_str())
    }

    /// The tag of the pool's outbound.
    pub fn outbound_tag(&self) -> (r: String)
        requires
            cut_ok(self.id@, tail_start(self.id@)),
        ensures
            r@ == "pool-"@ + byte_suffix(self.id@, tail_start(self.id@)),
    {
        pool_outbound_tag_for_id(self.id.as_str())
    }
}

/// The tag of the outbound of the pool with that id.
pub fn pool_outbound_tag_for_id(id: &str) -> (r: String)
    requires
        cut_ok(id@, tail_start(id@)),
    ensures
        r@ == "pool-"@ + byte_suffix(id@, tail_start(id@)),
{
    let n: usize = byte_len(id);
    let at: usize = if n <= 20 {
        0
    } else {
        n - 20
    };
    concat2("pool-", byte_skip(id, at))
}

/// One hop of a [`ProxyChain`]: a node, or a pool.
#[derive(Debug, Clone)]
pub enum ChainHop {
    Node { node_id: String },
    Pool { pool_id: String },
}

/// Hops in their order, the entry first. Rules route to the last hop, which the
/// traffic reaches through the others.
#[derive(Debug, Clone)]
pub struct ProxyChain {
    pub id: String,
    pub name: String,
    pub hops: Vec<ChainHop>,
}

impl ProxyChain {
    pub fn new(name: &str, hops: Vec<ChainHop>, stamp: Stamp) -> (r: Self)
        ensures
            r.id@ == chain_id(name@, stamp),
            r.name@ == trimmed(name@),
            r.hops == hops,
    {
        ProxyChain { id: ProxyChain::generate_id(name, stamp), name: trim(name).to_owned(), hops }
    }

    fn generate_id(name: &str, stamp: Stamp) -> (r: String)
        ensures
            r@ == chain_id(name@, stamp),
    {
        let hash = stamped_hash_of(name, stamp);
        concat2("chain-", hash.as_str())
    }
}

/// The ids of pools, of chains and of nodes never meet, whatever their names and
/// whenever they were made: outbound tags made of them do not collide.
pub proof fn law_id_spaces_are_disjoint(
    pool: Seq<char>,
    pool_stamp: Stamp,
    chain: Seq<char>,
    chain_stamp: Stamp,
    name: Seq<char>,
    server: Seq<char>,
    port: u16,
    protocol: Protocol,
)
    ensures
        pool_id(pool, pool_stamp) != chain_id(chain, chain_stamp),
        pool_id(pool, pool_stamp) != node_id(name, server, port, protocol),
        chain_id(chain, chain_stamp) != node_id(name, server, port, protocol),
        has_prefix(pool_id(pool, pool_stamp), "pool-"@),
        has_prefix(chain_id(chain, chain_stamp), "chain-"@),
{
    reveal_strlit("pool-");
    reveal_strlit("chain-");
    let p = pool_id(pool, pool_stamp);
    let c = chain_id(chain, chain_stamp);
    assert(p[0] == 'p');
    assert(c[0] == 'c');
    assert(p[4] == '-');
    assert(c[5] == '-');
    let text = name + "|"@ + server + "|"@ + crate::text::decimal(port as nat) + "|"@
        + protocol.name();
    let bytes = sha256(encode_utf8(text)).take(16);
    lemma_hex_ascii(bytes);
    let n = node_id(name, server, port, protocol);
    assert(n == hex(bytes));
    if p == n {
        assert(crate::text::is_ascii_alnum(n[4]));
    }
    if c == n {
        assert(crate::text::is_ascii_alnum(n[5]));
    }
    assert(p.subrange(0, 5) =~= "pool-"@);
    assert(c.subrange(0, 6) =~= "chain-"@);
}

/// A pool id of the shape that `NodePool::new` makes is its own outbound tag.
pub proof fn law_pool_tag_is_the_id(id: Seq<char>, hash: Seq<char>)
    requires
        id == "pool-"@ + hash,
        hash.len() == 20,
        is_ascii_chars(hash),
    ensures
        cut_ok(id, tail_start(id)),
        "pool-"@ + byte_suffix(id, tail_start(id)) == id,
{
    reveal_strlit("pool-");
    assert forall|i: int| 0 <= i < id.len() implies '\0' <= #[trigger] id[i] <= '\u{7f}' by {
        if i < 5 {
            assert(id[i] == "pool-"@[i]);
        } else {
            assert(id[i] == hash[i - 5]);
        }
    }
    crate::text::lemma_ascii_cut(id, 5);
    assert(id.skip(5) =~= hash);
}

} // verus!
