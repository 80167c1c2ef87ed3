//! Content digests and their hexadecimal writing.

use sha2::Digest;
use vstd::prelude::*;
use vstd::utf8::encode_utf8;

verus! {

/// The SHA-256 digest of a byte sequence.
pub uninterp spec fn sha256(bytes: Seq<u8>) -> Seq<u8>;

pub open spec fn hex_digit(d: int) -> char {
    if d < 10 {
        (d + 48) as char
    } else {
        (d + 87) as char
    }
}

/// Two small hexadecimal digits for each byte, the higher one first.
pub open spec fn hex(bytes: Seq<u8>) -> Seq<char> {
    Seq::new(
        bytes.len() * 2,
        |i: int|
            hex_digit(
                if i % 2 == 0 {
                    bytes[i / 2] as int / 16
                } else {
                    bytes[i / 2] as int % 16
                },
            ),
    )
}

/// The first `n` bytes of the digest of a text, in hexadecimal.
pub open spec fn short_hash(s: Seq<char>, n: int) -> Seq<char> {
    hex(sha256(encode_utf8(s)).take(n))
}

/// `sha2::Sha256::digest`: 32 bytes, which depend on the input bytes alone.
#[verifier::external_body]
pub(crate) fn sha256_of(bytes: &[u8]) -> (r: Vec<u8>)
    ensures
        r@ == sha256(bytes@),
        r@.len() == 32,
{
    sha2::Sha256::digest(bytes).to_vec()
}

/// `hex::encode`: two digits out of `0123456789abcdef` for each byte, the
/// higher half first.
#[verifier::external_body]
pub(crate) fn hex_encode(bytes: &[u8]) -> (r: String)
    ensures
        r@ == hex(bytes@),
{
    hex::encode(bytes)
}

/// The first `n` bytes of the digest of `bytes`, in hexadecimal.
pub fn short_hash_of_bytes(bytes: &[u8], n: usize) -> (r: String)
    requires
        n <= 32,
    ensures
        r@ == hex(sha256(bytes@).take(n as int)),
        r@.len() == 2 * n,
{
    let digest = sha256_of(bytes);
    let head = vstd::slice::slice_subrange(digest.as_slice(), 0, n);
    hex_encode(head)
}

/// The first `n` bytes of the digest of a text, in hexadecimal.
pub fn short_hash_of(s: &str, n: usize) -> (r: String)
    requires
        n <= 32,
    ensures
        r@ == short_hash(s@, n as int),
        r@.len() == 2 * n,
{
    short_hash_of_bytes(s.as_bytes(), n)
}

/// The lowest `n` bytes of a number, the lowest first.
pub open spec fn le_bytes(v: nat, n: nat) -> Seq<u8>
    decreases n,
{
    if n == 0 {
        Seq::empty()
    } else {
        le_bytes(v, (n - 1) as nat).push((v / vstd::arithmetic::power::pow(256, (n - 1) as nat) as nat % 256) as u8)
    }
}

/// A moment and a process: what keeps apart the ids of things that were created
/// under one name.
#[derive(Debug, Clone, Copy, PartialEq, Eq, Structural)]
pub struct Stamp {
    /// Nanoseconds since the Unix epoch.
    pub nanos: u128,
    pub pid: u32,
}

/// The bytes that the id of a new thing is made of.
pub open spec fn stamped_bytes(name: Seq<char>, stamp: Stamp) -> Seq<u8> {
    encode_utf8(name + "|"@) + le_bytes(stamp.nanos as nat, 16) + le_bytes(stamp.pid as nat, 4)
}

/// The hash in the id of a new thing.
pub open spec fn stamped_hash(name: Seq<char>, stamp: Stamp) -> Seq<char> {
    hex(sha256(stamped_bytes(name, stamp)).take(10))
}

fn push_le_bytes(out: &mut Vec<u8>, value: u128, n: usize)
    requires
        n <= 16,
    ensures
        final(out)@ == old(out)@ + le_bytes(value as nat, n as nat),
{
    let mut rest: u128 = value;
    let ghost start = out@;
    let mut i: usize = 0;
    proof {
        vstd::arithmetic::power::lemma_pow0(256);
        assert(start + le_bytes(value as nat, 0) =~= start);
    }
    while i < n
        invariant
            i <= n,
            n <= 16,
            out@ == start + le_bytes(value as nat, i as nat),
            rest as int == value as int / vstd::arithmetic::power::pow(256, i as nat),
        decreases n - i,
    {
        let b: u8 = (rest % 256) as u8;
        let ghost before = out@;
        out.push(b);
        proof {
            let p = vstd::arithmetic::power::pow(256, i as nat);
            vstd::arithmetic::power::lemma_pow_positive(256, i as nat);
            vstd::arithmetic::power::lemma_pow_adds(256, i as nat, 1);
            vstd::arithmetic::power::lemma_pow1(256);
            vstd::arithmetic::div_mod::lemma_div_denominator(value as int, p, 256);
            assert(le_bytes(value as nat, (i + 1) as nat) == le_bytes(value as nat, i as nat).push(b));
            assert(out@ =~= start + le_bytes(value as nat, (i + 1) as nat));
        }
        rest = rest / 256;
        i += 1;
    }
}

/// The hash in the id of a new thing.
pub fn stamped_hash_of(name: &str, stamp: Stamp) -> (r: String)
    ensures
        r@ == stamped_hash(name@, stamp),
        r@.len() == 20,
{
    let text = crate::text::concat2(name, "|");
    let mut bytes = text.as_str().as_bytes_vec();
    push_le_bytes(&mut bytes, stamp.nanos, 16);
    push_le_bytes(&mut bytes, stamp.pid as u128, 4);
    short_hash_of_bytes(bytes.as_slice(), 10)
}

/// A hexadecimal writing has two characters for each byte, all of them ASCII.
pub proof fn lemma_hex_ascii(bytes: Seq<u8>)
    ensures
        hex(bytes).len() == 2 * bytes.len(),
        vstd::utf8::is_ascii_chars(hex(bytes)),
        forall|i: int| 0 <= i < hex(bytes).len() ==> crate::text::is_ascii_alnum(#[trigger] hex(bytes)[i]),
{
    assert forall|i: int| 0 <= i < hex(bytes).len() implies {
        &&& 0 <= (#[trigger] hex(bytes)[i]) as nat
        &&& hex(bytes)[i] as nat <= 127
        &&& crate::text::is_ascii_alnum(hex(bytes)[i])
    } by {
        let b = bytes[i / 2] as int;
        assert(0 <= b / 16 < 16);
        assert(0 <= b % 16 < 16);
    }
}

} // verus!
