//! Composition of a namespace and a raw key into one flat byte key.
//!
//! The composite key is the namespace length as eight big-endian bytes,
//! followed by the namespace's UTF-8 bytes, followed by the raw key bytes.
//! The length prefix keeps the scheme unambiguous: a plain concatenation
//! would let ("ab", "c") collide with ("a", "bc").

use vstd::prelude::*;
use vstd::utf8::encode_utf8;

verus! {

/// The eight big-endian bytes of `n`.
pub open spec fn u64_be(n: u64) -> Seq<u8> {
    seq![
        ((n >> 56) & 0xff) as u8,
        ((n >> 48) & 0xff) as u8,
        ((n >> 40) & 0xff) as u8,
        ((n >> 32) & 0xff) as u8,
        ((n >> 24) & 0xff) as u8,
        ((n >> 16) & 0xff) as u8,
        ((n >> 8) & 0xff) as u8,
        (n & 0xff) as u8,
    ]
}

/// The flat byte key for namespace bytes `ns` and raw key `key`.
pub open spec fn compose_spec(ns: Seq<u8>, key: Seq<u8>) -> Seq<u8> {
    u64_be(ns.len() as u64) + ns + key
}

/// The flat byte key for a namespace given as text.
pub open spec fn store_key(prefix: Seq<char>, key: Seq<u8>) -> Seq<u8> {
    compose_spec(encode_utf8(prefix), key)
}

proof fn lemma_u64_be_injective(x: u64, y: u64)
    requires
        forall|i: int| 0 <= i < 8 ==> u64_be(x)[i] == u64_be(y)[i],
    ensures
        x == y,
{
    assert(u64_be(x)[0] == u64_be(y)[0]);
    assert(u64_be(x)[1] == u64_be(y)[1]);
    assert(u64_be(x)[2] == u64_be(y)[2]);
    assert(u64_be(x)[3] == u64_be(y)[3]);
    assert(u64_be(x)[4] == u64_be(y)[4]);
    assert(u64_be(x)[5] == u64_be(y)[5]);
    assert(u64_be(x)[6] == u64_be(y)[6]);
    assert(u64_be(x)[7] == u64_be(y)[7]);
    assert(x == y) by (bit_vector)
        requires
            ((x >> 56) & 0xff) as u8 == ((y >> 56) & 0xff) as u8,
            ((x >> 48) & 0xff) as u8 == ((y >> 48) & 0xff) as u8,
            ((x >> 40) & 0xff) as u8 == ((y >> 40) & 0xff) as u8,
            ((x >> 32) & 0xff) as u8 == ((y >> 32) & 0xff) as u8,
            ((x >> 24) & 0xff) as u8 == ((y >> 24) & 0xff) as u8,
            ((x >> 16) & 0xff) as u8 == ((y >> 16) & 0xff) as u8,
            ((x >> 8) & 0xff) as u8 == ((y >> 8) & 0xff) as u8,
            (x & 0xff) as u8 == (y & 0xff) as u8,
    ;
}

/// Two (namespace bytes, key) pairs produce equal composite keys only when
/// namespace and key agree; the length prefix rules out the ambiguity of a
/// naive concatenation.
pub proof fn lemma_compose_injective(ns1: Seq<u8>, k1: Seq<u8>, ns2: Seq<u8>, k2: Seq<u8>)
    requires
        ns1.len() < 0x1_0000_0000_0000_0000,
        ns2.len() < 0x1_0000_0000_0000_0000,
        compose_spec(ns1, k1) == compose_spec(ns2, k2),
    ensures
        ns1 == ns2,
        k1 == k2,
{
    let c1 = compose_spec(ns1, k1);
    let c2 = compose_spec(ns2, k2);
    assert forall|i: int| 0 <= i < 8 implies #[trigger] u64_be(ns1.len() as u64)[i] == u64_be(
        ns2.len() as u64,
    )[i] by {
        assert(c1[i] == u64_be(ns1.len() as u64)[i]);
        assert(c2[i] == u64_be(ns2.len() as u64)[i]);
    }
    lemma_u64_be_injective(ns1.len() as u64, ns2.len() as u64);
    assert(ns1.len() == ns2.len());
    assert(c1.len() == 8 + ns1.len() + k1.len());
    assert(c2.len() == 8 + ns2.len() + k2.len());
    assert(ns1 =~= ns2) by {
        assert forall|i: int| 0 <= i < ns1.len() implies ns1[i] == ns2[i] by {
            assert(c1[8 + i] == ns1[i]);
            assert(c2[8 + i] == ns2[i]);
        }
    }
    assert(k1 =~= k2) by {
        assert forall|i: int| 0 <= i < k1.len() implies k1[i] == k2[i] by {
            assert(c1[8 + ns1.len() + i] == k1[i]);
            assert(c2[8 + ns2.len() + i] == k2[i]);
        }
    }
}

/// Builds the composite key for `prefix_name` and `source_key`.
pub fn compose_key(prefix_name: String, source_key: Vec<u8>) -> (r: Vec<u8>)
    ensures
        r@ == store_key(prefix_name@, source_key@),
{
    let ns: &[u8] = prefix_name.as_str().as_bytes();
    let n: u64 = ns.len() as u64;
    let mut compose: Vec<u8> = Vec::new();
    compose.push(((n >> 56) & 0xff) as u8);
    compose.push(((n >> 48) & 0xff) as u8);
    compose.push(((n >> 40) & 0xff) as u8);
    compose.push(((n >> 32) & 0xff) as u8);
    compose.push(((n >> 24) & 0xff) as u8);
    compose.push(((n >> 16) & 0xff) as u8);
    compose.push(((n >> 8) & 0xff) as u8);
    compose.push((n & 0xff) as u8);
    assert(compose@ =~= u64_be(n));
    let mut ns_vec: Vec<u8> = vstd::slice::slice_to_vec(ns);
    compose.append(&mut ns_vec);
    let mut key_vec: Vec<u8> = source_key;
    compose.append(&mut key_vec);
    assert(compose@ =~= store_key(prefix_name@, source_key@));
    compose
}

} // verus!
