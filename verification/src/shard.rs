//! One bounded LRU shard.
//!
//! A shard owns a bounded map from byte key to byte value with recency
//! tracking, backed by the lru crate. Its mathematical model is a sequence
//! of (key, value) pairs ordered most recently used first: index 0 is the
//! entry touched last, the final index is the eviction candidate. The lru
//! crate is called only through the trusted wrappers below; everything else
//! in this module is verified against the model.

use vstd::prelude::*;

verus! {

/// The model of one shard: (key, value) pairs, most recently used first.
pub type ShardModel = Seq<(Seq<u8>, Seq<u8>)>;

/// Whether the model holds an entry with key `k`.
pub open spec fn sm_has(s: ShardModel, k: Seq<u8>) -> bool {
    exists|i: int| 0 <= i < s.len() && s[i].0 == k
}

/// The index of the first entry with key `k`, or -1 when there is none.
pub open spec fn sm_index(s: ShardModel, k: Seq<u8>) -> int
    decreases s.len(),
{
    if s.len() == 0 {
        -1
    } else if s[0].0 == k {
        0
    } else {
        let rest = sm_index(s.drop_first(), k);
        if rest < 0 {
            -1
        } else {
            rest + 1
        }
    }
}

/// The value stored under `k`.
pub open spec fn sm_value(s: ShardModel, k: Seq<u8>) -> Seq<u8> {
    s[sm_index(s, k)].1
}

/// The stored value as an optional result.
pub open spec fn sm_lookup(s: ShardModel, k: Seq<u8>) -> Option<Seq<u8>> {
    if sm_has(s, k) {
        Some(sm_value(s, k))
    } else {
        None
    }
}

/// The model with the first entry keyed `k` taken out.
pub open spec fn sm_remove(s: ShardModel, k: Seq<u8>) -> ShardModel {
    if sm_has(s, k) {
        s.remove(sm_index(s, k))
    } else {
        s
    }
}

/// No two entries share a key.
pub open spec fn sm_distinct(s: ShardModel) -> bool {
    forall|i: int, j: int| 0 <= i < j < s.len() ==> (#[trigger] s[i]).0 != (#[trigger] s[j]).0
}

/// What a put leaves behind: an existing key is rewritten and promoted to
/// the front; a new key is inserted at the front, evicting the last (least
/// recently used) entry when the shard is full; with capacity zero nothing
/// is stored.
pub open spec fn sm_put(s: ShardModel, cap: nat, k: Seq<u8>, v: Seq<u8>) -> ShardModel {
    if sm_has(s, k) {
        seq![(k, v)] + sm_remove(s, k)
    } else if cap == 0 {
        s
    } else if s.len() < cap {
        seq![(k, v)] + s
    } else {
        seq![(k, v)] + s.drop_last()
    }
}

/// What a get leaves behind: a hit promotes the entry to the front and
/// keeps its value; a miss changes nothing.
pub open spec fn sm_get(s: ShardModel, k: Seq<u8>) -> ShardModel {
    if sm_has(s, k) {
        seq![(k, sm_value(s, k))] + sm_remove(s, k)
    } else {
        s
    }
}

pub proof fn lemma_sm_index(s: ShardModel, k: Seq<u8>)
    ensures
        sm_has(s, k) ==> 0 <= sm_index(s, k) < s.len() && s[sm_index(s, k)].0 == k,
        !sm_has(s, k) ==> sm_index(s, k) == -1,
        forall|j: int| 0 <= j < sm_index(s, k) ==> (#[trigger] s[j]).0 != k,
    decreases s.len(),
{
    if s.len() == 0 {
    } else if s[0].0 == k {
    } else {
        let t = s.drop_first();
        lemma_sm_index(t, k);
        assert(forall|i: int| 0 <= i < t.len() ==> t[i] == s[i + 1]);
        if sm_has(s, k) {
            let w = choose|i: int| 0 <= i < s.len() && s[i].0 == k;
            assert(t[w - 1].0 == k);
            assert(sm_has(t, k));
        }
        if sm_has(t, k) {
            let w = choose|i: int| 0 <= i < t.len() && t[i].0 == k;
            assert(s[w + 1].0 == k);
            assert(sm_has(s, k));
        }
        assert forall|j: int| 0 <= j < sm_index(s, k) implies (#[trigger] s[j]).0 != k by {
            if j > 0 {
                assert(t[j - 1].0 != k);
            }
        }
    }
}

/// Under distinct keys the entry for `k` is unique: any index holding `k`
/// is the one `sm_index` finds.
pub proof fn lemma_sm_index_unique(s: ShardModel, k: Seq<u8>, j: int)
    requires
        sm_distinct(s),
        0 <= j < s.len(),
        s[j].0 == k,
    ensures
        sm_index(s, k) == j,
        sm_value(s, k) == s[j].1,
        sm_has(s, k),
{
    assert(sm_has(s, k));
    lemma_sm_index(s, k);
    let i = sm_index(s, k);
    if i < j {
        assert(s[i].0 != s[j].0);
    } else if j < i {
        assert(s[j].0 != k);
    }
}

/// Putting an entry in front of a model shifts every lookup of another key
/// and leaves its result unchanged.
proof fn lemma_sm_prepend(e: (Seq<u8>, Seq<u8>), t: ShardModel)
    ensures
        sm_index(seq![e] + t, e.0) == 0,
        sm_lookup(seq![e] + t, e.0) == Some::<Seq<u8>>(e.1),
        forall|k2: Seq<u8>| k2 != e.0 ==> (sm_has(seq![e] + t, k2) <==> #[trigger] sm_has(t, k2)),
        forall|k2: Seq<u8>| k2 != e.0 ==> #[trigger] sm_lookup(seq![e] + t, k2) == sm_lookup(
            t,
            k2,
        ),
{
    let s = seq![e] + t;
    assert(s[0] == e);
    assert(s.drop_first() =~= t);
    assert(sm_has(s, e.0));
    assert forall|k2: Seq<u8>| k2 != e.0 implies (sm_has(s, k2) <==> #[trigger] sm_has(t, k2))
        && sm_lookup(s, k2) == sm_lookup(t, k2) by {
        assert(forall|i: int| 0 <= i < t.len() ==> t[i] == s[i + 1]);
        if sm_has(s, k2) {
            let w = choose|i: int| 0 <= i < s.len() && s[i].0 == k2;
            assert(t[w - 1].0 == k2);
        }
        if sm_has(t, k2) {
            let w = choose|i: int| 0 <= i < t.len() && t[i].0 == k2;
            assert(s[w + 1].0 == k2);
        }
        if sm_has(t, k2) {
            lemma_sm_index(t, k2);
            assert(sm_value(s, k2) == sm_value(t, k2));
        }
    }
}

/// Removing the entry for one key keeps every other key's lookup, keeps
/// keys distinct, and leaves only entries of the original model.
pub proof fn lemma_sm_remove_props(s: ShardModel, k: Seq<u8>)
    requires
        sm_distinct(s),
    ensures
        sm_distinct(sm_remove(s, k)),
        !sm_has(sm_remove(s, k), k),
        sm_remove(s, k).len() == if sm_has(s, k) {
            s.len() - 1
        } else {
            s.len() as int
        },
        forall|j: int| 0 <= j < sm_remove(s, k).len() ==> s.contains(#[trigger] sm_remove(s, k)[j]),
        forall|k2: Seq<u8>| k2 != k ==> (#[trigger] sm_has(sm_remove(s, k), k2) <==> sm_has(s, k2)),
        forall|k2: Seq<u8>| k2 != k ==> #[trigger] sm_lookup(sm_remove(s, k), k2) == sm_lookup(
            s,
            k2,
        ),
{
    if sm_has(s, k) {
        lemma_sm_index(s, k);
        let i = sm_index(s, k);
        let r = s.remove(i);
        s.remove_ensures(i);
        assert forall|j: int| 0 <= j < r.len() implies s.contains(#[trigger] r[j]) by {
            if j < i {
                assert(r[j] == s[j]);
            } else {
                assert(r[j] == s[j + 1]);
            }
        }
        assert forall|x: int, y: int| 0 <= x < y < r.len() implies (#[trigger] r[x]).0 != (
        #[trigger] r[y]).0 by {
            let sx: int = if x < i {
                x
            } else {
                x + 1
            };
            let sy: int = if y < i {
                y
            } else {
                y + 1
            };
            assert(r[x] == s[sx] && r[y] == s[sy]);
        }
        assert forall|j: int| 0 <= j < r.len() implies (#[trigger] r[j]).0 != k by {
            let sj: int = if j < i {
                j
            } else {
                j + 1
            };
            assert(r[j] == s[sj]);
            if sj != i {
                lemma_sm_index_unique(s, k, i);
                if s[sj].0 == k {
                    lemma_sm_index_unique(s, k, sj);
                }
            }
        }
        assert(!sm_has(r, k));
        assert forall|k2: Seq<u8>| k2 != k implies (#[trigger] sm_has(r, k2) <==> sm_has(s, k2))
            && sm_lookup(r, k2) == sm_lookup(s, k2) by {
            if sm_has(s, k2) {
                lemma_sm_index(s, k2);
                let j = sm_index(s, k2);
                assert(j != i);
                let rj: int = if j < i {
                    j
                } else {
                    j - 1
                };
                assert(r[rj] == s[j]);
                lemma_sm_index_unique(r, k2, rj);
                lemma_sm_index_unique(s, k2, j);
            } else {
                if sm_has(r, k2) {
                    let w = choose|x: int| 0 <= x < r.len() && r[x].0 == k2;
                    let sw: int = if w < i {
                        w
                    } else {
                        w + 1
                    };
                    assert(s[sw] == r[w]);
                    assert(sm_has(s, k2));
                }
            }
        }
    }
}

/// What `sm_put` guarantees on a well-formed model: the written key reads
/// back, capacity is respected, keys stay distinct, every surviving entry
/// comes from the old model or is the new pair, and every other key's
/// lookup survives unless it sat in the evicted (least recently used) slot.
pub proof fn lemma_sm_put_props(s: ShardModel, cap: nat, k: Seq<u8>, v: Seq<u8>)
    requires
        sm_distinct(s),
        s.len() <= cap,
    ensures
        sm_distinct(sm_put(s, cap, k, v)),
        sm_put(s, cap, k, v).len() <= cap,
        cap >= 1 ==> sm_lookup(sm_put(s, cap, k, v), k) == Some(v),
        forall|j: int|
            0 <= j < sm_put(s, cap, k, v).len() ==> #[trigger] sm_put(s, cap, k, v)[j] == (k, v)
                || s.contains(sm_put(s, cap, k, v)[j]),
        forall|k2: Seq<u8>|
            k2 != k && !(!sm_has(s, k) && s.len() == cap && cap >= 1 && s.last().0 == k2)
                ==> #[trigger] sm_lookup(sm_put(s, cap, k, v), k2) == sm_lookup(s, k2),
        (!sm_has(s, k) && s.len() == cap && cap >= 1) ==> !sm_has(sm_put(s, cap, k, v), s.last().0),
{
    let r = sm_put(s, cap, k, v);
    if sm_has(s, k) {
        let t = sm_remove(s, k);
        lemma_sm_remove_props(s, k);
        lemma_sm_prepend((k, v), t);
        assert(r == seq![(k, v)] + t);
        assert(r[0] == (k, v));
        assert(forall|j: int| 1 <= j < r.len() ==> r[j] == t[j - 1]);
        assert forall|x: int, y: int| 0 <= x < y < r.len() implies (#[trigger] r[x]).0 != (
        #[trigger] r[y]).0 by {
            if x == 0 {
                assert(r[y] == t[y - 1]);
                assert(!sm_has(t, k));
                if t[y - 1].0 == k {
                    assert(sm_has(t, k));
                }
            }
        }
        assert(sm_lookup(r, k) == Some(v));
    } else if cap == 0 {
    } else if s.len() < cap {
        lemma_sm_prepend((k, v), s);
        assert(r == seq![(k, v)] + s);
        assert(r[0] == (k, v));
        assert(forall|j: int| 1 <= j < r.len() ==> r[j] == s[j - 1]);
        assert forall|x: int, y: int| 0 <= x < y < r.len() implies (#[trigger] r[x]).0 != (
        #[trigger] r[y]).0 by {
            if x == 0 {
                assert(r[y] == s[y - 1]);
                if s[y - 1].0 == k {
                    assert(sm_has(s, k));
                }
            }
        }
    } else {
        let t = s.drop_last();
        let last = s.last();
        assert(forall|j: int| 0 <= j < t.len() ==> t[j] == s[j]);
        lemma_sm_prepend((k, v), t);
        assert(r == seq![(k, v)] + t);
        assert(r[0] == (k, v));
        assert(forall|j: int| 1 <= j < r.len() ==> r[j] == t[j - 1]);
        assert forall|x: int, y: int| 0 <= x < y < r.len() implies (#[trigger] r[x]).0 != (
        #[trigger] r[y]).0 by {
            if x == 0 {
                assert(r[y] == t[y - 1] && t[y - 1] == s[y - 1]);
                if s[y - 1].0 == k {
                    assert(sm_has(s, k));
                }
            } else {
                assert(r[x] == s[x - 1] && r[y] == s[y - 1]);
            }
        }
        // the evicted key is gone: it only ever sat in the last slot
        assert forall|j: int| 0 <= j < t.len() implies (#[trigger] t[j]).0 != last.0 by {
            assert(t[j] == s[j] && last == s[s.len() - 1]);
        }
        if sm_has(t, last.0) {
            let w = choose|x: int| 0 <= x < t.len() && t[x].0 == last.0;
            assert(t[w].0 != last.0);
        }
        assert(last.0 != k);
        assert(!sm_has(r, last.0));
        // other keys that were not evicted keep their lookup
        assert forall|k2: Seq<u8>| k2 != k && k2 != last.0 implies #[trigger] sm_lookup(r, k2)
            == sm_lookup(s, k2) by {
            if sm_has(s, k2) {
                lemma_sm_index(s, k2);
                let j = sm_index(s, k2);
                assert(j < s.len() - 1) by {
                    if j == s.len() - 1 {
                        assert(s[j].0 == last.0);
                    }
                }
                assert(t[j] == s[j]);
                lemma_sm_index_unique(t, k2, j);
                lemma_sm_index_unique(s, k2, j);
                assert(sm_lookup(t, k2) == sm_lookup(s, k2));
            } else {
                if sm_has(t, k2) {
                    let w = choose|x: int| 0 <= x < t.len() && t[x].0 == k2;
                    assert(s[w].0 == k2);
                }
            }
        }
    }
}

/// What `sm_get` guarantees on a well-formed model: a pure promotion. Every
/// key's lookup is unchanged, keys stay distinct, the length is unchanged,
/// and every entry of the new model already stood in the old one.
pub proof fn lemma_sm_get_props(s: ShardModel, k: Seq<u8>)
    requires
        sm_distinct(s),
    ensures
        sm_distinct(sm_get(s, k)),
        sm_get(s, k).len() == s.len(),
        forall|k2: Seq<u8>| #[trigger] sm_lookup(sm_get(s, k), k2) == sm_lookup(s, k2),
        forall|j: int| 0 <= j < sm_get(s, k).len() ==> s.contains(#[trigger] sm_get(s, k)[j]),
{
    let r = sm_get(s, k);
    if sm_has(s, k) {
        let t = sm_remove(s, k);
        lemma_sm_remove_props(s, k);
        lemma_sm_prepend((k, sm_value(s, k)), t);
        lemma_sm_index(s, k);
        assert(r == seq![(k, sm_value(s, k))] + t);
        assert(r[0] == (k, sm_value(s, k)));
        assert(s.contains(r[0])) by {
            assert(s[sm_index(s, k)] == (k, sm_value(s, k)));
        }
        assert(forall|j: int| 1 <= j < r.len() ==> r[j] == t[j - 1]);
        assert forall|x: int, y: int| 0 <= x < y < r.len() implies (#[trigger] r[x]).0 != (
        #[trigger] r[y]).0 by {
            if x == 0 {
                assert(r[y] == t[y - 1]);
                if t[y - 1].0 == k {
                    assert(sm_has(t, k));
                }
            }
        }
        assert(sm_lookup(r, k) == Some(sm_value(s, k)));
    }
}

/// The lru crate's cache type, held opaquely: verified code sees values of
/// it only through [`lru_contents`] and [`lru_capacity`].
#[verifier::external_type_specification]
#[verifier::external_body]
#[verifier::reject_recursive_types(K)]
#[verifier::reject_recursive_types(V)]
#[verifier::reject_recursive_types(S)]
pub struct ExLruCache<K, V, S>(lru::LruCache<K, V, S>);

/// The concrete cache type the shards hold: byte keys and values, hashed
/// with the standard library's default hasher.
type BytesLru = lru::LruCache<Vec<u8>, Vec<u8>, std::collections::hash_map::RandomState>;

/// What an lru cache holds: its (key, value) pairs, most recently used
/// first, the order `lru::LruCache::iter` walks them in.
pub uninterp spec fn lru_contents(c: BytesLru) -> ShardModel;

/// The capacity an lru cache was constructed with.
pub uninterp spec fn lru_capacity(c: BytesLru) -> nat;

/// Relies on lru::LruCache::with_hasher: the cache starts empty and holds
/// at most `cap` entries.
#[verifier::external_body]
fn lru_new(cap: usize) -> (r: BytesLru)
    ensures
        lru_contents(r) == Seq::<(Seq<u8>, Seq<u8>)>::empty(),
        lru_capacity(r) == cap as nat,
{
    lru::LruCache::with_hasher(cap, std::collections::hash_map::RandomState::new())
}

/// Relies on lru::LruCache::put: an existing key is rewritten and moved to
/// the front and its previous value returned; a new key is inserted at the
/// front, evicting the least recently used entry when the cache is full.
#[verifier::external_body]
fn lru_put(c: &mut BytesLru, key: Vec<u8>, value: Vec<u8>) -> (r: Option<
    Vec<u8>,
>)
    requires
        lru_contents(*old(c)).len() <= lru_capacity(*old(c)),
    ensures
        lru_capacity(*final(c)) == lru_capacity(*old(c)),
        lru_contents(*final(c)) == sm_put(
            lru_contents(*old(c)),
            lru_capacity(*old(c)),
            key@,
            value@,
        ),
        r.deep_view() == sm_lookup(lru_contents(*old(c)), key@),
{
    c.put(key, value)
}

/// Relies on lru::LruCache::get: a hit moves the entry to the front and
/// returns its value; a miss changes nothing.
#[verifier::external_body]
fn lru_get(c: &mut BytesLru, key: &Vec<u8>) -> (r: Option<Vec<u8>>)
    ensures
        lru_capacity(*final(c)) == lru_capacity(*old(c)),
        lru_contents(*final(c)) == sm_get(lru_contents(*old(c)), key@),
        r.deep_view() == sm_lookup(lru_contents(*old(c)), key@),
{
    c.get(key).cloned()
}

/// Relies on lru::LruCache::pop: the entry is removed and its value
/// returned; a miss changes nothing.
#[verifier::external_body]
fn lru_pop(c: &mut BytesLru, key: &Vec<u8>) -> (r: Option<Vec<u8>>)
    ensures
        lru_capacity(*final(c)) == lru_capacity(*old(c)),
        lru_contents(*final(c)) == sm_remove(lru_contents(*old(c)), key@),
        r.deep_view() == sm_lookup(lru_contents(*old(c)), key@),
{
    c.pop(key)
}

/// Relies on lru::LruCache::contains: a pure membership test that does not
/// touch the recency order.
#[verifier::external_body]
fn lru_contains(c: &BytesLru, key: &Vec<u8>) -> (r: bool)
    ensures
        r == sm_has(lru_contents(*c), key@),
{
    c.contains(key)
}

/// Relies on lru::LruCache::len: the number of stored entries.
#[verifier::external_body]
fn lru_len(c: &BytesLru) -> (r: usize)
    ensures
        r as nat == lru_contents(*c).len(),
{
    c.len()
}

/// Relies on lru::LruCache::iter: entries are visited most recently used
/// first; the wrapper copies out the keys in that order.
#[verifier::external_body]
fn lru_keys(c: &BytesLru) -> (r: Vec<Vec<u8>>)
    ensures
        r.deep_view() == lru_contents(*c).map_values(|e: (Seq<u8>, Seq<u8>)| e.0),
{
    c.iter().map(|(key, _)| key.clone()).collect()
}

/// One shard: a bounded LRU map from byte key to byte value.
pub struct LruShard {
    inner: BytesLru,
}

impl View for LruShard {
    type V = ShardModel;

    closed spec fn view(&self) -> ShardModel {
        lru_contents(self.inner)
    }
}

impl LruShard {
    /// The capacity fixed at construction.
    pub closed spec fn cap(&self) -> nat {
        lru_capacity(self.inner)
    }

    /// Well-formedness: keys are distinct, the entry count never exceeds
    /// the capacity, and the capacity is positive.
    pub open spec fn wf(&self) -> bool {
        &&& sm_distinct(self@)
        &&& self@.len() <= self.cap()
        &&& self.cap() >= 1
    }

    pub fn new(cap: usize) -> (r: Self)
        requires
            cap >= 1,
        ensures
            r.wf(),
            r@ == Seq::<(Seq<u8>, Seq<u8>)>::empty(),
            r.cap() == cap as nat,
    {
        LruShard { inner: lru_new(cap) }
    }

    /// Inserts or overwrites; a full shard evicts its least recently used
    /// entry to make room for a new key; returns the previous value under
    /// the key, if any.
    pub fn put(&mut self, key: Vec<u8>, value: Vec<u8>) -> (r: Option<Vec<u8>>)
        requires
            old(self).wf(),
        ensures
            final(self).wf(),
            final(self).cap() == old(self).cap(),
            final(self)@ == sm_put(old(self)@, old(self).cap(), key@, value@),
            r.deep_view() == sm_lookup(old(self)@, key@),
    {
        let ghost s = self@;
        let r = lru_put(&mut self.inner, key, value);
        proof {
            lemma_sm_put_props(s, old(self).cap(), key@, value@);
        }
        r
    }

    /// Returns the cached value and promotes the entry to most recently
    /// used; absence is a plain miss, never an error.
    pub fn get(&mut self, key: &Vec<u8>) -> (r: Option<Vec<u8>>)
        requires
            old(self).wf(),
        ensures
            final(self).wf(),
            final(self).cap() == old(self).cap(),
            final(self)@ == sm_get(old(self)@, key@),
            r.deep_view() == sm_lookup(old(self)@, key@),
    {
        let ghost s = self@;
        let r = lru_get(&mut self.inner, key);
        proof {
            lemma_sm_get_props(s, key@);
        }
        r
    }

    /// Removes and returns the entry under the key; a no-op otherwise.
    pub fn pop(&mut self, key: &Vec<u8>) -> (r: Option<Vec<u8>>)
        requires
            old(self).wf(),
        ensures
            final(self).wf(),
            final(self).cap() == old(self).cap(),
            final(self)@ == sm_remove(old(self)@, key@),
            r.deep_view() == sm_lookup(old(self)@, key@),
    {
        let ghost s = self@;
        let r = lru_pop(&mut self.inner, key);
        proof {
            lemma_sm_remove_props(s, key@);
        }
        r
    }

    /// Membership without touching the recency order.
    pub fn contains(&self, key: &Vec<u8>) -> (r: bool)
        ensures
            r == sm_has(self@, key@),
    {
        lru_contains(&self.inner, key)
    }

    pub fn len(&self) -> (r: usize)
        ensures
            r as nat == self@.len(),
    {
        lru_len(&self.inner)
    }

    /// A snapshot of the keys, most recently used first.
    pub fn keys(&self) -> (r: Vec<Vec<u8>>)
        ensures
            r.deep_view() == self@.map_values(|e: (Seq<u8>, Seq<u8>)| e.0),
    {
        lru_keys(&self.inner)
    }
}

} // verus!
