//! A small open-addressing hash map keyed by 64-bit integers.
//!
//! Keys are hashed with the 64-bit FNV-1a fold of their little-endian bytes
//! and entries are placed by linear probing. The map only ever grows: an
//! insertion never replaces an earlier entry, even under an equal key, and
//! the bucket array doubles once the map is at least half full. Iteration
//! walks the bucket array in slot order.

use vstd::prelude::*;
use vstd::multiset::Multiset;
use vstd::arithmetic::div_mod::lemma_fundamental_div_mod;
use vstd::arithmetic::div_mod::lemma_mod_bound;

verus! {

/// The 64-bit FNV prime.
pub const FNV: u64 = 0x100000001b3;

/// The 64-bit FNV-1a offset basis, the seed of every hash.
pub const FNV_SEED: u64 = 0xcbf29ce484222325;

/// Number of buckets a map starts with.
pub const BUCKET_INIT_SIZE: usize = 8;

/// One step of the FNV-1a fold: mix one byte into the state.
pub open spec fn fnv_step(h: u64, b: u8) -> u64 {
    (h ^ (b as u64)).wrapping_mul(FNV)
}

/// The FNV-1a fold of `bytes`, starting from state `h`.
pub open spec fn fnv_fold(h: u64, bytes: Seq<u8>) -> u64
    decreases bytes.len(),
{
    if bytes.len() == 0 {
        h
    } else {
        fnv_fold(fnv_step(h, bytes.first()), bytes.drop_first())
    }
}

/// Byte `i` of the little-endian representation of `k`.
pub open spec fn u64_byte(k: u64, i: int) -> u8 {
    (k >> ((8 * i) as u64)) as u8
}

/// The eight little-endian bytes of `k`.
pub open spec fn u64_le_bytes(k: u64) -> Seq<u8> {
    Seq::new(8, |i: int| u64_byte(k, i))
}

/// The FNV-1a hasher state.
pub struct FnvHasher(pub u64);

impl FnvHasher {
    /// Mix `bytes` into the state, byte by byte.
    pub fn write(&mut self, bytes: &[u8])
        ensures
            final(self).0 == fnv_fold(old(self).0, bytes@),
    {
        let n = bytes.len();
        let mut i: usize = 0;
        proof {
            assert(bytes@.skip(0) =~= bytes@);
        }
        while i < n
            invariant
                i <= n,
                n == bytes@.len(),
                fnv_fold(old(self).0, bytes@) == fnv_fold(self.0, bytes@.skip(i as int)),
            decreases n - i,
        {
            let b = bytes[i];
            proof {
                assert(bytes@.skip(i as int).first() == bytes@[i as int]);
                assert(bytes@.skip(i as int).drop_first() =~= bytes@.skip(i as int + 1));
            }
            self.0 = (self.0 ^ (b as u64)).wrapping_mul(FNV);
            i = i + 1;
        }
        proof {
            assert(bytes@.skip(n as int).len() == 0);
        }
    }

    /// The accumulated hash value.
    pub fn finish(&self) -> (r: u64)
        ensures
            r == self.0,
    {
        self.0
    }
}

/// How many slots of `s` hold an entry.
pub open spec fn count_some<V>(s: Seq<Option<(u64, V)>>) -> nat
    decreases s.len(),
{
    if s.len() == 0 {
        0
    } else {
        count_some(s.drop_last()) + if s.last() is Some {
            1nat
        } else {
            0nat
        }
    }
}

/// The multiset of key-value pairs held by the slots of `s`.
pub open spec fn entries<V>(s: Seq<Option<(u64, V)>>) -> Multiset<(u64, V)>
    decreases s.len(),
{
    if s.len() == 0 {
        Multiset::empty()
    } else {
        match s.last() {
            Some(kv) => entries(s.drop_last()).insert(kv),
            None => entries(s.drop_last()),
        }
    }
}

proof fn lemma_entries_all_none<V>(s: Seq<Option<(u64, V)>>)
    requires
        forall|i: int| 0 <= i < s.len() ==> s[i] is None,
    ensures
        count_some(s) == 0,
        entries(s) == Multiset::<(u64, V)>::empty(),
    decreases s.len(),
{
    if s.len() > 0 {
        assert(s.last() is None);
        assert forall|i: int| 0 <= i < s.drop_last().len() implies s.drop_last()[i] is None by {
            assert(s.drop_last()[i] == s[i]);
        }
        lemma_entries_all_none(s.drop_last());
    }
}

proof fn lemma_count_some_full<V>(s: Seq<Option<(u64, V)>>)
    requires
        forall|i: int| 0 <= i < s.len() ==> s[i] is Some,
    ensures
        count_some(s) == s.len(),
    decreases s.len(),
{
    if s.len() > 0 {
        assert(s.last() is Some);
        assert forall|i: int| 0 <= i < s.drop_last().len() implies s.drop_last()[i] is Some by {
            assert(s.drop_last()[i] == s[i]);
        }
        lemma_count_some_full(s.drop_last());
    }
}

proof fn lemma_count_some_le_len<V>(s: Seq<Option<(u64, V)>>)
    ensures
        count_some(s) <= s.len(),
    decreases s.len(),
{
    if s.len() > 0 {
        lemma_count_some_le_len(s.drop_last());
    }
}

proof fn lemma_update_none_to_some<V>(s: Seq<Option<(u64, V)>>, i: int, kv: (u64, V))
    requires
        0 <= i < s.len(),
        s[i] is None,
    ensures
        count_some(s.update(i, Some(kv))) == count_some(s) + 1,
        entries(s.update(i, Some(kv))) == entries(s).insert(kv),
    decreases s.len(),
{
    let t = s.update(i, Some(kv));
    assert(t.len() == s.len());
    if i == s.len() - 1 {
        assert(t.drop_last() =~= s.drop_last());
        assert(t.last() == Some(kv));
    } else {
        lemma_update_none_to_some(s.drop_last(), i, kv);
        assert(t.drop_last() =~= s.drop_last().update(i, Some(kv)));
        assert(t.last() == s.last());
        match s.last() {
            Some(kv2) => {
                assert(entries(t) == entries(s.drop_last()).insert(kv).insert(kv2));
                assert(entries(s.drop_last()).insert(kv).insert(kv2) =~= entries(
                    s.drop_last(),
                ).insert(kv2).insert(kv));
            },
            None => {},
        }
    }
}

/// The hash map: a bucket array of optional entries, its length, and the
/// number of entries it holds.
pub struct HashMap<V> {
    /// The bucket array; an entry occupies exactly one slot.
    pub data: Vec<Option<(u64, V)>>,
    /// Length of the bucket array.
    pub capacity: usize,
    /// Number of entries held.
    pub size: usize,
}

impl<V> HashMap<V> {
    /// Well-formedness: `capacity` is the true bucket count, the map never
    /// shrinks below its initial bucket count, and `size` counts exactly the
    /// occupied slots.
    pub open spec fn wf(self) -> bool {
        &&& self.capacity == self.data@.len()
        &&& BUCKET_INIT_SIZE <= self.capacity
        &&& self.size == count_some(self.data@)
    }

    /// An empty map with the initial bucket count.
    pub fn new() -> (r: Self)
        ensures
            r.wf(),
            r.size == 0,
            r.capacity == BUCKET_INIT_SIZE,
            entries(r.data@) == Multiset::<(u64, V)>::empty(),
    {
        let mut data: Vec<Option<(u64, V)>> = Vec::new();
        let mut i: usize = 0;
        while i < BUCKET_INIT_SIZE
            invariant
                i <= BUCKET_INIT_SIZE,
                data@.len() == i,
                forall|j: int| 0 <= j < i ==> data@[j] is None,
            decreases BUCKET_INIT_SIZE - i,
        {
            data.push(None);
            i = i + 1;
        }
        proof {
            lemma_entries_all_none(data@);
        }
        HashMap { data, capacity: BUCKET_INIT_SIZE, size: 0 }
    }

    /// Whether the map is at least half full — the threshold at which the
    /// bucket array doubles on the next insertion.
    pub fn should_expand(&self) -> (r: bool)
        ensures
            r == (2 * self.size >= self.capacity),
    {
        proof {
            lemma_fundamental_div_mod(self.capacity as int, 2);
            lemma_mod_bound(self.capacity as int, 2);
        }
        self.size >= self.capacity - self.capacity / 2
    }

    /// The hash of a key: the FNV-1a fold of its eight little-endian bytes,
    /// seeded with the FNV offset basis.
    ///
    /// The basis is a fixed constant rather than a value drawn per call from
    /// a platform randomness source, so hashes are deterministic across
    /// calls, processes and machines. Nothing in the map's contracts depends
    /// on the choice of basis; the fold itself ([`FnvHasher::write`])
    /// carries the basis as its state and is verified for every value of it.
    pub fn hash_key(&self, key: &u64) -> (r: u64)
        ensures
            r == fnv_fold(FNV_SEED, u64_le_bytes(*key)),
    {
        let k = *key;
        let mut bytes: Vec<u8> = Vec::new();
        let mut i: usize = 0;
        while i < 8
            invariant
                i <= 8,
                bytes@.len() == i,
                forall|j: int| 0 <= j < i ==> bytes@[j] == u64_byte(k, j),
            decreases 8 - i,
        {
            let sh: u64 = (8 * i) as u64;
            bytes.push((k >> sh) as u8);
            i = i + 1;
        }
        proof {
            assert(bytes@ =~= u64_le_bytes(k));
        }
        let mut hasher = FnvHasher(FNV_SEED);
        hasher.write(bytes.as_slice());
        hasher.finish()
    }

    /// Insert `(key, val)`. The pair always occupies a fresh slot — an equal
    /// key does not displace an earlier entry — after the bucket array has
    /// doubled if the map was at least half full.
    pub fn insert(&mut self, key: u64, val: V)
        requires
            old(self).wf(),
            old(self).capacity <= usize::MAX / 2,
        ensures
            final(self).wf(),
            final(self).size == old(self).size + 1,
            entries(final(self).data@) == entries(old(self).data@).insert((key, val)),
            final(self).capacity == if 2 * old(self).size >= old(self).capacity {
                2 * old(self).capacity
            } else {
                old(self).capacity as int
            },
    {
        proof {
            lemma_fundamental_div_mod(usize::MAX as int, 2);
            lemma_mod_bound(usize::MAX as int, 2);
        }
        if self.should_expand() {
            let new_cap = self.capacity * 2;
            let mut trans: Vec<Option<(u64, V)>> = Vec::new();
            let mut i: usize = 0;
            while i < new_cap
                invariant
                    i <= new_cap,
                    trans@.len() == i,
                    forall|j: int| 0 <= j < i ==> trans@[j] is None,
                decreases new_cap - i,
            {
                trans.push(None);
                i = i + 1;
            }
            proof {
                lemma_entries_all_none(trans@);
            }
            core::mem::swap(&mut trans, &mut self.data);
            self.capacity = new_cap;
            let ghost orig = trans@;
            proof {
                lemma_count_some_le_len(orig);
                assert(entries(self.data@).add(entries(trans@)) =~= entries(orig));
            }
            while trans.len() > 0
                invariant
                    self.capacity == new_cap,
                    self.data@.len() == new_cap,
                    new_cap == 2 * old(self).capacity,
                    1 <= old(self).capacity,
                    orig.len() == old(self).capacity,
                    count_some(orig) <= orig.len(),
                    count_some(self.data@) + count_some(trans@) == count_some(orig),
                    entries(self.data@).add(entries(trans@)) == entries(orig),
                    self.size == old(self).size,
                decreases trans@.len(),
            {
                let ghost tb = trans@;
                let slot = trans.pop().unwrap();
                proof {
                    assert(trans@ =~= tb.drop_last());
                    assert(tb.last() == slot);
                }
                match slot {
                    Some(kv) => {
                        let (k, v) = kv;
                        let ghost db = self.data@;
                        let h = self.hash_key(&k);
                        let pos = (#[verifier::truncate] (h as usize)) % self.capacity;
                        proof {
                            assert(entries(tb) == entries(trans@).insert((k, v)));
                            assert(count_some(tb) == count_some(trans@) + 1);
                            assert(count_some(self.data@) < new_cap);
                        }
                        probe_insert(&mut self.data, pos, k, v);
                        proof {
                            assert(entries(db).insert((k, v)).add(entries(trans@)) =~= entries(
                                db,
                            ).add(entries(trans@).insert((k, v))));
                        }
                    },
                    None => {},
                }
            }
            proof {
                assert(entries(trans@) =~= Multiset::<(u64, V)>::empty());
                assert(entries(self.data@).add(Multiset::<(u64, V)>::empty()) =~= entries(
                    self.data@,
                ));
            }
        }
        let h = self.hash_key(&key);
        let pos = (#[verifier::truncate] (h as usize)) % self.capacity;
        proof {
            assert(count_some(self.data@) < self.capacity);
        }
        probe_insert(&mut self.data, pos, key, val);
        self.size = self.size + 1;
    }

    /// Walk the map's bucket array in slot order.
    pub fn iter<'a>(&'a self) -> (r: Iter<'a, V>)
        ensures
            r.data@ == self.data@,
            r.pos == 0,
    {
        Iter { data: &self.data, pos: 0 }
    }
}

/// Place `(key, val)` in the first free slot at or after `start`, wrapping
/// around once past the end of the bucket array. A free slot exists because
/// fewer slots are occupied than exist.
fn probe_insert<V>(data: &mut Vec<Option<(u64, V)>>, start: usize, key: u64, val: V)
    requires
        start < old(data).len(),
        count_some(old(data)@) < old(data)@.len(),
    ensures
        final(data)@.len() == old(data)@.len(),
        count_some(final(data)@) == count_some(old(data)@) + 1,
        entries(final(data)@) == entries(old(data)@).insert((key, val)),
{
    let len = data.len();
    let mut i = start;
    while i < len
        invariant
            start <= i <= len,
            start < len,
            len == data@.len(),
            data@ == old(data)@,
            forall|j: int| start <= j < i ==> data@[j] is Some,
        decreases len - i,
    {
        if data[i].is_none() {
            data[i] = Some((key, val));
            proof {
                lemma_update_none_to_some(old(data)@, i as int, (key, val));
            }
            return ;
        }
        i = i + 1;
    }
    let mut w: usize = 0;
    while w < start
        invariant
            w <= start,
            start < len,
            len == data@.len(),
            data@ == old(data)@,
            forall|j: int| start <= j < len ==> data@[j] is Some,
            forall|j: int| 0 <= j < w ==> data@[j] is Some,
        decreases start - w,
    {
        if data[w].is_none() {
            data[w] = Some((key, val));
            proof {
                lemma_update_none_to_some(old(data)@, w as int, (key, val));
            }
            return ;
        }
        w = w + 1;
    }
    proof {
        lemma_count_some_full(data@);
        assert(false);
    }
}

/// An iterator over the bucket array of a map, yielding entries in slot
/// order.
pub struct Iter<'a, V> {
    /// The bucket array being walked.
    pub data: &'a Vec<Option<(u64, V)>>,
    /// The next slot to look at.
    pub pos: usize,
}

/// The first slot index at or after `from` that holds an entry, or the
/// length of `s` if every remaining slot is empty.
pub open spec fn next_entry_at<V>(s: Seq<Option<(u64, V)>>, from: int) -> int
    recommends
        0 <= from,
    decreases s.len() - from,
{
    if from >= s.len() {
        s.len() as int
    } else if s[from] is Some {
        from
    } else {
        next_entry_at(s, from + 1)
    }
}

impl<'a, V> Iter<'a, V> {
    /// Advance to the next occupied slot and yield its entry, or `None` once
    /// every remaining slot is empty.
    pub fn next(&mut self) -> (r: Option<&'a (u64, V)>)
        requires
            old(self).pos <= old(self).data@.len(),
        ensures
            final(self).data == old(self).data,
            final(self).pos <= final(self).data@.len(),
            ({
                let s = old(self).data@;
                let j = next_entry_at(s, old(self).pos as int);
                match r {
                    Some(e) => j < s.len() && s[j] == Some(*e) && final(self).pos == j + 1,
                    None => j == s.len() && final(self).pos == s.len(),
                }
            }),
    {
        let d: &'a Vec<Option<(u64, V)>> = self.data;
        let len = d.len();
        while self.pos < len
            invariant
                self.pos <= len,
                len == d@.len(),
                self.data == d,
                d == old(self).data,
                old(self).pos <= self.pos,
                next_entry_at(d@, old(self).pos as int) == next_entry_at(d@, self.pos as int),
            decreases len - self.pos,
        {
            let ghost p = self.pos as int;
            match &d[self.pos] {
                Some(e) => {
                    proof {
                        assert(d@[p] is Some);
                        assert(next_entry_at(d@, p) == p);
                        assert(d@[p] == Some(*e));
                    }
                    self.pos = self.pos + 1;
                    return Some(e);
                },
                None => {
                    self.pos = self.pos + 1;
                },
            }
        }
        None
    }
}

} // verus!
