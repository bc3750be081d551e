use vstd::prelude::*;

use crate::dash::pair::{Pair, ValueT};
use core::fmt::Debug;

verus! {

/// Bit 31 of the version-lock word: the exclusive-lock flag.
pub const LOCK_SET: u32 = 0x8000_0000;

/// Bits 0..31 of the version-lock word: the version counter.
pub const LOCK_MASK: u32 = 0x7fff_ffff;

/// Number of key/value slots in a bucket.
pub const K_NUM_PAIR_PER_BUCKET: usize = 14;

/// Bits 0..4 of the bitmap word: the occupied-slot count.
pub const COUNT_MASK: u32 = 0xf;

/// True iff the exclusive-lock flag of a version-lock word is set.
pub open spec fn lock_bit(v: u32) -> bool {
    v & LOCK_SET == LOCK_SET
}

/// The version counter packed in a version-lock word.
pub open spec fn version_of(v: u32) -> u32 {
    v & LOCK_MASK
}

/// The occupied-slot count packed in the low four bits of a bitmap word.
pub open spec fn count_of(map: u32) -> u32 {
    map & COUNT_MASK
}

/// True iff the allocation bit of slot `s` (bit `18 + s` of the bitmap word)
/// is set, i.e. slot `s` holds a pair.
pub open spec fn alloc_bit(map: u32, s: u32) -> bool {
    ((map >> 18) >> s) & 1 == 1
}

/// True iff the probe bit of slot `s` (bit `4 + s` of the bitmap word) is
/// set, i.e. the pair in slot `s` is hosted here but canonically owned by a
/// neighbouring bucket.
pub open spec fn probe_bit(map: u32, s: u32) -> bool {
    ((map >> 4) >> s) & 1 == 1
}

/// The number of set allocation bits among slots `0 .. n`.
pub open spec fn alloc_count(map: u32, n: u32) -> nat
    decreases n,
{
    if n == 0 {
        0
    } else {
        alloc_count(map, (n - 1) as u32) + if alloc_bit(map, (n - 1) as u32) {
            1nat
        } else {
            0nat
        }
    }
}

/// True iff `s` is the lowest-indexed unoccupied slot of the bitmap word.
pub open spec fn is_lowest_free(map: u32, s: u32) -> bool {
    &&& s < K_NUM_PAIR_PER_BUCKET
    &&& !alloc_bit(map, s)
    &&& forall|j: u32| j < s ==> alloc_bit(map, j)
}

/// The bitmap word after an insertion at slot `slot`: the slot's allocation
/// bit set, its probe bit set when `probe` holds, and the count field
/// incremented, all folded into the one word.
pub open spec fn bitmap_after_insert(map: u32, slot: u32, probe: bool) -> u32 {
    let with_alloc = map | ((1u32 << 18) << slot);
    let with_probe = if probe {
        with_alloc | ((1u32 << 4) << slot)
    } else {
        with_alloc
    };
    (with_probe + 1) as u32
}

/// What one compare-and-swap attempt on the version-lock word yields: whether
/// the attempt succeeds, and the word it leaves behind. An attempt succeeds
/// exactly when the lock flag is clear, and then sets the flag without
/// touching the version counter; a failed attempt leaves the word unchanged.
pub open spec fn spec_try_acquire(v: u32) -> (bool, u32) {
    if lock_bit(v) {
        (false, v)
    } else {
        (true, v | LOCK_SET)
    }
}

/// The version-lock word after a release: the lock flag cleared and the
/// version counter incremented modulo 2^31, in one step.
pub open spec fn spec_release(v: u32) -> u32 {
    if version_of(v) == LOCK_MASK {
        0u32
    } else {
        (version_of(v) + 1) as u32
    }
}

/// The error a bucket operation can signal: insertion into a bucket whose
/// fourteen slots are all occupied.
#[derive(Debug, PartialEq, Eq, Structural)]
pub enum BucketError {
    BucketFull,
}

/// One fixed-capacity bucket of an extendible hash index: fourteen optional
/// key/value slots, a parallel fingerprint array, a packed occupancy word,
/// and a version-lock word.
///
/// The `overflow_*` fields and fingerprint bytes 14..18 are reserved for a
/// stash-bucket mechanism (hosting overflow members of a neighbouring
/// bucket); no operation here reads or writes them beyond initialization.
#[derive(Debug, Clone)]
pub struct Bucket<K: PartialEq + Clone> {
    pub pairs: Vec<Option<Pair<K>>>,
    pub overflow_count: u8,
    pub overflow_member: u8,
    pub overflow_index: u8,
    pub overflow_bitmap: u8,
    pub fingerprints: [u8; 18],
    pub bitmap: u32,
    pub version_lock: u32,
}

impl<K: Debug + Clone + PartialEq> Bucket<K> {
    /// Well-formedness: the slot array has exactly fourteen entries, a slot
    /// holds a pair exactly when its allocation bit is set, the packed count
    /// field equals the number of set allocation bits, and an unoccupied slot
    /// carries no probe bit.
    pub open spec fn wf(self) -> bool {
        &&& self.pairs@.len() == K_NUM_PAIR_PER_BUCKET
        &&& forall|s: u32|
            s < K_NUM_PAIR_PER_BUCKET ==> (#[trigger] alloc_bit(self.bitmap, s) <==> self.pairs@[s as int] is Some)
        &&& count_of(self.bitmap) == alloc_count(self.bitmap, K_NUM_PAIR_PER_BUCKET as u32)
        &&& forall|s: u32|
            s < K_NUM_PAIR_PER_BUCKET && !alloc_bit(self.bitmap, s) ==> !(#[trigger] probe_bit(
                self.bitmap,
                s,
            ))
    }

    /// An empty bucket: no slot occupied, bitmap zero, lock free, version 0.
    pub fn new() -> (r: Self)
        ensures
            r.wf(),
            r.bitmap == 0,
            r.version_lock == 0,
            forall|i: int| 0 <= i < K_NUM_PAIR_PER_BUCKET ==> r.pairs@[i] is None,
            r.fingerprints@ =~= Seq::new(18, |i: int| 0u8),
            r.overflow_count == 0,
            r.overflow_member == 0,
            r.overflow_index == 0,
            r.overflow_bitmap == 0,
    {
        let mut pairs: Vec<Option<Pair<K>>> = Vec::new();
        let mut i: usize = 0;
        while i < K_NUM_PAIR_PER_BUCKET
            invariant
                i <= K_NUM_PAIR_PER_BUCKET,
                pairs@.len() == i,
                forall|j: int| 0 <= j < i ==> pairs@[j] is None,
            decreases K_NUM_PAIR_PER_BUCKET - i,
        {
            pairs.push(None);
            i = i + 1;
        }
        proof {
            lemma_alloc_count_zero(K_NUM_PAIR_PER_BUCKET as u32);
            assert(0u32 & COUNT_MASK == 0) by (bit_vector);
            assert forall|s: u32| s < K_NUM_PAIR_PER_BUCKET implies !alloc_bit(0u32, s)
                && !probe_bit(0u32, s) by {
                assert(((0u32 >> 18) >> s) & 1 == 0 && ((0u32 >> 4) >> s) & 1 == 0) by (bit_vector);
            }
        }
        Bucket {
            pairs,
            overflow_count: 0,
            overflow_member: 0,
            overflow_index: 0,
            overflow_bitmap: 0,
            fingerprints: [0u8; 18],
            bitmap: 0,
            version_lock: 0,
        }
    }
}

impl<K: Debug + Clone + PartialEq> Bucket<K> {
    /// True iff `b` agrees with `a` on every field but the version-lock word:
    /// the lock primitives touch nothing else.
    pub open spec fn lock_only_changed(a: Self, b: Self) -> bool {
        &&& b.pairs == a.pairs
        &&& b.overflow_count == a.overflow_count
        &&& b.overflow_member == a.overflow_member
        &&& b.overflow_index == a.overflow_index
        &&& b.overflow_bitmap == a.overflow_bitmap
        &&& b.fingerprints == a.fingerprints
        &&& b.bitmap == a.bitmap
    }

    /// Acquire the bucket's exclusive lock: spin on a compare-and-swap from
    /// the unlocked view of the word to the same view with the lock flag set.
    ///
    /// Exclusive access to the bucket stands in for the shared atomic word
    /// here, so an already-locked bucket would make the spin loop retry
    /// forever; the word's lock flag must be clear when the call is made.
    pub fn get_lock(&mut self)
        requires
            !lock_bit(old(self).version_lock),
        ensures
            Self::lock_only_changed(*old(self), *final(self)),
            final(self).version_lock == old(self).version_lock | LOCK_SET,
            lock_bit(final(self).version_lock),
            version_of(final(self).version_lock) == version_of(old(self).version_lock),
    {
        let mut acquired: bool = false;
        while !acquired
            invariant
                !lock_bit(old(self).version_lock),
                !acquired ==> *self == *old(self),
                acquired ==> Self::lock_only_changed(*old(self), *self)
                    && self.version_lock == old(self).version_lock | LOCK_SET,
            decreases (if acquired { 0int } else { 1int }),
        {
            let old_value = self.version_lock & LOCK_MASK;
            proof {
                let v = self.version_lock;
                assert(v & LOCK_SET != LOCK_SET ==> v & LOCK_MASK == v) by (bit_vector);
            }
            if self.version_lock == old_value {
                self.version_lock = old_value | LOCK_SET;
                acquired = true;
            }
        }
        proof {
            let v = old(self).version_lock;
            assert((v | LOCK_SET) & LOCK_SET == LOCK_SET) by (bit_vector);
            assert((v | LOCK_SET) & LOCK_MASK == v & LOCK_MASK) by (bit_vector);
        }
    }

    /// One non-blocking attempt at the exclusive lock: the single
    /// compare-and-swap of `get_lock`, reporting whether it took the lock.
    /// On a locked bucket the attempt fails and changes nothing.
    pub fn try_get_lock(&mut self) -> (r: bool)
        ensures
            r == spec_try_acquire(old(self).version_lock).0,
            final(self).version_lock == spec_try_acquire(old(self).version_lock).1,
            Self::lock_only_changed(*old(self), *final(self)),
            r == !lock_bit(old(self).version_lock),
            r ==> version_of(final(self).version_lock) == version_of(old(self).version_lock),
            lock_bit(final(self).version_lock),
            !r ==> *final(self) == *old(self),
    {
        let old_value = self.version_lock & LOCK_MASK;
        proof {
            let v = self.version_lock;
            assert((v & LOCK_MASK == v) <==> (v & LOCK_SET != LOCK_SET)) by (bit_vector);
            assert((v | LOCK_SET) & LOCK_SET == LOCK_SET) by (bit_vector);
            assert((v | LOCK_SET) & LOCK_MASK == v & LOCK_MASK) by (bit_vector);
        }
        if self.version_lock == old_value {
            self.version_lock = old_value | LOCK_SET;
            true
        } else {
            false
        }
    }

    /// Release the exclusive lock: clear the lock flag and increment the
    /// version counter (modulo 2^31) in one store, so every unlock is
    /// observable as a version bump. Only the current lock holder may call
    /// this, so the lock flag must be set.
    pub fn release_lock(&mut self)
        requires
            lock_bit(old(self).version_lock),
        ensures
            Self::lock_only_changed(*old(self), *final(self)),
            final(self).version_lock == spec_release(old(self).version_lock),
            !lock_bit(final(self).version_lock),
            version_of(final(self).version_lock) == (version_of(old(self).version_lock) + 1)
                % 0x8000_0000,
    {
        let old_value = self.version_lock;
        let ver = old_value & LOCK_MASK;
        proof {
            let v = old_value;
            assert(v & LOCK_MASK <= LOCK_MASK) by (bit_vector);
            let w = v & LOCK_MASK;
            assert(((w + 1) as u32) & LOCK_MASK == (if w == LOCK_MASK {
                0u32
            } else {
                (w + 1) as u32
            })) by (bit_vector)
                requires
                    w <= LOCK_MASK,
            ;
            lemma_version_increment_mod(v);
        }
        self.version_lock = (ver + 1) & LOCK_MASK;
    }

    /// Unconditionally zero the version-lock word: lock flag clear, version
    /// counter back at zero. For initialization and recovery, not for a
    /// contended release.
    pub fn reset_lock(&mut self)
        ensures
            Self::lock_only_changed(*old(self), *final(self)),
            final(self).version_lock == 0,
            !lock_bit(final(self).version_lock),
    {
        proof {
            assert(0u32 & LOCK_SET != LOCK_SET) by (bit_vector);
        }
        self.version_lock = 0;
    }

    /// Observe whether the lock flag is currently set, without acquiring.
    pub fn is_locked(&self) -> (r: bool)
        ensures
            r == lock_bit(self.version_lock),
    {
        proof {
            let v = self.version_lock;
            assert((v & LOCK_SET != 0) <==> (v & LOCK_SET == LOCK_SET)) by (bit_vector);
        }
        self.version_lock & LOCK_SET != 0
    }
}

/// The number of `Some` entries among the first `n` slots of a slot array.
pub open spec fn some_count<K: PartialEq + Clone>(pairs: Seq<Option<Pair<K>>>, n: int) -> nat
    decreases n,
{
    if n <= 0 {
        0
    } else {
        some_count(pairs, n - 1) + if pairs[n - 1] is Some {
            1nat
        } else {
            0nat
        }
    }
}

/// The capacity invariant: in a well-formed bucket the count field packed in
/// the bitmap word equals the number of occupied slots. Every constructor
/// and mutation keeps the bucket well-formed, so the equality holds after
/// any sequence of successful inserts.
pub proof fn lemma_count_matches_occupancy<K: Debug + Clone + PartialEq>(b: Bucket<K>)
    requires
        b.wf(),
    ensures
        count_of(b.bitmap) == some_count(b.pairs@, K_NUM_PAIR_PER_BUCKET as int),
{
    lemma_alloc_count_matches_some_count(b, K_NUM_PAIR_PER_BUCKET as u32);
}

/// In a well-formed bucket the set allocation bits among slots `0 .. n` and
/// the `Some` entries among those slots are counted alike, since the two
/// agree slot by slot.
proof fn lemma_alloc_count_matches_some_count<K: Debug + Clone + PartialEq>(b: Bucket<K>, n: u32)
    requires
        b.wf(),
        n <= K_NUM_PAIR_PER_BUCKET,
    ensures
        alloc_count(b.bitmap, n) == some_count(b.pairs@, n as int),
    decreases n,
{
    if n > 0 {
        lemma_alloc_count_matches_some_count(b, (n - 1) as u32);
    }
}

/// The version-lock word after one acquire: the word `get_lock` leaves
/// behind, the lock flag set over an unchanged version counter.
pub open spec fn spec_acquire(v: u32) -> u32 {
    v | LOCK_SET
}

/// The version-lock word after an acquire/release round: the lock flag ends
/// clear and the version counter one higher, modulo 2^31.
pub open spec fn lock_cycle(v: u32) -> u32 {
    spec_release(spec_acquire(v))
}

/// The version-lock word after `n` acquire/release rounds.
pub open spec fn lock_cycles(v: u32, n: nat) -> u32
    decreases n,
{
    if n == 0 {
        v
    } else {
        lock_cycle(lock_cycles(v, (n - 1) as nat))
    }
}

/// Mutual exclusion of the lock word: on an unlocked word one try-acquire
/// succeeds, and a second attempt, made on the word the first leaves behind,
/// fails and leaves that word unchanged — only one of two back-to-back
/// attempts can ever take the lock.
pub proof fn lemma_try_acquire_mutual_exclusion(v: u32)
    requires
        !lock_bit(v),
    ensures
        spec_try_acquire(v).0,
        !spec_try_acquire(spec_try_acquire(v).1).0,
        spec_try_acquire(spec_try_acquire(v).1).1 == spec_try_acquire(v).1,
{
    assert((v | LOCK_SET) & LOCK_SET == LOCK_SET) by (bit_vector);
}

/// Version monotonicity: starting from an unlocked word, `n` acquire/release
/// rounds leave the lock flag clear and the version counter exactly `n`
/// higher, modulo 2^31.
pub proof fn lemma_version_monotonic(v: u32, n: nat)
    requires
        !lock_bit(v),
    ensures
        !lock_bit(lock_cycles(v, n)),
        version_of(lock_cycles(v, n)) == (version_of(v) + n) % 0x8000_0000,
    decreases n,
{
    if n == 0 {
        assert(v & LOCK_MASK < 0x8000_0000) by (bit_vector);
        vstd::arithmetic::div_mod::lemma_small_mod(version_of(v) as nat, 0x8000_0000nat);
    } else {
        lemma_version_monotonic(v, (n - 1) as nat);
        let w = lock_cycles(v, (n - 1) as nat);
        let a = spec_acquire(w);
        assert((w | LOCK_SET) & LOCK_MASK == w & LOCK_MASK && (w | LOCK_SET) & LOCK_SET
            == LOCK_SET) by (bit_vector);
        lemma_version_increment_mod(a);
        assert((version_of(w) + 1) % 0x8000_0000 == (version_of(v) + n) % 0x8000_0000) by {
            vstd::arithmetic::div_mod::lemma_add_mod_noop(
                version_of(v) + (n - 1),
                1,
                0x8000_0000,
            );
            vstd::arithmetic::div_mod::lemma_mod_twice(version_of(v) + (n - 1), 0x8000_0000);
            vstd::arithmetic::div_mod::lemma_small_mod(1nat, 0x8000_0000nat);
        }
    }
}

/// A release increments the version counter by one modulo 2^31: the wrapped
/// successor that `spec_release` packs into the word is the modular one.
proof fn lemma_version_increment_mod(v: u32)
    ensures
        version_of(spec_release(v)) == (version_of(v) + 1) % 0x8000_0000,
        !lock_bit(spec_release(v)),
        version_of(spec_release(v)) == spec_release(v),
{
    let w = version_of(v);
    assert(v & LOCK_MASK <= LOCK_MASK) by (bit_vector);
    if w == LOCK_MASK {
        assert(0u32 & LOCK_MASK == 0 && 0u32 & LOCK_SET != LOCK_SET) by (bit_vector);
    } else {
        let r = (w + 1) as u32;
        assert(r & LOCK_MASK == r && r & LOCK_SET != LOCK_SET) by (bit_vector)
            requires
                r <= LOCK_MASK,
        ;
    }
}

/// In the all-zero bitmap word no allocation bit is set, so no prefix of the
/// slots counts an occupied one.
proof fn lemma_alloc_count_zero(n: u32)
    ensures
        alloc_count(0u32, n) == 0,
    decreases n,
{
    if n > 0 {
        lemma_alloc_count_zero((n - 1) as u32);
        let s = (n - 1) as u32;
        assert(((0u32 >> 18) >> s) & 1 == 0) by (bit_vector);
    }
}

impl<K: Debug + Clone + PartialEq> Bucket<K> {
    /// Insert a key/value pair: place a clone of the key and the value in the
    /// lowest-indexed unoccupied slot, record the fingerprint byte beside it,
    /// and fold the slot's allocation bit, its probe bit (when `probe` holds)
    /// and the count increment into one update of the bitmap word. On a full
    /// bucket, fail with `BucketFull` and change nothing.
    ///
    /// The caller must hold the bucket's lock; insertion itself takes none.
    pub fn insert(&mut self, key: &K, value: ValueT, meta_hash: u8, probe: bool) -> (r: Result<
        usize,
        BucketError,
    >)
        requires
            old(self).wf(),
        ensures
            final(self).wf(),
            final(self).version_lock == old(self).version_lock,
            final(self).overflow_count == old(self).overflow_count,
            final(self).overflow_member == old(self).overflow_member,
            final(self).overflow_index == old(self).overflow_index,
            final(self).overflow_bitmap == old(self).overflow_bitmap,
            count_of(old(self).bitmap) == K_NUM_PAIR_PER_BUCKET ==> r == Err::<
                usize,
                BucketError,
            >(BucketError::BucketFull) && *final(self) == *old(self),
            count_of(old(self).bitmap) < K_NUM_PAIR_PER_BUCKET ==> (r matches Ok(slot) && {
                &&& slot < K_NUM_PAIR_PER_BUCKET
                &&& is_lowest_free(old(self).bitmap, slot as u32)
                &&& final(self).bitmap == bitmap_after_insert(
                    old(self).bitmap,
                    slot as u32,
                    probe,
                )
                &&& (final(self).pairs@[slot as int] matches Some(p)
                    && cloned(*key, p.key)
                    && p.value == value)
                &&& forall|i: int|
                    0 <= i < K_NUM_PAIR_PER_BUCKET && i != slot as int
                        ==> final(self).pairs@[i] == old(self).pairs@[i]
                &&& final(self).fingerprints@ == old(self).fingerprints@.update(
                    slot as int,
                    meta_hash,
                )
                &&& alloc_bit(final(self).bitmap, slot as u32)
                &&& probe_bit(final(self).bitmap, slot as u32) == probe
                &&& count_of(final(self).bitmap) == count_of(old(self).bitmap) + 1
                &&& forall|s: u32|
                    s < K_NUM_PAIR_PER_BUCKET && s != slot as u32 ==> #[trigger] alloc_bit(
                        final(self).bitmap,
                        s,
                    ) == alloc_bit(old(self).bitmap, s)
                &&& forall|s: u32|
                    s < K_NUM_PAIR_PER_BUCKET && s != slot as u32 ==> #[trigger] probe_bit(
                        final(self).bitmap,
                        s,
                    ) == probe_bit(old(self).bitmap, s)
            }),
    {
        if let Some(slot) = self.find_empty_slot() {
            self.pairs[slot] = Some(Pair::new(key.clone(), value));
            self.set_hash(slot, meta_hash, probe);
            proof {
                let m1 = old(self).bitmap;
                let m2 = self.bitmap;
                let s = slot as u32;
                lemma_bitmap_after_insert(m1, s, probe);
                lemma_alloc_count_update(m1, m2, s, K_NUM_PAIR_PER_BUCKET as u32);
            }
            Ok(slot)
        } else {
            Err(BucketError::BucketFull)
        }
    }

    /// The lowest-indexed unoccupied slot, read from the bitmap word: when
    /// the count field already reads fourteen the bucket is full and there is
    /// none; otherwise the index of the lowest set bit of the complemented
    /// allocation mask.
    fn find_empty_slot(&self) -> (r: Option<usize>)
        requires
            self.wf(),
        ensures
            match r {
                Some(s) => s < K_NUM_PAIR_PER_BUCKET && count_of(self.bitmap)
                    < K_NUM_PAIR_PER_BUCKET && is_lowest_free(self.bitmap, s as u32),
                None => count_of(self.bitmap) == K_NUM_PAIR_PER_BUCKET,
            },
    {
        if get_count_from_bitmap(self.bitmap) == K_NUM_PAIR_PER_BUCKET {
            return None;
        }
        proof {
            lemma_alloc_count_le(self.bitmap, K_NUM_PAIR_PER_BUCKET as u32);
        }
        let mask = !get_bitmap(self.bitmap);
        let slot = mask.trailing_zeros() as usize;
        proof {
            vstd::std_specs::bits::axiom_u32_trailing_zeros(mask);
            let m = self.bitmap;
            let a = m >> 18;
            let tz = vstd::std_specs::bits::u32_trailing_zeros(mask);
            lemma_alloc_count_partial(m, K_NUM_PAIR_PER_BUCKET as u32);
            let w = choose|s: u32| s < K_NUM_PAIR_PER_BUCKET as u32 && !#[trigger] alloc_bit(m, s);
            assert(((!a) >> w) & 1 == 1 && !a != 0) by (bit_vector)
                requires
                    w < 32,
                    (a >> w) & 1 != 1,
            ;
            assert(tz <= w) by {
                if w < tz {
                    assert((mask >> w) & 1 == 0);
                }
            }
            assert((a >> tz) & 1 != 1) by (bit_vector)
                requires
                    tz < 32,
                    ((!a) >> tz) & 1 == 1,
            ;
            assert forall|j: u32| j < tz implies alloc_bit(m, j) by {
                assert((mask >> j) & 1 == 0);
                assert((a >> j) & 1 == 1) by (bit_vector)
                    requires
                        j < 32,
                        ((!a) >> j) & 1 == 0,
                ;
            }
        }
        Some(slot)
    }

    /// Record a fingerprint byte for a freshly filled slot and publish the
    /// slot in the bitmap word: set its allocation bit, set its probe bit
    /// when the pair is hosted for a neighbouring bucket, and increment the
    /// count field, all in one word update.
    fn set_hash(&mut self, slot: usize, hash: u8, probe: bool)
        requires
            slot < K_NUM_PAIR_PER_BUCKET,
            !alloc_bit(old(self).bitmap, slot as u32),
            !probe_bit(old(self).bitmap, slot as u32),
            count_of(old(self).bitmap) == alloc_count(
                old(self).bitmap,
                K_NUM_PAIR_PER_BUCKET as u32,
            ),
        ensures
            final(self).bitmap == bitmap_after_insert(old(self).bitmap, slot as u32, probe),
            final(self).fingerprints@ == old(self).fingerprints@.update(slot as int, hash),
            final(self).pairs == old(self).pairs,
            final(self).version_lock == old(self).version_lock,
            final(self).overflow_count == old(self).overflow_count,
            final(self).overflow_member == old(self).overflow_member,
            final(self).overflow_index == old(self).overflow_index,
            final(self).overflow_bitmap == old(self).overflow_bitmap,
    {
        proof {
            lemma_alloc_count_lt(old(self).bitmap, slot as u32, K_NUM_PAIR_PER_BUCKET as u32);
            lemma_bitmap_after_insert(old(self).bitmap, slot as u32, probe);
        }
        self.fingerprints[slot] = hash;
        let s32: u32 = slot as u32;
        let mut new_bitmap = self.bitmap | ((1u32 << 18) << s32);
        if probe {
            new_bitmap = new_bitmap | ((1u32 << 4) << s32);
        }
        new_bitmap = new_bitmap + 1;
        self.bitmap = new_bitmap;
    }
}

/// At most `n` of the slots `0 .. n` are occupied.
proof fn lemma_alloc_count_le(map: u32, n: u32)
    ensures
        alloc_count(map, n) <= n,
    decreases n,
{
    if n > 0 {
        lemma_alloc_count_le(map, (n - 1) as u32);
    }
}

/// A slot with a clear allocation bit keeps the count of `n` slots below `n`.
proof fn lemma_alloc_count_lt(map: u32, s: u32, n: u32)
    requires
        s < n,
        !alloc_bit(map, s),
    ensures
        alloc_count(map, n) < n,
    decreases n,
{
    if s == n - 1 {
        lemma_alloc_count_le(map, (n - 1) as u32);
    } else {
        lemma_alloc_count_lt(map, s, (n - 1) as u32);
    }
}

/// Fewer than `n` occupied slots among `0 .. n` leave some allocation bit
/// clear.
proof fn lemma_alloc_count_partial(map: u32, n: u32)
    requires
        alloc_count(map, n) < n,
    ensures
        exists|s: u32| s < n && !#[trigger] alloc_bit(map, s),
    decreases n,
{
    if n > 0 && alloc_bit(map, (n - 1) as u32) {
        lemma_alloc_count_partial(map, (n - 1) as u32);
    }
}

/// Two bitmap words that agree on the allocation bits of slots `0 .. n`
/// count those slots alike.
proof fn lemma_alloc_count_same(m1: u32, m2: u32, n: u32)
    requires
        forall|s: u32| s < n ==> #[trigger] alloc_bit(m1, s) == alloc_bit(m2, s),
    ensures
        alloc_count(m1, n) == alloc_count(m2, n),
    decreases n,
{
    if n > 0 {
        lemma_alloc_count_same(m1, m2, (n - 1) as u32);
    }
}

/// Setting one clear allocation bit raises the count of `n` slots by one.
proof fn lemma_alloc_count_update(m1: u32, m2: u32, slot: u32, n: u32)
    requires
        slot < n,
        !alloc_bit(m1, slot),
        alloc_bit(m2, slot),
        forall|s: u32| s < n && s != slot ==> #[trigger] alloc_bit(m1, s) == alloc_bit(m2, s),
    ensures
        alloc_count(m2, n) == alloc_count(m1, n) + 1,
    decreases n,
{
    if slot == n - 1 {
        lemma_alloc_count_same(m1, m2, (n - 1) as u32);
    } else {
        lemma_alloc_count_update(m1, m2, slot, (n - 1) as u32);
    }
}

/// How one insertion reshapes the bitmap word: the slot's allocation bit is
/// set, its probe bit follows the flag, the count field grows by one, and
/// every other allocation and probe bit keeps its value.
proof fn lemma_bitmap_after_insert(m: u32, slot: u32, probe: bool)
    requires
        slot < 14,
        count_of(m) < 14,
        !probe_bit(m, slot),
    ensures
        count_of(bitmap_after_insert(m, slot, probe)) == count_of(m) + 1,
        alloc_bit(bitmap_after_insert(m, slot, probe), slot),
        probe_bit(bitmap_after_insert(m, slot, probe), slot) == probe,
        forall|s: u32|
            s < 14 && s != slot ==> #[trigger] alloc_bit(bitmap_after_insert(m, slot, probe), s)
                == alloc_bit(m, s),
        forall|s: u32|
            s < 14 && s != slot ==> #[trigger] probe_bit(bitmap_after_insert(m, slot, probe), s)
                == probe_bit(m, s),
        bitmap_after_insert(m, slot, probe) == (if probe {
            m | ((1u32 << 18) << slot) | ((1u32 << 4) << slot)
        } else {
            m | ((1u32 << 18) << slot)
        }) + 1,
{
    let m2 = bitmap_after_insert(m, slot, probe);
    if probe {
        assert(count_of(m2) == count_of(m) + 1 && alloc_bit(m2, slot) && probe_bit(m2, slot)
            && m2 == (m | ((1u32 << 18) << slot) | ((1u32 << 4) << slot)) + 1) by (bit_vector)
            requires
                slot < 14,
                m & 0xf < 14,
                m2 == ((m | ((1u32 << 18) << slot) | ((1u32 << 4) << slot)) + 1) as u32,
        ;
        assert forall|s: u32| s < 14 && s != slot implies #[trigger] alloc_bit(m2, s) == alloc_bit(
            m,
            s,
        ) by {
            assert(alloc_bit(m2, s) == alloc_bit(m, s)) by (bit_vector)
                requires
                    slot < 14,
                    s < 14,
                    s != slot,
                    m & 0xf < 14,
                    m2 == ((m | ((1u32 << 18) << slot) | ((1u32 << 4) << slot)) + 1) as u32,
            ;
        }
        assert forall|s: u32| s < 14 && s != slot implies #[trigger] probe_bit(m2, s) == probe_bit(
            m,
            s,
        ) by {
            assert(probe_bit(m2, s) == probe_bit(m, s)) by (bit_vector)
                requires
                    slot < 14,
                    s < 14,
                    s != slot,
                    m & 0xf < 14,
                    m2 == ((m | ((1u32 << 18) << slot) | ((1u32 << 4) << slot)) + 1) as u32,
            ;
        }
    } else {
        assert(count_of(m2) == count_of(m) + 1 && alloc_bit(m2, slot) && !probe_bit(m2, slot)
            && m2 == (m | ((1u32 << 18) << slot)) + 1) by (bit_vector)
            requires
                slot < 14,
                m & 0xf < 14,
                ((m >> 4) >> slot) & 1 != 1,
                m2 == ((m | ((1u32 << 18) << slot)) + 1) as u32,
        ;
        assert forall|s: u32| s < 14 && s != slot implies #[trigger] alloc_bit(m2, s) == alloc_bit(
            m,
            s,
        ) by {
            assert(alloc_bit(m2, s) == alloc_bit(m, s)) by (bit_vector)
                requires
                    slot < 14,
                    s < 14,
                    s != slot,
                    m & 0xf < 14,
                    m2 == ((m | ((1u32 << 18) << slot)) + 1) as u32,
            ;
        }
        assert forall|s: u32| s < 14 && s != slot implies #[trigger] probe_bit(m2, s) == probe_bit(
            m,
            s,
        ) by {
            assert(probe_bit(m2, s) == probe_bit(m, s)) by (bit_vector)
                requires
                    slot < 14,
                    s < 14,
                    s != slot,
                    m & 0xf < 14,
                    m2 == ((m | ((1u32 << 18) << slot)) + 1) as u32,
            ;
        }
    }
}

/// The count field of a full bitmap word is read back unchanged: the packed
/// count occupies the low four bits alone.
pub fn get_count_from_bitmap(map: u32) -> (r: usize)
    ensures
        r == count_of(map),
{
    let count = map & COUNT_MASK;
    count as usize
}

/// The fourteen-bit slot-allocation mask of a bitmap word: the count field
/// and the probe/stash ranges are shifted away.
pub fn get_bitmap(var: u32) -> (r: u32)
    ensures
        r == var >> 18,
        forall|s: u32| s < K_NUM_PAIR_PER_BUCKET ==> ((r >> s) & 1 == 1 <==> #[trigger] alloc_bit(var, s)),
{
    var >> 18
}

} // verus!
