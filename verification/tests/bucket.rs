use dash_bucket::dash::bucket::{
    get_bitmap, get_count_from_bitmap, Bucket, BucketError, COUNT_MASK, K_NUM_PAIR_PER_BUCKET,
    LOCK_MASK, LOCK_SET,
};
use dash_bucket::dash::pair::Pair;

fn alloc_bit_is_set(bitmap: u32, slot: u32) -> bool {
    (bitmap >> (18 + slot)) & 1 == 1
}

fn probe_bit_is_set(bitmap: u32, slot: u32) -> bool {
    (bitmap >> (4 + slot)) & 1 == 1
}

#[test]
fn test_new_bucket_is_empty_and_unlocked() {
    let b: Bucket<u64> = Bucket::new();
    assert_eq!(b.bitmap, 0);
    assert_eq!(b.version_lock, 0);
    assert_eq!(get_count_from_bitmap(b.bitmap), 0);
    assert_eq!(b.pairs.len(), K_NUM_PAIR_PER_BUCKET);
    assert!(b.pairs.iter().all(|p| p.is_none()));
    assert_eq!(b.fingerprints, [0u8; 18]);
    assert!(!b.is_locked());
}

#[test]
fn test_pair_new_stores_key_and_value() {
    let p = Pair::new(42u64, vec![1u8, 2, 3]);
    assert_eq!(p.key, 42u64);
    assert_eq!(p.value, vec![1u8, 2, 3]);
}

#[test]
fn test_fill_then_overflow() {
    // Fourteen distinct keys with distinct fingerprints all land in distinct
    // slots 0..13; the fifteenth insert fails full, and the failed attempt
    // changes nothing.
    let mut b: Bucket<u64> = Bucket::new();
    for i in 0..14u64 {
        let slot = b
            .insert(&i, vec![i as u8], 0x10 + i as u8, false)
            .expect("bucket not yet full");
        assert_eq!(slot, i as usize);
        assert_eq!(get_count_from_bitmap(b.bitmap), (i + 1) as usize);
        // The packed count always equals the number of occupied slots.
        let occupied = b.pairs.iter().filter(|p| p.is_some()).count();
        assert_eq!(get_count_from_bitmap(b.bitmap), occupied);
    }
    assert_eq!(get_count_from_bitmap(b.bitmap), 14);
    let before = b.bitmap;
    let r = b.insert(&99u64, vec![99], 0xff, false);
    assert!(matches!(r, Err(BucketError::BucketFull)));
    assert_eq!(b.bitmap, before);
    assert_eq!(get_count_from_bitmap(b.bitmap), 14);
    for s in 0..14u32 {
        assert!(alloc_bit_is_set(b.bitmap, s));
        assert_eq!(b.fingerprints[s as usize], 0x10 + s as u8);
        let pair = b.pairs[s as usize].as_ref().expect("slot occupied");
        assert_eq!(pair.key, s as u64);
        assert_eq!(pair.value, vec![s as u8]);
    }
}

#[test]
fn test_lowest_free_slot_policy() {
    // A bucket with slots {0, 2} occupied takes the next pair at index 1.
    let mut b: Bucket<u64> = Bucket::new();
    b.pairs[0] = Some(Pair::new(10u64, vec![0]));
    b.pairs[2] = Some(Pair::new(12u64, vec![2]));
    b.fingerprints[0] = 0xa0;
    b.fingerprints[2] = 0xa2;
    b.bitmap = (1u32 << 18) | (1u32 << 20) | 2;
    let slot = b.insert(&11u64, vec![1], 0xa1, false).expect("space left");
    assert_eq!(slot, 1);
    assert_eq!(get_count_from_bitmap(b.bitmap), 3);
    assert_eq!(b.fingerprints[1], 0xa1);
}

#[test]
fn test_fingerprint_association() {
    // After insert(key, value, fp, false) at slot s: fingerprints[s] == fp,
    // the allocation bit for s is set, and the probe bit for s is clear.
    let mut b: Bucket<u32> = Bucket::new();
    let slot = b.insert(&7u32, vec![7, 7], 0xc3, false).expect("empty bucket");
    assert_eq!(b.fingerprints[slot], 0xc3);
    assert!(alloc_bit_is_set(b.bitmap, slot as u32));
    assert!(!probe_bit_is_set(b.bitmap, slot as u32));
}

#[test]
fn test_probe_flag_bit() {
    // insert(key, value, fp, true) sets both the allocation bit and the
    // probe bit of the returned slot.
    let mut b: Bucket<u32> = Bucket::new();
    let slot = b.insert(&8u32, vec![8], 0x5a, true).expect("empty bucket");
    assert!(alloc_bit_is_set(b.bitmap, slot as u32));
    assert!(probe_bit_is_set(b.bitmap, slot as u32));
    assert_eq!(b.fingerprints[slot], 0x5a);
}

#[test]
fn test_try_get_lock_mutual_exclusion() {
    // On an unlocked bucket one attempt succeeds; a second attempt, made
    // while the lock is held, fails and has no side effect.
    let mut b: Bucket<u64> = Bucket::new();
    assert!(b.try_get_lock());
    assert!(b.is_locked());
    let word = b.version_lock;
    assert!(!b.try_get_lock());
    assert_eq!(b.version_lock, word);
    assert!(b.is_locked());
}

#[test]
fn test_version_monotonicity() {
    // N acquire/release rounds raise the version counter by exactly N, and
    // the lock flag is clear after every release.
    let mut b: Bucket<u64> = Bucket::new();
    for n in 1..=100u32 {
        b.get_lock();
        assert!(b.is_locked());
        b.release_lock();
        assert!(!b.is_locked());
        assert_eq!(b.version_lock & LOCK_MASK, n);
        assert_eq!(b.version_lock & LOCK_SET, 0);
    }
}

#[test]
fn test_lock_cycles_total_count() {
    // Eight rounds of one thousand acquire/release pairs on one bucket leave
    // the version counter at eight thousand with the lock flag clear.
    let mut b: Bucket<u64> = Bucket::new();
    for _ in 0..8 {
        for _ in 0..1000 {
            b.get_lock();
            b.release_lock();
        }
    }
    assert_eq!(b.version_lock, 8000);
    assert!(!b.is_locked());
}

#[test]
fn test_contended_lock_rounds() {
    // Eight concurrent tasks each run one thousand acquire/release rounds on
    // one shared bucket; when all have finished the version counter reads
    // eight thousand and the lock flag is clear. The lock methods take the
    // bucket exclusively, so the tasks take turns through a mutex.
    let rt = tokio::runtime::Builder::new_multi_thread()
        .worker_threads(8)
        .build()
        .unwrap();
    let bucket = std::sync::Arc::new(std::sync::Mutex::new(Bucket::<u64>::new()));
    rt.block_on(async {
        let mut handles = Vec::new();
        for _ in 0..8 {
            let shared = bucket.clone();
            handles.push(tokio::spawn(async move {
                for _ in 0..1000 {
                    let mut b = shared.lock().unwrap();
                    b.get_lock();
                    b.release_lock();
                }
            }));
        }
        for h in handles {
            h.await.unwrap();
        }
    });
    let b = bucket.lock().unwrap();
    assert_eq!(b.version_lock, 8000);
    assert!(!b.is_locked());
}

#[test]
fn test_try_lock_two_contenders() {
    // Two concurrent contenders each make one try-acquire attempt on an
    // unlocked bucket: exactly one succeeds, and the loser's attempt leaves
    // no trace on the word beyond the winner's lock flag.
    let rt = tokio::runtime::Builder::new_multi_thread()
        .worker_threads(2)
        .build()
        .unwrap();
    let bucket = std::sync::Arc::new(std::sync::Mutex::new(Bucket::<u64>::new()));
    let wins = rt.block_on(async {
        let mut handles = Vec::new();
        for _ in 0..2 {
            let shared = bucket.clone();
            handles.push(tokio::spawn(async move { shared.lock().unwrap().try_get_lock() }));
        }
        let mut wins = 0;
        for h in handles {
            if h.await.unwrap() {
                wins += 1;
            }
        }
        wins
    });
    assert_eq!(wins, 1);
    let b = bucket.lock().unwrap();
    assert!(b.is_locked());
    assert_eq!(b.version_lock, LOCK_SET);
}

#[test]
fn test_release_wraps_version_counter() {
    // The version counter is modulo 2^31: a release at the counter's maximum
    // wraps it to zero while clearing the lock flag.
    let mut b: Bucket<u64> = Bucket::new();
    b.version_lock = LOCK_SET | LOCK_MASK;
    b.release_lock();
    assert_eq!(b.version_lock, 0);
    assert!(!b.is_locked());
}

#[test]
fn test_reset_lock_zeroes_word() {
    let mut b: Bucket<u64> = Bucket::new();
    b.get_lock();
    b.release_lock();
    b.get_lock();
    assert!(b.is_locked());
    assert_ne!(b.version_lock, 0);
    b.reset_lock();
    assert_eq!(b.version_lock, 0);
    assert!(!b.is_locked());
}

#[test]
fn test_get_count_from_bitmap_reads_low_bits() {
    assert_eq!(get_count_from_bitmap(0b0101), 5);
    assert_eq!(get_count_from_bitmap(0x001f_0005), 5);
    assert_eq!(get_count_from_bitmap(0), 0);
    assert_eq!(get_count_from_bitmap(COUNT_MASK), 15);
}

#[test]
fn test_get_bitmap_drops_count_and_pointer_bits() {
    assert_eq!(get_bitmap(0x001f_0005), 0x001f_0005u32 >> 18);
    assert_eq!(get_bitmap(1u32 << 18), 1);
    assert_eq!(get_bitmap((1u32 << 18) | (1u32 << 20) | 2), 0b101);
    assert_eq!(get_bitmap(0x3ffff), 0);
}

#[test]
fn test_insert_with_string_keys() {
    let mut b: Bucket<String> = Bucket::new();
    let s0 = b
        .insert(&String::from("alpha"), b"one".to_vec(), 1, false)
        .expect("empty bucket");
    let s1 = b
        .insert(&String::from("beta"), b"two".to_vec(), 2, true)
        .expect("one slot used");
    assert_eq!((s0, s1), (0, 1));
    assert_eq!(b.pairs[0].as_ref().unwrap().key, "alpha");
    assert_eq!(b.pairs[0].as_ref().unwrap().value, b"one".to_vec());
    assert_eq!(b.pairs[1].as_ref().unwrap().key, "beta");
    assert_eq!(get_count_from_bitmap(b.bitmap), 2);
}

#[test]
fn test_insert_does_not_touch_lock_word() {
    let mut b: Bucket<u64> = Bucket::new();
    b.get_lock();
    let word = b.version_lock;
    b.insert(&1u64, vec![1], 0x11, false).expect("empty bucket");
    assert_eq!(b.version_lock, word);
    b.release_lock();
    assert_eq!(b.version_lock & LOCK_MASK, 1);
}
