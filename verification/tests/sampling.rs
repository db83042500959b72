use bigrand::biguint::BigUint;
use bigrand::bigint::BigInt;
use bigrand::bigrand::RandBigInt;
use bigrand::entropy::{EntropySource, MockEntropy};
use bigrand::rng::ThreadEntropy;

fn int_eq(a: &BigInt, b: &BigInt) -> bool {
    a.le(b) && b.le(a)
}

#[test]
fn test_rand_biguint_range_works() {
    let mut rng = ThreadEntropy::new();
    let minval = BigUint::zero();
    let maxval = BigUint::from_u64(420);
    let a_random_biguint = rng.random_biguint_range(&minval, &maxval);
    assert!(minval.le(&a_random_biguint));
    assert!(a_random_biguint.lt(&maxval));
}

#[test]
fn test_rand_bigint_range_works() {
    let mut rng = ThreadEntropy::new();
    let minval = BigInt::from_i64(-420);
    let maxval = BigInt::from_i64(420);
    let a_random_bigint = rng.random_bigint_range(&minval, &maxval);
    assert!(minval.le(&a_random_bigint));
    assert!(a_random_bigint.lt(&maxval));
}

#[test]
fn bounded_samples_stay_below_bound() {
    let mut rng = ThreadEntropy::new();
    let bound = BigUint::from_u64(10);
    for _ in 0..200 {
        let n = rng.random_biguint_below(&bound);
        assert!(n.lt(&bound));
    }
}

#[test]
fn bound_one_always_yields_zero() {
    let mut rng = ThreadEntropy::new();
    let bound = BigUint::from_u64(1);
    for _ in 0..50 {
        let n = rng.random_biguint_below(&bound);
        assert!(n.is_zero());
    }
}

#[test]
fn ranged_samples_stay_in_range() {
    let mut rng = ThreadEntropy::new();
    let low = BigUint::from_u64(5);
    let high = BigUint::from_u64(9);
    for _ in 0..200 {
        let n = rng.random_biguint_range(&low, &high);
        assert!(low.le(&n));
        assert!(n.lt(&high));
    }
}

#[test]
fn signed_ranged_samples_stay_in_range() {
    let mut rng = ThreadEntropy::new();
    let low = BigInt::from_i64(-3);
    let high = BigInt::from_i64(3);
    for _ in 0..200 {
        let n = rng.random_bigint_range(&low, &high);
        assert!(low.le(&n));
        assert!(n.lt(&high));
    }
}

#[test]
fn signed_range_crossing_zero_cases() {
    let mut rng = ThreadEntropy::new();
    // lower bound exactly zero
    let zero = BigInt::from_i64(0);
    let high = BigInt::from_i64(7);
    for _ in 0..50 {
        let n = rng.random_bigint_range(&zero, &high);
        assert!(zero.le(&n));
        assert!(n.lt(&high));
    }
    // upper bound exactly zero
    let low = BigInt::from_i64(-7);
    for _ in 0..50 {
        let n = rng.random_bigint_range(&low, &zero);
        assert!(low.le(&n));
        assert!(n.lt(&zero));
    }
}

#[test]
fn fixed_bit_size_is_respected() {
    let mut rng = ThreadEntropy::new();
    let cap = BigUint::from_u64(128);
    for _ in 0..100 {
        let n = rng.random_biguint(7);
        assert!(n.lt(&cap));
    }
}

#[test]
fn fixed_bit_size_zero_yields_zero() {
    let mut rng = ThreadEntropy::new();
    let n = rng.random_biguint(0);
    assert!(n.is_zero());
    let s = rng.random_bigint(0);
    assert!(s.is_zero());
}

#[test]
fn signed_fixed_bit_size_is_respected() {
    let mut rng = ThreadEntropy::new();
    let hi = BigInt::from_i64(16);
    let lo = BigInt::from_i64(-16);
    for _ in 0..100 {
        let n = rng.random_bigint(4);
        assert!(lo.lt(&n));
        assert!(n.lt(&hi));
    }
}

#[test]
fn zero_is_not_over_represented() {
    // A fixed pseudo-random word stream keeps the check deterministic.
    let mut state: u32 = 0x2545_1505;
    let mut stream: Vec<u32> = Vec::new();
    for _ in 0..60000 {
        state ^= state << 13;
        state ^= state >> 17;
        state ^= state << 5;
        stream.push(state);
    }
    let mut rng = MockEntropy::new(stream);
    let candidates: Vec<i64> = vec![-3, -2, -1, 1, 2, 3];
    let mut zero_count: usize = 0;
    let mut counts = [0usize; 6];
    for _ in 0..7000 {
        let n = rng.random_bigint(2);
        if n.is_zero() {
            zero_count += 1;
        } else {
            for (i, c) in candidates.iter().enumerate() {
                if int_eq(&n, &BigInt::from_i64(*c)) {
                    counts[i] += 1;
                }
            }
        }
    }
    let min_nonzero = counts.iter().copied().min().unwrap();
    assert!(min_nonzero > 0);
    assert!(zero_count <= 2 * min_nonzero);
}

#[test]
fn identically_seeded_sources_agree() {
    let stream: Vec<u32> = (0..64u32).map(|i| i.wrapping_mul(0x9E37_79B9)).collect();
    let mut r1 = MockEntropy::new(stream.clone());
    let mut r2 = MockEntropy::new(stream);
    let low = BigUint::from_u64(17);
    let high = BigUint::from_u64(100_000);
    let a = r1.random_biguint_range(&low, &high);
    let b = r2.random_biguint_range(&low, &high);
    assert!(a.equals(&b));
    let slow = BigInt::from_i64(-1000);
    let shigh = BigInt::from_i64(1000);
    let sa = r1.random_bigint_range(&slow, &shigh);
    let sb = r2.random_bigint_range(&slow, &shigh);
    assert!(int_eq(&sa, &sb));
}

#[test]
fn generation_words_and_native_words_agree() {
    // 96 requested bits: three generation words, packed into two native
    // words; the value must read the generation words little-endian.
    let w0: u32 = 0xDEAD_BEEF;
    let w1: u32 = 0x1234_5678;
    let w2: u32 = 0x9ABC_DEF0;
    let mut rng = MockEntropy::new(vec![w0, w1, w2]);
    let n = rng.random_biguint(96);
    let expected = BigUint::from_words(vec![
        (w0 as u64) | ((w1 as u64) << 32),
        w2 as u64,
    ]);
    assert!(n.equals(&expected));
}

#[test]
fn partial_top_word_is_masked() {
    // 40 requested bits: two generation words, the second shifted down
    // to its low 8 bits.
    let w0: u32 = 0xFFFF_FFFF;
    let w1: u32 = 0xABCD_EF12;
    let mut rng = MockEntropy::new(vec![w0, w1]);
    let n = rng.random_biguint(40);
    let masked = (w1 >> 24) as u64;
    let expected = BigUint::from_words(vec![(w0 as u64) | (masked << 32)]);
    assert!(n.equals(&expected));
}

#[test]
fn thread_source_produces_entropy() {
    let mut rng = ThreadEntropy::new();
    let a = rng.random_biguint(128);
    let b = rng.random_biguint(128);
    // Two independent 128-bit draws collide with negligible probability.
    assert!(!a.equals(&b));
}

#[test]
fn signed_draws_use_both_signs() {
    let mut rng = ThreadEntropy::new();
    let mut seen_pos = false;
    let mut seen_neg = false;
    let zero = BigInt::from_i64(0);
    for _ in 0..200 {
        let n = rng.random_bigint(1);
        if zero.lt(&n) {
            seen_pos = true;
        }
        if n.lt(&zero) {
            seen_neg = true;
        }
    }
    assert!(seen_pos && seen_neg);
}

#[test]
fn byte_fill_keeps_length() {
    let mut rng = ThreadEntropy::new();
    let mut buf = vec![0u8; 16];
    rng.fill_bytes(&mut buf);
    assert_eq!(buf.len(), 16);
    let mut mock = MockEntropy::new(vec![0x0102_0304, 0x0506_0708]);
    let mut mbuf = vec![0u8; 3];
    mock.fill_bytes(&mut mbuf);
    assert_eq!(mbuf, vec![0x04, 0x08, 0x00]);
}

#[test]
fn exhausted_source_yields_zero() {
    let mut rng = MockEntropy::new(Vec::new());
    let n = rng.random_biguint(64);
    assert!(n.is_zero());
    let bound = BigUint::from_u64(35);
    let b = rng.random_biguint_below(&bound);
    assert!(b.is_zero());
}
