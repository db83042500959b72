use bigrand::biguint::BigUint;
use bigrand::bigint::BigInt;
use bigrand::rng::ThreadEntropy;
use bigrand::uniform::{RandomBits, UniformBigInt, UniformBigUint, UniformError};

fn int_eq(a: &BigInt, b: &BigInt) -> bool {
    a.le(b) && b.le(a)
}

#[test]
fn unsigned_empty_range_is_rejected() {
    let five = BigUint::from_u64(5);
    let r = UniformBigUint::new(&five, &five);
    assert!(matches!(r, Err(UniformError::EmptyRange)));
    let three = BigUint::from_u64(3);
    let r2 = UniformBigUint::new(&five, &three);
    assert!(matches!(r2, Err(UniformError::EmptyRange)));
}

#[test]
fn signed_empty_range_is_rejected() {
    let five = BigInt::from_i64(5);
    let r = UniformBigInt::new(&five, &five);
    assert!(matches!(r, Err(UniformError::EmptyRange)));
    let r2 = UniformBigInt::new_inclusive(&five, &BigInt::from_i64(4));
    assert!(matches!(r2, Err(UniformError::EmptyRange)));
}

#[test]
fn inclusive_point_range_always_draws_it() {
    let mut rng = ThreadEntropy::new();
    let five = BigUint::from_u64(5);
    let s = UniformBigUint::new_inclusive(&five, &five).unwrap();
    for _ in 0..20 {
        let n = s.sample(&mut rng);
        assert!(n.equals(&five));
    }
    let sfive = BigInt::from_i64(5);
    let ss = UniformBigInt::new_inclusive(&sfive, &sfive).unwrap();
    for _ in 0..20 {
        let n = ss.sample(&mut rng);
        assert!(int_eq(&n, &sfive));
    }
}

#[test]
fn unsigned_sampler_draws_stay_in_range() {
    let mut rng = ThreadEntropy::new();
    let low = BigUint::from_u64(100);
    let high = BigUint::from_u64(200);
    let s = UniformBigUint::new(&low, &high).unwrap();
    for _ in 0..100 {
        let n = s.sample(&mut rng);
        assert!(low.le(&n));
        assert!(n.lt(&high));
    }
    let one = UniformBigUint::sample_single(&low, &high, &mut rng).unwrap();
    assert!(low.le(&one));
    assert!(one.lt(&high));
}

#[test]
fn signed_sampler_draws_stay_in_range() {
    let mut rng = ThreadEntropy::new();
    let low = BigInt::from_i64(-50);
    let high = BigInt::from_i64(-10);
    let s = UniformBigInt::new(&low, &high).unwrap();
    for _ in 0..100 {
        let n = s.sample(&mut rng);
        assert!(low.le(&n));
        assert!(n.lt(&high));
    }
    let one = UniformBigInt::sample_single(&low, &high, &mut rng).unwrap();
    assert!(low.le(&one));
    assert!(one.lt(&high));
}

#[test]
fn random_bits_distribution_caps_magnitude() {
    let mut rng = ThreadEntropy::new();
    let dist = RandomBits::new(10);
    let cap = BigUint::from_u64(1024);
    for _ in 0..100 {
        let n = dist.sample_biguint(&mut rng);
        assert!(n.lt(&cap));
    }
    let lo = BigInt::from_i64(-1024);
    let hi = BigInt::from_i64(1024);
    for _ in 0..100 {
        let n = dist.sample_bigint(&mut rng);
        assert!(lo.lt(&n));
        assert!(n.lt(&hi));
    }
}
