use bigrand::biguint::BigUint;
use bigrand::bigint::BigInt;

fn int_eq(a: &BigInt, b: &BigInt) -> bool {
    a.le(b) && b.le(a)
}

#[test]
fn addition_carries_across_words() {
    let a = BigUint::from_words(vec![u64::MAX]);
    let b = BigUint::from_u64(1);
    let sum = a.add(&b);
    let expected = BigUint::from_words(vec![0, 1]);
    assert!(sum.equals(&expected));
}

#[test]
fn subtraction_borrows_across_words() {
    let a = BigUint::from_words(vec![0, 1]);
    let b = BigUint::from_u64(1);
    let diff = a.sub(&b);
    let expected = BigUint::from_words(vec![u64::MAX]);
    assert!(diff.equals(&expected));
}

#[test]
fn trailing_zero_words_are_dropped() {
    let a = BigUint::from_words(vec![7, 0, 0]);
    let b = BigUint::from_u64(7);
    assert!(a.equals(&b));
    let z = BigUint::from_words(vec![0, 0]);
    assert!(z.is_zero());
}

#[test]
fn bit_length_matches_value() {
    assert_eq!(BigUint::from_u64(0).bits(), 0);
    assert_eq!(BigUint::from_u64(1).bits(), 1);
    assert_eq!(BigUint::from_u64(5).bits(), 3);
    assert_eq!(BigUint::from_u64(255).bits(), 8);
    assert_eq!(BigUint::from_u64(256).bits(), 9);
    assert_eq!(BigUint::from_words(vec![0, 1]).bits(), 65);
}

#[test]
fn comparison_orders_by_value() {
    let small = BigUint::from_u64(41);
    let big = BigUint::from_words(vec![3, 9]);
    assert!(small.lt(&big));
    assert!(!big.lt(&small));
    assert!(small.le(&small));
    assert!(!small.lt(&small));
}

#[test]
fn signed_addition_combines_signs() {
    let a = BigInt::from_i64(-7);
    let b = BigInt::from_i64(3);
    assert!(int_eq(&a.add(&b), &BigInt::from_i64(-4)));
    assert!(int_eq(&b.add(&a), &BigInt::from_i64(-4)));
    let c = BigInt::from_i64(-5);
    assert!(int_eq(&a.add(&c), &BigInt::from_i64(-12)));
    assert!(int_eq(&a.add(&BigInt::from_i64(7)), &BigInt::from_i64(0)));
}

#[test]
fn signed_subtraction_and_negation() {
    let a = BigInt::from_i64(10);
    let b = BigInt::from_i64(-4);
    assert!(int_eq(&a.sub(&b), &BigInt::from_i64(14)));
    assert!(int_eq(&b.sub(&a), &BigInt::from_i64(-14)));
    assert!(int_eq(&a.neg(), &BigInt::from_i64(-10)));
    assert!(int_eq(&BigInt::from_i64(0).neg(), &BigInt::from_i64(0)));
}

#[test]
fn signed_comparison_orders_by_value() {
    let m = BigInt::from_i64(-100);
    let z = BigInt::from_i64(0);
    let p = BigInt::from_i64(100);
    assert!(m.lt(&z));
    assert!(z.lt(&p));
    assert!(m.lt(&p));
    assert!(!p.lt(&m));
    assert!(BigInt::from_i64(-200).lt(&m));
}

#[test]
fn parts_round_trip() {
    let v = BigInt::from_i64(-42);
    let mag = v.magnitude().duplicate();
    assert!(mag.equals(&BigUint::from_u64(42)));
    let (sign, m) = v.into_parts();
    let back = BigInt::from_biguint(sign, m);
    assert!(int_eq(&back, &BigInt::from_i64(-42)));
}
