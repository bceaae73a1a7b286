use clinical_trial_data::bignat::BigNat;
use num_bigint::BigUint;

fn to_reference(x: &BigNat) -> BigUint {
    let limbs: Vec<u64> = x.limbs();
    let mut acc = BigUint::from(0u64);
    for limb in limbs.iter().rev() {
        acc = (acc << 64usize) + BigUint::from(*limb);
    }
    acc
}

fn from_reference(x: &BigUint) -> BigNat {
    BigNat::from_limbs(x.to_u64_digits())
}

fn samples() -> Vec<BigUint> {
    let texts: Vec<&str> = vec![
        "0",
        "1",
        "2",
        "18446744073709551615",
        "18446744073709551616",
        "18446744073709551617",
        "340282366920938463463374607431768211455",
        "340282366920938463463374607431768211456",
        "265252859812191058636308480000000",
        "90548514656103281165404177077484163874504589675413336841320",
        "6277101735386680763835789423207666416102355444464034512895",
    ];
    texts.iter().map(|t| BigUint::parse_bytes(t.as_bytes(), 10).unwrap()).collect()
}

#[test]
fn zero_has_no_limbs() {
    assert_eq!(BigNat::zero().limbs(), Vec::<u64>::new());
    assert!(BigNat::zero().is_zero());
    assert_eq!(BigNat::from_u64(0).limbs(), Vec::<u64>::new());
    assert!(!BigNat::from_u64(1).is_zero());
    assert_eq!(BigNat::zero().to_u128(), Some(0));
}

#[test]
fn from_limbs_drops_leading_zero_limbs() {
    let x = BigNat::from_limbs(vec![7, 0, 0]);
    assert_eq!(x.limbs(), vec![7u64]);
    assert_eq!(x.to_u128(), Some(7));
    let y = BigNat::from_limbs(vec![0, 0]);
    assert!(y.is_zero());
    let z = BigNat::from_limbs(vec![0, 5]);
    assert_eq!(z.limbs(), vec![0u64, 5u64]);
    assert_eq!(z.to_u128(), Some(5u128 << 64));
}

#[test]
fn u128_round_trip() {
    let values: Vec<u128> = vec![
        0,
        1,
        u64::MAX as u128,
        u64::MAX as u128 + 1,
        u128::MAX - 1,
        u128::MAX,
        123456789012345678901234567890,
    ];
    for v in values {
        assert_eq!(BigNat::from_u128(v).to_u128(), Some(v));
    }
    assert_eq!(BigNat::from_u128(u128::MAX).limbs(), vec![u64::MAX, u64::MAX]);
    assert_eq!(BigNat::from_u64(u64::MAX).to_u128(), Some(u64::MAX as u128));
}

#[test]
fn to_u128_refuses_what_does_not_fit() {
    let just_over = BigNat::from_u128(u128::MAX).add(&BigNat::from_u64(1));
    assert_eq!(just_over.limbs(), vec![0u64, 0u64, 1u64]);
    assert_eq!(just_over.to_u128(), None);
}

#[test]
fn addition_matches_reference() {
    let all = samples();
    for a in all.iter() {
        for b in all.iter() {
            let sum = from_reference(a).add(&from_reference(b));
            assert_eq!(to_reference(&sum), a + b);
        }
    }
}

#[test]
fn addition_carries_across_limbs() {
    let a = BigNat::from_limbs(vec![u64::MAX, u64::MAX, u64::MAX]);
    let sum = a.add(&BigNat::from_u64(1));
    assert_eq!(sum.limbs(), vec![0u64, 0u64, 0u64, 1u64]);
}

#[test]
fn multiplication_matches_reference() {
    let all = samples();
    for a in all.iter() {
        for b in all.iter() {
            let product = from_reference(a).mul(&from_reference(b));
            assert_eq!(to_reference(&product), a * b);
        }
    }
}

#[test]
fn multiplication_by_a_word_matches_reference() {
    let words: Vec<u64> = vec![0, 1, 2, 10, 4294967296, u64::MAX];
    for a in samples().iter() {
        for m in words.iter() {
            let product = from_reference(a).mul_small(*m);
            assert_eq!(to_reference(&product), a * BigUint::from(*m));
        }
    }
}

#[test]
fn shift_limb_multiplies_by_the_radix() {
    for a in samples().iter() {
        let shifted = from_reference(a).shift_limb();
        assert_eq!(to_reference(&shifted), a << 64usize);
    }
    assert!(BigNat::zero().shift_limb().is_zero());
}

#[test]
fn division_by_a_word_matches_reference() {
    let words: Vec<u64> = vec![1, 2, 3, 10, 4294967296, u64::MAX - 1, u64::MAX];
    for a in samples().iter() {
        for d in words.iter() {
            let (q, r) = from_reference(a).div_rem_small(*d);
            assert_eq!(to_reference(&q), a / BigUint::from(*d));
            assert_eq!(BigUint::from(r), a % BigUint::from(*d));
        }
    }
}

#[test]
fn division_exact_values() {
    let (q, r) = BigNat::from_u128(1u128 << 64).div_rem_small(3);
    assert_eq!(q.to_u128(), Some(6148914691236517205));
    assert_eq!(r, 1);
    let (q0, r0) = BigNat::zero().div_rem_small(7);
    assert!(q0.is_zero());
    assert_eq!(r0, 0);
}

#[test]
fn order_matches_reference() {
    let all = samples();
    for a in all.iter() {
        for b in all.iter() {
            let x = from_reference(a);
            let y = from_reference(b);
            assert_eq!(x.lt(&y), a < b);
            assert_eq!(x.le(&y), a <= b);
            assert_eq!(x.equals(&y), a == b);
        }
    }
}

#[test]
fn order_is_decided_by_the_highest_differing_limb() {
    let low = BigNat::from_limbs(vec![u64::MAX, 1, 5]);
    let high = BigNat::from_limbs(vec![0, 2, 5]);
    assert!(low.lt(&high));
    assert!(!high.lt(&low));
    assert!(!low.equals(&high));
    let longer = BigNat::from_limbs(vec![0, 0, 0, 1]);
    assert!(high.lt(&longer));
}

#[test]
fn clone_keeps_the_number() {
    for a in samples().iter() {
        let x = from_reference(a);
        let y = x.clone();
        assert!(x.equals(&y));
        assert_eq!(x.limbs(), y.limbs());
    }
}
