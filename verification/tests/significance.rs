use clinical_trial_data::bignat::BigNat;
use clinical_trial_data::error::TrialError;
use clinical_trial_data::table::ContingencyTable;
use clinical_trial_data::tester::{
    evaluate, hypergeom_cdf, tail_terms, TestResult, ThresholdConfig,
};
use num_bigint::BigUint;

fn table(tp: u64, tn: u64, pp: u64, pn: u64) -> ContingencyTable {
    ContingencyTable {
        treatment_positive: tp,
        treatment_negative: tn,
        placebo_positive: pp,
        placebo_negative: pn,
    }
}

fn threshold(value: u128, scale: u128) -> ThresholdConfig {
    ThresholdConfig::new(value, scale, String::from("fishers_exact_test"))
}

fn decimal(x: &BigNat) -> String {
    let limbs: Vec<u64> = x.limbs();
    let mut acc = BigUint::from(0u64);
    for limb in limbs.iter().rev() {
        acc = (acc << 64usize) + BigUint::from(*limb);
    }
    acc.to_str_radix(10)
}

fn fraction(result: &TestResult) -> (Option<u128>, Option<u128>) {
    (result.tail_numerator.to_u128(), result.tail_denominator.to_u128())
}

#[test]
fn worked_scenario_is_significant() {
    let t = table(3, 12, 0, 10);
    assert_eq!(t.population(), 25);
    assert_eq!(t.treatment_total(), 15);
    assert_eq!(t.success_total(), 13);
    assert_eq!(t.observed(), 12);
    let result = evaluate(&t, &threshold(5, 100)).unwrap();
    assert!(result.significant);
    assert_eq!(fraction(&result), (Some(2926), Some(3268760)));
}

#[test]
fn large_skewed_scenario_computes() {
    let t = table(3, 385, 28, 358);
    let result = evaluate(&t, &threshold(5, 100)).unwrap();
    assert!(result.tail_numerator.is_zero());
    assert_eq!(result.tail_denominator.to_u128(), None);
    assert_eq!(
        decimal(&result.tail_denominator),
        "2841352975099888722333781975429951606124906891016497391261029869383309197089293409883887931501471540609776953294152271992432103227328687572719284708141892323995730016644474397289685092543042758238372063871916821203146723944125497380"
    );
    assert_eq!(result.tail_denominator.limbs().len(), 13);
    assert!(result.significant);
    assert!(!evaluate(&t, &threshold(0, 100)).unwrap().significant);
}

#[test]
fn large_table_with_a_long_tail() {
    let t = table(150, 100, 120, 130);
    let result = evaluate(&t, &threshold(5, 100)).unwrap();
    assert_eq!(tail_terms(280, 250, 100), 151);
    assert!(result.is_consistent(&threshold(5, 100)));
    assert_eq!(result.tail_denominator.to_u128(), None);
    assert!(result.tail_numerator.le(&result.tail_denominator));
}

fn reference_binomial(n: u64, k: u64) -> BigUint {
    let mut acc = BigUint::from(1u64);
    let mut j: u64 = 1;
    while j <= k {
        acc = acc * BigUint::from(n - k + j) / BigUint::from(j);
        j += 1;
    }
    acc
}

fn reference_tail(population: u64, cured: u64, treatment: u64, observed: u64) -> BigUint {
    let upper: u64 = if treatment <= cured { treatment } else { cured };
    let mut acc = BigUint::from(0u64);
    let mut i: u64 = observed;
    while i <= upper {
        acc = acc
            + reference_binomial(cured, i) * reference_binomial(population - cured, treatment - i);
        i += 1;
    }
    acc
}

#[test]
fn tail_sum_matches_term_by_term_reference() {
    let cases: Vec<(u64, u64, u64, u64)> = vec![
        (25, 13, 15, 12),
        (25, 13, 15, 3),
        (60, 30, 30, 0),
        (60, 20, 45, 10),
        (500, 280, 250, 100),
        (774, 361, 388, 27),
        (5000, 2800, 2500, 1000),
    ];
    for (population, cured, treatment, observed) in cases {
        let tail = hypergeom_cdf(population, cured, treatment, observed).unwrap();
        assert_eq!(
            decimal(&tail),
            reference_tail(population, cured, treatment, observed).to_str_radix(10)
        );
    }
}

#[test]
fn whole_tail_is_the_denominator() {
    let cases: Vec<(u64, u64, u64)> = vec![(10, 4, 5), (25, 13, 12), (60, 30, 30), (300, 100, 120)];
    for (population, cured, treatment) in cases {
        let tail = hypergeom_cdf(population, cured, treatment, 0).unwrap();
        assert_eq!(decimal(&tail), reference_binomial(population, treatment).to_str_radix(10));
    }
}

#[test]
fn trial_of_thousands_is_evaluated() {
    let t = table(1500, 1000, 1200, 1300);
    assert_eq!(tail_terms(2800, 2500, 1000), 1501);
    let result = evaluate(&t, &threshold(5, 100)).unwrap();
    assert_eq!(
        decimal(&result.tail_numerator),
        reference_tail(5000, 2800, 2500, 1000).to_str_radix(10)
    );
    assert_eq!(
        decimal(&result.tail_denominator),
        reference_binomial(5000, 2500).to_str_radix(10)
    );
    assert!(result.is_consistent(&threshold(5, 100)));
    assert!(!result.significant);
}

#[test]
fn empty_table_is_not_significant() {
    let t = table(0, 0, 0, 0);
    assert_eq!(t.population(), 0);
    let result = evaluate(&t, &threshold(5, 100)).unwrap();
    assert!(!result.significant);
    assert_eq!(fraction(&result), (Some(1), Some(1)));
    let values: Vec<u128> = vec![0, 1, 50, 99, 100];
    for v in values {
        assert!(!evaluate(&t, &threshold(v, 100)).unwrap().significant);
    }
    assert!(evaluate(&t, &threshold(101, 100)).unwrap().significant);
}

#[test]
fn swapping_the_arms_changes_the_outcome() {
    let given = table(1, 3, 3, 2);
    let swapped = given.swap_arms();
    assert_eq!(swapped, table(3, 2, 1, 3));
    assert_eq!(swapped.swap_arms(), given);
    assert_eq!(swapped.population(), given.population());
    assert_eq!((given.treatment_total(), swapped.treatment_total()), (4, 5));
    assert_eq!((given.success_total(), swapped.success_total()), (3, 6));
    let a = evaluate(&given, &threshold(5, 100)).unwrap();
    let b = evaluate(&swapped, &threshold(5, 100)).unwrap();
    assert_eq!(fraction(&a), (Some(6), Some(126)));
    assert_eq!(fraction(&b), (Some(126), Some(126)));
    assert!(a.significant);
    assert!(!b.significant);
    let c = evaluate(&table(0, 10, 3, 12), &threshold(5, 100)).unwrap();
    assert_eq!(fraction(&c), (Some(66), Some(3268760)));
}

#[test]
fn one_subject_is_judged_by_its_arm() {
    let under_placebo = table(0, 0, 0, 1);
    let under_treatment = under_placebo.swap_arms();
    assert_eq!(under_treatment, table(0, 1, 0, 0));
    let values: Vec<u128> = vec![1, 5, 99, 100];
    for v in values {
        let a = evaluate(&under_placebo, &threshold(v, 100)).unwrap();
        let b = evaluate(&under_treatment, &threshold(v, 100)).unwrap();
        assert_eq!(fraction(&a), (Some(1), Some(1)));
        assert_eq!(fraction(&b), (Some(0), Some(1)));
        assert!(!a.significant);
        assert!(b.significant);
    }
}

#[test]
fn threshold_scale_is_expected_positive() {
    assert!(threshold(5, 100).is_well_formed());
    assert!(threshold(0, 1).is_well_formed());
    assert!(!threshold(5, 0).is_well_formed());
    let copy = threshold(5, 100).clone();
    assert_eq!(copy, threshold(5, 100));
    assert_eq!(copy.method_label, "fishers_exact_test");
}

#[test]
fn raising_the_threshold_keeps_significance() {
    let tables: Vec<ContingencyTable> = vec![
        table(2, 5, 4, 3),
        table(1, 1, 1, 1),
        table(3, 12, 0, 10),
        table(1, 4, 3, 4),
        table(0, 0, 0, 0),
    ];
    for t in tables.iter() {
        let mut seen: bool = false;
        let mut value: u128 = 0;
        while value <= 120 {
            let result = evaluate(t, &threshold(value, 100)).unwrap();
            if seen {
                assert!(result.significant);
            }
            seen = result.significant;
            value += 1;
        }
    }
    let t = table(2, 5, 4, 3);
    assert!(!evaluate(&t, &threshold(1, 100)).unwrap().significant);
    assert!(evaluate(&t, &threshold(5, 100)).unwrap().significant);
    assert_eq!(fraction(&evaluate(&t, &threshold(1, 100)).unwrap()), (Some(36), Some(3432)));
}

#[test]
fn verdict_is_the_cross_multiplied_comparison() {
    let t = table(1, 1, 1, 1);
    let at_83 = evaluate(&t, &threshold(83, 100)).unwrap();
    let at_84 = evaluate(&t, &threshold(84, 100)).unwrap();
    assert_eq!(fraction(&at_83), (Some(5), Some(6)));
    assert!(!at_83.significant);
    assert!(at_84.significant);
    let exact = evaluate(&t, &threshold(5, 6)).unwrap();
    assert!(!exact.significant);
    let thirds = evaluate(&t, &threshold(2500001, 3000000)).unwrap();
    assert!(thirds.significant);
}

#[test]
fn verdict_with_huge_threshold_numbers() {
    let t = table(1, 1, 1, 1);
    let result = evaluate(&t, &threshold(u128::MAX, u128::MAX)).unwrap();
    assert!(result.significant);
    let result = evaluate(&t, &threshold(u128::MAX - 1, u128::MAX)).unwrap();
    assert!(result.significant);
    let result = evaluate(&t, &threshold(u128::MAX / 2, u128::MAX)).unwrap();
    assert!(!result.significant);
}

#[test]
fn zero_scale_is_compared_literally() {
    let t = table(1, 1, 1, 1);
    assert!(evaluate(&t, &threshold(1, 0)).unwrap().significant);
    assert!(!evaluate(&t, &threshold(0, 0)).unwrap().significant);
}

#[test]
fn evaluation_is_repeatable_and_ignores_the_label() {
    let t = table(3, 12, 0, 10);
    let first = evaluate(&t, &threshold(5, 100)).unwrap();
    let second = evaluate(&t, &threshold(5, 100)).unwrap();
    let other = evaluate(&t, &ThresholdConfig::new(5, 100, String::from("t_test"))).unwrap();
    for r in vec![second, other] {
        assert_eq!(r.significant, first.significant);
        assert!(r.tail_numerator.equals(&first.tail_numerator));
        assert!(r.tail_denominator.equals(&first.tail_denominator));
        assert_eq!(r.tail_numerator.limbs(), first.tail_numerator.limbs());
    }
}

#[test]
fn result_checks_against_its_own_fraction() {
    let t = table(2, 5, 4, 3);
    let result = evaluate(&t, &threshold(5, 100)).unwrap();
    assert!(result.is_consistent(&threshold(5, 100)));
    assert!(!result.is_consistent(&threshold(1, 100)));
    let forged = TestResult {
        significant: !result.significant,
        tail_numerator: result.tail_numerator.clone(),
        tail_denominator: result.tail_denominator.clone(),
    };
    assert!(!forged.is_consistent(&threshold(5, 100)));
    let copy = result.clone();
    assert_eq!(copy.significant, result.significant);
    assert!(copy.tail_numerator.equals(&result.tail_numerator));
}

#[test]
fn evaluate_reports_a_term_outside_the_domain() {
    let outside: Vec<ContingencyTable> =
        vec![table(10, 2, 3, 9), table(5, 0, 0, 0), table(1, 0, 0, 0)];
    for t in outside.iter() {
        assert!(matches!(evaluate(t, &threshold(5, 100)), Err(TrialError::InvalidDomain)));
    }
    assert!(evaluate(&table(1, 1, 0, 0), &threshold(5, 100)).is_ok());
    assert!(evaluate(&table(1, 0, 1, 0), &threshold(5, 100)).is_ok());
    assert!(matches!(
        evaluate(&table(1, 0, 0, 5), &threshold(5, 100)),
        Err(TrialError::InvalidDomain)
    ));
    assert!(matches!(
        evaluate(&table(5, 1, 0, 0), &threshold(5, 100)),
        Err(TrialError::InvalidDomain)
    ));
    assert!(evaluate(&table(5, 6, 0, 0), &threshold(5, 100)).is_ok());
}

#[test]
fn evaluate_reports_totals_beyond_a_word() {
    let t = table(u64::MAX, 1, 0, 0);
    assert!(matches!(evaluate(&t, &threshold(5, 100)), Err(TrialError::ArithmeticOverflow)));
    let t = table(u64::MAX, u64::MAX, u64::MAX, u64::MAX);
    assert!(matches!(evaluate(&t, &threshold(5, 100)), Err(TrialError::ArithmeticOverflow)));
    let t = table(1, u64::MAX - 1, 0, 0);
    let result = evaluate(&t, &threshold(5, 100)).unwrap();
    assert!(result.tail_numerator.is_zero());
    assert_eq!(result.tail_denominator.to_u128(), Some(1));
}

#[test]
fn tail_sum_exact_values() {
    assert_eq!(hypergeom_cdf(25, 13, 15, 12).unwrap().to_u128(), Some(2926));
    assert_eq!(hypergeom_cdf(25, 13, 15, 13).unwrap().to_u128(), Some(66));
    assert_eq!(hypergeom_cdf(10, 4, 5, 0).unwrap().to_u128(), Some(252));
    assert_eq!(hypergeom_cdf(10, 4, 5, 2).unwrap().to_u128(), Some(186));
    assert_eq!(hypergeom_cdf(10, 4, 5, 4).unwrap().to_u128(), Some(6));
    assert_eq!(hypergeom_cdf(0, 0, 0, 0).unwrap().to_u128(), Some(1));
}

#[test]
fn tail_sum_past_the_upper_end_is_zero() {
    assert!(hypergeom_cdf(10, 4, 5, 5).unwrap().is_zero());
    assert!(hypergeom_cdf(10, 4, 5, u64::MAX).unwrap().is_zero());
    assert!(hypergeom_cdf(774, 361, 388, 385).unwrap().is_zero());
}

#[test]
fn tail_sum_rejects_inconsistent_totals() {
    assert!(matches!(hypergeom_cdf(10, 11, 5, 0), Err(TrialError::InvalidDomain)));
    assert!(matches!(hypergeom_cdf(10, 4, 11, 0), Err(TrialError::InvalidDomain)));
    assert!(matches!(hypergeom_cdf(10, 11, 5, 9), Err(TrialError::InvalidDomain)));
    assert!(matches!(hypergeom_cdf(25, 13, 15, 0), Err(TrialError::InvalidDomain)));
    assert!(matches!(hypergeom_cdf(25, 13, 15, 2), Err(TrialError::InvalidDomain)));
    assert_eq!(hypergeom_cdf(25, 13, 15, 3).unwrap().to_u128(), Some(3268760));
}

#[test]
fn tail_sum_at_the_edge_of_the_word() {
    let all = hypergeom_cdf(u64::MAX, u64::MAX, u64::MAX, u64::MAX).unwrap();
    assert_eq!(all.to_u128(), Some(1));
    let one = hypergeom_cdf(u64::MAX, 0, 0, 0).unwrap();
    assert_eq!(one.to_u128(), Some(1));
}

#[test]
fn tail_terms_counts_the_iterations() {
    assert_eq!(tail_terms(13, 15, 12), 2);
    assert_eq!(tail_terms(13, 15, 13), 1);
    assert_eq!(tail_terms(13, 15, 14), 0);
    assert_eq!(tail_terms(4, 5, 0), 5);
    assert_eq!(tail_terms(0, 0, 0), 1);
    assert_eq!(tail_terms(u64::MAX, u64::MAX, 0), u64::MAX as u128 + 1);
    assert_eq!(tail_terms(361, 388, 385), 0);
}
