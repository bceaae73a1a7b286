//! The exact one-tailed hypergeometric test.
//!
//! The tail mass of a table is a sum of products of binomial coefficients,
//! and its normalizing denominator is one more binomial coefficient. The
//! verdict compares the two against a fixed-point threshold by
//! cross-multiplication: `tail / denominator < value / scale` is decided as
//! `tail * scale < value * denominator`, so nothing is ever divided.

use crate::bignat::BigNat;
use crate::combinatorics::{
    binomial, binomial_next, binomial_previous, lemma_binomial_edges, spec_binomial,
};
use crate::error::TrialError;
use crate::table::ContingencyTable;
use vstd::prelude::*;

verus! {

/// A significance threshold in fixed point: the probability
/// `threshold_value / scale`. The label names the statistical method for
/// reports and has no influence on any computation.
#[derive(Debug, PartialEq, Eq)]
pub struct ThresholdConfig {
    pub threshold_value: u128,
    pub scale: u128,
    pub method_label: String,
}

/// The outcome of a test: the verdict, and the tail mass as an exact
/// fraction so that the verdict can be checked without recomputing it.
#[derive(Debug)]
pub struct TestResult {
    pub significant: bool,
    pub tail_numerator: BigNat,
    pub tail_denominator: BigNat,
}

/// What a [`TestResult`] says, as plain mathematics.
pub struct Verdict {
    pub significant: bool,
    pub tail_numerator: nat,
    pub tail_denominator: nat,
}

impl View for TestResult {
    type V = Verdict;

    open spec fn view(&self) -> Verdict {
        Verdict {
            significant: self.significant,
            tail_numerator: self.tail_numerator@,
            tail_denominator: self.tail_denominator@,
        }
    }
}

impl Clone for ThresholdConfig {
    fn clone(&self) -> (r: Self)
        ensures
            r == *self,
    {
        ThresholdConfig {
            threshold_value: self.threshold_value,
            scale: self.scale,
            method_label: self.method_label.clone(),
        }
    }
}

impl Clone for TestResult {
    fn clone(&self) -> (r: Self)
        ensures
            r@ == self@,
    {
        TestResult {
            significant: self.significant,
            tail_numerator: self.tail_numerator.clone(),
            tail_denominator: self.tail_denominator.clone(),
        }
    }
}

impl ThresholdConfig {
    /// A threshold denotes a probability only if its scale is positive.
    /// [`evaluate`] does not depend on this: it compares by
    /// cross-multiplication, which is defined for every scale.
    pub open spec fn well_formed(&self) -> bool {
        self.scale > 0
    }

    /// Whether the scale is positive.
    pub fn is_well_formed(&self) -> (r: bool)
        ensures
            r == self.well_formed(),
    {
        self.scale > 0
    }

    /// The threshold `threshold_value / scale` for the method named by
    /// `method_label`.
    pub fn new(threshold_value: u128, scale: u128, method_label: String) -> (r: ThresholdConfig)
        ensures
            r.threshold_value == threshold_value,
            r.scale == scale,
            r.method_label == method_label,
    {
        ThresholdConfig { threshold_value, scale, method_label }
    }
}

/// The last index of the tail sum: the smaller of the two totals.
pub open spec fn tail_upper(cured: nat, treatment: nat) -> nat {
    if treatment <= cured {
        treatment
    } else {
        cured
    }
}

/// One term of the tail sum: the number of ways to pick `i` of the `cured`
/// and `treatment - i` of the others.
pub open spec fn tail_term(population: nat, cured: nat, treatment: nat, i: nat) -> nat {
    spec_binomial(cured, i) * spec_binomial(
        (population - cured) as nat,
        (treatment - i) as nat,
    )
}

/// The unnormalized tail mass: the sum of `tail_term` for `i` from `from`
/// up to `tail_upper(cured, treatment)` inclusive.
pub open spec fn tail_sum(population: nat, cured: nat, treatment: nat, from: nat) -> nat
    decreases tail_upper(cured, treatment) + 1 - from,
{
    if from > tail_upper(cured, treatment) {
        0
    } else {
        tail_term(population, cured, treatment, from) + tail_sum(
            population,
            cured,
            treatment,
            from + 1,
        )
    }
}

/// The number of terms of the tail sum that starts at `observed`.
pub open spec fn spec_tail_terms(cured: nat, treatment: nat, observed: nat) -> nat {
    if observed > tail_upper(cured, treatment) {
        0
    } else {
        (tail_upper(cured, treatment) + 1 - observed) as nat
    }
}

/// Whether every binomial coefficient of the tail sum is asked for inside
/// its domain: both totals fit in the population, and if there is a first
/// term at all, its second coefficient has `k <= n`. (Later terms ask for
/// less, and the first coefficient of a term always has `k <= n`.)
pub open spec fn tail_domain_ok(
    population: nat,
    cured: nat,
    treatment: nat,
    observed: nat,
) -> bool {
    &&& cured <= population
    &&& treatment <= population
    &&& observed <= tail_upper(cured, treatment) ==> treatment - observed <= population - cured
}

/// For the totals of a table, `tail_domain_ok` comes down to two
/// comparisons of counts: the tail sum of a table has a term outside the
/// domain exactly when the treated negatives are at most the successes and
/// the treated positives exceed the treated negatives plus the placebo
/// positives.
pub proof fn lemma_table_domain(table: ContingencyTable)
    ensures
        tail_domain_ok(
            table.spec_population(),
            table.spec_success_total(),
            table.spec_treatment_total(),
            table.spec_observed(),
        ) <==> !(table.treatment_negative <= table.treatment_positive + table.placebo_negative
            && table.treatment_positive > table.treatment_negative + table.placebo_positive),
{
}

/// The cross-multiplied comparison `tail / denominator < value / scale`.
pub open spec fn spec_significant(
    tail: nat,
    denominator: nat,
    threshold_value: nat,
    scale: nat,
) -> bool {
    tail * scale < threshold_value * denominator
}

/// What [`evaluate`] returns, as a function of the table and of the two
/// numbers of the threshold.
pub open spec fn spec_evaluate(table: ContingencyTable, threshold: ThresholdConfig) -> Result<
    Verdict,
    TrialError,
> {
    let population = table.spec_population();
    let cured = table.spec_success_total();
    let treatment = table.spec_treatment_total();
    let observed = table.spec_observed();
    if population > u64::MAX {
        Err(TrialError::ArithmeticOverflow)
    } else if !tail_domain_ok(population, cured, treatment, observed) {
        Err(TrialError::InvalidDomain)
    } else {
        let tail = tail_sum(population, cured, treatment, observed);
        let denominator = spec_binomial(population, treatment);
        Ok(
            Verdict {
                significant: spec_significant(
                    tail,
                    denominator,
                    threshold.threshold_value as nat,
                    threshold.scale as nat,
                ),
                tail_numerator: tail,
                tail_denominator: denominator,
            },
        )
    }
}

/// Whether `r` is what [`evaluate`] owes for `table` and `threshold`: the
/// error of `spec_evaluate`, or a result that says what its verdict says.
pub open spec fn evaluates_to(
    table: ContingencyTable,
    threshold: ThresholdConfig,
    r: Result<TestResult, TrialError>,
) -> bool {
    match r {
        Ok(result) => spec_evaluate(table, threshold) == Ok::<Verdict, TrialError>(result@),
        Err(e) => spec_evaluate(table, threshold) == Err::<Verdict, TrialError>(e),
    }
}

/// How many terms the tail sum of these totals has, each costing two
/// binomial coefficients: a measure of the work that
/// [`hypergeom_cdf`] will do.
pub fn tail_terms(cured: u64, treatment: u64, observed: u64) -> (r: u128)
    ensures
        r == spec_tail_terms(cured as nat, treatment as nat, observed as nat),
{
    let upper: u64 = if treatment <= cured {
        treatment
    } else {
        cured
    };
    if observed > upper {
        0
    } else {
        (upper - observed) as u128 + 1
    }
}

/// The unnormalized hypergeometric tail mass, exactly.
///
/// Fails with `InvalidDomain` exactly when `tail_domain_ok` does not hold:
/// a total exceeds the population, or a term asks for a binomial
/// coefficient with `k > n`.
///
/// The two coefficients of the first term are computed in full; those of
/// each later term come from their predecessors by one multiplication and
/// one exact division each.
pub fn hypergeom_cdf(population: u64, cured: u64, treatment: u64, observed: u64) -> (r: Result<
    BigNat,
    TrialError,
>)
    ensures
        tail_domain_ok(population as nat, cured as nat, treatment as nat, observed as nat)
            ==> r.is_ok() && r.unwrap()@ == tail_sum(
            population as nat,
            cured as nat,
            treatment as nat,
            observed as nat,
        ),
        !tail_domain_ok(population as nat, cured as nat, treatment as nat, observed as nat) ==> r
            == Err::<BigNat, TrialError>(TrialError::InvalidDomain),
{
    if cured > population || treatment > population {
        return Err(TrialError::InvalidDomain);
    }
    let upper: u64 = if treatment <= cured {
        treatment
    } else {
        cured
    };
    if observed > upper {
        return Ok(BigNat::zero());
    }
    if treatment - observed > population - cured {
        return Err(TrialError::InvalidDomain);
    }
    let others: u64 = population - cured;
    let ghost total = tail_sum(
        population as nat,
        cured as nat,
        treatment as nat,
        observed as nat,
    );
    let mut first: BigNat = match binomial(cured, observed) {
        Ok(v) => v,
        Err(e) => {
            return Err(e);
        },
    };
    let mut second: BigNat = match binomial(others, treatment - observed) {
        Ok(v) => v,
        Err(e) => {
            return Err(e);
        },
    };
    let mut acc: BigNat = BigNat::zero();
    let mut i: u64 = observed;
    let mut done: bool = false;
    while !done
        invariant
            cured <= population,
            treatment <= population,
            others == population - cured,
            upper == tail_upper(cured as nat, treatment as nat),
            treatment - observed <= others,
            observed <= i <= upper,
            total == tail_sum(population as nat, cured as nat, treatment as nat, observed as nat),
            !done ==> first@ == spec_binomial(cured as nat, i as nat),
            !done ==> second@ == spec_binomial(others as nat, (treatment - i) as nat),
            !done ==> acc@ + tail_sum(
                population as nat,
                cured as nat,
                treatment as nat,
                i as nat,
            ) == total,
            done ==> acc@ == total,
        decreases (upper - i) + (if done { 0int } else { 1int }),
    {
        let term: BigNat = first.mul(&second);
        assert(term@ == tail_term(population as nat, cured as nat, treatment as nat, i as nat));
        acc = acc.add(&term);
        if i == upper {
            done = true;
            assert(tail_sum(
                population as nat,
                cured as nat,
                treatment as nat,
                (i + 1) as nat,
            ) == 0);
        } else {
            first = binomial_next(&first, cured, i);
            second = binomial_previous(&second, others, treatment - i);
            i += 1;
        }
    }
    Ok(acc)
}

/// Decides whether the difference between the arms of `table` is
/// significant at `threshold`.
///
/// The result is the tail mass `tail_sum(population, successes,
/// treatment_total, observed)` over the denominator `C(population,
/// treatment_total)`, and the verdict `tail * scale < threshold_value *
/// denominator`. It fails with `ArithmeticOverflow` exactly when the
/// counts add up to more than `u64::MAX`, and otherwise with
/// `InvalidDomain` exactly when a term of the tail sum falls outside the
/// domain of the binomial coefficient.
pub fn evaluate(table: &ContingencyTable, threshold: &ThresholdConfig) -> (r: Result<
    TestResult,
    TrialError,
>)
    ensures
        evaluates_to(*table, *threshold, r),
{
    let population_wide: u128 = table.population();
    if population_wide > u64::MAX as u128 {
        return Err(TrialError::ArithmeticOverflow);
    }
    let population: u64 = population_wide as u64;
    let cured: u64 = table.success_total() as u64;
    let treatment: u64 = table.treatment_total() as u64;
    let observed: u64 = table.observed();
    let tail: BigNat = match hypergeom_cdf(population, cured, treatment, observed) {
        Ok(v) => v,
        Err(e) => {
            return Err(e);
        },
    };
    let denominator: BigNat = match binomial(population, treatment) {
        Ok(v) => v,
        Err(e) => {
            return Err(e);
        },
    };
    let scaled_tail: BigNat = tail.mul(&BigNat::from_u128(threshold.scale));
    let scaled_threshold: BigNat = BigNat::from_u128(threshold.threshold_value).mul(&denominator);
    let significant: bool = scaled_tail.lt(&scaled_threshold);
    Ok(TestResult { significant, tail_numerator: tail, tail_denominator: denominator })
}

impl TestResult {
    /// Whether the verdict is the one that the reported fraction gives at
    /// `threshold`: `significant == (tail_numerator * scale <
    /// threshold_value * tail_denominator)`. Every result of [`evaluate`]
    /// passes this check at the threshold it was evaluated at.
    pub fn is_consistent(&self, threshold: &ThresholdConfig) -> (r: bool)
        ensures
            r == (self.significant == spec_significant(
                self.tail_numerator@,
                self.tail_denominator@,
                threshold.threshold_value as nat,
                threshold.scale as nat,
            )),
    {
        let scaled_tail: BigNat = self.tail_numerator.mul(&BigNat::from_u128(threshold.scale));
        let scaled_threshold: BigNat = BigNat::from_u128(threshold.threshold_value).mul(
            &self.tail_denominator,
        );
        self.significant == scaled_tail.lt(&scaled_threshold)
    }
}

/// Evaluation is a function of its inputs: any two results that
/// [`evaluate`] may return for one table and one threshold are the same
/// error, or say the same thing.
pub proof fn lemma_evaluate_deterministic(
    table: ContingencyTable,
    threshold: ThresholdConfig,
    first: Result<TestResult, TrialError>,
    second: Result<TestResult, TrialError>,
)
    requires
        evaluates_to(table, threshold, first),
        evaluates_to(table, threshold, second),
    ensures
        first.is_ok() == second.is_ok(),
        first.is_ok() ==> first.unwrap()@ == second.unwrap()@,
        first.is_err() ==> first.unwrap_err() == second.unwrap_err(),
{
}

/// The method label is carried for reports only: thresholds that agree on
/// value and scale give the same outcome for every table.
pub proof fn lemma_evaluate_ignores_label(
    table: ContingencyTable,
    a: ThresholdConfig,
    b: ThresholdConfig,
)
    requires
        a.threshold_value == b.threshold_value,
        a.scale == b.scale,
    ensures
        spec_evaluate(table, a) == spec_evaluate(table, b),
{
}

/// Raising the threshold value at a fixed scale never changes which
/// tables can be evaluated, never changes the reported fraction, and never
/// turns a significant verdict into a non-significant one.
pub proof fn lemma_threshold_monotonic(
    table: ContingencyTable,
    low: ThresholdConfig,
    high: ThresholdConfig,
)
    requires
        low.scale == high.scale,
        low.threshold_value <= high.threshold_value,
    ensures
        spec_evaluate(table, low).is_ok() == spec_evaluate(table, high).is_ok(),
        spec_evaluate(table, low).is_err() ==> spec_evaluate(table, low) == spec_evaluate(
            table,
            high,
        ),
        spec_evaluate(table, low).is_ok() ==> {
            let at_low = spec_evaluate(table, low).unwrap();
            let at_high = spec_evaluate(table, high).unwrap();
            &&& at_low.tail_numerator == at_high.tail_numerator
            &&& at_low.tail_denominator == at_high.tail_denominator
            &&& at_low.significant ==> at_high.significant
        },
{
    if spec_evaluate(table, low).is_ok() {
        let verdict = spec_evaluate(table, low).unwrap();
        lemma_significance_monotonic(
            verdict.tail_numerator,
            verdict.tail_denominator,
            low.threshold_value as nat,
            high.threshold_value as nat,
            low.scale as nat,
        );
    }
}

/// The comparison `tail * scale < value * denominator` is monotone in
/// `value`.
pub proof fn lemma_significance_monotonic(
    tail: nat,
    denominator: nat,
    low: nat,
    high: nat,
    scale: nat,
)
    requires
        low <= high,
    ensures
        spec_significant(tail, denominator, low, scale) ==> spec_significant(
            tail,
            denominator,
            high,
            scale,
        ),
{
    assert(low * denominator <= high * denominator) by (nonlinear_arith)
        requires
            low <= high,
    ;
}

/// The table of no records can be evaluated: its tail mass is `1 / 1`, so
/// it is significant only at a threshold above one, that is, at no
/// threshold that is a probability.
pub proof fn lemma_empty_table_verdict(table: ContingencyTable, threshold: ThresholdConfig)
    requires
        table.spec_population() == 0,
    ensures
        spec_evaluate(table, threshold) == Ok::<Verdict, TrialError>(
            Verdict {
                significant: threshold.scale < threshold.threshold_value,
                tail_numerator: 1,
                tail_denominator: 1,
            },
        ),
        threshold.threshold_value <= threshold.scale ==> !spec_evaluate(
            table,
            threshold,
        ).unwrap().significant,
{
    lemma_binomial_edges(0);
    assert(tail_upper(0, 0) == 0);
    assert(tail_sum(0, 0, 0, 1) == 0);
    assert(tail_term(0, 0, 0, 0) == 1) by (nonlinear_arith)
        requires
            tail_term(0, 0, 0, 0) == spec_binomial(0, 0) * spec_binomial(0, 0),
            spec_binomial(0, 0) == 1,
    ;
    assert(tail_sum(0, 0, 0, 0) == tail_term(0, 0, 0, 0) + tail_sum(0, 0, 0, 1));
    assert(tail_domain_ok(0, 0, 0, 0));
    assert(1 * (threshold.scale as nat) == threshold.scale);
    assert((threshold.threshold_value as nat) * 1 == threshold.threshold_value);
}

/// The verdict is not blind to the labels. One subject, negative under
/// placebo, gives the tail mass `1 / 1`; the same subject under treatment
/// gives `0 / 1`. At every threshold that is a positive probability the
/// first table is not significant and the second one is.
pub proof fn lemma_verdict_depends_on_labels(threshold: ThresholdConfig)
    requires
        0 < threshold.threshold_value <= threshold.scale,
    ensures
        ({
            let table = ContingencyTable {
                treatment_positive: 0,
                treatment_negative: 0,
                placebo_positive: 0,
                placebo_negative: 1,
            };
            &&& spec_evaluate(table, threshold) == Ok::<Verdict, TrialError>(
                Verdict { significant: false, tail_numerator: 1, tail_denominator: 1 },
            )
            &&& spec_evaluate(table.spec_swap_arms(), threshold) == Ok::<Verdict, TrialError>(
                Verdict { significant: true, tail_numerator: 0, tail_denominator: 1 },
            )
        }),
{
    lemma_binomial_edges(0);
    lemma_binomial_edges(1);
    assert(tail_upper(1, 0) == 0);
    assert(tail_sum(1, 1, 0, 1) == 0);
    assert(tail_term(1, 1, 0, 0) == 1) by (nonlinear_arith)
        requires
            tail_term(1, 1, 0, 0) == spec_binomial(1, 0) * spec_binomial(0, 0),
            spec_binomial(1, 0) == 1,
            spec_binomial(0, 0) == 1,
    ;
    assert(tail_sum(1, 1, 0, 0) == tail_term(1, 1, 0, 0) + tail_sum(1, 1, 0, 1));
    assert(tail_domain_ok(1, 1, 0, 0));
    assert(tail_upper(0, 1) == 0);
    assert(tail_sum(1, 0, 1, 1) == 0);
    assert(tail_domain_ok(1, 0, 1, 1));
    assert(1 * (threshold.scale as nat) == threshold.scale);
    assert((threshold.threshold_value as nat) * 1 == threshold.threshold_value);
    assert(0 * (threshold.scale as nat) == 0);
}

} // verus!
