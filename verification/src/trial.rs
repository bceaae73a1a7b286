//! A trial in progress: the records uploaded so far, the configured
//! threshold, and the outcome of the last aggregation and test.
//!
//! [`ClinicalTrialData`] is a plain value. It owns nothing but what its
//! fields show, and every method says how it changes them.

use crate::bignat::BigNat;
use crate::combinatorics::{binomial, factorial, spec_binomial, spec_factorial};
use crate::error::TrialError;
use crate::table::{
    aggregate, parse_records, raw_cells, raw_record_valid, ContingencyTable, RawRecord,
};
use crate::tester::{
    evaluate, hypergeom_cdf, spec_evaluate, tail_domain_ok, tail_sum, ThresholdConfig, Verdict,
};
use vstd::prelude::*;

verus! {

/// The scale of every threshold of a [`ClinicalTrialData`]: thresholds are
/// given in hundredths, so that `5` stands for `0.05`.
pub const SCALE: u128 = 100;

/// The state of one trial.
#[derive(Debug)]
pub struct ClinicalTrialData {
    /// Records as uploaded, before any preprocessing.
    pub raw_records: Vec<RawRecord>,
    /// Records ready to be aggregated.
    pub preprocessed_records: Vec<RawRecord>,
    /// The table of the last aggregation; the empty table before the first.
    pub data_summary: ContingencyTable,
    /// The significance threshold, in hundredths.
    pub p_thresh: u128,
    /// The name of the statistical test, for reports.
    pub stat_test: String,
    /// The verdict of the last test; `false` before the first.
    pub result: bool,
    /// The tail mass of the last test as numerator and denominator; empty
    /// before the first.
    pub p_value: Vec<BigNat>,
}

/// A copy of `records`, string by string.
pub fn clone_records(records: &Vec<RawRecord>) -> (r: Vec<RawRecord>)
    ensures
        r@ == records@,
{
    let mut out: Vec<RawRecord> = Vec::new();
    let mut i: usize = 0;
    while i < records.len()
        invariant
            i <= records.len(),
            out@ == records@.take(i as int),
        decreases records.len() - i,
    {
        let item: &RawRecord = &records[i];
        out.push((item.0.clone(), item.1.clone(), item.2.clone()));
        assert(out@ =~= records@.take(i + 1));
        i += 1;
    }
    assert(records@.take(i as int) =~= records@);
    out
}

impl ClinicalTrialData {
    /// The threshold that [`ClinicalTrialData::run_stat_test`] evaluates at.
    pub open spec fn spec_threshold(&self) -> ThresholdConfig {
        ThresholdConfig {
            threshold_value: self.p_thresh,
            scale: SCALE,
            method_label: self.stat_test,
        }
    }

    /// Whether every record waiting to be aggregated is valid.
    pub open spec fn preprocessed_valid(&self) -> bool {
        forall|i: int|
            0 <= i < self.preprocessed_records.len() ==> raw_record_valid(
                #[trigger] self.preprocessed_records[i],
            )
    }

    /// Whether the record stores and the configuration of `self` are those
    /// of `other`.
    pub open spec fn same_inputs(&self, other: &ClinicalTrialData) -> bool {
        &&& self.raw_records@ == other.raw_records@
        &&& self.preprocessed_records@ == other.preprocessed_records@
        &&& self.p_thresh == other.p_thresh
        &&& self.stat_test == other.stat_test
    }

    /// Whether the table and the test outcome of `self` are those of
    /// `other`.
    pub open spec fn same_outputs(&self, other: &ClinicalTrialData) -> bool {
        &&& self.data_summary == other.data_summary
        &&& self.result == other.result
        &&& self.p_value@ == other.p_value@
    }

    /// A trial without records, with the given threshold (in hundredths)
    /// and test name.
    pub fn new(custom_p_thresh: u128, custom_stat_test: String) -> (r: Self)
        ensures
            r.p_thresh == custom_p_thresh,
            r.stat_test == custom_stat_test,
            r.raw_records@.len() == 0,
            r.preprocessed_records@.len() == 0,
            r.data_summary == ContingencyTable::empty_spec(),
            !r.result,
            r.p_value@.len() == 0,
    {
        ClinicalTrialData {
            raw_records: Vec::new(),
            preprocessed_records: Vec::new(),
            data_summary: ContingencyTable::empty(),
            p_thresh: custom_p_thresh,
            stat_test: custom_stat_test,
            result: false,
            p_value: Vec::new(),
        }
    }

    /// A trial without records, with the threshold `0.05` and Fisher's
    /// exact test.
    pub fn default() -> (r: Self)
        ensures
            r.p_thresh == 5,
            r.stat_test@ == "fishers_exact_test"@,
            r.raw_records@.len() == 0,
            r.preprocessed_records@.len() == 0,
            r.data_summary == ContingencyTable::empty_spec(),
            !r.result,
            r.p_value@.len() == 0,
    {
        ClinicalTrialData::new(5, "fishers_exact_test".to_owned())
    }

    /// Sets the threshold, in hundredths. The outcome of the last test
    /// stays as it is until the next one runs.
    pub fn set_p_thresh(&mut self, p: u128)
        ensures
            final(self).p_thresh == p,
            final(self).stat_test == old(self).stat_test,
            final(self).raw_records@ == old(self).raw_records@,
            final(self).preprocessed_records@ == old(self).preprocessed_records@,
            final(self).same_outputs(old(self)),
    {
        self.p_thresh = p;
    }

    /// Sets the name of the statistical test.
    pub fn set_stat_test(&mut self, stat_test: String)
        ensures
            final(self).stat_test == stat_test,
            final(self).p_thresh == old(self).p_thresh,
            final(self).raw_records@ == old(self).raw_records@,
            final(self).preprocessed_records@ == old(self).preprocessed_records@,
            final(self).same_outputs(old(self)),
    {
        self.stat_test = stat_test;
    }

    /// The threshold, in hundredths.
    pub fn get_p_thresh(&self) -> (r: u128)
        ensures
            r == self.p_thresh,
    {
        self.p_thresh
    }

    /// The name of the statistical test.
    pub fn get_stat_test(&self) -> (r: String)
        ensures
            r == self.stat_test,
    {
        self.stat_test.clone()
    }

    /// Appends `records` to the raw records, in order.
    pub fn upload_all_raw(&mut self, records: Vec<RawRecord>)
        ensures
            final(self).raw_records@ == old(self).raw_records@ + records@,
            final(self).preprocessed_records@ == old(self).preprocessed_records@,
            final(self).p_thresh == old(self).p_thresh,
            final(self).stat_test == old(self).stat_test,
            final(self).same_outputs(old(self)),
    {
        let mut incoming: Vec<RawRecord> = records;
        self.raw_records.append(&mut incoming);
    }

    /// Appends one record to the raw records.
    pub fn upload_one_raw(&mut self, patient_id: String, group: String, outcome: String)
        ensures
            final(self).raw_records@ == old(self).raw_records@.push((patient_id, group, outcome)),
            final(self).preprocessed_records@ == old(self).preprocessed_records@,
            final(self).p_thresh == old(self).p_thresh,
            final(self).stat_test == old(self).stat_test,
            final(self).same_outputs(old(self)),
    {
        let record: RawRecord = (patient_id, group, outcome);
        self.raw_records.push(record);
    }

    /// A copy of the raw records.
    pub fn download_raw(&self) -> (r: Vec<RawRecord>)
        ensures
            r@ == self.raw_records@,
    {
        clone_records(&self.raw_records)
    }

    /// A copy of the preprocessed records.
    pub fn download_preprocessed(&self) -> (r: Vec<RawRecord>)
        ensures
            r@ == self.preprocessed_records@,
    {
        clone_records(&self.preprocessed_records)
    }

    /// Forgets the raw records.
    pub fn clear_raw(&mut self)
        ensures
            final(self).raw_records@.len() == 0,
            final(self).preprocessed_records@ == old(self).preprocessed_records@,
            final(self).p_thresh == old(self).p_thresh,
            final(self).stat_test == old(self).stat_test,
            final(self).same_outputs(old(self)),
    {
        self.raw_records.clear();
    }

    /// Forgets the preprocessed records. The table and the outcome of the
    /// last test stay as they are.
    pub fn clear_preprocessed(&mut self)
        ensures
            final(self).preprocessed_records@.len() == 0,
            final(self).raw_records@ == old(self).raw_records@,
            final(self).p_thresh == old(self).p_thresh,
            final(self).stat_test == old(self).stat_test,
            final(self).same_outputs(old(self)),
    {
        self.preprocessed_records.clear();
    }

    /// Appends `records` to the preprocessed records, then aggregates all
    /// of them and runs the test.
    ///
    /// The records are stored whatever happens next. If one of the stored
    /// records is not valid the result is `InvalidRecord` and neither the
    /// table nor the test outcome changes; if the test fails, the table is
    /// the new one and the test outcome does not change.
    pub fn upload_all_preprocessed(&mut self, records: Vec<RawRecord>) -> (r: Result<
        (),
        TrialError,
    >)
        ensures
            final(self).preprocessed_records@ == old(self).preprocessed_records@ + records@,
            final(self).raw_records@ == old(self).raw_records@,
            final(self).p_thresh == old(self).p_thresh,
            final(self).stat_test == old(self).stat_test,
            final(self).ran_after(old(self), r),
    {
        let mut incoming: Vec<RawRecord> = records;
        self.preprocessed_records.append(&mut incoming);
        self.run_on_preprocessed()
    }

    /// Appends one record to the preprocessed records, without aggregating.
    pub fn upload_one_preprocessed(&mut self, patient_id: String, group: String, outcome: String)
        ensures
            final(self).preprocessed_records@ == old(self).preprocessed_records@.push(
                (patient_id, group, outcome),
            ),
            final(self).raw_records@ == old(self).raw_records@,
            final(self).p_thresh == old(self).p_thresh,
            final(self).stat_test == old(self).stat_test,
            final(self).same_outputs(old(self)),
    {
        let record: RawRecord = (patient_id, group, outcome);
        self.preprocessed_records.push(record);
    }

    /// Whether the table and the test outcome of `self` are what
    /// aggregating and testing its own preprocessed records leaves behind
    /// in a trial that held the outputs of `before`, with `r` reporting how
    /// it went.
    ///
    /// If a record is not valid, nothing changes and `r` is
    /// `InvalidRecord`. Otherwise the table is the table of the records;
    /// the test outcome is the verdict on that table, or, where the table
    /// cannot be evaluated, unchanged, with `r` the error of the
    /// evaluation.
    pub open spec fn ran_after(
        &self,
        before: &ClinicalTrialData,
        r: Result<(), TrialError>,
    ) -> bool {
        if !self.preprocessed_valid() {
            r == Err::<(), TrialError>(TrialError::InvalidRecord) && self.same_outputs(before)
        } else {
            &&& self.data_summary.tabulates(raw_cells(self.preprocessed_records@))
            &&& match spec_evaluate(self.data_summary, self.spec_threshold()) {
                Ok(verdict) => r.is_ok() && self.reports(verdict),
                Err(e) => r == Err::<(), TrialError>(e) && self.result == before.result
                    && self.p_value@ == before.p_value@,
            }
        }
    }

    /// Whether the test outcome stored in `self` is `verdict`.
    pub open spec fn reports(&self, verdict: Verdict) -> bool {
        &&& self.result == verdict.significant
        &&& self.p_value@.len() == 2
        &&& self.p_value@[0]@ == verdict.tail_numerator
        &&& self.p_value@[1]@ == verdict.tail_denominator
    }

    /// Aggregates the preprocessed records and runs the test on the new
    /// table. See [`ClinicalTrialData::upload_all_preprocessed`] for what
    /// happens on failure.
    pub fn run_on_preprocessed(&mut self) -> (r: Result<(), TrialError>)
        ensures
            final(self).same_inputs(old(self)),
            final(self).ran_after(old(self), r),
    {
        match self.aggregate_data() {
            Ok(()) => {},
            Err(e) => {
                return Err(e);
            },
        }
        self.run_stat_test()
    }

    /// The verdict of the last test.
    pub fn get_result(&self) -> (r: bool)
        ensures
            r == self.result,
    {
        self.result
    }

    /// The tail mass of the last test: numerator, then denominator. Empty
    /// if no test has run yet.
    pub fn get_p_value(&self) -> (r: Vec<BigNat>)
        ensures
            r@.len() == self.p_value@.len(),
            forall|i: int| 0 <= i < r@.len() ==> (#[trigger] r@[i])@ == self.p_value@[i]@,
    {
        let mut out: Vec<BigNat> = Vec::new();
        let mut i: usize = 0;
        while i < self.p_value.len()
            invariant
                i <= self.p_value.len(),
                out.len() == i,
                forall|j: int| 0 <= j < i ==> (#[trigger] out@[j])@ == self.p_value@[j]@,
            decreases self.p_value.len() - i,
        {
            out.push(self.p_value[i].clone());
            i += 1;
        }
        out
    }

    /// Replaces the table by the table of the preprocessed records.
    ///
    /// Fails with `InvalidRecord`, changing nothing, exactly when one of
    /// the preprocessed records is not valid.
    pub fn aggregate_data(&mut self) -> (r: Result<(), TrialError>)
        ensures
            final(self).same_inputs(old(self)),
            final(self).result == old(self).result,
            final(self).p_value@ == old(self).p_value@,
            old(self).preprocessed_valid() ==> r.is_ok() && final(self).data_summary.tabulates(
                raw_cells(old(self).preprocessed_records@),
            ),
            !old(self).preprocessed_valid() ==> r == Err::<(), TrialError>(
                TrialError::InvalidRecord,
            ) && final(self).data_summary == old(self).data_summary,
    {
        match parse_records(&self.preprocessed_records) {
            Ok(records) => {
                self.data_summary = aggregate(&records);
                Ok(())
            },
            Err(e) => Err(e),
        }
    }

    /// `num!`, exactly.
    pub fn factorial(&self, num: u64) -> (r: BigNat)
        ensures
            r@ == spec_factorial(num as nat),
    {
        factorial(num)
    }

    /// `C(val1, val2)`, exactly, or `InvalidDomain` when `val2 > val1`.
    pub fn binomial(&self, val1: u64, val2: u64) -> (r: Result<BigNat, TrialError>)
        ensures
            val2 <= val1 ==> r.is_ok() && r.unwrap()@ == spec_binomial(val1 as nat, val2 as nat),
            val2 > val1 ==> r == Err::<BigNat, TrialError>(TrialError::InvalidDomain),
    {
        binomial(val1, val2)
    }

    /// The unnormalized hypergeometric tail mass; see
    /// [`crate::tester::hypergeom_cdf`].
    pub fn hypergeom_cdf(&self, population: u64, cured: u64, treatment: u64, observed: u64) -> (r:
        Result<BigNat, TrialError>)
        ensures
            tail_domain_ok(population as nat, cured as nat, treatment as nat, observed as nat)
                ==> r.is_ok() && r.unwrap()@ == tail_sum(
                population as nat,
                cured as nat,
                treatment as nat,
                observed as nat,
            ),
            !tail_domain_ok(population as nat, cured as nat, treatment as nat, observed as nat)
                ==> r == Err::<BigNat, TrialError>(TrialError::InvalidDomain),
    {
        hypergeom_cdf(population, cured, treatment, observed)
    }

    /// Runs the test on the current table at the threshold `p_thresh /
    /// SCALE` and stores its outcome.
    ///
    /// Fails, changing nothing, exactly when the table cannot be
    /// evaluated, with the error of the evaluation.
    pub fn run_stat_test(&mut self) -> (r: Result<(), TrialError>)
        ensures
            final(self).same_inputs(old(self)),
            final(self).data_summary == old(self).data_summary,
            match spec_evaluate(old(self).data_summary, old(self).spec_threshold()) {
                Ok(verdict) => r.is_ok() && final(self).reports(verdict),
                Err(e) => r == Err::<(), TrialError>(e) && final(self).result == old(self).result
                    && final(self).p_value@ == old(self).p_value@,
            },
    {
        let threshold: ThresholdConfig = ThresholdConfig::new(
            self.p_thresh,
            SCALE,
            self.stat_test.clone(),
        );
        match evaluate(&self.data_summary, &threshold) {
            Ok(outcome) => {
                let mut fraction: Vec<BigNat> = Vec::new();
                fraction.push(outcome.tail_numerator);
                fraction.push(outcome.tail_denominator);
                self.result = outcome.significant;
                self.p_value = fraction;
                Ok(())
            },
            Err(e) => Err(e),
        }
    }
}

} // verus!
