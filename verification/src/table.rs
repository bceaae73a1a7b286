//! Outcome records and the 2x2 contingency table they fold into.

use crate::error::TrialError;
use vstd::prelude::*;

verus! {

/// The group a subject was assigned to.
#[derive(Clone, Copy, Debug, PartialEq, Eq, Structural)]
pub enum Arm {
    Treatment,
    Placebo,
}

/// What was observed of a subject.
#[derive(Clone, Copy, Debug, PartialEq, Eq, Structural)]
pub enum Outcome {
    Positive,
    Negative,
}

/// One validated observation: who, in which arm, with which outcome.
///
/// The subject identifier is an opaque token. It is carried along and never
/// compared: two records with the same identifier are counted twice.
#[derive(Debug, PartialEq, Eq)]
pub struct Record {
    pub subject: String,
    pub arm: Arm,
    pub outcome: Outcome,
}

impl Clone for Record {
    fn clone(&self) -> (r: Self)
        ensures
            r == *self,
    {
        Record { subject: self.subject.clone(), arm: self.arm, outcome: self.outcome }
    }
}

/// A record as it arrives: identifier, arm label, outcome label.
pub type RawRecord = (String, String, String);

/// The arm that a label names. Labels are matched exactly, without
/// trimming or case folding.
pub open spec fn arm_of_label(label: Seq<char>) -> Option<Arm> {
    if label == "Treatment"@ {
        Some(Arm::Treatment)
    } else if label == "Placebo"@ {
        Some(Arm::Placebo)
    } else {
        None
    }
}

/// The outcome that a label names. Labels are matched exactly, without
/// trimming or case folding.
pub open spec fn outcome_of_label(label: Seq<char>) -> Option<Outcome> {
    if label == "Yes"@ {
        Some(Outcome::Positive)
    } else if label == "No"@ {
        Some(Outcome::Negative)
    } else {
        None
    }
}

/// A raw record is valid when both of its labels are recognized.
pub open spec fn raw_record_valid(raw: RawRecord) -> bool {
    arm_of_label(raw.1@).is_some() && outcome_of_label(raw.2@).is_some()
}

/// The table cell that a valid raw record falls into.
pub open spec fn raw_cell(raw: RawRecord) -> (Arm, Outcome) {
    (arm_of_label(raw.1@).unwrap(), outcome_of_label(raw.2@).unwrap())
}

/// The cells of a sequence of validated records, in order.
pub open spec fn cells_of(records: Seq<Record>) -> Seq<(Arm, Outcome)> {
    records.map_values(|r: Record| (r.arm, r.outcome))
}

/// The cells of a sequence of raw records, in order.
pub open spec fn raw_cells(raw: Seq<RawRecord>) -> Seq<(Arm, Outcome)> {
    raw.map_values(|r: RawRecord| raw_cell(r))
}

/// How many of `cells` are the cell `(arm, outcome)`.
pub open spec fn cell_count(cells: Seq<(Arm, Outcome)>, arm: Arm, outcome: Outcome) -> nat
    decreases cells.len(),
{
    if cells.len() == 0 {
        0
    } else {
        cell_count(cells.drop_last(), arm, outcome) + if cells.last() == (arm, outcome) {
            1nat
        } else {
            0nat
        }
    }
}

/// Every cell is one of the four, so the four counts add up to the length.
pub proof fn lemma_cell_counts_total(cells: Seq<(Arm, Outcome)>)
    ensures
        cell_count(cells, Arm::Treatment, Outcome::Positive) + cell_count(
            cells,
            Arm::Treatment,
            Outcome::Negative,
        ) + cell_count(cells, Arm::Placebo, Outcome::Positive) + cell_count(
            cells,
            Arm::Placebo,
            Outcome::Negative,
        ) == cells.len(),
    decreases cells.len(),
{
    if cells.len() > 0 {
        lemma_cell_counts_total(cells.drop_last());
        let last = cells.last();
        assert(last == (last.0, last.1));
        assert(last.0 == Arm::Treatment || last.0 == Arm::Placebo);
        assert(last.1 == Outcome::Positive || last.1 == Outcome::Negative);
    }
}

impl Arm {
    /// The arm that `label` names, if it names one.
    pub fn from_label(label: &str) -> (r: Option<Arm>)
        ensures
            r == arm_of_label(label@),
    {
        let given: String = label.to_owned();
        let treatment: String = "Treatment".to_owned();
        let placebo: String = "Placebo".to_owned();
        if given == treatment {
            Some(Arm::Treatment)
        } else if given == placebo {
            Some(Arm::Placebo)
        } else {
            None
        }
    }

    /// The label that names this arm.
    pub fn label(&self) -> (r: &'static str)
        ensures
            arm_of_label(r@) == Some(*self),
    {
        proof {
            lemma_labels_distinct();
        }
        match self {
            Arm::Treatment => "Treatment",
            Arm::Placebo => "Placebo",
        }
    }
}

impl Outcome {
    /// The outcome that `label` names, if it names one.
    pub fn from_label(label: &str) -> (r: Option<Outcome>)
        ensures
            r == outcome_of_label(label@),
    {
        let given: String = label.to_owned();
        let yes: String = "Yes".to_owned();
        let no: String = "No".to_owned();
        if given == yes {
            Some(Outcome::Positive)
        } else if given == no {
            Some(Outcome::Negative)
        } else {
            None
        }
    }

    /// The label that names this outcome.
    pub fn label(&self) -> (r: &'static str)
        ensures
            outcome_of_label(r@) == Some(*self),
    {
        proof {
            lemma_labels_distinct();
        }
        match self {
            Outcome::Positive => "Yes",
            Outcome::Negative => "No",
        }
    }
}

/// The four labels name four different things.
pub proof fn lemma_labels_distinct()
    ensures
        arm_of_label("Treatment"@) == Some(Arm::Treatment),
        arm_of_label("Placebo"@) == Some(Arm::Placebo),
        outcome_of_label("Yes"@) == Some(Outcome::Positive),
        outcome_of_label("No"@) == Some(Outcome::Negative),
{
    reveal_strlit("Treatment");
    reveal_strlit("Placebo");
    reveal_strlit("Yes");
    reveal_strlit("No");
    assert("Treatment"@.len() != "Placebo"@.len());
    assert("Yes"@.len() != "No"@.len());
}

impl Record {
    /// Validates one raw record.
    ///
    /// Fails with `InvalidRecord` exactly when the arm label or the outcome
    /// label is not recognized.
    pub fn parse(subject: &str, arm: &str, outcome: &str) -> (r: Result<Record, TrialError>)
        ensures
            match r {
                Ok(record) => arm_of_label(arm@) == Some(record.arm) && outcome_of_label(outcome@)
                    == Some(record.outcome) && record.subject@ == subject@,
                Err(e) => e == TrialError::InvalidRecord && (arm_of_label(arm@).is_none()
                    || outcome_of_label(outcome@).is_none()),
            },
    {
        match Arm::from_label(arm) {
            None => Err(TrialError::InvalidRecord),
            Some(a) => match Outcome::from_label(outcome) {
                None => Err(TrialError::InvalidRecord),
                Some(o) => Ok(Record { subject: subject.to_owned(), arm: a, outcome: o }),
            },
        }
    }
}

/// Validates a whole batch of raw records, in order.
///
/// Fails with `InvalidRecord` exactly when some record of the batch is not
/// valid; otherwise the result has one record per raw record, with the same
/// identifier and the cell that the labels name.
pub fn parse_records(raw: &Vec<RawRecord>) -> (r: Result<Vec<Record>, TrialError>)
    ensures
        match r {
            Ok(records) => {
                &&& forall|i: int| 0 <= i < raw.len() ==> raw_record_valid(#[trigger] raw[i])
                &&& records.len() == raw.len()
                &&& cells_of(records@) == raw_cells(raw@)
                &&& forall|i: int|
                    0 <= i < raw.len() ==> (#[trigger] records[i]).subject@ == raw[i].0@
            },
            Err(e) => e == TrialError::InvalidRecord && exists|i: int|
                0 <= i < raw.len() && !raw_record_valid(#[trigger] raw[i]),
        },
{
    let mut records: Vec<Record> = Vec::new();
    let mut i: usize = 0;
    while i < raw.len()
        invariant
            i <= raw.len(),
            records.len() == i,
            forall|j: int| 0 <= j < i ==> raw_record_valid(#[trigger] raw[j]),
            forall|j: int|
                0 <= j < i ==> {
                    &&& (#[trigger] records[j]).arm == raw_cell(raw[j]).0
                    &&& records[j].outcome == raw_cell(raw[j]).1
                    &&& records[j].subject@ == raw[j].0@
                },
        decreases raw.len() - i,
    {
        let item: &RawRecord = &raw[i];
        match Record::parse(item.0.as_str(), item.1.as_str(), item.2.as_str()) {
            Ok(record) => {
                records.push(record);
            },
            Err(e) => {
                assert(!raw_record_valid(raw[i as int]));
                return Err(e);
            },
        }
        i += 1;
    }
    assert(cells_of(records@) =~= raw_cells(raw@));
    Ok(records)
}

/// The 2x2 cross-tabulation of arm by outcome.
#[derive(Clone, Copy, Debug, PartialEq, Eq, Structural)]
pub struct ContingencyTable {
    pub treatment_positive: u64,
    pub treatment_negative: u64,
    pub placebo_positive: u64,
    pub placebo_negative: u64,
}

impl ContingencyTable {
    /// The count in one cell, as a natural number.
    pub open spec fn spec_count(&self, arm: Arm, outcome: Outcome) -> nat {
        match (arm, outcome) {
            (Arm::Treatment, Outcome::Positive) => self.treatment_positive as nat,
            (Arm::Treatment, Outcome::Negative) => self.treatment_negative as nat,
            (Arm::Placebo, Outcome::Positive) => self.placebo_positive as nat,
            (Arm::Placebo, Outcome::Negative) => self.placebo_negative as nat,
        }
    }

    /// The number of subjects: the sum of all four cells.
    pub open spec fn spec_population(&self) -> nat {
        (self.treatment_positive + self.treatment_negative + self.placebo_positive
            + self.placebo_negative) as nat
    }

    /// The size of the treatment arm.
    pub open spec fn spec_treatment_total(&self) -> nat {
        (self.treatment_positive + self.treatment_negative) as nat
    }

    /// The number of successes. By convention a success is a positive
    /// outcome under treatment or a negative outcome under placebo.
    pub open spec fn spec_success_total(&self) -> nat {
        (self.treatment_positive + self.placebo_negative) as nat
    }

    /// The observed statistic, where the tail sum starts: the negative
    /// outcomes under treatment.
    pub open spec fn spec_observed(&self) -> nat {
        self.treatment_negative as nat
    }

    /// Whether this is the table of `cells`: each count is the number of
    /// cells of its kind.
    pub open spec fn tabulates(&self, cells: Seq<(Arm, Outcome)>) -> bool {
        &&& self.treatment_positive == cell_count(cells, Arm::Treatment, Outcome::Positive)
        &&& self.treatment_negative == cell_count(cells, Arm::Treatment, Outcome::Negative)
        &&& self.placebo_positive == cell_count(cells, Arm::Placebo, Outcome::Positive)
        &&& self.placebo_negative == cell_count(cells, Arm::Placebo, Outcome::Negative)
    }

    /// The table of no records: all four counts are zero.
    pub open spec fn empty_spec() -> ContingencyTable {
        ContingencyTable {
            treatment_positive: 0,
            treatment_negative: 0,
            placebo_positive: 0,
            placebo_negative: 0,
        }
    }

    /// The table of no records.
    pub fn empty() -> (r: ContingencyTable)
        ensures
            r == ContingencyTable::empty_spec(),
            r.tabulates(Seq::empty()),
    {
        ContingencyTable {
            treatment_positive: 0,
            treatment_negative: 0,
            placebo_positive: 0,
            placebo_negative: 0,
        }
    }

    /// The table with the two arm labels exchanged.
    pub open spec fn spec_swap_arms(&self) -> ContingencyTable {
        ContingencyTable {
            treatment_positive: self.placebo_positive,
            treatment_negative: self.placebo_negative,
            placebo_positive: self.treatment_positive,
            placebo_negative: self.treatment_negative,
        }
    }

    /// The table with the two arm labels exchanged: what was counted under
    /// treatment is counted under placebo, and the other way round.
    pub fn swap_arms(&self) -> (r: ContingencyTable)
        ensures
            r == self.spec_swap_arms(),
    {
        ContingencyTable {
            treatment_positive: self.placebo_positive,
            treatment_negative: self.placebo_negative,
            placebo_positive: self.treatment_positive,
            placebo_negative: self.treatment_negative,
        }
    }

    /// The count in one cell.
    pub fn count(&self, arm: Arm, outcome: Outcome) -> (r: u64)
        ensures
            r == self.spec_count(arm, outcome),
    {
        match (arm, outcome) {
            (Arm::Treatment, Outcome::Positive) => self.treatment_positive,
            (Arm::Treatment, Outcome::Negative) => self.treatment_negative,
            (Arm::Placebo, Outcome::Positive) => self.placebo_positive,
            (Arm::Placebo, Outcome::Negative) => self.placebo_negative,
        }
    }

    /// The number of subjects.
    pub fn population(&self) -> (r: u128)
        ensures
            r == self.spec_population(),
    {
        self.treatment_positive as u128 + self.treatment_negative as u128
            + self.placebo_positive as u128 + self.placebo_negative as u128
    }

    /// The size of the treatment arm.
    pub fn treatment_total(&self) -> (r: u128)
        ensures
            r == self.spec_treatment_total(),
    {
        self.treatment_positive as u128 + self.treatment_negative as u128
    }

    /// The number of successes: positive under treatment plus negative
    /// under placebo.
    pub fn success_total(&self) -> (r: u128)
        ensures
            r == self.spec_success_total(),
    {
        self.treatment_positive as u128 + self.placebo_negative as u128
    }

    /// The observed statistic: the negative outcomes under treatment.
    pub fn observed(&self) -> (r: u64)
        ensures
            r == self.spec_observed(),
    {
        self.treatment_negative
    }
}

/// Folds records into their contingency table.
///
/// Each record adds one to exactly one cell, the one named by its arm and
/// its outcome, so the four counts add up to the number of records.
pub fn aggregate(records: &Vec<Record>) -> (table: ContingencyTable)
    ensures
        table.tabulates(cells_of(records@)),
        table.spec_population() == records.len(),
{
    let mut table: ContingencyTable = ContingencyTable::empty();
    let ghost cells = cells_of(records@);
    let mut i: usize = 0;
    while i < records.len()
        invariant
            i <= records.len(),
            cells == cells_of(records@),
            table.tabulates(cells.take(i as int)),
            table.spec_population() == i,
        decreases records.len() - i,
    {
        let record: &Record = &records[i];
        proof {
            assert(cells.take(i + 1).drop_last() =~= cells.take(i as int));
            assert(cells.take(i + 1).last() == (record.arm, record.outcome));
        }
        match (record.arm, record.outcome) {
            (Arm::Treatment, Outcome::Positive) => {
                table.treatment_positive = table.treatment_positive + 1;
            },
            (Arm::Treatment, Outcome::Negative) => {
                table.treatment_negative = table.treatment_negative + 1;
            },
            (Arm::Placebo, Outcome::Positive) => {
                table.placebo_positive = table.placebo_positive + 1;
            },
            (Arm::Placebo, Outcome::Negative) => {
                table.placebo_negative = table.placebo_negative + 1;
            },
        }
        i += 1;
    }
    assert(cells.take(i as int) =~= cells);
    table
}

/// Nothing is lost between the records and the table, as far as cells go:
/// a table that tabulates `cells` gives back, cell by cell, the number of
/// records that fell into the cell, and its population is their number.
pub proof fn lemma_tabulated_counts(
    table: ContingencyTable,
    cells: Seq<(Arm, Outcome)>,
    arm: Arm,
    outcome: Outcome,
)
    requires
        table.tabulates(cells),
    ensures
        table.spec_count(arm, outcome) == cell_count(cells, arm, outcome),
        table.spec_population() == cells.len(),
{
    lemma_cell_counts_total(cells);
}

/// Validates raw records and folds them into their contingency table.
///
/// Fails with `InvalidRecord` exactly when some record is not valid;
/// nothing is guessed and nothing is counted in that case.
pub fn aggregate_raw(raw: &Vec<RawRecord>) -> (r: Result<ContingencyTable, TrialError>)
    ensures
        match r {
            Ok(table) => {
                &&& forall|i: int| 0 <= i < raw.len() ==> raw_record_valid(#[trigger] raw[i])
                &&& table.tabulates(raw_cells(raw@))
                &&& table.spec_population() == raw.len()
            },
            Err(e) => e == TrialError::InvalidRecord && exists|i: int|
                0 <= i < raw.len() && !raw_record_valid(#[trigger] raw[i]),
        },
{
    match parse_records(raw) {
        Ok(records) => Ok(aggregate(&records)),
        Err(e) => Err(e),
    }
}

/// The derived totals are not blind to the labels: exchanging the arms
/// keeps the population and turns each total into its complement. So the
/// treatment total changes unless the arms are of equal size, and the
/// success total changes unless successes are half the population.
pub proof fn lemma_swap_arms_totals(table: ContingencyTable)
    ensures
        table.spec_swap_arms().spec_population() == table.spec_population(),
        table.spec_swap_arms().spec_treatment_total() == table.spec_population()
            - table.spec_treatment_total(),
        table.spec_swap_arms().spec_success_total() == table.spec_population()
            - table.spec_success_total(),
        table.spec_swap_arms().spec_observed() == table.placebo_negative,
        table.spec_swap_arms().spec_swap_arms() == table,
{
}

} // verus!
