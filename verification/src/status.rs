//! The status of a run, and what of it goes to disk under which name.
//!
//! A run starts clean. The first bucket with a mismatch turns it into a run
//! with mismatches, and nothing turns it back. The status file is sticky in
//! the same way across runs: a later clean run leaves a file that is
//! already there as it is.

use crate::text::texts;
use crate::error::ReconcileError;
use crate::reconcile::{Discrepancy, ReconciliationMap};
use vstd::prelude::*;
use vstd::string::*;

verus! {

/// What the per-bucket report files are named with, before the bucket name.
pub const REPORT_PREFIX: &'static str = "rados_copy_details_";

/// The file that lists the buckets with mismatches.
pub const AGGREGATE_FILE: &'static str = "rados_copy_details";

/// The file that holds the status flag.
pub const STATUS_FILE: &'static str = "rados_copy_status";

/// The flag of a run in which every bucket reconciled.
pub open spec fn clean_flag() -> Seq<char> {
    seq!['0']
}

/// The flag of a run in which a bucket had mismatches.
pub open spec fn mismatch_flag() -> Seq<char> {
    seq!['1']
}

/// The flag that stands for a run's outcome.
pub open spec fn flag_text(mismatch: bool) -> Seq<char> {
    if mismatch {
        mismatch_flag()
    } else {
        clean_flag()
    }
}

/// `names`, each followed by a line feed.
pub open spec fn listed_lines(names: Seq<Seq<char>>) -> Seq<char>
    decreases names.len(),
{
    if names.len() == 0 {
        Seq::<char>::empty()
    } else {
        listed_lines(names.drop_last()) + names.last() + seq!['\n']
    }
}

/// Whether saving the flag `data` writes the status file: `None` where
/// `data` is no flag at all. A mismatch is always written. A clean flag is
/// written only where no file exists yet.
pub open spec fn status_plan(data: Seq<char>, file_exists: bool) -> Option<bool> {
    if data == clean_flag() {
        Some(!file_exists)
    } else if data == mismatch_flag() {
        Some(true)
    } else {
        None
    }
}

/// What the status file holds once the flag `data` has been saved over a
/// file that held `prior`, or over no file.
pub open spec fn status_file_after(prior: Option<Seq<char>>, data: Seq<char>) -> Option<
    Seq<char>,
> {
    match status_plan(data, prior is Some) {
        Some(true) => Some(data),
        _ => prior,
    }
}

/// The outcome of one bucket as contracts see it.
pub struct BucketOutcome {
    pub bucket: Seq<char>,
    pub found: Map<Seq<char>, Discrepancy>,
}

/// The buckets on record once `outcomes` have been taken in, one by one: the
/// buckets with a mismatch, in the order of the run.
pub open spec fn on_record(outcomes: Seq<BucketOutcome>) -> Seq<Seq<char>>
    decreases outcomes.len(),
{
    if outcomes.len() == 0 {
        Seq::<Seq<char>>::empty()
    } else if outcomes.last().found != Map::<Seq<char>, Discrepancy>::empty() {
        on_record(outcomes.drop_last()).push(outcomes.last().bucket)
    } else {
        on_record(outcomes.drop_last())
    }
}

/// The run-level outcome, gathered bucket by bucket.
pub struct RunStatus {
    mismatching: Vec<String>,
}

impl RunStatus {
    /// The buckets found mismatching so far, in the order in which they
    /// were processed.
    pub closed spec fn buckets(&self) -> Seq<Seq<char>> {
        texts(self.mismatching@)
    }

    /// A bucket had mismatches.
    pub open spec fn mismatch(&self) -> bool {
        self.buckets().len() > 0
    }

    /// The status at the start of a run: clean, no bucket on record.
    pub fn new() -> (status: RunStatus)
        ensures
            status.buckets() == Seq::<Seq<char>>::empty(),
    {
        let status = RunStatus { mismatching: Vec::new() };
        assert(status.buckets() == Seq::<Seq<char>>::empty());
        status
    }

    /// Takes in the outcome of one bucket. A bucket with mismatches goes on
    /// record, and its map is to be reported: the result says so.
    pub fn record(&mut self, bucket: &str, outcome: &ReconciliationMap) -> (report: bool)
        ensures
            report == (outcome@ != Map::<Seq<char>, Discrepancy>::empty()),
            final(self).buckets() == if report {
                old(self).buckets().push(bucket@)
            } else {
                old(self).buckets()
            },
            final(self).mismatch() == (old(self).mismatch() || report),
    {
        if outcome.is_empty() {
            false
        } else {
            self.mismatching.push(bucket.to_owned());
            assert(texts(self.mismatching@) == texts(old(self).mismatching@).push(bucket@));
            true
        }
    }

    /// Tells whether a bucket had mismatches.
    pub fn has_mismatch(&self) -> (mismatch: bool)
        ensures
            mismatch == self.mismatch(),
    {
        self.mismatching.len() > 0
    }

    /// The status flag: "1" where a bucket had mismatches, else "0".
    pub fn flag(&self) -> (flag: &'static str)
        ensures
            flag@ == flag_text(self.mismatch()),
    {
        proof {
            reveal_strlit("0");
            reveal_strlit("1");
        }
        if self.mismatching.len() > 0 {
            assert("1"@ == mismatch_flag());
            "1"
        } else {
            assert("0"@ == clean_flag());
            "0"
        }
    }

    /// The buckets found mismatching, in the order in which they were
    /// processed.
    pub fn mismatching_buckets(&self) -> (names: &Vec<String>)
        ensures
            texts(names@) == self.buckets(),
    {
        &self.mismatching
    }

    /// The lines to add to the list of mismatching buckets: one name per
    /// line.
    pub fn aggregate_text(&self) -> (text: String)
        ensures
            text@ == listed_lines(self.buckets()),
    {
        let mut text = String::new();
        let mut i: usize = 0;
        while i < self.mismatching.len()
            invariant
                0 <= i <= self.mismatching.len(),
                text@ == listed_lines(texts(self.mismatching@).take(i as int)),
            decreases self.mismatching.len() - i,
        {
            proof {
                let names = texts(self.mismatching@);
                assert(names.take(i + 1).drop_last() == names.take(i as int));
                assert(names.take(i + 1).last() == self.mismatching@[i as int]@);
            }
            text.append(self.mismatching[i].as_str());
            text.push('\n');
            i += 1;
        }
        proof {
            let names = texts(self.mismatching@);
            assert(names.take(names.len() as int) == names);
        }
        text
    }
}

/// Decides whether saving the flag `data` has to write the status file.
/// Anything but "0" and "1" is refused with a `PersistenceError`.
pub fn status_write_plan(data: &str, file_exists: bool) -> (res: Result<bool, ReconcileError>)
    ensures
        res == match status_plan(data@, file_exists) {
            Some(write) => Ok::<bool, ReconcileError>(write),
            None => Err::<bool, ReconcileError>(ReconcileError::PersistenceError),
        },
{
    if data.unicode_len() == 1 {
        let c = data.get_char(0);
        assert(data@ == seq![c]);
        if c == '0' {
            return Ok(!file_exists);
        } else if c == '1' {
            return Ok(true);
        }
    }
    Err(ReconcileError::PersistenceError)
}

/// The name of the report file of `bucket`.
pub fn report_file_name(bucket: &str) -> (name: String)
    ensures
        name@ == REPORT_PREFIX@ + bucket@,
{
    let mut name = REPORT_PREFIX.to_owned();
    name.append(bucket);
    name
}

/// The path of the file `file_name` in the directory `directory`.
pub fn file_path(directory: &str, file_name: &str) -> (path: String)
    ensures
        path@ == directory@ + seq!['/'] + file_name@,
{
    let mut path = directory.to_owned();
    path.push('/');
    path.append(file_name);
    path
}

/// A run has a bucket on record exactly when some bucket had a mismatch,
/// and every such bucket is on record. One mismatch is enough, wherever in
/// the run it comes.
pub proof fn theorem_run_flag_tells_mismatch(outcomes: Seq<BucketOutcome>)
    ensures
        on_record(outcomes).len() > 0 <==> exists|i: int|
            0 <= i < outcomes.len() && (#[trigger] outcomes[i]).found != Map::<
                Seq<char>,
                Discrepancy,
            >::empty(),
        forall|i: int|
            0 <= i < outcomes.len() && (#[trigger] outcomes[i]).found != Map::<
                Seq<char>,
                Discrepancy,
            >::empty() ==> on_record(outcomes).contains(outcomes[i].bucket),
    decreases outcomes.len(),
{
    let nothing = Map::<Seq<char>, Discrepancy>::empty();
    if outcomes.len() > 0 {
        let front = outcomes.drop_last();
        let last = outcomes.last();
        theorem_run_flag_tells_mismatch(front);
        if last.found != nothing {
            assert(outcomes[outcomes.len() - 1].found != nothing);
            assert(on_record(outcomes).last() == last.bucket);
        } else if on_record(front).len() > 0 {
            let i = choose|i: int| 0 <= i < front.len() && (#[trigger] front[i]).found != nothing;
            assert(outcomes[i].found != nothing);
        }
        assert forall|i: int|
            0 <= i < outcomes.len() && (#[trigger] outcomes[i]).found
                != nothing implies on_record(outcomes).contains(outcomes[i].bucket) by {
            if i < front.len() {
                assert(front[i] == outcomes[i]);
                let at = choose|at: int|
                    0 <= at < on_record(front).len() && on_record(front)[at] == front[i].bucket;
                assert(on_record(outcomes)[at] == outcomes[i].bucket);
            } else {
                assert(on_record(outcomes)[on_record(outcomes).len() - 1] == last.bucket);
            }
        }
    }
}

/// Once the status file holds the mismatch flag, no later save takes it
/// back: whatever is saved, the file holds the mismatch flag afterwards.
pub proof fn theorem_status_file_sticky(prior: Option<Seq<char>>, data: Seq<char>)
    requires
        prior == Some(mismatch_flag()),
    ensures
        status_file_after(prior, data) == Some(mismatch_flag()),
{
}

/// A clean run creates the status file where there is none, and leaves a
/// file that is there untouched.
pub proof fn theorem_clean_run_keeps_file(prior: Option<Seq<char>>)
    ensures
        status_file_after(prior, clean_flag()) == match prior {
            Some(held) => Some(held),
            None => Some(clean_flag()),
        },
{
    assert(clean_flag()[0] != mismatch_flag()[0]);
}

} // verus!
