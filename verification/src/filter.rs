//! The modification-time filter: only objects last modified at or before a
//! cutoff take part in a reconciliation.

use crate::error::ReconcileError;
use crate::record::ObjectRecord;
use crate::timestamp::{last_modified_of, parse_last_modified, within_cutoff, Timestamp};
use vstd::prelude::*;

verus! {

/// `record` was last modified at or before `cutoff`.
pub open spec fn settled(record: ObjectRecord, cutoff: Timestamp) -> bool {
    match last_modified_of(record.last_modified@) {
        Some(t) => t.at_or_before(cutoff),
        None => false,
    }
}

/// Every record's last-modified field parses.
pub open spec fn all_dated(records: Seq<ObjectRecord>) -> bool {
    forall|i: int|
        0 <= i < records.len() ==> last_modified_of(
            (#[trigger] records[i]).last_modified@,
        ) is Some
}

/// The records last modified at or before `cutoff`, in their listing order.
pub open spec fn retained(records: Seq<ObjectRecord>, cutoff: Timestamp) -> Seq<ObjectRecord> {
    records.filter(|record: ObjectRecord| settled(record, cutoff))
}

/// Keeps the records last modified at or before `cutoff`, in their order.
/// A record whose last-modified field does not parse fails the whole
/// listing: nothing is skipped silently.
pub fn filter_by_cutoff(records: Vec<ObjectRecord>, cutoff: &Timestamp) -> (res: Result<
    Vec<ObjectRecord>,
    ReconcileError,
>)
    ensures
        match res {
            Ok(kept) => all_dated(records@) && kept@ == retained(records@, *cutoff),
            Err(e) => !all_dated(records@) && e == ReconcileError::MalformedTimestamp,
        },
{
    let ghost listed = records@;
    let mut kept: Vec<ObjectRecord> = Vec::new();
    for record in it: records
        invariant
            it.seq() == listed,
            all_dated(listed.take(it.index() as int)),
            kept@ == retained(listed.take(it.index() as int), *cutoff),
    {
        let ghost i = it.index() as int;
        proof {
            assert(listed.take(i + 1) == listed.take(i).push(record));
            lemma_retained_push(listed.take(i), record, *cutoff);
        }
        let parsed = match parse_last_modified(record.last_modified.as_str()) {
            Ok(t) => Some(t),
            Err(_) => None,
        };
        match within_cutoff(parsed, cutoff) {
            Ok(keep) => {
                if keep {
                    kept.push(record);
                }
            },
            Err(e) => {
                assert(last_modified_of(listed[i].last_modified@) is None);
                return Err(e);
            },
        }
    }
    assert(listed.take(listed.len() as int) == listed);
    Ok(kept)
}

/// The cutoff is inclusive: a record last modified at the cutoff itself is
/// kept.
pub proof fn theorem_cutoff_inclusive(record: ObjectRecord, cutoff: Timestamp)
    requires
        last_modified_of(record.last_modified@) == Some(cutoff),
    ensures
        settled(record, cutoff),
        retained(seq![record], cutoff) == seq![record],
{
    lemma_retained_push(Seq::<ObjectRecord>::empty(), record, cutoff);
    reveal(Seq::filter);
    assert(Seq::<ObjectRecord>::empty().push(record) == seq![record]);
}

/// One more record at the end of a listing is kept or dropped by itself.
pub proof fn lemma_retained_push(records: Seq<ObjectRecord>, record: ObjectRecord, cutoff: Timestamp)
    ensures
        retained(records.push(record), cutoff) == if settled(record, cutoff) {
            retained(records, cutoff).push(record)
        } else {
            retained(records, cutoff)
        },
{
    reveal(Seq::filter);
    assert(records.push(record).drop_last() == records);
}

/// What a filter lets through is dated and settled.
pub proof fn lemma_retained_settled(records: Seq<ObjectRecord>, cutoff: Timestamp)
    ensures
        all_dated(retained(records, cutoff)),
        forall|i: int|
            0 <= i < retained(records, cutoff).len() ==> settled(
                #[trigger] retained(records, cutoff)[i],
                cutoff,
            ),
    decreases records.len(),
{
    if records.len() == 0 {
        reveal(Seq::filter);
    } else {
        let front = records.drop_last();
        assert(records == front.push(records.last()));
        lemma_retained_settled(front, cutoff);
        lemma_retained_push(front, records.last(), cutoff);
    }
}

/// Filtering is idempotent: what a filter has let through passes the same
/// filter unchanged, and without an error.
pub proof fn theorem_filter_idempotent(records: Seq<ObjectRecord>, cutoff: Timestamp)
    ensures
        all_dated(retained(records, cutoff)),
        retained(retained(records, cutoff), cutoff) == retained(records, cutoff),
    decreases records.len(),
{
    lemma_retained_settled(records, cutoff);
    if records.len() == 0 {
        reveal(Seq::filter);
    } else {
        let front = records.drop_last();
        let last = records.last();
        assert(records == front.push(last));
        theorem_filter_idempotent(front, cutoff);
        lemma_retained_push(front, last, cutoff);
        if settled(last, cutoff) {
            lemma_retained_push(retained(front, cutoff), last, cutoff);
        }
    }
}

/// Filtering two stretches of a listing one after the other is filtering
/// the listing in one go.
pub proof fn theorem_filter_page_by_page(
    first: Seq<ObjectRecord>,
    second: Seq<ObjectRecord>,
    cutoff: Timestamp,
)
    ensures
        retained(first + second, cutoff) == retained(first, cutoff) + retained(second, cutoff),
{
    Seq::filter_distributes_over_add(
        first,
        second,
        |record: ObjectRecord| settled(record, cutoff),
    );
}

} // verus!
