//! The steps of the bucket-level driver that need no I/O.
//!
//! For each bucket the caller walks backend A's listing and then backend
//! B's with a `Paginator`, closes each with `finish_listing`, and hands the
//! two filtered listings to `process_bucket`. Any error ends the run.

use crate::error::ReconcileError;
use crate::filter::{all_dated, filter_by_cutoff, retained};
use crate::paginator::{
    after_pages, is_whole_listing, listing_start, theorem_whole_listing_collected, ListingPhase,
    ListingState, Paginator,
};
use crate::reconcile::{reconcile, reconciled, Discrepancy, ReconciliationMap};
use crate::record::{flatten, ObjectPage, ObjectRecord};
use crate::status::RunStatus;
use crate::timestamp::Timestamp;
use vstd::prelude::*;

verus! {

/// What a listing in state `listing` contributes to a reconciliation: its
/// records up to the cutoff, if it is complete and every record is dated.
/// An incomplete or failed listing is a `TransportError`, whatever its
/// records hold.
pub open spec fn filtered_listing(listing: ListingState, cutoff: Timestamp) -> Result<
    Seq<ObjectRecord>,
    ReconcileError,
> {
    if listing.phase != ListingPhase::Complete {
        Err(ReconcileError::TransportError)
    } else if !all_dated(listing.listed) {
        Err(ReconcileError::MalformedTimestamp)
    } else {
        Ok(retained(listing.listed, cutoff))
    }
}

/// Closes one backend's listing and filters it by the cutoff.
pub fn finish_listing(listing: Paginator, cutoff: &Timestamp) -> (res: Result<
    Vec<ObjectRecord>,
    ReconcileError,
>)
    ensures
        match res {
            Ok(records) => filtered_listing(listing@, *cutoff) == Ok::<
                Seq<ObjectRecord>,
                ReconcileError,
            >(records@),
            Err(e) => filtered_listing(listing@, *cutoff) == Err::<
                Seq<ObjectRecord>,
                ReconcileError,
            >(e),
        },
{
    match listing.finish() {
        Ok(records) => filter_by_cutoff(records, cutoff),
        Err(e) => Err(e),
    }
}

/// Reconciles one bucket from its two filtered listings and enters the
/// outcome into the run's status. A bucket with mismatches goes on record
/// and its map is handed back to be reported; a bucket without gives
/// nothing to report.
pub fn process_bucket(
    status: &mut RunStatus,
    bucket: &str,
    filtered_a: Vec<ObjectRecord>,
    filtered_b: Vec<ObjectRecord>,
) -> (report: Option<ReconciliationMap>)
    ensures
        match report {
            Some(map) => {
                &&& map@ == reconciled(filtered_a@, filtered_b@)
                &&& map@ != Map::<Seq<char>, Discrepancy>::empty()
                &&& final(status).buckets() == old(status).buckets().push(bucket@)
                &&& final(status).mismatch()
            },
            None => {
                &&& reconciled(filtered_a@, filtered_b@) == Map::<Seq<char>, Discrepancy>::empty()
                &&& final(status).buckets() == old(status).buckets()
                &&& final(status).mismatch() == old(status).mismatch()
            },
        },
{
    let map = reconcile(filtered_a, filtered_b);
    if status.record(bucket, &map) {
        Some(map)
    } else {
        None
    }
}

/// A backend that answers with the pages of a whole listing contributes
/// the records of all of them up to the cutoff, if every record is dated,
/// and a `MalformedTimestamp` if one is not.
pub proof fn theorem_whole_listing_filtered(pages: Seq<ObjectPage>, cutoff: Timestamp)
    requires
        is_whole_listing(pages),
    ensures
        filtered_listing(after_pages(listing_start(), pages), cutoff) == if all_dated(
            flatten(pages),
        ) {
            Ok::<Seq<ObjectRecord>, ReconcileError>(retained(flatten(pages), cutoff))
        } else {
            Err::<Seq<ObjectRecord>, ReconcileError>(ReconcileError::MalformedTimestamp)
        },
{
    theorem_whole_listing_collected(pages);
}

} // verus!
