//! Reconciliation of one object-storage bucket as seen by two backends.
//!
//! The crate holds the listing paginator, the modification-time filter, the
//! reconciliation engine and the run-level bookkeeping. It performs no I/O:
//! a caller lists pages from its storage client, hands them over as plain
//! values and persists what the library tells it to persist.

pub mod buckets;
pub mod driver;
pub mod error;
pub mod filter;
pub mod paginator;
pub mod reconcile;
pub mod record;
pub mod status;
pub mod text;
pub mod theorems;
pub mod timestamp;

pub use buckets::parse_bucket_list;
pub use driver::{finish_listing, process_bucket};
pub use error::ReconcileError;
pub use filter::filter_by_cutoff;
pub use paginator::{ListingPhase, PageRequest, Paginator, PAGE_LIMIT};
pub use reconcile::{reconcile, Discrepancy, Finding, ReconciliationMap};
pub use record::{ObjectPage, ObjectRecord};
pub use status::{
    file_path, report_file_name, status_write_plan, RunStatus, AGGREGATE_FILE, REPORT_PREFIX,
    STATUS_FILE,
};
pub use text::{is_whitespace, trim};
pub use timestamp::{
    compare_dates, datetime_instant, parse_cutoff, parse_last_modified, rfc3339_instant,
    within_cutoff, Timestamp,
};
