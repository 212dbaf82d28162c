//! The listing paginator: walks one backend's listing of one bucket to its
//! end, page by page.
//!
//! The paginator does not talk to a backend. It says which page to ask for
//! next; the caller asks, and hands back the page or the news that the
//! request failed. A listing is complete when a page arrives that announces
//! no further page. A failed request ends the listing for good: nothing is
//! retried, and no part of the listing is given out.

use crate::error::ReconcileError;
use crate::record::{flatten, ObjectPage, ObjectRecord};
use vstd::prelude::*;

verus! {

/// The most objects that one page request asks for.
pub const PAGE_LIMIT: usize = 5000000;

/// One page request to a backend.
#[derive(Clone, Debug, PartialEq, Eq)]
pub struct PageRequest {
    /// Where the page starts: the token of the page before, none for the
    /// first page.
    pub continuation_token: Option<String>,
    /// The cap on the number of objects in the page.
    pub max_keys: usize,
}

/// Where a listing stands.
#[derive(Clone, Copy, Debug, PartialEq, Eq, Structural)]
pub enum ListingPhase {
    /// A further page has to be asked for.
    Pending,
    /// The last page has arrived.
    Complete,
    /// A page request has failed.
    Failed,
}

/// The state of a listing as contracts see it.
pub struct ListingState {
    pub phase: ListingPhase,
    /// The token to ask the next page with.
    pub cursor: Option<Seq<char>>,
    /// The records of the pages taken in so far, in listing order.
    pub listed: Seq<ObjectRecord>,
}

/// The text of a token, if there is a token.
pub open spec fn token_text(token: Option<String>) -> Option<Seq<char>> {
    match token {
        Some(text) => Some(text@),
        None => None,
    }
}

/// A listing before its first page.
pub open spec fn listing_start() -> ListingState {
    ListingState {
        phase: ListingPhase::Pending,
        cursor: None,
        listed: Seq::<ObjectRecord>::empty(),
    }
}

/// The listing after `page` has arrived. A listing that is over takes no
/// further page.
pub open spec fn after_page(state: ListingState, page: ObjectPage) -> ListingState {
    if state.phase == ListingPhase::Pending {
        ListingState {
            phase: if page.next_token is Some {
                ListingPhase::Pending
            } else {
                ListingPhase::Complete
            },
            cursor: token_text(page.next_token),
            listed: state.listed + page.records@,
        }
    } else {
        state
    }
}

/// The listing after a page request has failed. What had been listed is
/// dropped. A listing that is complete stays so.
pub open spec fn after_failure(state: ListingState) -> ListingState {
    if state.phase == ListingPhase::Pending {
        ListingState {
            phase: ListingPhase::Failed,
            cursor: None,
            listed: Seq::<ObjectRecord>::empty(),
        }
    } else {
        state
    }
}

/// The listing after `pages` have arrived, one by one.
pub open spec fn after_pages(state: ListingState, pages: Seq<ObjectPage>) -> ListingState
    decreases pages.len(),
{
    if pages.len() == 0 {
        state
    } else {
        after_page(after_pages(state, pages.drop_last()), pages.last())
    }
}

/// Every page but the last announces a further page, and the last one does
/// not.
pub open spec fn is_whole_listing(pages: Seq<ObjectPage>) -> bool {
    &&& pages.len() > 0
    &&& pages.last().next_token is None
    &&& forall|i: int| 0 <= i < pages.len() - 1 ==> (#[trigger] pages[i]).next_token is Some
}

/// One backend's listing of one bucket, in progress.
pub struct Paginator {
    phase: ListingPhase,
    token: Option<String>,
    records: Vec<ObjectRecord>,
}

impl View for Paginator {
    type V = ListingState;

    closed spec fn view(&self) -> ListingState {
        ListingState { phase: self.phase, cursor: token_text(self.token), listed: self.records@ }
    }
}

impl Paginator {
    /// A listing before its first page.
    pub fn new() -> (paginator: Paginator)
        ensures
            paginator@ == listing_start(),
    {
        Paginator { phase: ListingPhase::Pending, token: None, records: Vec::new() }
    }

    /// Where the listing stands.
    pub fn phase(&self) -> (phase: ListingPhase)
        ensures
            phase == self@.phase,
    {
        self.phase
    }

    /// The page to ask for next, if the listing is not over. The request
    /// carries the token of the page before and the fixed page limit.
    pub fn next_request(&self) -> (request: Option<PageRequest>)
        ensures
            match request {
                Some(page_request) => self@.phase == ListingPhase::Pending && token_text(
                    page_request.continuation_token,
                ) == self@.cursor && page_request.max_keys == PAGE_LIMIT,
                None => self@.phase != ListingPhase::Pending,
            },
    {
        match self.phase {
            ListingPhase::Pending => {
                let continuation_token = match &self.token {
                    Some(text) => Some(text.clone()),
                    None => None,
                };
                Some(PageRequest { continuation_token, max_keys: PAGE_LIMIT })
            },
            _ => None,
        }
    }

    /// Takes in the page that the backend answered with.
    pub fn accept(&mut self, page: ObjectPage)
        ensures
            final(self)@ == after_page(old(self)@, page),
    {
        match self.phase {
            ListingPhase::Pending => {
                let ObjectPage { mut records, next_token } = page;
                self.records.append(&mut records);
                self.phase = match next_token {
                    Some(_) => ListingPhase::Pending,
                    None => ListingPhase::Complete,
                };
                self.token = next_token;
            },
            _ => {},
        }
    }

    /// Takes note that the page request failed.
    pub fn fail(&mut self)
        ensures
            final(self)@ == after_failure(old(self)@),
    {
        match self.phase {
            ListingPhase::Pending => {
                self.phase = ListingPhase::Failed;
                self.token = None;
                self.records = Vec::new();
            },
            _ => {},
        }
    }

    /// The complete listing. A listing that failed, or that has not seen
    /// its last page, gives a `TransportError` and no records.
    pub fn finish(self) -> (res: Result<Vec<ObjectRecord>, ReconcileError>)
        ensures
            match res {
                Ok(records) => self@.phase == ListingPhase::Complete && records@ == self@.listed,
                Err(e) => self@.phase != ListingPhase::Complete && e
                    == ReconcileError::TransportError,
            },
    {
        match self.phase {
            ListingPhase::Complete => Ok(self.records),
            _ => Err(ReconcileError::TransportError),
        }
    }
}

/// Pages that arrive while the listing is pending are all taken in.
pub proof fn lemma_pending_pages_listed(pages: Seq<ObjectPage>)
    requires
        forall|i: int| 0 <= i < pages.len() ==> (#[trigger] pages[i]).next_token is Some,
    ensures
        after_pages(listing_start(), pages).phase == ListingPhase::Pending,
        after_pages(listing_start(), pages).listed == flatten(pages),
        pages.len() > 0 ==> after_pages(listing_start(), pages).cursor == token_text(
            pages.last().next_token,
        ),
    decreases pages.len(),
{
    if pages.len() > 0 {
        let front = pages.drop_last();
        assert forall|i: int| 0 <= i < front.len() implies (#[trigger] front[i]).next_token
            is Some by {
            assert(front[i] == pages[i]);
        }
        lemma_pending_pages_listed(front);
        assert(pages[pages.len() - 1].next_token is Some);
    }
}

/// A listing that is walked to its end is complete and holds the records of
/// all its pages, in order.
pub proof fn theorem_whole_listing_collected(pages: Seq<ObjectPage>)
    requires
        is_whole_listing(pages),
    ensures
        after_pages(listing_start(), pages) == (ListingState {
            phase: ListingPhase::Complete,
            cursor: None,
            listed: flatten(pages),
        }),
{
    let front = pages.drop_last();
    assert forall|i: int| 0 <= i < front.len() implies (#[trigger] front[i]).next_token
        is Some by {
        assert(front[i] == pages[i]);
    }
    lemma_pending_pages_listed(front);
}

} // verus!
