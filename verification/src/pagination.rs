//! Cursor pagination for the service's list endpoints: the query parameters
//! a caller may send, one delivered page, and the material for the follow-up
//! request.

use vstd::prelude::*;

verus! {

/// The fewest items a caller may ask for per page.
pub const PAGE_ITEMS_MIN: i64 = 1;

/// The most items a caller may ask for per page.
pub const PAGE_ITEMS_MAX: i64 = 50;

/// Cursor query parameters: list entries after or before an id, this many
/// items at a time.
#[derive(Clone, Copy, Debug, PartialEq, Eq)]
pub struct Pager<Id> {
    pub after: Option<Id>,
    pub before: Option<Id>,
    pub items: Option<i64>,
}

impl<Id> Pager<Id> {
    /// An absent item count passes; a present one must lie in the allowed
    /// range.
    pub open spec fn valid(self) -> bool {
        match self.items {
            None => true,
            Some(n) => PAGE_ITEMS_MIN <= n <= PAGE_ITEMS_MAX,
        }
    }

    /// Checks the requested item count against the allowed range.
    pub fn validate(&self) -> (ok: bool)
        ensures
            ok == self.valid(),
    {
        match self.items {
            None => true,
            Some(n) => PAGE_ITEMS_MIN <= n && n <= PAGE_ITEMS_MAX,
        }
    }

    /// The item count to use: the requested one, or the given default.
    pub fn items_or(&self, default: i64) -> (n: i64)
        ensures
            n == match self.items {
                None => default,
                Some(m) => m,
            },
    {
        match self.items {
            None => default,
            Some(m) => m,
        }
    }
}

/// One delivered page and whether more lies on either side.
#[derive(Clone, Debug, PartialEq, Eq)]
pub struct Page<T> {
    pub items: Vec<T>,
    pub has_previous: bool,
    pub has_next: bool,
}

/// A listing to render: the delivered items and the cursor they continue
/// from.
#[derive(Clone, Debug, PartialEq, Eq)]
pub struct PaginatedResponse<T, Id> {
    pub items: Vec<T>,
    pub pager: Pager<Id>,
}

impl<T, Id> PaginatedResponse<T, Id> {
    /// The position of the entry whose id the follow-up request continues
    /// after: the last delivered item, or nothing when the page was empty.
    pub fn continue_from(&self) -> (r: Option<usize>)
        ensures
            self.items@.len() == 0 ==> r is None,
            self.items@.len() > 0 ==> r == Some((self.items@.len() - 1) as usize),
    {
        if self.items.len() == 0 {
            None
        } else {
            Some(self.items.len() - 1)
        }
    }
}

} // verus!
