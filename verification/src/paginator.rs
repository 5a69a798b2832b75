//! The index page paginator: a state machine that walks the discussion
//! listing page by page and stops at the first page that lists no
//! discussion. The driver performs each page fetch and hands the ids
//! back; the decisions are all here.

use vstd::prelude::*;

verus! {

/// Where the index walk stands: the next page to request, or finished.
#[derive(Clone, Copy, Debug, PartialEq, Eq, Structural)]
pub struct Paginator {
    pub next_page: usize,
    pub done: bool,
}

/// How the walk advances on one fetched page: an empty id list finishes
/// it, any other page moves it to the next page, and a finished walk
/// stays finished.
pub open spec fn spec_step(p: Paginator, ids: Seq<u64>) -> Paginator {
    if p.done {
        p
    } else if ids.len() == 0 {
        Paginator { next_page: p.next_page, done: true }
    } else {
        Paginator { next_page: (p.next_page + 1) as usize, done: false }
    }
}

/// How many page requests a walk starting at `p` issues over the given
/// page results, taken in order.
pub open spec fn spec_requests(p: Paginator, pages: Seq<Seq<u64>>) -> nat
    decreases pages.len(),
{
    if p.done || pages.len() == 0 {
        0
    } else {
        1 + spec_requests(spec_step(p, pages[0]), pages.drop_first())
    }
}

impl Paginator {
    /// A walk about to request the given page.
    pub fn start(page: usize) -> (r: Paginator)
        ensures
            r == (Paginator { next_page: page, done: false }),
    {
        Paginator { next_page: page, done: false }
    }

    /// The page to request next; `None` once the walk is finished, so a
    /// finished walk never issues another request.
    pub fn request(&self) -> (r: Option<usize>)
        ensures
            r == (if self.done {
                None
            } else {
                Some(self.next_page)
            }),
    {
        if self.done {
            None
        } else {
            Some(self.next_page)
        }
    }

    /// Record the ids one fetched page listed.
    pub fn record_page(&mut self, ids: &Vec<u64>)
        requires
            !old(self).done ==> old(self).next_page < usize::MAX,
        ensures
            *final(self) == spec_step(*old(self), ids@),
    {
        if self.done {
            return ;
        }
        if ids.len() == 0 {
            self.done = true;
        } else {
            self.next_page = self.next_page + 1;
        }
    }
}

/// The offset a 1-based page number maps to: twenty listed discussions
/// per page.
pub fn page_offset(page: usize) -> (r: usize)
    requires
        1 <= page,
        (page - 1) * 20 <= usize::MAX,
    ensures
        r == (page - 1) * 20,
{
    (page - 1) * 20
}

/// The paginator stops after the first page that returns an empty id
/// list, and never issues a further page request: over page results whose
/// first empty page is the `i`-th, exactly `i + 1` requests are issued.
pub proof fn lemma_paginator_stops(p: Paginator, pages: Seq<Seq<u64>>, i: int)
    requires
        !p.done,
        0 <= i < pages.len(),
        pages[i].len() == 0,
        forall|j: int| 0 <= j < i ==> (#[trigger] pages[j]).len() > 0,
    ensures
        spec_requests(p, pages) == i + 1,
    decreases i,
{
    if i == 0 {
        let q = spec_step(p, pages[0]);
        assert(q.done);
        assert(spec_requests(q, pages.drop_first()) == 0);
        assert(spec_requests(p, pages) == 1);
    } else {
        let q = spec_step(p, pages[0]);
        assert(!q.done);
        assert(forall|j: int| 0 <= j < i - 1 ==> (#[trigger] pages.drop_first()[j]).len() > 0);
        assert(pages.drop_first()[i - 1].len() == 0);
        lemma_paginator_stops(q, pages.drop_first(), i - 1);
        assert(spec_requests(p, pages) == 1 + spec_requests(q, pages.drop_first()));
    }
}

/// A finished walk issues no request at all, whatever pages would come.
pub proof fn lemma_paginator_done_requests_nothing(p: Paginator, pages: Seq<Seq<u64>>)
    requires
        p.done,
    ensures
        spec_requests(p, pages) == 0,
{
}

} // verus!
