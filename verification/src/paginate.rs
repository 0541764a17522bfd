use vstd::prelude::*;

use crate::Transaction;

verus! {

/// How many transaction records one page request asks for.
pub const PAGE_SIZE: u32 = 200;

/// The pagination state of an exhaustive transaction-history fetch.
///
/// Page numbers start at 1 and the caller requests one page at a time,
/// recording what each request returned. The fetch is finished as soon as a
/// page comes back empty; the collected sequence concatenates the pages in
/// the order they arrived, preserving the transport's ordering. A transport
/// failure is handled by the caller, who simply abandons the state: no
/// partial result is ever returned by the surrounding operation.
pub struct Paginator {
    page: u32,
    txs: Vec<Transaction>,
    done: bool,
}

impl Paginator {
    /// The number of the page to request next.
    pub closed spec fn next_page_spec(self) -> u32 {
        self.page
    }

    /// Every transaction collected so far, in arrival order.
    pub closed spec fn collected(self) -> Seq<Transaction> {
        self.txs@
    }

    /// Whether an empty page has been seen, ending the fetch.
    pub closed spec fn is_done(self) -> bool {
        self.done
    }

    /// A fresh fetch: nothing collected, the first page is page 1.
    pub fn new() -> (r: Paginator)
        ensures
            r.next_page_spec() == 1,
            r.collected() == Seq::<Transaction>::empty(),
            !r.is_done(),
    {
        Paginator { page: 1, txs: Vec::new(), done: false }
    }

    /// The number of the page to request next.
    pub fn next_page(&self) -> (r: u32)
        ensures
            r == self.next_page_spec(),
    {
        self.page
    }

    /// Record what one page request returned. A non-empty page is appended
    /// to the collection and the page counter advances; an empty page ends
    /// the fetch, changing nothing else. Returns whether the fetch is done.
    pub fn record_page(&mut self, page_txs: Vec<Transaction>) -> (done: bool)
        requires
            !old(self).is_done(),
            old(self).next_page_spec() < u32::MAX,
        ensures
            done == (page_txs@.len() == 0),
            final (self).is_done() == done,
            final (self).collected() == old(self).collected() + page_txs@,
            !done ==> final (self).next_page_spec() == old(self).next_page_spec() + 1,
            done ==> final (self).next_page_spec() == old(self).next_page_spec(),
    {
        let mut page_txs = page_txs;
        if page_txs.len() == 0 {
            self.done = true;
            proof {
                assert(self.txs@ =~= self.txs@ + page_txs@);
            }
            true
        } else {
            self.txs.append(&mut page_txs);
            self.page = self.page + 1;
            false
        }
    }

    /// How many transactions have been collected.
    pub fn num_collected(&self) -> (r: usize)
        ensures
            r == self.collected().len(),
    {
        self.txs.len()
    }

    /// Hand the collected transactions over, consuming the state.
    pub fn into_transactions(self) -> (r: Vec<Transaction>)
        ensures
            r@ == self.collected(),
    {
        self.txs
    }
}

} // verus!
