//! Cursor pagination as a state machine: the caller fetches the URL it is
//! asked for and hands each page back, until no URL is left.
use vstd::prelude::*;

use crate::cmds::spotify_api::Paging;

verus! {

broadcast use vstd::seq_lib::group_seq_properties;

/// The chars of an optional URL.
pub open spec fn url_view(o: Option<String>) -> Option<Seq<char>> {
    match o {
        Some(s) => Some(s@),
        None => None,
    }
}

/// The items of the given pages, page after page.
pub open spec fn items_of<T>(pages: Seq<Paging<T>>) -> Seq<T> {
    pages.map_values(|p: Paging<T>| p.items@).flatten()
}

/// How many items the given pages hold together.
pub open spec fn page_sizes<T>(pages: Seq<Paging<T>>) -> nat
    decreases pages.len(),
{
    if pages.len() == 0 {
        0
    } else {
        page_sizes(pages.drop_last()) + pages.last().items@.len()
    }
}

/// A fetch in progress: what was gathered, where to go next, and the total
/// the first page announced.
pub struct PagedFetch<T> {
    pub items: Vec<T>,
    pub next: Option<String>,
    pub total: Option<u64>,
}

impl<T> PagedFetch<T> {
    /// A fetch that starts at `start_url`.
    pub fn new(start_url: &str) -> (r: PagedFetch<T>)
        ensures
            r.items@ == Seq::<T>::empty(),
            url_view(r.next) == Some(start_url@),
            r.total is None,
    {
        PagedFetch { items: Vec::new(), next: Some(String::from_str(start_url)), total: None }
    }

    /// The URL of the page to fetch next, if any is left.
    pub fn next_url(&self) -> (r: Option<String>)
        ensures
            url_view(r) == url_view(self.next),
    {
        match &self.next {
            Some(url) => Some(url.clone()),
            None => None,
        }
    }

    /// Whether the last page has arrived.
    pub fn is_done(&self) -> (r: bool)
        ensures
            r == self.next is None,
    {
        self.next.is_none()
    }

    /// The number of items gathered so far.
    pub fn progress(&self) -> (r: usize)
        ensures
            r == self.items@.len(),
    {
        self.items.len()
    }

    /// The total that the first page announced, once it has arrived.
    pub fn total(&self) -> (r: Option<u64>)
        ensures
            r == self.total,
    {
        self.total
    }

    /// Takes in the page fetched from the URL asked for: its items follow
    /// those gathered, its cursor becomes the next URL, and the first page
    /// sets the total.
    pub fn receive(&mut self, page: Paging<T>)
        requires
            old(self).next is Some,
        ensures
            final(self).items@ == old(self).items@ + page.items@,
            url_view(final(self).next) == url_view(page.next),
            final(self).total == if old(self).total is None {
                Some(page.total)
            } else {
                old(self).total
            },
    {
        let Paging { items, limit: _, next, total } = page;
        let mut items = items;
        self.items.append(&mut items);
        self.next = next;
        if self.total.is_none() {
            self.total = Some(total);
        }
    }

    /// The gathered items, in the order in which they arrived.
    pub fn into_items(self) -> (r: Vec<T>)
        ensures
            r@ == self.items@,
    {
        self.items
    }
}

/// The items gathered and the next URL after the first `n` pages were taken in.
pub open spec fn fetch_after<T>(start: Seq<char>, pages: Seq<Paging<T>>, n: nat) -> (
    Seq<T>,
    Option<Seq<char>>,
)
    decreases n,
{
    if n == 0 {
        (Seq::empty(), Some(start))
    } else {
        let before = fetch_after(start, pages, (n - 1) as nat);
        (before.0 + pages[n - 1].items@, url_view(pages[n - 1].next))
    }
}

/// Following a cursor through pages whose sizes sum to `page_sizes(pages)`:
/// a URL is asked for until the last page, after it none is; the items
/// arrive in page order; and the count gathered reaches that sum exactly
/// when the last page has been taken in.
pub proof fn lemma_fetch_all<T>(start: Seq<char>, pages: Seq<Paging<T>>)
    requires
        pages.len() > 0,
        forall|i: int| 0 <= i < pages.len() - 1 ==> (#[trigger] pages[i]).next is Some,
        pages.last().next is None,
    ensures
        forall|n: nat| n < pages.len() ==> (#[trigger] fetch_after(start, pages, n)).1 is Some,
        fetch_after(start, pages, pages.len()).1 is None,
        fetch_after(start, pages, pages.len()).0 == items_of(pages),
        fetch_after(start, pages, pages.len()).0.len() == page_sizes(pages),
{
    assert forall|n: nat| n < pages.len() implies (#[trigger] fetch_after(
        start,
        pages,
        n,
    )).1 is Some by {
        if n > 0 {
            assert(pages[n - 1].next is Some);
        }
    }
    lemma_fetch_prefix(start, pages, pages.len());
    assert(pages.subrange(0, pages.len() as int) =~= pages);
}

proof fn lemma_fetch_prefix<T>(start: Seq<char>, pages: Seq<Paging<T>>, n: nat)
    requires
        n <= pages.len(),
    ensures
        fetch_after(start, pages, n).0 == items_of(pages.subrange(0, n as int)),
        fetch_after(start, pages, n).0.len() == page_sizes(pages.subrange(0, n as int)),
    decreases n,
{
    let f = |p: Paging<T>| p.items@;
    if n == 0 {
        assert(pages.subrange(0, 0).map_values(f) =~= Seq::<Seq<T>>::empty());
    } else {
        lemma_fetch_prefix(start, pages, (n - 1) as nat);
        let prefix = pages.subrange(0, n - 1);
        let grown = pages.subrange(0, n as int);
        assert(grown.drop_last() =~= prefix);
        assert(grown.map_values(f) =~= prefix.map_values(f).push(pages[n - 1].items@));
        prefix.map_values(f).lemma_flatten_push(pages[n - 1].items@);
    }
}

} // verus!
