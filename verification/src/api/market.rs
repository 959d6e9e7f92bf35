use vstd::prelude::*;

verus! {

/// One entry of a market search page.
#[derive(Debug, PartialEq)]
pub struct MarketData {
    pub hash_name: String,
    pub sell_price: u32,
    pub formatted_price: String,
    pub sell_listings: u32,
}

/// Entries with at least this many sell listings are liquid.
pub const MIN_SELL_LISTINGS: u32 = 100;

/// A page continues the search when it brings at least this many liquid entries.
pub const PAGE_STEP: u32 = 10;

/// The number of leading entries of a page that are liquid (the page is
/// sorted by listing count, so the search stops at the first that is not).
pub open spec fn liquid_len(page: Seq<MarketData>) -> nat
    decreases page.len(),
{
    if page.len() == 0 {
        0
    } else if page[0].sell_listings >= MIN_SELL_LISTINGS {
        1 + liquid_len(page.drop_first())
    } else {
        0
    }
}

/// The number of leading liquid entries of a page.
pub fn liquid_count(page: &Vec<MarketData>) -> (res: usize)
    ensures
        res == liquid_len(page@),
        res <= page@.len(),
        forall|k: int| 0 <= k < res ==> #[trigger] page@[k].sell_listings >= MIN_SELL_LISTINGS,
        res < page@.len() ==> page@[res as int].sell_listings < MIN_SELL_LISTINGS,
{
    let mut i: usize = 0;
    proof {
        assert(page@.skip(0) =~= page@);
    }
    while i < page.len() && page[i].sell_listings >= MIN_SELL_LISTINGS
        invariant
            i <= page@.len(),
            liquid_len(page@) == i + liquid_len(page@.skip(i as int)),
            forall|k: int| 0 <= k < i ==> #[trigger] page@[k].sell_listings >= MIN_SELL_LISTINGS,
        decreases page@.len() - i,
    {
        proof {
            assert(page@.skip(i as int).drop_first() =~= page@.skip(i + 1));
            assert(page@.skip(i as int)[0] == page@[i as int]);
        }
        i = i + 1;
    }
    proof {
        if i < page@.len() {
            assert(page@.skip(i as int)[0] == page@[i as int]);
        }
    }
    i
}

/// The state of a paged market search: the entries gathered, the offset of
/// the next page, and whether the search is over.
pub struct MarketScan {
    pub skins: Vec<MarketData>,
    pub start: u32,
    pub done: bool,
}

impl MarketScan {
    /// A search that has gathered nothing and asks for the first page.
    pub fn new() -> (res: MarketScan)
        ensures
            res.skins@.len() == 0,
            res.start == 0,
            !res.done,
    {
        MarketScan { skins: Vec::new(), start: 0, done: false }
    }

    /// The offset of the page to fetch next, or `None` when the search is over.
    pub fn next_start(&self) -> (res: Option<u32>)
        ensures
            res == if self.done { None } else { Some(self.start) },
    {
        if self.done {
            None
        } else {
            Some(self.start)
        }
    }

    /// Takes in a fetched page: its leading liquid entries are gathered; the
    /// search goes on to the next page only when there were at least ten of them.
    pub fn absorb(&mut self, page: Vec<MarketData>)
        requires
            !old(self).done,
            liquid_len(page@) >= PAGE_STEP ==> old(self).start + PAGE_STEP <= u32::MAX,
        ensures
            final(self).skins@ == old(self).skins@ + page@.take(liquid_len(page@) as int),
            final(self).done == (liquid_len(page@) < PAGE_STEP),
            final(self).start == if liquid_len(page@) >= PAGE_STEP {
                old(self).start + PAGE_STEP
            } else {
                old(self).start as int
            },
    {
        let n = liquid_count(&page);
        let mut page = page;
        let ghost p0 = page@;
        page.truncate(n);
        assert(page@ =~= p0.take(n as int));
        self.skins.append(&mut page);
        if n < PAGE_STEP as usize {
            self.done = true;
        } else {
            self.start = self.start + PAGE_STEP;
        }
    }

    /// The entries gathered.
    pub fn finish(self) -> (res: Vec<MarketData>)
        ensures
            res@ == self.skins@,
    {
        self.skins
    }
}

} // verus!
