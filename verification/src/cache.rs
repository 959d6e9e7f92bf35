use vstd::prelude::*;

use crate::api::market::MarketData;
use crate::api::metadata::Metadata;
use crate::domain::models::{rarity_named, Rarity, Skin};
use crate::lists::{is_kept, lemma_filter_map_as_filter};

verus! {

/// The last metadata entry named `name`, if there is one (later entries
/// replace earlier ones of the same name).
pub open spec fn last_metadata(meta: Seq<Metadata>, name: Seq<char>) -> Option<Metadata>
    decreases meta.len(),
{
    if meta.len() == 0 {
        None
    } else if meta.last().name@ == name {
        Some(meta.last())
    } else {
        last_metadata(meta.drop_last(), name)
    }
}

/// The market entries whose last metadata entry names a known rarity and both
/// wear bounds.
pub open spec fn has_usable_metadata(meta: Seq<Metadata>) -> spec_fn(MarketData) -> bool {
    |mk: MarketData| last_metadata(meta, mk.hash_name@) matches Some(m) && rarity_named(m.rarity.name@) is Some
        && m.min_float_bits is Some && m.max_float_bits is Some
}

/// A market entry joined with its metadata: present when the metadata names
/// a known rarity and both wear bounds.
pub open spec fn joined_skin(meta: Seq<Metadata>, mk: MarketData) -> Option<Skin> {
    match last_metadata(meta, mk.hash_name@) {
        Some(m) => if rarity_named(m.rarity.name@) is Some && m.min_float_bits is Some && m.max_float_bits is Some {
            Some(Skin {
                hash_name: mk.hash_name,
                collection: None,
                rarity: rarity_named(m.rarity.name@)->0,
                stattrak: m.stattrak,
                min_float_bits: m.min_float_bits->0,
                max_float_bits: m.max_float_bits->0,
                sell_price: mk.sell_price,
                formatted_price: mk.formatted_price,
                sell_listings: mk.sell_listings,
            })
        } else {
            None
        },
        None => None,
    }
}

/// The last metadata entry named `name`.
pub fn find_metadata<'a>(meta: &'a Vec<Metadata>, name: &str) -> (res: Option<&'a Metadata>)
    ensures
        match res {
            Some(m) => last_metadata(meta@, name@) == Some(*m),
            None => last_metadata(meta@, name@) is None,
        },
{
    let mut i: usize = meta.len();
    assert(meta@.take(meta@.len() as int) =~= meta@);
    while i > 0
        invariant
            i <= meta@.len(),
            last_metadata(meta@, name@) == last_metadata(meta@.take(i as int), name@),
        decreases i,
    {
        let j = i - 1;
        proof {
            assert(meta@.take(i as int).drop_last() =~= meta@.take(j as int));
            assert(meta@.take(i as int).last() == meta@[j as int]);
        }
        if crate::text::str_eq(meta[j].name.as_str(), name) {
            return Some(&meta[j]);
        }
        i = j;
    }
    None
}

/// Joins the market entries with the skin metadata by name, in market order;
/// entries without metadata, with an unknown rarity or without wear bounds
/// are dropped.
pub fn construct_skins(market_data: Vec<MarketData>, meta_data: &Vec<Metadata>) -> (res: Vec<Skin>)
    ensures
        res@ == market_data@.filter_map(|mk: MarketData| joined_skin(meta_data@, mk)),
        res@.len() == market_data@.filter(has_usable_metadata(meta_data@)).len(),
        forall|k: int| 0 <= k < res@.len() ==> {
            let mk = market_data@.filter(has_usable_metadata(meta_data@))[k];
            let m = last_metadata(meta_data@, mk.hash_name@)->0;
            &&& (#[trigger] res@[k]).hash_name == mk.hash_name
            &&& res@[k].collection is None
            &&& res@[k].rarity == rarity_named(m.rarity.name@)->0
            &&& res@[k].stattrak == m.stattrak
            &&& res@[k].min_float_bits == m.min_float_bits->0
            &&& res@[k].max_float_bits == m.max_float_bits->0
            &&& res@[k].sell_price == mk.sell_price
            &&& res@[k].formatted_price == mk.formatted_price
            &&& res@[k].sell_listings == mk.sell_listings
        },
{
    let ghost ms = market_data@;
    let ghost n = ms.len() as int;
    let mut res: Vec<Skin> = Vec::new();
    let mut rest = market_data;
    let mut i: usize = 0;
    assert(rest@.len() == rest.len());
    assert(ms.skip(0) =~= ms);
    while rest.len() > 0
        invariant
            n == ms.len(),
            n <= usize::MAX,
            i <= n,
            rest@ == ms.skip(i as int),
            res@ == ms.take(i as int).filter_map(|mk: MarketData| joined_skin(meta_data@, mk)),
        decreases rest@.len(),
    {
        let mk = rest.remove(0);
        proof {
            assert(mk == ms[i as int]);
            assert(rest@ =~= ms.skip(i + 1));
            ms.lemma_filter_map_take_succ(|mk: MarketData| joined_skin(meta_data@, mk), i as int);
        }
        match find_metadata(meta_data, mk.hash_name.as_str()) {
            Some(m) => {
                match Rarity::from_str(m.rarity.name.as_str()) {
                    Some(rarity) => {
                        match (m.min_float_bits, m.max_float_bits) {
                            (Some(lo), Some(hi)) => {
                                res.push(Skin {
                                    hash_name: mk.hash_name,
                                    collection: None,
                                    rarity,
                                    stattrak: m.stattrak,
                                    min_float_bits: lo,
                                    max_float_bits: hi,
                                    sell_price: mk.sell_price,
                                    formatted_price: mk.formatted_price,
                                    sell_listings: mk.sell_listings,
                                });
                            },
                            _ => {},
                        }
                    },
                    None => {},
                }
            },
            None => {},
        }
        proof {
            assert(res@ =~= ms.take(i + 1).filter_map(|mk: MarketData| joined_skin(meta_data@, mk)));
        }
        i = i + 1;
    }
    assert(ms.take(n) =~= ms);
    proof {
        let f = |mk: MarketData| joined_skin(meta_data@, mk);
        lemma_filter_map_as_filter(ms, f);
        assert(is_kept(f) =~= has_usable_metadata(meta_data@));
        assert forall|k: int| 0 <= k < res@.len() implies {
            let mk = ms.filter(has_usable_metadata(meta_data@))[k];
            let m = last_metadata(meta_data@, mk.hash_name@)->0;
            &&& (#[trigger] res@[k]).hash_name == mk.hash_name
            &&& res@[k].collection is None
            &&& res@[k].rarity == rarity_named(m.rarity.name@)->0
            &&& res@[k].stattrak == m.stattrak
            &&& res@[k].min_float_bits == m.min_float_bits->0
            &&& res@[k].max_float_bits == m.max_float_bits->0
            &&& res@[k].sell_price == mk.sell_price
            &&& res@[k].formatted_price == mk.formatted_price
            &&& res@[k].sell_listings == mk.sell_listings
        } by {
            assert(f(ms.filter(is_kept(f))[k]) == Some(ms.filter_map(f)[k]));
        }
    }
    res
}

/// Prices already looked up, by market name.
pub struct PriceCache {
    pub prices: vstd::hash_map::StringHashMap<u64>,
}

impl PriceCache {
    /// The prices known, by market name.
    pub open spec fn view(&self) -> Map<Seq<char>, u64> {
        self.prices@
    }

    /// A cache that knows no price.
    pub fn new() -> (res: PriceCache)
        ensures
            res.view() == Map::<Seq<char>, u64>::empty(),
    {
        PriceCache { prices: vstd::hash_map::StringHashMap::new() }
    }

    /// The price recorded for `name`, if there is one.
    pub fn cached_price(&self, name: &str) -> (res: Option<u64>)
        ensures
            match res {
                Some(p) => self.view().contains_key(name@) && self.view()[name@] == p,
                None => !self.view().contains_key(name@),
            },
    {
        match self.prices.get(name) {
            Some(p) => Some(*p),
            None => None,
        }
    }

    /// A price read right after it was recorded is the recorded price, and
    /// recording leaves the prices of other names as they were.
    pub proof fn lemma_read_after_record(before: PriceCache, after: PriceCache, name: Seq<char>, price: u64)
        requires
            after.view() == before.view().insert(name, price),
        ensures
            after.view().contains_key(name),
            after.view()[name] == price,
            forall|other: Seq<char>| other != name ==> (#[trigger] after.view().contains_key(other)
                == before.view().contains_key(other)) && (before.view().contains_key(other)
                ==> after.view()[other] == before.view()[other]),
    {
    }

    /// Records the price of `name`, replacing any earlier one.
    pub fn record(&mut self, name: String, price: u64)
        ensures
            final(self).view() == old(self).view().insert(name@, price),
    {
        self.prices.insert(name, price);
    }
}

} // verus!
