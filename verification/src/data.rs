pub mod bymekel;
pub mod market;

use vstd::prelude::*;

use crate::lists::{is_kept, lemma_filter_map_as_filter};
use crate::models::Rarity;

verus! {

/// A market entry: a market name and its lowest sell price (as the bit
/// pattern of a 32-bit float).
pub struct MarketSkin {
    pub market_hash_name: String,
    pub lowest_sell_bits: u32,
}

/// A skin of the metadata feed (wear bounds as 32-bit float bit patterns).
pub struct ApiSkin {
    pub market_hash_name: String,
    pub collections: Vec<String>,
    pub rarity: Rarity,
    pub stattrak: bool,
    pub min_float_bits: u32,
    pub max_float_bits: u32,
}

/// A skin of the metadata feed together with its lowest market sell price.
pub struct ListedSkin {
    pub market_hash_name: String,
    pub rarity: Rarity,
    pub stattrak: bool,
    pub collections: Vec<String>,
    pub min_float_bits: u32,
    pub max_float_bits: u32,
    pub lowest_sell_bits: u32,
}

/// The last market entry named `name`, if there is one (later entries
/// replace earlier ones of the same name).
pub open spec fn last_market_entry(market: Seq<MarketSkin>, name: Seq<char>) -> Option<MarketSkin>
    decreases market.len(),
{
    if market.len() == 0 {
        None
    } else if market.last().market_hash_name@ == name {
        Some(market.last())
    } else {
        last_market_entry(market.drop_last(), name)
    }
}

/// The metadata skins that have a market entry.
pub open spec fn has_market_entry(market: Seq<MarketSkin>) -> spec_fn(ApiSkin) -> bool {
    |m: ApiSkin| last_market_entry(market, m.market_hash_name@) is Some
}

/// A metadata skin with the price of its market entry, when there is one.
pub open spec fn listed_skin(market: Seq<MarketSkin>, meta: ApiSkin) -> Option<ListedSkin> {
    match last_market_entry(market, meta.market_hash_name@) {
        Some(entry) => Some(ListedSkin {
            market_hash_name: meta.market_hash_name,
            rarity: meta.rarity,
            stattrak: meta.stattrak,
            collections: meta.collections,
            min_float_bits: meta.min_float_bits,
            max_float_bits: meta.max_float_bits,
            lowest_sell_bits: entry.lowest_sell_bits,
        }),
        None => None,
    }
}

/// The last market entry named `name`.
pub fn find_market_entry<'a>(market: &'a Vec<MarketSkin>, name: &str) -> (res: Option<&'a MarketSkin>)
    ensures
        match res {
            Some(e) => last_market_entry(market@, name@) == Some(*e),
            None => last_market_entry(market@, name@) is None,
        },
{
    let mut i: usize = market.len();
    assert(market@.take(market@.len() as int) =~= market@);
    while i > 0
        invariant
            i <= market@.len(),
            last_market_entry(market@, name@) == last_market_entry(market@.take(i as int), name@),
        decreases i,
    {
        let j = i - 1;
        proof {
            assert(market@.take(i as int).drop_last() =~= market@.take(j as int));
            assert(market@.take(i as int).last() == market@[j as int]);
        }
        if crate::text::str_eq(market[j].market_hash_name.as_str(), name) {
            return Some(&market[j]);
        }
        i = j;
    }
    None
}

/// Joins the metadata skins with the market entries by market name, in
/// metadata order; skins without a market entry are dropped.
pub fn build_skins(metadata: Vec<ApiSkin>, marketdata: Vec<MarketSkin>) -> (res: Vec<ListedSkin>)
    ensures
        res@ == metadata@.filter_map(|m: ApiSkin| listed_skin(marketdata@, m)),
        res@.len() == metadata@.filter(has_market_entry(marketdata@)).len(),
        forall|k: int| 0 <= k < res@.len() ==> {
            let m = metadata@.filter(has_market_entry(marketdata@))[k];
            &&& (#[trigger] res@[k]).market_hash_name == m.market_hash_name
            &&& res@[k].rarity == m.rarity
            &&& res@[k].stattrak == m.stattrak
            &&& res@[k].collections == m.collections
            &&& res@[k].min_float_bits == m.min_float_bits
            &&& res@[k].max_float_bits == m.max_float_bits
            &&& res@[k].lowest_sell_bits == last_market_entry(marketdata@, m.market_hash_name@)->0.lowest_sell_bits
        },
{
    let ghost ms = metadata@;
    let mut res: Vec<ListedSkin> = Vec::new();
    let mut metadata = metadata;
    let mut rev: Vec<ApiSkin> = Vec::new();
    let ghost n = ms.len() as int;
    assert(metadata@.len() == metadata.len());
    assert(ms.take(n) =~= ms);
    while metadata.len() > 0
        invariant
            n == ms.len(),
            n <= usize::MAX,
            metadata@.len() + rev@.len() == n,
            metadata@ == ms.take(metadata@.len() as int),
            forall|k: int| 0 <= k < rev@.len() ==> #[trigger] rev@[k] == ms[n - 1 - k],
        decreases metadata@.len(),
    {
        let m = metadata.pop().unwrap();
        proof {
            assert(metadata@ =~= ms.take(metadata@.len() as int));
        }
        rev.push(m);
    }
    let mut i: usize = 0;
    while rev.len() > 0
        invariant
            n == ms.len(),
            n <= usize::MAX,
            i + rev@.len() == n,
            forall|k: int| 0 <= k < rev@.len() ==> #[trigger] rev@[k] == ms[n - 1 - k],
            res@ == ms.take(i as int).filter_map(|m: ApiSkin| listed_skin(marketdata@, m)),
        decreases rev@.len(),
    {
        let m = rev.pop().unwrap();
        proof {
            assert(m == ms[i as int]);
            ms.lemma_filter_map_take_succ(|m: ApiSkin| listed_skin(marketdata@, m), i as int);
        }
        match find_market_entry(&marketdata, m.market_hash_name.as_str()) {
            Some(entry) => {
                let price = entry.lowest_sell_bits;
                res.push(ListedSkin {
                    market_hash_name: m.market_hash_name,
                    rarity: m.rarity,
                    stattrak: m.stattrak,
                    collections: m.collections,
                    min_float_bits: m.min_float_bits,
                    max_float_bits: m.max_float_bits,
                    lowest_sell_bits: price,
                });
            },
            None => {},
        }
        proof {
            assert(res@ =~= ms.take(i + 1).filter_map(|m: ApiSkin| listed_skin(marketdata@, m)));
        }
        i = i + 1;
    }
    assert(ms.take(n) =~= ms);
    proof {
        let f = |m: ApiSkin| listed_skin(marketdata@, m);
        lemma_filter_map_as_filter(ms, f);
        assert(is_kept(f) =~= has_market_entry(marketdata@));
        assert forall|k: int| 0 <= k < res@.len() implies {
            let m = ms.filter(has_market_entry(marketdata@))[k];
            &&& (#[trigger] res@[k]).market_hash_name == m.market_hash_name
            &&& res@[k].rarity == m.rarity
            &&& res@[k].stattrak == m.stattrak
            &&& res@[k].collections == m.collections
            &&& res@[k].min_float_bits == m.min_float_bits
            &&& res@[k].max_float_bits == m.max_float_bits
            &&& res@[k].lowest_sell_bits == last_market_entry(marketdata@, m.market_hash_name@)->0.lowest_sell_bits
        } by {
            assert(f(ms.filter(is_kept(f))[k]) == Some(ms.filter_map(f)[k]));
        }
    }
    res
}

} // verus!
