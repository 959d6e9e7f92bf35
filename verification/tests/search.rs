use tradeup::cache::PriceCache;
use tradeup::engine::tradeup::{
    get_valid_targets, group_skins, CollectionGroup, Collections, ProfitSearch, RarityGroup, SearchAction,
};
use tradeup::models::{Rarity, Skin, TradeUpInput};

fn skin(name: &str, paint: i32, rarity: Rarity, collection: &str) -> Skin {
    Skin {
        name: name.to_string(),
        paint_index: paint,
        min_float_bits: 0.0f64.to_bits(),
        max_float_bits: 0.8f64.to_bits(),
        rarity,
        collections: collection.to_string(),
    }
}

fn listing(name: &str, price: u64) -> TradeUpInput {
    TradeUpInput {
        market_hash_name: name.to_string(),
        float_value_bits: 0.05f64.to_bits(),
        price,
        rarity: Rarity::MilSpec,
        collection: String::new(),
        min_float_bits: None,
        max_float_bits: None,
    }
}

fn catalogue() -> Vec<Skin> {
    vec![
        skin("P250 | Sand", 1, Rarity::MilSpec, "Dust"),
        skin("MP7 | Sky", 8, Rarity::MilSpec, "Dust"),
        skin("AK-47 | Red", 2, Rarity::Restricted, "Dust"),
        skin("AWP | Green", 4, Rarity::Restricted, "Dust"),
        skin("Nova | Gray", 6, Rarity::Restricted, "Vertigo"),
    ]
}

/// Runs the search to its end, answering each request; returns the names whose
/// price was asked for, the names whose price came from the cache, and the
/// (target, skin) pairs whose listing was asked for.
fn drive(
    search: &mut ProfitSearch,
    price: u64,
    listing_price: impl Fn(&str) -> Option<u64>,
) -> (Vec<String>, Vec<String>, Vec<(String, String)>) {
    let mut prices = Vec::new();
    let mut hits = Vec::new();
    let mut listings = Vec::new();
    loop {
        match search.step() {
            SearchAction::FetchPrice(name) => {
                prices.push(name);
                search.on_price(price);
            }
            SearchAction::CachedPrice(name) => hits.push(name),
            SearchAction::FetchListing { target, skin } => {
                listings.push((target.name.clone(), skin.name.clone()));
                let found = listing_price(&skin.name).map(|p| listing(&format!("{} (Factory New)", skin.name), p));
                search.on_listing(found);
            }
            SearchAction::Finished => break,
        }
    }
    (prices, hits, listings)
}

#[test]
fn search_asks_uncached_prices_and_keeps_profitable_targets() {
    let groups = group_skins(catalogue());
    let candidates = get_valid_targets(&groups, &Rarity::MilSpec, &Rarity::Restricted);
    let mut cache = PriceCache::new();
    cache.record("AWP | Green (Factory New)".to_string(), 50);
    let mut search = ProfitSearch::new(&groups, candidates, cache);
    let (prices, hits, listings) = drive(&mut search, 1000, |name| if name == "P250 | Sand" { Some(20) } else { Some(15) });
    // Only the price that the cache lacks is asked for; the other is reported as a cache hit.
    assert_eq!(prices, vec!["AK-47 | Red (Factory New)".to_string()]);
    assert_eq!(hits, vec!["AWP | Green (Factory New)".to_string()]);
    // Every skin of the input pool is sampled, for each target in turn.
    assert_eq!(
        listings,
        vec![
            ("AK-47 | Red".to_string(), "P250 | Sand".to_string()),
            ("AK-47 | Red".to_string(), "MP7 | Sky".to_string()),
            ("AWP | Green".to_string(), "P250 | Sand".to_string()),
            ("AWP | Green".to_string(), "MP7 | Sky".to_string()),
        ]
    );
    let (targets, cache) = search.into_targets();
    // 1000 > 10 * 15 keeps the AK-47; 50 <= 10 * 15 drops the AWP.
    assert_eq!(targets.len(), 1);
    assert_eq!(targets[0].0.name, "AK-47 | Red");
    assert_eq!(targets[0].1.market_hash_name, "MP7 | Sky (Factory New)");
    assert_eq!(targets[0].1.price, 15);
    assert_eq!(targets[0].1.collection, "Dust");
    assert_eq!(targets[0].1.min_float_bits, Some(0.0f64.to_bits()));
    // The price that was fetched is now cached, the cached one is kept.
    assert_eq!(cache.cached_price("AK-47 | Red (Factory New)"), Some(1000));
    assert_eq!(cache.cached_price("AWP | Green (Factory New)"), Some(50));
}

#[test]
fn search_without_listings_keeps_nothing() {
    let groups = group_skins(catalogue());
    let candidates = get_valid_targets(&groups, &Rarity::MilSpec, &Rarity::Restricted);
    let mut search = ProfitSearch::new(&groups, candidates, PriceCache::new());
    let (prices, hits, listings) = drive(&mut search, u64::MAX, |_| None);
    assert_eq!(prices.len(), 2);
    assert!(hits.is_empty());
    assert_eq!(listings.len(), 4);
    let (targets, cache) = search.into_targets();
    assert!(targets.is_empty());
    assert_eq!(cache.cached_price("AWP | Green (Factory New)"), Some(u64::MAX));
}

#[test]
fn search_over_no_candidates_finishes_at_once() {
    let groups = group_skins(catalogue());
    let mut search = ProfitSearch::new(&groups, Vec::new(), PriceCache::new());
    assert!(matches!(search.step(), SearchAction::Finished));
    // With nothing asked for, answers change nothing.
    search.on_price(7);
    search.on_listing(Some(listing("x", 1)));
    assert!(matches!(search.step(), SearchAction::Finished));
    let (targets, cache) = search.into_targets();
    assert!(targets.is_empty());
    assert_eq!(cache.cached_price("AK-47 | Red (Factory New)"), None);
}

#[test]
fn search_skips_a_target_whose_input_tier_is_empty() {
    let collections = Collections {
        groups: vec![CollectionGroup {
            name: "P".to_string(),
            tiers: vec![
                RarityGroup { rarity: Rarity::MilSpec, skins: vec![] },
                RarityGroup { rarity: Rarity::Restricted, skins: vec![skin("Alpha", 3, Rarity::Restricted, "P")] },
            ],
        }],
    };
    let candidates = get_valid_targets(&collections, &Rarity::MilSpec, &Rarity::Restricted);
    assert_eq!(candidates.len(), 1);
    let mut search = ProfitSearch::new(&collections, candidates, PriceCache::new());
    let (prices, hits, listings) = drive(&mut search, 1_000_000, |_| Some(1));
    // The price is still fetched, but an empty pool asks for no listing and keeps nothing.
    assert_eq!(prices, vec!["Alpha (Factory New)".to_string()]);
    assert!(hits.is_empty());
    assert!(listings.is_empty());
    let (targets, cache) = search.into_targets();
    assert!(targets.is_empty());
    assert_eq!(cache.cached_price("Alpha (Factory New)"), Some(1_000_000));
}
