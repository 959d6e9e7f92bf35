use tradeup::api::market::{liquid_count, MarketData, MarketScan};
use tradeup::api::metadata::{Metadata as MarketMetadata, RarityWrapper as MarketRarityWrapper};
use tradeup::cache::{construct_skins, PriceCache};
use tradeup::data::build_skins;
use tradeup::data::bymekel::{
    paint_index_from_text, skins_from_metadata, CollectionsWrapper, InvalidPaintIndex, Metadata,
    RarityWrapper,
};
use tradeup::data::market::csfloat::{
    average_price, inputs_from_listings, paint_query_url, price_query_url,
};
use tradeup::data::{ApiSkin, MarketSkin};
use tradeup::domain::models::Rarity as MarketRarity;
use tradeup::models::{CSFloatResponse, Item, Listing, Rarity};

fn listing(price: u64, rarity: i32) -> Listing {
    Listing {
        price,
        item: Item {
            float_value_bits: 0.03f64.to_bits(),
            market_hash_name: format!("item {}", price),
            collection: "Dust".to_string(),
            rarity,
        },
    }
}

fn entry(name: &str, listings: u32) -> MarketData {
    MarketData {
        hash_name: name.to_string(),
        sell_price: 100,
        formatted_price: "$1.00".to_string(),
        sell_listings: listings,
    }
}

#[test]
fn price_query_encodes_the_name() {
    let url = price_query_url("AK-47 | Redline (Field-Tested)", 1);
    assert_eq!(
        url,
        "https://csfloat.com/api/v1/listings?limit=1&sort_by=lowest_price&market_hash_name=AK-47%20%7C%20Redline%20%28Field-Tested%29&category=1&type=buy_now"
    );
    let url = price_query_url("StatTrak™ M4A4", 25);
    assert!(url.contains("market_hash_name=StatTrak%E2%84%A2%20M4A4&"));
    assert!(url.contains("?limit=25&"));
}

#[test]
fn paint_query_lists_the_fields() {
    assert_eq!(
        paint_query_url(282, "0.0875", 1),
        "https://csfloat.com/api/v1/listings?limit=1&sort_by=lowest_price&paint_index=282&category=1&max_float=0.0875&type=buy_now"
    );
    assert!(paint_query_url(-3, "1", -2).contains("?limit=-2&sort_by=lowest_price&paint_index=-3&"));
}

#[test]
fn average_price_rounds_down() {
    assert_eq!(average_price(&vec![listing(10, 3), listing(11, 3)]), 10);
    assert_eq!(average_price(&vec![listing(7, 1)]), 7);
    assert_eq!(average_price(&Vec::new()), 0);
    assert_eq!(average_price(&vec![listing(u64::MAX, 1), listing(u64::MAX, 1)]), u64::MAX);
}

#[test]
fn response_without_data_has_no_listings() {
    assert!(CSFloatResponse { data: None }.listings().is_empty());
    assert_eq!(CSFloatResponse { data: Some(vec![listing(3, 1)]) }.listings().len(), 1);
}

#[test]
fn listings_become_inputs_when_rarity_known() {
    let inputs = inputs_from_listings(vec![listing(5, 3), listing(6, 9), listing(7, 4)]);
    assert_eq!(inputs.len(), 2);
    assert_eq!(inputs[0].price, 5);
    assert_eq!(inputs[0].rarity, Rarity::MilSpec);
    assert_eq!(inputs[1].rarity, Rarity::Restricted);
    assert_eq!(inputs[1].market_hash_name, "item 7");
    assert_eq!(inputs[1].min_float_bits, None);
}

#[test]
fn paint_index_text() {
    assert_eq!(paint_index_from_text(None), Ok(None));
    assert_eq!(paint_index_from_text(Some("282")), Ok(Some(282)));
    assert_eq!(paint_index_from_text(Some("-5")), Ok(Some(-5)));
    assert_eq!(paint_index_from_text(Some("28x")), Err(InvalidPaintIndex));
    assert_eq!(paint_index_from_text(Some("")), Err(InvalidPaintIndex));
}

fn meta(name: &str, paint: Option<i32>, rarity: &str, collections: &[&str]) -> Metadata {
    Metadata {
        name: name.to_string(),
        paint_index: paint,
        min_float_bits: Some(0.0f64.to_bits()),
        max_float_bits: Some(1.0f64.to_bits()),
        rarity: RarityWrapper { name: rarity.to_string() },
        collections: collections.iter().map(|c| CollectionsWrapper { name: c.to_string() }).collect(),
    }
}

#[test]
fn metadata_becomes_skins_when_complete() {
    let mut no_float = meta("C", Some(3), "Covert", &["Dust"]);
    no_float.max_float_bits = None;
    let data = vec![
        meta("A", Some(1), "Mil-Spec Grade", &["Dust", "Other"]),
        meta("B", None, "Covert", &["Dust"]),
        no_float,
        meta("D", Some(4), "Contraband", &["Dust"]),
        meta("E", Some(5), "Covert", &[]),
        meta("F", Some(6), "Classified", &["Lake"]),
    ];
    let skins = skins_from_metadata(&data);
    assert_eq!(skins.len(), 2);
    assert_eq!(skins[0].name, "A");
    assert_eq!(skins[0].collections, "Dust");
    assert_eq!(skins[0].rarity, Rarity::MilSpec);
    assert_eq!(skins[1].name, "F");
    assert_eq!(skins[1].paint_index, 6);
}

#[test]
fn build_skins_joins_on_the_last_market_entry() {
    let metadata = vec![
        ApiSkin {
            market_hash_name: "A".to_string(),
            collections: vec!["Dust".to_string()],
            rarity: Rarity::Covert,
            stattrak: true,
            min_float_bits: 0,
            max_float_bits: 1,
        },
        ApiSkin {
            market_hash_name: "B".to_string(),
            collections: vec![],
            rarity: Rarity::MilSpec,
            stattrak: false,
            min_float_bits: 0,
            max_float_bits: 1,
        },
    ];
    let market = vec![
        MarketSkin { market_hash_name: "A".to_string(), lowest_sell_bits: 1.5f32.to_bits() },
        MarketSkin { market_hash_name: "A".to_string(), lowest_sell_bits: 2.5f32.to_bits() },
    ];
    let skins = build_skins(metadata, market);
    assert_eq!(skins.len(), 1);
    assert_eq!(skins[0].market_hash_name, "A");
    assert_eq!(f32::from_bits(skins[0].lowest_sell_bits), 2.5);
    assert!(skins[0].stattrak);
}

#[test]
fn construct_skins_joins_market_with_metadata() {
    let metas = vec![
        MarketMetadata {
            name: "A".to_string(),
            min_float_bits: Some(0.0f32.to_bits()),
            max_float_bits: Some(0.5f32.to_bits()),
            rarity: MarketRarityWrapper { name: "Covert".to_string() },
            stattrak: false,
        },
        MarketMetadata {
            name: "B".to_string(),
            min_float_bits: None,
            max_float_bits: Some(0.5f32.to_bits()),
            rarity: MarketRarityWrapper { name: "Covert".to_string() },
            stattrak: false,
        },
        MarketMetadata {
            name: "C".to_string(),
            min_float_bits: Some(0.0f32.to_bits()),
            max_float_bits: Some(0.5f32.to_bits()),
            rarity: MarketRarityWrapper { name: "Mil-Spec Grade".to_string() },
            stattrak: false,
        },
    ];
    let market = vec![entry("B", 500), entry("A", 300), entry("Z", 200), entry("C", 100)];
    let skins = construct_skins(market, &metas);
    assert_eq!(skins.len(), 1);
    assert_eq!(skins[0].hash_name, "A");
    assert_eq!(skins[0].rarity, MarketRarity::Covert);
    assert_eq!(skins[0].collection, None);
    assert_eq!(skins[0].sell_listings, 300);
}

#[test]
fn liquid_prefix_stops_at_the_first_thin_entry() {
    let page = vec![entry("a", 500), entry("b", 100), entry("c", 99), entry("d", 1000)];
    assert_eq!(liquid_count(&page), 2);
    assert_eq!(liquid_count(&Vec::new()), 0);
}

#[test]
fn market_scan_pages_until_a_short_page() {
    let mut scan = MarketScan::new();
    assert_eq!(scan.next_start(), Some(0));
    let full: Vec<MarketData> = (0..10).map(|i| entry(&format!("s{}", i), 1000)).collect();
    scan.absorb(full);
    assert_eq!(scan.next_start(), Some(10));
    let mut short: Vec<MarketData> = (0..9).map(|i| entry(&format!("t{}", i), 1000)).collect();
    short.push(entry("thin", 5));
    short.push(entry("late", 5000));
    scan.absorb(short);
    assert_eq!(scan.next_start(), None);
    let skins = scan.finish();
    assert_eq!(skins.len(), 19);
    assert_eq!(skins[18].hash_name, "t8");
}

#[test]
fn price_cache_reads_what_was_recorded() {
    let mut cache = PriceCache::new();
    assert_eq!(cache.cached_price("AK-47 | Red (Factory New)"), None);
    cache.record("AK-47 | Red (Factory New)".to_string(), 1234);
    cache.record("AWP | Green (Factory New)".to_string(), 77);
    assert_eq!(cache.cached_price("AK-47 | Red (Factory New)"), Some(1234));
    cache.record("AK-47 | Red (Factory New)".to_string(), 1300);
    assert_eq!(cache.cached_price("AK-47 | Red (Factory New)"), Some(1300));
    assert_eq!(cache.cached_price("AWP | Green (Factory New)"), Some(77));
}
