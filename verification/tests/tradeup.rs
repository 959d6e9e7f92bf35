use tradeup::domain::models::Condition;
use tradeup::engine::tradeup::{
    CollectionGroup, Collections, RarityGroup,
    assemble_tradeup, cheapest_input, dedup_by_collection, evaluate_target, get_valid_targets,
    group_skins, input_pool, is_profitable, make_output, market_hash_name, total_cost, value_bounds,
};
use tradeup::engine::tradeup_discovery;
use tradeup::models::{Rarity, Skin, TradeUpInput, TradeUpOutput};

fn skin(name: &str, paint: i32, rarity: Rarity, collection: &str) -> Skin {
    Skin {
        name: name.to_string(),
        paint_index: paint,
        min_float_bits: 0.0f64.to_bits(),
        max_float_bits: 0.8f64.to_bits(),
        rarity,
        collections: collection.to_string(),
    }
}

fn input(name: &str, price: u64, collection: &str) -> TradeUpInput {
    TradeUpInput {
        market_hash_name: name.to_string(),
        float_value_bits: 0.05f64.to_bits(),
        price,
        rarity: Rarity::MilSpec,
        collection: collection.to_string(),
        min_float_bits: None,
        max_float_bits: None,
    }
}

fn output(price: u64) -> TradeUpOutput {
    TradeUpOutput {
        market_hash_name: format!("out {}", price),
        float_value_bits: 0.1f64.to_bits(),
        price,
        rarity: Rarity::Restricted,
        collection: "C".to_string(),
        probability_bits: 0,
        min_float_bits: None,
        max_float_bits: None,
    }
}

fn sample_skins() -> Vec<Skin> {
    vec![
        skin("P250 | Sand", 1, Rarity::MilSpec, "Dust"),
        skin("AK-47 | Red", 2, Rarity::Restricted, "Dust"),
        skin("MP9 | Blue", 3, Rarity::MilSpec, "Lake"),
        skin("AWP | Green", 4, Rarity::Restricted, "Dust"),
        skin("AK-47 | Red", 5, Rarity::Restricted, "Lake"),
        skin("Nova | Gray", 6, Rarity::Restricted, "Vertigo"),
        skin("Glock | Dot", 7, Rarity::Classified, "Dust"),
    ]
}

#[test]
fn grouping_files_every_skin_in_order() {
    let groups = group_skins(sample_skins());
    assert_eq!(groups.groups.len(), 3);
    let dust_restricted = groups.tier_of("Dust", Rarity::Restricted).unwrap();
    let names: Vec<&str> = dust_restricted.iter().map(|s| s.name.as_str()).collect();
    assert_eq!(names, vec!["AK-47 | Red", "AWP | Green"]);
    assert_eq!(groups.tier_of("Dust", Rarity::MilSpec).unwrap().len(), 1);
    assert!(groups.tier_of("Dust", Rarity::Covert).is_none());
    assert!(groups.tier_of("Mirage", Rarity::MilSpec).is_none());
    let total: usize = groups.groups.iter().map(|g| g.tiers.iter().map(|t| t.skins.len()).sum::<usize>()).sum();
    assert_eq!(total, 7);
}

#[test]
fn grouping_in_discovery_matches() {
    let a = group_skins(sample_skins());
    let b = tradeup_discovery::group_skins(sample_skins());
    assert_eq!(a.groups.len(), b.groups.len());
    for (x, y) in a.groups.iter().zip(b.groups.iter()) {
        assert_eq!(x.name, y.name);
        assert_eq!(x.tiers.len(), y.tiers.len());
    }
}

#[test]
fn grouping_nothing_gives_no_collection() {
    let groups = group_skins(Vec::new());
    assert!(groups.groups.is_empty());
}

#[test]
fn valid_targets_are_sorted_and_distinct() {
    let groups = group_skins(sample_skins());
    let targets = get_valid_targets(&groups, &Rarity::MilSpec, &Rarity::Restricted);
    let names: Vec<&str> = targets.iter().map(|s| s.name.as_str()).collect();
    // "Vertigo" has no Mil-Spec skins; the AK-47 of "Dust" comes before the one of "Lake".
    assert_eq!(names, vec!["AK-47 | Red", "AWP | Green"]);
    assert_eq!(targets[0].paint_index, 2);
    assert_eq!(targets[0].collections, "Dust");
}

#[test]
fn valid_targets_without_input_tier_are_empty() {
    let groups = group_skins(sample_skins());
    assert!(get_valid_targets(&groups, &Rarity::Covert, &Rarity::Restricted).is_empty());
}

#[test]
fn retain_named_keeps_listed_collections() {
    let groups = group_skins(sample_skins());
    let kept = groups.retain_named(&vec!["Lake".to_string(), "Nowhere".to_string()]);
    assert_eq!(kept.groups.len(), 1);
    assert_eq!(kept.groups[0].name, "Lake");
    assert!(kept.tier_of("Dust", Rarity::MilSpec).is_none());
}

#[test]
fn input_pool_is_one_tier_below() {
    let groups = group_skins(sample_skins());
    let target = skin("AK-47 | Red", 2, Rarity::Restricted, "Dust");
    let pool = input_pool(&groups, &target).unwrap();
    assert_eq!(pool.len(), 1);
    assert_eq!(pool[0].name, "P250 | Sand");
    let lowest = skin("X", 9, Rarity::ConsumerGrade, "Dust");
    assert!(input_pool(&groups, &lowest).is_none());
    let no_pool = skin("Nova | Gray", 6, Rarity::Restricted, "Vertigo");
    assert!(input_pool(&groups, &no_pool).is_none());
}

#[test]
fn market_names_carry_the_wear() {
    assert_eq!(market_hash_name("AK-47 | Redline", Condition::FactoryNew), "AK-47 | Redline (Factory New)");
    assert_eq!(market_hash_name("", Condition::WellWorn), " (Well-Worn)");
}

#[test]
fn cheapest_input_takes_the_first_of_the_cheapest() {
    let inputs = vec![input("a", 30, "X"), input("b", 10, "X"), input("c", 10, "X"), input("d", 20, "X")];
    assert_eq!(cheapest_input(&inputs).unwrap().market_hash_name, "b");
    assert!(cheapest_input(&Vec::new()).is_none());
}

#[test]
fn profit_needs_more_than_ten_inputs() {
    assert!(is_profitable(101, 10));
    assert!(!is_profitable(100, 10));
    assert!(!is_profitable(0, 0));
    assert!(is_profitable(u64::MAX, u64::MAX / 10));
    assert!(!is_profitable(u64::MAX, u64::MAX));
}

#[test]
fn evaluate_target_keeps_profitable_targets() {
    let target = skin("AK-47 | Red", 2, Rarity::Restricted, "Dust");
    let pool = vec![skin("P250 | Sand", 1, Rarity::MilSpec, "Dust"), skin("MP7 | Sky", 8, Rarity::MilSpec, "Dust")];
    let samples = vec![Some(input("P250 | Sand (FN)", 12, "?")), Some(input("MP7 | Sky (FN)", 9, "?"))];
    let (t, chosen) = evaluate_target(target.clone(), 91, &pool, &samples).unwrap();
    assert_eq!(t, target);
    assert_eq!(chosen.market_hash_name, "MP7 | Sky (FN)");
    assert_eq!(chosen.price, 9);
    assert_eq!(chosen.collection, "Dust");
    assert_eq!(chosen.rarity, Rarity::MilSpec);
    assert_eq!(chosen.min_float_bits, Some(pool[1].min_float_bits));
    assert_eq!(chosen.max_float_bits, Some(pool[1].max_float_bits));
}

#[test]
fn evaluate_target_drops_unprofitable_or_unsampled() {
    let target = skin("AK-47 | Red", 2, Rarity::Restricted, "Dust");
    let pool = vec![skin("P250 | Sand", 1, Rarity::MilSpec, "Dust")];
    assert!(evaluate_target(target.clone(), 90, &pool, &vec![Some(input("p", 9, "?"))]).is_none());
    assert!(evaluate_target(target.clone(), 1000, &pool, &vec![None]).is_none());
}

#[test]
fn dedup_keeps_the_cheapest_pair_per_collection() {
    let t1 = skin("A", 1, Rarity::Restricted, "Dust");
    let t2 = skin("B", 2, Rarity::Restricted, "Lake");
    let t3 = skin("C", 3, Rarity::Restricted, "Dust");
    let t4 = skin("D", 4, Rarity::Restricted, "Dust");
    let pairs = vec![
        (t1, input("i1", 50, "Dust")),
        (t2.clone(), input("i2", 40, "Lake")),
        (t3.clone(), input("i3", 30, "Dust")),
        (t4, input("i4", 30, "Dust")),
    ];
    let kept = dedup_by_collection(pairs);
    assert_eq!(kept.len(), 2);
    assert_eq!(kept[0].0, t3);
    assert_eq!(kept[0].1.market_hash_name, "i3");
    assert_eq!(kept[1].0, t2);
    assert!(dedup_by_collection(Vec::new()).is_empty());
}

#[test]
fn outputs_and_trade_up_values() {
    let s = skin("AWP | Green", 4, Rarity::Restricted, "Dust");
    let o = make_output(&s, Condition::MinimalWear, 0.1f64.to_bits(), 700);
    assert_eq!(o.market_hash_name, "AWP | Green (Minimal Wear)");
    assert_eq!(o.price, 700);
    assert_eq!(o.collection, "Dust");
    assert_eq!(o.probability_bits, 0);
    assert_eq!(o.min_float_bits, Some(s.min_float_bits));

    assert_eq!(value_bounds(&vec![output(5), output(3), output(9)]), (3, 9));
    assert_eq!(value_bounds(&Vec::new()), (0, 1));
    assert_eq!(total_cost(&input("x", 25, "Dust")), 250);

    let t = assemble_tradeup(input("x", 25, "Dust"), vec![output(100), output(400)], 7, 8);
    assert_eq!(t.input_count, 10);
    assert_eq!(t.filler, None);
    assert_eq!(t.filler_count, 0);
    assert_eq!(t.total_cost, 250);
    assert_eq!(t.worst_value, 100);
    assert_eq!(t.best_value, 400);
    assert_eq!(t.ev_bits, 7);
    assert_eq!(t.roi_bits, 8);
    assert_eq!(t.outputs.len(), 2);

    let empty = assemble_tradeup(input("x", 1, "Dust"), Vec::new(), 0, 0);
    assert_eq!((empty.worst_value, empty.best_value), (0, 1));
}

fn tier(rarity: Rarity, skins: Vec<Skin>) -> RarityGroup {
    RarityGroup { rarity, skins }
}

fn collection(name: &str, tiers: Vec<RarityGroup>) -> CollectionGroup {
    CollectionGroup { name: name.to_string(), tiers }
}

#[test]
fn valid_targets_count_an_empty_input_tier() {
    let collections = Collections {
        groups: vec![
            collection(
                "P",
                vec![
                    tier(Rarity::MilSpec, vec![]),
                    tier(
                        Rarity::Restricted,
                        vec![skin("Zeta", 1, Rarity::Restricted, "P"), skin("Alpha", 1, Rarity::Restricted, "P")],
                    ),
                ],
            ),
            collection("Q", vec![tier(Rarity::Restricted, vec![skin("Beta", 1, Rarity::Restricted, "Q")])]),
            collection(
                "R",
                vec![tier(Rarity::MilSpec, vec![]), tier(Rarity::Restricted, vec![skin("Zeta", 1, Rarity::Restricted, "R")])],
            ),
        ],
    };
    let targets = get_valid_targets(&collections, &Rarity::MilSpec, &Rarity::Restricted);
    let names: Vec<&str> = targets.iter().map(|s| s.name.as_str()).collect();
    // "Q" has no Mil-Spec tier; the two Zetas collapse into the first one.
    assert_eq!(names, vec!["Alpha", "Zeta"]);
    assert_eq!(targets[1].collections, "P");
    // An empty tier is still a tier: its pool is present and empty.
    let pool = input_pool(&collections, &targets[0]).unwrap();
    assert!(pool.is_empty());
    assert!(collections.tier_of("P", Rarity::MilSpec).unwrap().is_empty());
    assert!(collections.tier_of("Q", Rarity::MilSpec).is_none());
}

#[test]
fn grouping_opens_only_the_tiers_its_skins_carry() {
    let x = skin("x", 1, Rarity::MilSpec, "A");
    let y = skin("y", 1, Rarity::Restricted, "B");
    let z = skin("z", 1, Rarity::MilSpec, "A");
    for groups in [group_skins(vec![x.clone(), y.clone(), z.clone()]), tradeup_discovery::group_skins(vec![x.clone(), y.clone(), z.clone()])] {
        assert_eq!(groups.groups.len(), 2);
        assert_eq!(groups.tier_of("A", Rarity::MilSpec).unwrap(), &vec![x.clone(), z.clone()]);
        assert_eq!(groups.tier_of("B", Rarity::Restricted).unwrap(), &vec![y.clone()]);
        assert!(groups.tier_of("A", Rarity::Restricted).is_none());
        assert!(groups.tier_of("B", Rarity::MilSpec).is_none());
        let tiers: usize = groups.groups.iter().map(|g| g.tiers.len()).sum();
        assert_eq!(tiers, 2);
    }
}
