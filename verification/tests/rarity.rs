use tradeup::domain::models::{Condition, Rarity as MarketRarity};
use tradeup::models::Rarity;

#[test]
fn from_str_reads_every_display_name() {
    assert_eq!(Rarity::from_str("Consumer Grade"), Some(Rarity::ConsumerGrade));
    assert_eq!(Rarity::from_str("Industrial Grade"), Some(Rarity::IndustrialGrade));
    assert_eq!(Rarity::from_str("Mil-Spec Grade"), Some(Rarity::MilSpec));
    assert_eq!(Rarity::from_str("Restricted"), Some(Rarity::Restricted));
    assert_eq!(Rarity::from_str("Classified"), Some(Rarity::Classified));
    assert_eq!(Rarity::from_str("Covert"), Some(Rarity::Covert));
}

#[test]
fn from_str_rejects_other_text() {
    assert_eq!(Rarity::from_str("Mil Spec"), None);
    assert_eq!(Rarity::from_str("covert"), None);
    assert_eq!(Rarity::from_str(""), None);
    assert_eq!(Rarity::from_str("Covert "), None);
}

#[test]
fn previous_steps_one_tier_down() {
    assert_eq!(Rarity::ConsumerGrade.previous(), None);
    assert_eq!(Rarity::IndustrialGrade.previous(), Some(Rarity::ConsumerGrade));
    assert_eq!(Rarity::MilSpec.previous(), Some(Rarity::IndustrialGrade));
    assert_eq!(Rarity::Restricted.previous(), Some(Rarity::MilSpec));
    assert_eq!(Rarity::Classified.previous(), Some(Rarity::Restricted));
    assert_eq!(Rarity::Covert.previous(), Some(Rarity::Classified));
}

#[test]
fn from_int_covers_the_scale() {
    assert_eq!(Rarity::from_int(0), None);
    assert_eq!(Rarity::from_int(1), Some(Rarity::ConsumerGrade));
    assert_eq!(Rarity::from_int(3), Some(Rarity::MilSpec));
    assert_eq!(Rarity::from_int(6), Some(Rarity::Covert));
    assert_eq!(Rarity::from_int(7), None);
    assert_eq!(Rarity::from_int(-1), None);
    assert_eq!(Rarity::from_int(i32::MAX), None);
}

#[test]
fn previous_agrees_with_the_scale() {
    for i in 2..=6 {
        assert_eq!(Rarity::from_int(i).unwrap().previous(), Rarity::from_int(i - 1));
    }
    assert_eq!(Rarity::from_int(1).unwrap().previous(), None);
}

#[test]
fn market_rarity_names() {
    assert_eq!(MarketRarity::from_str("Mil Spec"), Some(MarketRarity::MilSpec));
    assert_eq!(MarketRarity::from_str("Exceedingly Rare"), Some(MarketRarity::ExceedinglyRare));
    assert_eq!(MarketRarity::from_str("Mil-Spec Grade"), None);
    assert_eq!(MarketRarity::from_str("Consumer Grade"), Some(MarketRarity::ConsumerGrade));
}

#[test]
fn condition_labels() {
    assert_eq!(Condition::FactoryNew.label(), "Factory New");
    assert_eq!(Condition::MinimalWear.label(), "Minimal Wear");
    assert_eq!(Condition::FieldTested.label(), "Field-Tested");
    assert_eq!(Condition::WellWorn.label(), "Well-Worn");
    assert_eq!(Condition::BattleScarred.label(), "Battle-Scarred");
}
