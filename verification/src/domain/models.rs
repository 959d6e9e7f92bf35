use vstd::prelude::*;

verus! {

/// Rarity tiers as the market feed names them, including knives and gloves.
#[derive(Debug, Clone, Copy, PartialEq, Eq, Structural)]
pub enum Rarity {
    ConsumerGrade,
    IndustrialGrade,
    MilSpec,
    Restricted,
    Classified,
    Covert,
    ExceedinglyRare,
}

/// The name under which the market feed lists a rarity.
pub open spec fn rarity_name(r: Rarity) -> Seq<char> {
    match r {
        Rarity::ConsumerGrade => "Consumer Grade"@,
        Rarity::IndustrialGrade => "Industrial Grade"@,
        Rarity::MilSpec => "Mil Spec"@,
        Rarity::Restricted => "Restricted"@,
        Rarity::Classified => "Classified"@,
        Rarity::Covert => "Covert"@,
        Rarity::ExceedinglyRare => "Exceedingly Rare"@,
    }
}

/// The rarity the market feed names `s`, if there is one.
pub open spec fn rarity_named(s: Seq<char>) -> Option<Rarity> {
    if s == "Consumer Grade"@ {
        Some(Rarity::ConsumerGrade)
    } else if s == "Industrial Grade"@ {
        Some(Rarity::IndustrialGrade)
    } else if s == "Mil Spec"@ {
        Some(Rarity::MilSpec)
    } else if s == "Restricted"@ {
        Some(Rarity::Restricted)
    } else if s == "Classified"@ {
        Some(Rarity::Classified)
    } else if s == "Covert"@ {
        Some(Rarity::Covert)
    } else if s == "Exceedingly Rare"@ {
        Some(Rarity::ExceedinglyRare)
    } else {
        None
    }
}

impl Rarity {
    /// Parses a rarity from the name the market feed uses; `None` for any other text.
    pub fn from_str(s: &str) -> (res: Option<Rarity>)
        ensures
            res == rarity_named(s@),
            match res {
                Some(r) => rarity_name(r) == s@,
                None => forall|r: Rarity| rarity_name(r) != s@,
            },
    {
        if crate::text::str_eq(s, "Consumer Grade") {
            Some(Rarity::ConsumerGrade)
        } else if crate::text::str_eq(s, "Industrial Grade") {
            Some(Rarity::IndustrialGrade)
        } else if crate::text::str_eq(s, "Mil Spec") {
            Some(Rarity::MilSpec)
        } else if crate::text::str_eq(s, "Restricted") {
            Some(Rarity::Restricted)
        } else if crate::text::str_eq(s, "Classified") {
            Some(Rarity::Classified)
        } else if crate::text::str_eq(s, "Covert") {
            Some(Rarity::Covert)
        } else if crate::text::str_eq(s, "Exceedingly Rare") {
            Some(Rarity::ExceedinglyRare)
        } else {
            None
        }
    }
}

/// Wear conditions, from least to most worn.
#[derive(Debug, Clone, Copy, PartialEq, Eq, Structural)]
pub enum Condition {
    FactoryNew,
    MinimalWear,
    FieldTested,
    WellWorn,
    BattleScarred,
}

/// The label a market name carries for a wear condition.
pub open spec fn condition_label(c: Condition) -> Seq<char> {
    match c {
        Condition::FactoryNew => "Factory New"@,
        Condition::MinimalWear => "Minimal Wear"@,
        Condition::FieldTested => "Field-Tested"@,
        Condition::WellWorn => "Well-Worn"@,
        Condition::BattleScarred => "Battle-Scarred"@,
    }
}

impl Condition {
    /// The label a market name carries for this condition.
    pub fn label(&self) -> (res: &'static str)
        ensures
            res@ == condition_label(*self),
    {
        match self {
            Condition::FactoryNew => "Factory New",
            Condition::MinimalWear => "Minimal Wear",
            Condition::FieldTested => "Field-Tested",
            Condition::WellWorn => "Well-Worn",
            Condition::BattleScarred => "Battle-Scarred",
        }
    }
}

/// A skin with its market figures (wear bounds as 32-bit float bit patterns).
#[derive(Debug, PartialEq)]
pub struct Skin {
    pub hash_name: String,
    pub collection: Option<String>,
    pub rarity: Rarity,
    pub stattrak: bool,
    pub min_float_bits: u32,
    pub max_float_bits: u32,
    pub sell_price: u32,
    pub formatted_price: String,
    pub sell_listings: u32,
}

} // verus!
