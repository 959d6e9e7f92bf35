use vstd::prelude::*;

verus! {

/// Rarity tiers of weapon skins, from lowest to highest.
#[derive(Debug, Clone, Copy, PartialEq, Eq, Structural, Hash)]
pub enum Rarity {
    ConsumerGrade,
    IndustrialGrade,
    MilSpec,
    Restricted,
    Classified,
    Covert,
}

/// The position of a rarity on the scale, from 1 (Consumer Grade) to 6 (Covert).
pub open spec fn rank(r: Rarity) -> int {
    match r {
        Rarity::ConsumerGrade => 1,
        Rarity::IndustrialGrade => 2,
        Rarity::MilSpec => 3,
        Rarity::Restricted => 4,
        Rarity::Classified => 5,
        Rarity::Covert => 6,
    }
}

/// The rarity at position `i` of the scale, if there is one.
pub open spec fn rarity_at(i: int) -> Option<Rarity> {
    if i == 1 {
        Some(Rarity::ConsumerGrade)
    } else if i == 2 {
        Some(Rarity::IndustrialGrade)
    } else if i == 3 {
        Some(Rarity::MilSpec)
    } else if i == 4 {
        Some(Rarity::Restricted)
    } else if i == 5 {
        Some(Rarity::Classified)
    } else if i == 6 {
        Some(Rarity::Covert)
    } else {
        None
    }
}

/// The display name of a rarity, as the metadata feeds write it.
pub open spec fn rarity_name(r: Rarity) -> Seq<char> {
    match r {
        Rarity::ConsumerGrade => "Consumer Grade"@,
        Rarity::IndustrialGrade => "Industrial Grade"@,
        Rarity::MilSpec => "Mil-Spec Grade"@,
        Rarity::Restricted => "Restricted"@,
        Rarity::Classified => "Classified"@,
        Rarity::Covert => "Covert"@,
    }
}

/// The rarity whose display name is `s`, if there is one.
pub open spec fn rarity_named(s: Seq<char>) -> Option<Rarity> {
    if s == "Consumer Grade"@ {
        Some(Rarity::ConsumerGrade)
    } else if s == "Industrial Grade"@ {
        Some(Rarity::IndustrialGrade)
    } else if s == "Mil-Spec Grade"@ {
        Some(Rarity::MilSpec)
    } else if s == "Restricted"@ {
        Some(Rarity::Restricted)
    } else if s == "Classified"@ {
        Some(Rarity::Classified)
    } else if s == "Covert"@ {
        Some(Rarity::Covert)
    } else {
        None
    }
}

impl Rarity {
    /// Parses a rarity from its display name; `None` for any other text.
    pub fn from_str(s: &str) -> (res: Option<Rarity>)
        ensures
            res == rarity_named(s@),
            match res {
                Some(r) => rarity_name(r) == s@,
                None => forall|r: Rarity| rarity_name(r) != s@,
            },
    {
        if crate::text::str_eq(s, "Consumer Grade") {
            Some(Rarity::ConsumerGrade)
        } else if crate::text::str_eq(s, "Industrial Grade") {
            Some(Rarity::IndustrialGrade)
        } else if crate::text::str_eq(s, "Mil-Spec Grade") {
            Some(Rarity::MilSpec)
        } else if crate::text::str_eq(s, "Restricted") {
            Some(Rarity::Restricted)
        } else if crate::text::str_eq(s, "Classified") {
            Some(Rarity::Classified)
        } else if crate::text::str_eq(s, "Covert") {
            Some(Rarity::Covert)
        } else {
            None
        }
    }

    /// The rarity one tier below, `None` for the lowest tier.
    pub fn previous(&self) -> (res: Option<Rarity>)
        ensures
            res == rarity_at(rank(*self) - 1),
            match res {
                Some(p) => rank(p) == rank(*self) - 1,
                None => rank(*self) == 1,
            },
    {
        match self {
            Rarity::IndustrialGrade => Some(Rarity::ConsumerGrade),
            Rarity::MilSpec => Some(Rarity::IndustrialGrade),
            Rarity::Restricted => Some(Rarity::MilSpec),
            Rarity::Classified => Some(Rarity::Restricted),
            Rarity::Covert => Some(Rarity::Classified),
            Rarity::ConsumerGrade => None,
        }
    }

    /// The rarity at position `i` of the scale (1 to 6), `None` outside it.
    pub fn from_int(i: i32) -> (res: Option<Rarity>)
        ensures
            res == rarity_at(i as int),
            match res {
                Some(r) => rank(r) == i,
                None => !(1 <= i <= 6),
            },
    {
        match i {
            1 => Some(Rarity::ConsumerGrade),
            2 => Some(Rarity::IndustrialGrade),
            3 => Some(Rarity::MilSpec),
            4 => Some(Rarity::Restricted),
            5 => Some(Rarity::Classified),
            6 => Some(Rarity::Covert),
            _ => None,
        }
    }
}


/// Every rarity sits at its own position of the scale, and `rarity_at`
/// gives it back from that position.
pub proof fn lemma_rank_round_trip(r: Rarity)
    ensures
        1 <= rank(r) <= 6,
        rarity_at(rank(r)) == Some(r),
{
}

/// Positions off the scale name no rarity, positions on it name the rarity
/// of that rank.
pub proof fn lemma_rarity_at_rank(i: int)
    ensures
        rarity_at(i) is Some <==> 1 <= i <= 6,
        rarity_at(i) matches Some(r) ==> rank(r) == i,
{
}

/// Parsing the display name of a rarity gives that rarity back.
pub proof fn lemma_name_round_trip(r: Rarity)
    ensures
        rarity_named(rarity_name(r)) == Some(r),
{
    reveal_strlit("Consumer Grade");
    reveal_strlit("Industrial Grade");
    reveal_strlit("Mil-Spec Grade");
    reveal_strlit("Restricted");
    reveal_strlit("Classified");
    reveal_strlit("Covert");
    assert("Consumer Grade"@[0] == 'C' && "Mil-Spec Grade"@[0] == 'M');
    assert("Restricted"@[0] == 'R' && "Classified"@[0] == 'C');
    assert("Consumer Grade"@.len() == 14 && "Industrial Grade"@.len() == 16);
    assert("Restricted"@.len() == 10 && "Covert"@.len() == 6);
}

/// One step down the scale from the rarity at position `i` is the rarity at
/// position `i - 1`; the lowest rarity has none below it.
pub proof fn lemma_previous_steps_down(i: int)
    requires
        1 <= i <= 6,
    ensures
        ({
            let r = rarity_at(i)->0;
            if i == 1 {
                rank(r) == 1
            } else {
                rarity_at(i - 1) matches Some(p) && rank(p) == rank(r) - 1
            }
        }),
{
}

/// A weapon skin as the metadata feed describes it.
///
/// The wear bounds are carried as the bit patterns of their 64-bit
/// floating-point values: the library moves them and never computes with them.
#[derive(Debug, PartialEq)]
pub struct Skin {
    pub name: String,
    pub paint_index: i32,
    pub min_float_bits: u64,
    pub max_float_bits: u64,
    pub rarity: Rarity,
    pub collections: String,
}

impl Clone for Skin {
    fn clone(&self) -> (res: Self)
        ensures
            res == *self,
    {
        Skin {
            name: self.name.clone(),
            paint_index: self.paint_index,
            min_float_bits: self.min_float_bits,
            max_float_bits: self.max_float_bits,
            rarity: self.rarity,
            collections: self.collections.clone(),
        }
    }
}

/// The item of a market listing (float value as a bit pattern).
#[derive(Debug, PartialEq)]
pub struct Item {
    pub float_value_bits: u64,
    pub market_hash_name: String,
    pub collection: String,
    pub rarity: i32,
}

impl Clone for Item {
    fn clone(&self) -> (res: Self)
        ensures
            res == *self,
    {
        Item {
            float_value_bits: self.float_value_bits,
            market_hash_name: self.market_hash_name.clone(),
            collection: self.collection.clone(),
            rarity: self.rarity,
        }
    }
}

/// A market listing: an item and its price in cents.
#[derive(Debug, PartialEq)]
pub struct Listing {
    pub price: u64,
    pub item: Item,
}

impl Clone for Listing {
    fn clone(&self) -> (res: Self)
        ensures
            res == *self,
    {
        Listing { price: self.price, item: self.item.clone() }
    }
}

/// The body of a listings query: the listings, if the service sent any.
pub struct CSFloatResponse {
    pub data: Option<Vec<Listing>>,
}

/// A skin bought as input of a trade-up.
#[derive(Debug, PartialEq)]
pub struct TradeUpInput {
    pub market_hash_name: String,
    pub float_value_bits: u64,
    pub price: u64,
    pub rarity: Rarity,
    pub collection: String,
    pub min_float_bits: Option<u64>,
    pub max_float_bits: Option<u64>,
}

impl Clone for TradeUpInput {
    fn clone(&self) -> (res: Self)
        ensures
            res == *self,
    {
        TradeUpInput {
            market_hash_name: self.market_hash_name.clone(),
            float_value_bits: self.float_value_bits,
            price: self.price,
            rarity: self.rarity,
            collection: self.collection.clone(),
            min_float_bits: self.min_float_bits,
            max_float_bits: self.max_float_bits,
        }
    }
}

/// One possible outcome of a trade-up.
#[derive(Debug, PartialEq)]
pub struct TradeUpOutput {
    pub market_hash_name: String,
    pub float_value_bits: u64,
    pub price: u64,
    pub rarity: Rarity,
    pub collection: String,
    pub probability_bits: u64,
    pub min_float_bits: Option<u64>,
    pub max_float_bits: Option<u64>,
}

impl Clone for TradeUpOutput {
    fn clone(&self) -> (res: Self)
        ensures
            res == *self,
    {
        TradeUpOutput {
            market_hash_name: self.market_hash_name.clone(),
            float_value_bits: self.float_value_bits,
            price: self.price,
            rarity: self.rarity,
            collection: self.collection.clone(),
            probability_bits: self.probability_bits,
            min_float_bits: self.min_float_bits,
            max_float_bits: self.max_float_bits,
        }
    }
}

/// A complete trade-up: the inputs bought, the outcomes and their values.
#[derive(Debug, PartialEq)]
pub struct TradeUp {
    pub input: TradeUpInput,
    pub input_count: u32,
    pub filler: Option<TradeUpInput>,
    pub filler_count: u32,
    pub outputs: Vec<TradeUpOutput>,
    pub total_cost: u64,
    pub worst_value: u64,
    pub best_value: u64,
    pub ev_bits: u64,
    pub roi_bits: u64,
}

} // verus!
