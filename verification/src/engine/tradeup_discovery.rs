use vstd::prelude::*;

use crate::engine::tradeup::{grouped_under, Collections};
use crate::models::{Rarity, Skin};

verus! {

/// Groups skins by collection, then by rarity, keeping the input order
/// inside every group.
pub fn group_skins(skins: Vec<Skin>) -> (res: Collections)
    ensures
        res.wf(),
        forall|c: Seq<char>, r| #[trigger]
            res.skins_of(c, r) == skins@.filter(grouped_under(c, r)),
        forall|c: Seq<char>| #[trigger]
            res.has_collection(c) <==> exists|i: int|
                0 <= i < skins@.len() && (#[trigger] skins@[i]).collections@ == c,
        forall|c: Seq<char>, r: Rarity| #[trigger]
            res.has_tier(c, r) <==> exists|i: int|
                0 <= i < skins@.len() && (#[trigger] skins@[i]).collections@ == c && skins@[i].rarity == r,
{
    crate::engine::tradeup::group_skins(skins)
}

} // verus!
