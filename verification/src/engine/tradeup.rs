use vstd::prelude::*;

use crate::domain::models::{condition_label, Condition};
use crate::cache::PriceCache;
use crate::models::{rank, rarity_at, Rarity, Skin, TradeUp, TradeUpInput, TradeUpOutput};
use crate::text::{lex_lt, lemma_lex_irreflexive, lemma_lex_total, lemma_lex_transitive};

verus! {

/// The skins of one rarity inside a collection.
pub struct RarityGroup {
    pub rarity: Rarity,
    pub skins: Vec<Skin>,
}

/// One collection: its name and its skins grouped by rarity.
pub struct CollectionGroup {
    pub name: String,
    pub tiers: Vec<RarityGroup>,
}

/// Skins grouped by collection name, then by rarity.
pub struct Collections {
    pub groups: Vec<CollectionGroup>,
}

/// Whether a skin belongs to collection `c` and has rarity `r`.
pub open spec fn grouped_under(c: Seq<char>, r: Rarity) -> spec_fn(Skin) -> bool {
    |s: Skin| s.collections@ == c && s.rarity == r
}

impl CollectionGroup {
    /// No rarity appears twice. A tier may be empty: the rarity is then
    /// present, with no skins.
    pub open spec fn wf(&self) -> bool {
        forall|i: int, j: int|
            0 <= i < j < self.tiers@.len() ==> #[trigger] self.tiers@[i].rarity
                != #[trigger] self.tiers@[j].rarity
    }

    /// Whether this collection has a tier (possibly empty) of rarity `r`.
    pub open spec fn has_rarity(&self, r: Rarity) -> bool {
        exists|j: int| 0 <= j < self.tiers@.len() && #[trigger] self.tiers@[j].rarity == r
    }

    /// The skins of rarity `r` in this collection (empty when there are none).
    pub open spec fn tier(&self, r: Rarity) -> Seq<Skin> {
        if self.has_rarity(r) {
            self.tiers@[choose|j: int| 0 <= j < self.tiers@.len() && #[trigger] self.tiers@[j].rarity == r].skins@
        } else {
            Seq::empty()
        }
    }

    pub proof fn lemma_tier_at(&self, k: int)
        requires
            self.wf(),
            0 <= k < self.tiers@.len(),
        ensures
            self.has_rarity(self.tiers@[k].rarity),
            self.tier(self.tiers@[k].rarity) == self.tiers@[k].skins@,
    {
        let r = self.tiers@[k].rarity;
        assert(self.tiers@[k].rarity == r);
        let j = choose|j: int| 0 <= j < self.tiers@.len() && #[trigger] self.tiers@[j].rarity == r;
        if j < k {
            assert(self.tiers@[j].rarity != self.tiers@[k].rarity);
        } else if k < j {
            assert(self.tiers@[k].rarity != self.tiers@[j].rarity);
        }
    }

    /// The tier of rarity `r`, if this collection has one (it may be empty).
    pub fn get(&self, r: Rarity) -> (res: Option<&Vec<Skin>>)
        requires
            self.wf(),
        ensures
            match res {
                Some(v) => self.has_rarity(r) && v@ == self.tier(r),
                None => !self.has_rarity(r),
            },
    {
        let mut j: usize = 0;
        while j < self.tiers.len()
            invariant
                self.wf(),
                j <= self.tiers@.len(),
                forall|k: int| 0 <= k < j ==> #[trigger] self.tiers@[k].rarity != r,
            decreases self.tiers@.len() - j,
        {
            if self.tiers[j].rarity == r {
                proof {
                    self.lemma_tier_at(j as int);
                }
                return Some(&self.tiers[j].skins);
            }
            j = j + 1;
        }
        None
    }

    /// The position of the tier of rarity `r`, if there is one.
    pub fn find_tier(&self, r: Rarity) -> (res: Option<usize>)
        ensures
            match res {
                Some(j) => j < self.tiers@.len() && self.tiers@[j as int].rarity == r,
                None => !self.has_rarity(r),
            },
    {
        let mut j: usize = 0;
        while j < self.tiers.len()
            invariant
                j <= self.tiers@.len(),
                forall|k: int| 0 <= k < j ==> #[trigger] self.tiers@[k].rarity != r,
            decreases self.tiers@.len() - j,
        {
            if self.tiers[j].rarity == r {
                return Some(j);
            }
            j = j + 1;
        }
        None
    }

    /// Appends a skin to the tier of its rarity, opening the tier if needed.
    pub fn add(&mut self, skin: Skin)
        requires
            old(self).wf(),
        ensures
            final(self).wf(),
            final(self).name == old(self).name,
            forall|r: Rarity| #[trigger] final(self).tier(r) == if r == skin.rarity {
                old(self).tier(r).push(skin)
            } else {
                old(self).tier(r)
            },
            forall|r: Rarity| #[trigger] final(self).has_rarity(r) == (old(self).has_rarity(r) || r == skin.rarity),
    {
        let ghost pre = *self;
        let found = self.find_tier(skin.rarity);
        if let Some(j) = found {
            let ghost s = skin;
            self.tiers[j].skins.push(skin);
            proof {
                let k = j as int;
                assert(self.tiers@ == pre.tiers@.update(k, RarityGroup { rarity: s.rarity, skins: self.tiers@[k].skins }));
                assert forall|r: Rarity| #[trigger] self.has_rarity(r) == pre.has_rarity(r) by {
                    if pre.has_rarity(r) {
                        let w = choose|w: int| 0 <= w < pre.tiers@.len() && #[trigger] pre.tiers@[w].rarity == r;
                        assert(self.tiers@[w].rarity == r);
                    }
                    if self.has_rarity(r) {
                        let w = choose|w: int| 0 <= w < self.tiers@.len() && #[trigger] self.tiers@[w].rarity == r;
                        assert(pre.tiers@[w].rarity == r);
                    }
                }
                assert(self.wf());
                pre.lemma_tier_at(k);
                self.lemma_tier_at(k);
                assert forall|r: Rarity| #[trigger] self.tier(r) == if r == s.rarity {
                    pre.tier(r).push(s)
                } else {
                    pre.tier(r)
                } by {
                    if r != s.rarity && pre.has_rarity(r) {
                        let w = choose|w: int| 0 <= w < pre.tiers@.len() && #[trigger] pre.tiers@[w].rarity == r;
                        pre.lemma_tier_at(w);
                        self.lemma_tier_at(w);
                    }
                }
            }
            return;
        }
        let ghost s = skin;
        let r0 = skin.rarity;
        let mut v: Vec<Skin> = Vec::new();
        v.push(skin);
        self.tiers.push(RarityGroup { rarity: r0, skins: v });
        proof {
            let n = pre.tiers@.len() as int;
            assert(self.tiers@ == pre.tiers@.push(self.tiers@[n]));
            assert(!pre.has_rarity(s.rarity));
            assert forall|r: Rarity| #[trigger] self.has_rarity(r) == (pre.has_rarity(r) || r == s.rarity) by {
                if pre.has_rarity(r) {
                    let w = choose|w: int| 0 <= w < pre.tiers@.len() && #[trigger] pre.tiers@[w].rarity == r;
                    assert(self.tiers@[w].rarity == r);
                }
                if r == s.rarity {
                    assert(self.tiers@[n].rarity == r);
                }
                if self.has_rarity(r) {
                    let w = choose|w: int| 0 <= w < self.tiers@.len() && #[trigger] self.tiers@[w].rarity == r;
                    if w < n {
                        assert(pre.tiers@[w].rarity == r);
                    }
                }
            }
            assert(self.wf());
            self.lemma_tier_at(n);
            assert(self.tiers@[n].skins@ =~= Seq::<Skin>::empty().push(s));
            assert forall|r: Rarity| #[trigger] self.tier(r) == if r == s.rarity {
                pre.tier(r).push(s)
            } else {
                pre.tier(r)
            } by {
                if r != s.rarity && pre.has_rarity(r) {
                    let w = choose|w: int| 0 <= w < pre.tiers@.len() && #[trigger] pre.tiers@[w].rarity == r;
                    pre.lemma_tier_at(w);
                    self.lemma_tier_at(w);
                }
            }
        }
    }
}


impl Collections {
    /// No collection name appears twice, and every collection is well formed.
    pub open spec fn wf(&self) -> bool {
        &&& forall|i: int, j: int|
            0 <= i < j < self.groups@.len() ==> #[trigger] self.groups@[i].name@
                != #[trigger] self.groups@[j].name@
        &&& forall|i: int| 0 <= i < self.groups@.len() ==> #[trigger] self.groups@[i].wf()
    }

    pub open spec fn has_collection(&self, c: Seq<char>) -> bool {
        exists|i: int| 0 <= i < self.groups@.len() && #[trigger] self.groups@[i].name@ == c
    }

    /// The collection named `c` (meaningful when `has_collection(c)`).
    pub open spec fn collection(&self, c: Seq<char>) -> CollectionGroup {
        self.groups@[choose|i: int| 0 <= i < self.groups@.len() && #[trigger] self.groups@[i].name@ == c]
    }

    /// The skins of collection `c` and rarity `r` (empty when there are none).
    pub open spec fn skins_of(&self, c: Seq<char>, r: Rarity) -> Seq<Skin> {
        if self.has_collection(c) {
            self.collection(c).tier(r)
        } else {
            Seq::empty()
        }
    }

    /// Whether collection `c` has a tier (possibly empty) of rarity `r`.
    pub open spec fn has_tier(&self, c: Seq<char>, r: Rarity) -> bool {
        self.has_collection(c) && self.collection(c).has_rarity(r)
    }

    pub proof fn lemma_collection_at(&self, k: int)
        requires
            self.wf(),
            0 <= k < self.groups@.len(),
        ensures
            self.has_collection(self.groups@[k].name@),
            self.collection(self.groups@[k].name@) == self.groups@[k],
    {
        let c = self.groups@[k].name@;
        assert(self.groups@[k].name@ == c);
        let j = choose|j: int| 0 <= j < self.groups@.len() && #[trigger] self.groups@[j].name@ == c;
        if j < k {
            assert(self.groups@[j].name@ != self.groups@[k].name@);
        } else if k < j {
            assert(self.groups@[k].name@ != self.groups@[j].name@);
        }
    }

    /// An empty grouping.
    pub fn new() -> (res: Collections)
        ensures
            res.wf(),
            res.groups@.len() == 0,
            forall|c: Seq<char>| !(#[trigger] res.has_collection(c)),
    {
        Collections { groups: Vec::new() }
    }

    /// The position of the collection named `name`, if there is one.
    pub fn find_collection(&self, name: &str) -> (res: Option<usize>)
        ensures
            match res {
                Some(i) => i < self.groups@.len() && self.groups@[i as int].name@ == name@,
                None => !self.has_collection(name@),
            },
    {
        let mut i: usize = 0;
        while i < self.groups.len()
            invariant
                i <= self.groups@.len(),
                forall|k: int| 0 <= k < i ==> #[trigger] self.groups@[k].name@ != name@,
            decreases self.groups@.len() - i,
        {
            if crate::text::str_eq(self.groups[i].name.as_str(), name) {
                return Some(i);
            }
            i = i + 1;
        }
        None
    }

    /// The collection named `name`, if there is one.
    pub fn get(&self, name: &str) -> (res: Option<&CollectionGroup>)
        requires
            self.wf(),
        ensures
            match res {
                Some(g) => self.has_collection(name@) && *g == self.collection(name@),
                None => !self.has_collection(name@),
            },
    {
        match self.find_collection(name) {
            Some(i) => {
                proof {
                    self.lemma_collection_at(i as int);
                }
                Some(&self.groups[i])
            },
            None => None,
        }
    }

    /// Files a skin under its collection and rarity, after the skins already there.
    pub fn add(&mut self, skin: Skin)
        requires
            old(self).wf(),
        ensures
            final(self).wf(),
            forall|c: Seq<char>, r: Rarity| #[trigger] final(self).skins_of(c, r) == if c == skin.collections@ && r == skin.rarity {
                old(self).skins_of(c, r).push(skin)
            } else {
                old(self).skins_of(c, r)
            },
            forall|c: Seq<char>| #[trigger] final(self).has_collection(c) == (old(self).has_collection(c) || c == skin.collections@),
            forall|c: Seq<char>, r: Rarity| #[trigger] final(self).has_tier(c, r) == (old(self).has_tier(c, r)
                || (c == skin.collections@ && r == skin.rarity)),
    {
        let ghost pre = *self;
        let ghost s = skin;
        let found = self.find_collection(skin.collections.as_str());
        match found {
            Some(i) => {
                proof {
                    assert(pre.groups@[i as int].wf());
                }
                self.groups[i].add(skin);
                proof {
                    let k = i as int;
                    let g1 = self.groups@[k];
                    assert(self.groups@ == pre.groups@.update(k, g1));
                    assert forall|c: Seq<char>| #[trigger] self.has_collection(c) == pre.has_collection(c) by {
                        if pre.has_collection(c) {
                            let w = choose|w: int| 0 <= w < pre.groups@.len() && #[trigger] pre.groups@[w].name@ == c;
                            assert(self.groups@[w].name@ == c);
                        }
                        if self.has_collection(c) {
                            let w = choose|w: int| 0 <= w < self.groups@.len() && #[trigger] self.groups@[w].name@ == c;
                            assert(pre.groups@[w].name@ == c);
                        }
                    }
                    assert forall|a: int| 0 <= a < self.groups@.len() implies #[trigger] self.groups@[a].wf() by {
                        if a != k {
                            assert(pre.groups@[a].wf());
                        }
                    }
                    assert forall|a: int, b: int| 0 <= a < b < self.groups@.len() implies #[trigger] self.groups@[a].name@
                        != #[trigger] self.groups@[b].name@ by {
                        assert(self.groups@[a].name == pre.groups@[a].name);
                        assert(self.groups@[b].name == pre.groups@[b].name);
                        assert(pre.groups@[a].name@ != pre.groups@[b].name@);
                    }
                    assert(self.wf());
                    pre.lemma_collection_at(k);
                    self.lemma_collection_at(k);
                    assert forall|c: Seq<char>, r: Rarity| #[trigger] self.skins_of(c, r) == if c == s.collections@ && r == s.rarity {
                        pre.skins_of(c, r).push(s)
                    } else {
                        pre.skins_of(c, r)
                    } by {
                        if c != s.collections@ && pre.has_collection(c) {
                            let w = choose|w: int| 0 <= w < pre.groups@.len() && #[trigger] pre.groups@[w].name@ == c;
                            pre.lemma_collection_at(w);
                            self.lemma_collection_at(w);
                        }
                    }
                    assert forall|c: Seq<char>, r: Rarity| #[trigger] self.has_tier(c, r) == (pre.has_tier(c, r)
                        || (c == s.collections@ && r == s.rarity)) by {
                        if c != s.collections@ && pre.has_collection(c) {
                            let w = choose|w: int| 0 <= w < pre.groups@.len() && #[trigger] pre.groups@[w].name@ == c;
                            pre.lemma_collection_at(w);
                            self.lemma_collection_at(w);
                        }
                    }
                }
            },
            None => {
                let name = skin.collections.clone();
                let mut g = CollectionGroup { name, tiers: Vec::new() };
                proof {
                    assert forall|r: Rarity| !(#[trigger] g.has_rarity(r)) by {}
                }
                g.add(skin);
                self.groups.push(g);
                proof {
                    let n = pre.groups@.len() as int;
                    assert(self.groups@ == pre.groups@.push(g));
                    assert forall|c: Seq<char>| #[trigger] self.has_collection(c) == (pre.has_collection(c) || c == s.collections@) by {
                        if pre.has_collection(c) {
                            let w = choose|w: int| 0 <= w < pre.groups@.len() && #[trigger] pre.groups@[w].name@ == c;
                            assert(self.groups@[w].name@ == c);
                        }
                        if c == s.collections@ {
                            assert(self.groups@[n].name@ == c);
                        }
                        if self.has_collection(c) {
                            let w = choose|w: int| 0 <= w < self.groups@.len() && #[trigger] self.groups@[w].name@ == c;
                            if w < n {
                                assert(pre.groups@[w].name@ == c);
                            }
                        }
                    }
                    assert forall|a: int| 0 <= a < self.groups@.len() implies #[trigger] self.groups@[a].wf() by {
                        if a < n {
                            assert(pre.groups@[a].wf());
                        }
                    }
                    assert forall|a: int, b: int| 0 <= a < b < self.groups@.len() implies #[trigger] self.groups@[a].name@
                        != #[trigger] self.groups@[b].name@ by {
                        assert(self.groups@[a] == pre.groups@[a]);
                        if b < n {
                            assert(self.groups@[b] == pre.groups@[b]);
                            assert(pre.groups@[a].name@ != pre.groups@[b].name@);
                        } else {
                            assert(self.groups@[b].name@ == s.collections@);
                            if pre.groups@[a].name@ == s.collections@ {
                                assert(pre.has_collection(s.collections@));
                            }
                        }
                    }
                    assert(self.wf());
                    self.lemma_collection_at(n);
                    assert forall|c: Seq<char>, r: Rarity| #[trigger] self.skins_of(c, r) == if c == s.collections@ && r == s.rarity {
                        pre.skins_of(c, r).push(s)
                    } else {
                        pre.skins_of(c, r)
                    } by {
                        if c != s.collections@ && pre.has_collection(c) {
                            let w = choose|w: int| 0 <= w < pre.groups@.len() && #[trigger] pre.groups@[w].name@ == c;
                            pre.lemma_collection_at(w);
                            self.lemma_collection_at(w);
                        }
                        if c == s.collections@ && r != s.rarity {
                            assert(!g.has_rarity(r));
                        }
                    }
                    assert forall|c: Seq<char>, r: Rarity| #[trigger] self.has_tier(c, r) == (pre.has_tier(c, r)
                        || (c == s.collections@ && r == s.rarity)) by {
                        if c != s.collections@ && pre.has_collection(c) {
                            let w = choose|w: int| 0 <= w < pre.groups@.len() && #[trigger] pre.groups@[w].name@ == c;
                            pre.lemma_collection_at(w);
                            self.lemma_collection_at(w);
                        }
                    }
                }
            },
        }
    }
}

/// Groups skins by collection, then by rarity, keeping the input order
/// inside every group.
pub fn group_skins(skins: Vec<Skin>) -> (res: Collections)
    ensures
        res.wf(),
        forall|c: Seq<char>, r| #[trigger]
            res.skins_of(c, r) == skins@.filter(grouped_under(c, r)),
        forall|c: Seq<char>| #[trigger]
            res.has_collection(c) <==> exists|i: int|
                0 <= i < skins@.len() && (#[trigger] skins@[i]).collections@ == c,
        forall|c: Seq<char>, r: Rarity| #[trigger]
            res.has_tier(c, r) <==> exists|i: int|
                0 <= i < skins@.len() && (#[trigger] skins@[i]).collections@ == c && skins@[i].rarity == r,
{
    let mut res = Collections::new();
    let mut i: usize = 0;
    while i < skins.len()
        invariant
            i <= skins@.len(),
            res.wf(),
            forall|c: Seq<char>, r| #[trigger]
                res.skins_of(c, r) == skins@.take(i as int).filter(grouped_under(c, r)),
            forall|c: Seq<char>| #[trigger]
                res.has_collection(c) <==> exists|k: int|
                    0 <= k < i && (#[trigger] skins@[k]).collections@ == c,
            forall|c: Seq<char>, r: Rarity| #[trigger]
                res.has_tier(c, r) <==> exists|k: int|
                    0 <= k < i && (#[trigger] skins@[k]).collections@ == c && skins@[k].rarity == r,
        decreases skins@.len() - i,
    {
        let skin = skins[i].clone();
        let ghost pre = res;
        res.add(skin);
        proof {
            let t = skins@.take(i as int);
            assert(skins@.take(i + 1) =~= t.push(skins@[i as int]));
            assert forall|c: Seq<char>, r| #[trigger]
                res.skins_of(c, r) == skins@.take(i + 1).filter(grouped_under(c, r)) by {
                t.lemma_filter_push(skins@[i as int], grouped_under(c, r));
            }
            assert forall|c: Seq<char>| #[trigger] res.has_collection(c) <==> exists|k: int|
                0 <= k < i + 1 && (#[trigger] skins@[k]).collections@ == c by {
                if pre.has_collection(c) {
                    let k = choose|k: int| 0 <= k < i && (#[trigger] skins@[k]).collections@ == c;
                    assert(0 <= k < i + 1 && skins@[k].collections@ == c);
                }
                if c == skins@[i as int].collections@ {
                    assert(skins@[i as int].collections@ == c);
                }
            }
            assert forall|c: Seq<char>, r: Rarity| #[trigger] res.has_tier(c, r) <==> exists|k: int|
                0 <= k < i + 1 && (#[trigger] skins@[k]).collections@ == c && skins@[k].rarity == r by {
                if pre.has_tier(c, r) {
                    let k = choose|k: int| 0 <= k < i && (#[trigger] skins@[k]).collections@ == c && skins@[k].rarity == r;
                    assert(0 <= k < i + 1 && skins@[k].collections@ == c && skins@[k].rarity == r);
                }
                if c == skins@[i as int].collections@ && r == skins@[i as int].rarity {
                    assert(skins@[i as int].collections@ == c);
                }
            }
        }
        i = i + 1;
    }
    assert(skins@.take(skins@.len() as int) =~= skins@);
    res
}


/// What one collection contributes to the target candidates: its skins of
/// the output rarity, when it has tiers (possibly empty) of both rarities.
pub open spec fn contribution(g: CollectionGroup, input: Rarity, output: Rarity) -> Seq<Skin> {
    if g.has_rarity(input) && g.has_rarity(output) {
        g.tier(output)
    } else {
        Seq::empty()
    }
}

/// The contributions of the collections, in collection order.
pub open spec fn candidates_of(groups: Seq<CollectionGroup>, input: Rarity, output: Rarity) -> Seq<Skin>
    decreases groups.len(),
{
    if groups.len() == 0 {
        Seq::empty()
    } else {
        candidates_of(groups.drop_last(), input, output) + contribution(groups.last(), input, output)
    }
}

/// Names strictly increasing: sorted, and no name twice.
pub open spec fn sorted_by_name(v: Seq<Skin>) -> bool {
    forall|i: int, j: int| 0 <= i < j < v.len() ==> lex_lt(#[trigger] v[i].name@, #[trigger] v[j].name@)
}

/// `p` is the first position of `v` that holds a skin with its name.
#[verifier::opaque]
pub open spec fn first_of_name(v: Seq<Skin>, p: int) -> bool {
    &&& 0 <= p < v.len()
    &&& forall|q: int| 0 <= q < p ==> #[trigger] v[q].name@ != v[p].name@
}

/// `res` holds, in name order, the first skin of each name that `v` holds.
#[verifier::opaque]
pub open spec fn firsts_by_name(v: Seq<Skin>, res: Seq<Skin>) -> bool {
    &&& sorted_by_name(res)
    &&& forall|k: int| #![trigger res[k]] 0 <= k < res.len() ==> exists|p: int| #[trigger] first_of_name(v, p) && v[p] == res[k]
    &&& forall|p: int| 0 <= p < v.len() ==> exists|k: int| 0 <= k < res.len() && #[trigger] res[k].name@ == #[trigger] v[p].name@
}

/// Appends copies of the skins of `src` to `dst`.
pub fn append_copies(dst: &mut Vec<Skin>, src: &Vec<Skin>)
    ensures
        final(dst)@ == old(dst)@ + src@,
{
    let ghost d0 = dst@;
    let mut i: usize = 0;
    while i < src.len()
        invariant
            i <= src@.len(),
            dst@ == d0 + src@.take(i as int),
        decreases src@.len() - i,
    {
        dst.push(src[i].clone());
        assert(src@.take(i + 1) =~= src@.take(i as int).push(src@[i as int]));
        i = i + 1;
    }
    assert(src@.take(src@.len() as int) =~= src@);
}

/// The first position of the name-sorted `v` whose name does not come before `name`.
pub fn insert_position(v: &Vec<Skin>, name: &str) -> (j: usize)
    requires
        sorted_by_name(v@),
    ensures
        j <= v@.len(),
        forall|k: int| 0 <= k < j ==> lex_lt(#[trigger] v@[k].name@, name@),
        j < v@.len() ==> !lex_lt(v@[j as int].name@, name@),
{
    let mut j: usize = 0;
    while j < v.len()
        invariant
            j <= v@.len(),
            forall|k: int| 0 <= k < j ==> lex_lt(#[trigger] v@[k].name@, name@),
        decreases v@.len() - j,
    {
        if !crate::text::str_lt(v[j].name.as_str(), name) {
            return j;
        }
        j = j + 1;
    }
    j
}

/// A first position stays first when the sequence grows at its end.
proof fn lemma_first_of_name_push(t: Seq<Skin>, c: Skin, p: int)
    requires
        first_of_name(t, p),
    ensures
        first_of_name(t.push(c), p),
        0 <= p < t.len(),
        t.push(c)[p] == t[p],
{
    reveal(first_of_name);
    let t1 = t.push(c);
    assert forall|q: int| 0 <= q < p implies #[trigger] t1[q].name@ != t1[p].name@ by {
        assert(t[q].name@ != t[p].name@);
    }
}

/// A skin whose name is already listed leaves the list of firsts unchanged.
proof fn lemma_firsts_push_present(t: Seq<Skin>, c: Skin, r: Seq<Skin>, j: int)
    requires
        firsts_by_name(t, r),
        0 <= j < r.len(),
        r[j].name@ == c.name@,
    ensures
        firsts_by_name(t.push(c), r),
{
    reveal(firsts_by_name);
    let t1 = t.push(c);
    assert forall|k: int| #![trigger r[k]] 0 <= k < r.len() implies exists|p: int| #[trigger] first_of_name(t1, p) && t1[p] == r[k] by {
        let p = choose|p: int| #[trigger] first_of_name(t, p) && t[p] == r[k];
        lemma_first_of_name_push(t, c, p);
    }
    assert forall|p: int| 0 <= p < t1.len() implies exists|k: int| 0 <= k < r.len() && #[trigger] r[k].name@ == #[trigger] t1[p].name@ by {
        if p < t.len() {
            assert(t1[p] == t[p]);
        } else {
            assert(r[j].name@ == t1[p].name@);
        }
    }
}

/// A skin with a new name enters the list of firsts at its sorted position.
proof fn lemma_firsts_push_absent(t: Seq<Skin>, c: Skin, r0: Seq<Skin>, j: int)
    requires
        firsts_by_name(t, r0),
        0 <= j <= r0.len(),
        forall|k: int| 0 <= k < j ==> lex_lt(#[trigger] r0[k].name@, c.name@),
        j < r0.len() ==> !lex_lt(r0[j].name@, c.name@) && r0[j].name@ != c.name@,
    ensures
        firsts_by_name(t.push(c), r0.insert(j, c)),
{
    reveal(firsts_by_name);
    let t1 = t.push(c);
    let cn = c.name@;
    let i = t.len() as int;
    assert forall|k: int| 0 <= k < r0.len() implies #[trigger] r0[k].name@ != cn by {
        if k < j {
            lemma_lex_irreflexive(cn);
        } else {
            lemma_lex_total(r0[j].name@, cn);
            if k > j {
                lemma_lex_transitive(cn, r0[j].name@, r0[k].name@);
                lemma_lex_irreflexive(cn);
            }
        }
    }
    assert(first_of_name(t1, i)) by {
        reveal(first_of_name);
        assert forall|q: int| 0 <= q < i implies #[trigger] t1[q].name@ != t1[i].name@ by {
            assert(t1[q] == t[q]);
            let k = choose|k: int| 0 <= k < r0.len() && #[trigger] r0[k].name@ == #[trigger] t[q].name@;
        }
    }
    let r1 = r0.insert(j, c);
    assert forall|a: int, b: int| 0 <= a < b < r1.len() implies lex_lt(#[trigger] r1[a].name@, #[trigger] r1[b].name@) by {
        if b < j {
            assert(r1[a] == r0[a] && r1[b] == r0[b]);
        } else if b == j {
            assert(r1[a] == r0[a]);
        } else if a == j {
            assert(r1[b] == r0[b - 1]);
            lemma_lex_total(r0[j].name@, cn);
            if b - 1 > j {
                lemma_lex_transitive(cn, r0[j].name@, r0[b - 1].name@);
            }
        } else if a < j {
            assert(r1[a] == r0[a] && r1[b] == r0[b - 1]);
            lemma_lex_total(r0[j].name@, cn);
            lemma_lex_transitive(r0[a].name@, cn, r0[j].name@);
            if b - 1 > j {
                lemma_lex_transitive(r0[a].name@, r0[j].name@, r0[b - 1].name@);
            }
        } else {
            assert(r1[a] == r0[a - 1] && r1[b] == r0[b - 1]);
        }
    }
    assert forall|k: int| #![trigger r1[k]] 0 <= k < r1.len() implies exists|p: int| #[trigger] first_of_name(t1, p) && t1[p] == r1[k] by {
        if k < j {
            assert(r1[k] == r0[k]);
            let p = choose|p: int| #[trigger] first_of_name(t, p) && t[p] == r0[k];
            lemma_first_of_name_push(t, c, p);
        } else if k == j {
            assert(first_of_name(t1, i));
        } else {
            assert(r1[k] == r0[k - 1]);
            let p = choose|p: int| #[trigger] first_of_name(t, p) && t[p] == r0[k - 1];
            lemma_first_of_name_push(t, c, p);
        }
    }
    assert forall|p: int| 0 <= p < t1.len() implies exists|k: int| 0 <= k < r1.len() && #[trigger] r1[k].name@ == #[trigger] t1[p].name@ by {
        if p < i {
            assert(t1[p] == t[p]);
            let k = choose|k: int| 0 <= k < r0.len() && #[trigger] r0[k].name@ == #[trigger] t[p].name@;
            if k < j {
                assert(r1[k] == r0[k]);
            } else {
                assert(r1[k + 1] == r0[k]);
            }
        } else {
            assert(r1[j].name@ == t1[p].name@);
        }
    }
}

/// The first skin of each name among `candidates`, sorted by name.
pub fn first_of_each_name(candidates: &Vec<Skin>) -> (res: Vec<Skin>)
    ensures
        firsts_by_name(candidates@, res@),
{
    let ghost cs = candidates@;
    let mut res: Vec<Skin> = Vec::new();
    let mut i: usize = 0;
    assert(firsts_by_name(cs.take(0), res@)) by {
        reveal(firsts_by_name);
    }
    while i < candidates.len()
        invariant
            cs == candidates@,
            i <= cs.len(),
            firsts_by_name(cs.take(i as int), res@),
        decreases cs.len() - i,
    {
        let ghost r0 = res@;
        let ghost t = cs.take(i as int);
        let c = &candidates[i];
        proof {
            reveal(firsts_by_name);
        }
        let j = insert_position(&res, c.name.as_str());
        proof {
            assert(cs.take(i + 1) =~= t.push(cs[i as int]));
        }
        if j < res.len() && crate::text::str_eq(res[j].name.as_str(), c.name.as_str()) {
            proof {
                lemma_firsts_push_present(t, cs[i as int], r0, j as int);
            }
        } else {
            proof {
                lemma_firsts_push_absent(t, cs[i as int], r0, j as int);
            }
            res.insert(j, c.clone());
        }
        i = i + 1;
    }
    assert(cs.take(cs.len() as int) =~= cs);
    res
}


/// The skins of `output_rarity` from every collection that has tiers of both
/// `input_rarity` and `output_rarity` (an empty tier counts), in collection order.
pub fn trade_up_candidates(collections: &Collections, input_rarity: Rarity, output_rarity: Rarity) -> (res: Vec<Skin>)
    requires
        collections.wf(),
    ensures
        res@ == candidates_of(collections.groups@, input_rarity, output_rarity),
{
    let ghost gs = collections.groups@;
    let mut cands: Vec<Skin> = Vec::new();
    let mut i: usize = 0;
    while i < collections.groups.len()
        invariant
            gs == collections.groups@,
            collections.wf(),
            i <= gs.len(),
            cands@ == candidates_of(gs.take(i as int), input_rarity, output_rarity),
        decreases gs.len() - i,
    {
        let g = &collections.groups[i];
        proof {
            assert(gs[i as int].wf());
            assert(gs.take(i + 1).drop_last() =~= gs.take(i as int));
            assert(gs.take(i + 1).last() == gs[i as int]);
        }
        let ghost before = cands@;
        if g.find_tier(input_rarity).is_some() {
            proof {
                let j = choose|j: int| 0 <= j < g.tiers@.len() && g.tiers@[j].rarity == input_rarity;
            }
            match g.get(output_rarity) {
                Some(v) => {
                    append_copies(&mut cands, v);
                },
                None => {},
            }
        }
        proof {
            assert(cands@ =~= before + contribution(gs[i as int], input_rarity, output_rarity));
        }
        i = i + 1;
    }
    assert(gs.take(gs.len() as int) =~= gs);
    cands
}

/// The trade-up targets: the first skin of each name among the candidates of
/// `trade_up_candidates`, sorted by name.
pub fn get_valid_targets(collections: &Collections, input_rarity: &Rarity, output_rarity: &Rarity) -> (res: Vec<Skin>)
    requires
        collections.wf(),
    ensures
        firsts_by_name(candidates_of(collections.groups@, *input_rarity, *output_rarity), res@),
{
    let candidates = trade_up_candidates(collections, *input_rarity, *output_rarity);
    first_of_each_name(&candidates)
}


impl Collections {
    /// The tier of collection `name` and rarity `r`, if the collection has one
    /// (it may be empty).
    pub fn tier_of(&self, name: &str, r: Rarity) -> (res: Option<&Vec<Skin>>)
        requires
            self.wf(),
        ensures
            match res {
                Some(v) => self.has_tier(name@, r) && v@ == self.skins_of(name@, r),
                None => !self.has_tier(name@, r) && self.skins_of(name@, r).len() == 0,
            },
    {
        match self.get(name) {
            Some(g) => {
                proof {
                    let k = choose|i: int| 0 <= i < self.groups@.len() && #[trigger] self.groups@[i].name@ == name@;
                    self.lemma_collection_at(k);
                    assert(self.groups@[k].wf());
                }
                g.get(r)
            },
            None => None,
        }
    }
}

/// The skins a target is traded up from: the skins of the target's collection
/// one rarity below the target, when the collection has that tier (it may be
/// empty).
pub open spec fn pool_of(collections: Collections, target: Skin) -> Option<Seq<Skin>> {
    match rarity_at(rank(target.rarity) - 1) {
        Some(p) => if collections.has_tier(target.collections@, p) {
            Some(collections.skins_of(target.collections@, p))
        } else {
            None
        },
        None => None,
    }
}

/// The skins a target is traded up from: the skins of the target's collection
/// one rarity below the target; `None` when the collection has no such tier.
pub fn input_pool<'a>(collections: &'a Collections, target: &Skin) -> (res: Option<&'a Vec<Skin>>)
    requires
        collections.wf(),
    ensures
        match res {
            Some(v) => pool_of(*collections, *target) == Some(v@),
            None => pool_of(*collections, *target) is None,
        },
{
    match target.rarity.previous() {
        Some(p) => collections.tier_of(target.collections.as_str(), p),
        None => None,
    }
}

/// The market name of a skin in a wear condition: `"<name> (<condition>)"`.
pub fn market_hash_name(name: &str, wear: Condition) -> (res: String)
    ensures
        res@ == name@ + " ("@ + condition_label(wear) + ")"@,
{
    let mut res = String::from_str(name);
    res.append(" (");
    res.append(wear.label());
    res.append(")");
    res
}

/// A listing sample turned into a trade-up input for the pool skin it was
/// found for: the skin's wear bounds, collection and rarity replace the listing's.
pub open spec fn prepared(sample: TradeUpInput, skin: Skin) -> TradeUpInput {
    TradeUpInput {
        min_float_bits: Some(skin.min_float_bits),
        max_float_bits: Some(skin.max_float_bits),
        collection: skin.collections,
        rarity: skin.rarity,
        ..sample
    }
}

/// Marks a listing sample with the data of the pool skin it was found for.
pub fn prepare_input(sample: TradeUpInput, skin: &Skin) -> (res: TradeUpInput)
    ensures
        res == prepared(sample, *skin),
        res.market_hash_name == sample.market_hash_name,
        res.float_value_bits == sample.float_value_bits,
        res.price == sample.price,
        res.rarity == skin.rarity,
        res.collection == skin.collections,
        res.min_float_bits == Some(skin.min_float_bits),
        res.max_float_bits == Some(skin.max_float_bits),
{
    let mut sample = sample;
    sample.min_float_bits = Some(skin.min_float_bits);
    sample.max_float_bits = Some(skin.max_float_bits);
    sample.collection = skin.collections.clone();
    sample.rarity = skin.rarity;
    sample
}

/// The position of the first of the cheapest inputs.
pub open spec fn cheapest_pos(s: Seq<TradeUpInput>) -> int
    decreases s.len(),
{
    if s.len() <= 1 {
        0
    } else {
        let k = cheapest_pos(s.drop_last());
        if s.last().price < s[k].price {
            s.len() - 1
        } else {
            k
        }
    }
}

/// The first cheapest input is no dearer than any input, and strictly cheaper
/// than every input before it.
pub proof fn lemma_cheapest_pos(s: Seq<TradeUpInput>)
    requires
        s.len() > 0,
    ensures
        0 <= cheapest_pos(s) < s.len(),
        forall|j: int| 0 <= j < s.len() ==> s[cheapest_pos(s)].price <= #[trigger] s[j].price,
        forall|j: int| 0 <= j < cheapest_pos(s) ==> #[trigger] s[j].price > s[cheapest_pos(s)].price,
    decreases s.len(),
{
    if s.len() > 1 {
        let t = s.drop_last();
        let n = s.len() - 1;
        lemma_cheapest_pos(t);
        let k = cheapest_pos(t);
        assert(t[k] == s[k]);
        let pos = cheapest_pos(s);
        assert forall|j: int| 0 <= j < s.len() implies s[pos].price <= #[trigger] s[j].price by {
            if j < n {
                assert(t[j] == s[j]);
            }
        }
        assert forall|j: int| 0 <= j < pos implies #[trigger] s[j].price > s[pos].price by {
            if j < n {
                assert(t[j] == s[j]);
            }
        }
    }
}

/// The first of the cheapest inputs (a stable sort by price, then the head).
pub fn cheapest_input(inputs: &Vec<TradeUpInput>) -> (res: Option<TradeUpInput>)
    ensures
        match res {
            Some(x) => inputs@.len() > 0 && x == inputs@[cheapest_pos(inputs@)],
            None => inputs@.len() == 0,
        },
{
    if inputs.len() == 0 {
        return None;
    }
    let mut best: usize = 0;
    let mut i: usize = 1;
    while i < inputs.len()
        invariant
            1 <= i <= inputs@.len(),
            best == cheapest_pos(inputs@.take(i as int)),
        decreases inputs@.len() - i,
    {
        proof {
            let t = inputs@.take(i + 1);
            assert(t.drop_last() =~= inputs@.take(i as int));
            lemma_cheapest_pos(inputs@.take(i as int));
            assert(t[best as int] == inputs@[best as int]);
        }
        if inputs[i].price < inputs[best].price {
            best = i;
        }
        i = i + 1;
    }
    assert(inputs@.take(inputs@.len() as int) =~= inputs@);
    proof {
        lemma_cheapest_pos(inputs@);
    }
    Some(inputs[best].clone())
}

/// A trade-up is worth making when the target sells for more than ten inputs cost.
pub fn is_profitable(target_price: u64, input_price: u64) -> (res: bool)
    ensures
        res == (target_price > 10 * input_price),
{
    (target_price as u128) > 10 * (input_price as u128)
}

/// The inputs that the listing samples yield: one prepared input for every pool
/// skin for which a listing was found, in pool order.
pub open spec fn sampled_inputs(pool: Seq<Skin>, samples: Seq<Option<TradeUpInput>>) -> Seq<TradeUpInput>
    decreases samples.len(),
{
    if samples.len() == 0 || pool.len() == 0 {
        Seq::empty()
    } else {
        sampled_inputs(pool.drop_last(), samples.drop_last()) + match samples.last() {
            Some(x) => seq![prepared(x, pool.last())],
            None => Seq::empty(),
        }
    }
}

/// How many samples were found.
spec fn count_found(samples: Seq<Option<TradeUpInput>>) -> nat
    decreases samples.len(),
{
    if samples.len() == 0 {
        0
    } else {
        count_found(samples.drop_last()) + if samples.last() is Some { 1nat } else { 0nat }
    }
}

/// The pool position of the `m`-th sample that was found.
spec fn found_at(samples: Seq<Option<TradeUpInput>>, m: int) -> int
    decreases samples.len(),
{
    if samples.len() == 0 {
        0
    } else if m < count_found(samples.drop_last()) {
        found_at(samples.drop_last(), m)
    } else {
        samples.len() - 1
    }
}

/// The sampled inputs are one per found sample, in pool order: the `m`-th is
/// the `m`-th found sample marked with the data of its pool skin, and every
/// found sample yields one.
proof fn lemma_sampled_inputs(pool: Seq<Skin>, samples: Seq<Option<TradeUpInput>>)
    requires
        pool.len() == samples.len(),
    ensures
        sampled_inputs(pool, samples).len() == count_found(samples),
        forall|m: int| 0 <= m < count_found(samples) ==> {
            let k = #[trigger] found_at(samples, m);
            &&& 0 <= k < samples.len()
            &&& samples[k] is Some
            &&& sampled_inputs(pool, samples)[m] == prepared(samples[k]->0, pool[k])
        },
        forall|m1: int, m2: int| 0 <= m1 < m2 < count_found(samples) ==> #[trigger] found_at(samples, m1) < #[trigger] found_at(samples, m2),
        forall|k: int| 0 <= k < samples.len() && #[trigger] samples[k] is Some ==> exists|m: int| 0 <= m < count_found(samples) && #[trigger] found_at(samples, m) == k,
    decreases samples.len(),
{
    if samples.len() > 0 {
        let n = samples.len() as int;
        let r = samples.drop_last();
        let q = pool.drop_last();
        lemma_sampled_inputs(q, r);
        let cr = count_found(r) as int;
        let ir = sampled_inputs(q, r);
        let is = sampled_inputs(pool, samples);
        assert forall|m: int| 0 <= m < count_found(samples) implies {
            let k = #[trigger] found_at(samples, m);
            &&& 0 <= k < samples.len()
            &&& samples[k] is Some
            &&& is[m] == prepared(samples[k]->0, pool[k])
        } by {
            if m < cr {
                let k = found_at(r, m);
                assert(r[k] == samples[k]);
                assert(q[k] == pool[k]);
                assert(is[m] == ir[m]);
            }
        }
        assert forall|m1: int, m2: int| 0 <= m1 < m2 < count_found(samples) implies #[trigger] found_at(samples, m1) < #[trigger] found_at(samples, m2) by {
            if m2 < cr {
                assert(found_at(r, m1) < found_at(r, m2));
            } else {
                assert(0 <= found_at(r, m1) < r.len());
            }
        }
        assert forall|k: int| 0 <= k < samples.len() && #[trigger] samples[k] is Some implies exists|m: int| 0 <= m < count_found(samples) && #[trigger] found_at(samples, m) == k by {
            if k < n - 1 {
                assert(r[k] == samples[k]);
                let m = choose|m: int| 0 <= m < count_found(r) && #[trigger] found_at(r, m) == k;
                assert(found_at(samples, m) == k);
            } else {
                assert(found_at(samples, cr) == k);
            }
        }
    }
}

/// What evaluating a target gives: the target with the first cheapest input,
/// when there is an input and the target sells for more than ten of them.
pub open spec fn target_outcome(target: Skin, target_price: u64, pool: Seq<Skin>, samples: Seq<Option<TradeUpInput>>) -> Option<(Skin, TradeUpInput)> {
    let inputs = sampled_inputs(pool, samples);
    if inputs.len() > 0 && target_price > 10 * inputs[cheapest_pos(inputs)].price {
        Some((target, inputs[cheapest_pos(inputs)]))
    } else {
        None
    }
}

/// Evaluates one target: `samples[k]` is the cheapest listing found for
/// `pool[k]` (or `None` when none was found). The target is kept, with the
/// first cheapest input, when it sells for more than ten such inputs.
pub fn evaluate_target(target: Skin, target_price: u64, pool: &Vec<Skin>, samples: &Vec<Option<TradeUpInput>>) -> (res: Option<(Skin, TradeUpInput)>)
    requires
        samples@.len() == pool@.len(),
    ensures
        res == target_outcome(target, target_price, pool@, samples@),
        ({
            let inputs = sampled_inputs(pool@, samples@);
            match res {
                Some((t, x)) => {
                    &&& inputs.len() > 0
                    &&& t == target
                    &&& x == inputs[cheapest_pos(inputs)]
                    &&& target_price > 10 * x.price
                },
                None => inputs.len() == 0 || target_price <= 10 * inputs[cheapest_pos(inputs)].price,
            }
        }),
        res is Some <==> exists|k: int|
            0 <= k < samples@.len() && #[trigger] samples@[k] is Some && target_price > 10 * samples@[k]->0.price
                && forall|j: int| 0 <= j < samples@.len() && #[trigger] samples@[j] is Some
                    ==> samples@[k]->0.price <= samples@[j]->0.price,
        res matches Some((t, x)) ==> t == target && exists|k: int|
            0 <= k < samples@.len() && #[trigger] samples@[k] is Some && {
                let y = samples@[k]->0;
                &&& x.market_hash_name == y.market_hash_name
                &&& x.float_value_bits == y.float_value_bits
                &&& x.price == y.price
                &&& x.rarity == pool@[k].rarity
                &&& x.collection == pool@[k].collections
                &&& x.min_float_bits == Some(pool@[k].min_float_bits)
                &&& x.max_float_bits == Some(pool@[k].max_float_bits)
                &&& forall|j: int| 0 <= j < samples@.len() && #[trigger] samples@[j] is Some ==> x.price <= samples@[j]->0.price
                &&& forall|j: int| 0 <= j < k && #[trigger] samples@[j] is Some ==> x.price < samples@[j]->0.price
            },
{
    let mut inputs: Vec<TradeUpInput> = Vec::new();
    let mut k: usize = 0;
    while k < samples.len()
        invariant
            samples@.len() == pool@.len(),
            k <= samples@.len(),
            inputs@ == sampled_inputs(pool@.take(k as int), samples@.take(k as int)),
        decreases samples@.len() - k,
    {
        proof {
            assert(pool@.take(k + 1).drop_last() =~= pool@.take(k as int));
            assert(samples@.take(k + 1).drop_last() =~= samples@.take(k as int));
        }
        match &samples[k] {
            Some(x) => {
                let p = prepare_input(x.clone(), &pool[k]);
                inputs.push(p);
                proof {
                    assert(inputs@ =~= sampled_inputs(pool@.take(k + 1), samples@.take(k + 1)));
                }
            },
            None => {
                proof {
                    assert(inputs@ =~= sampled_inputs(pool@.take(k + 1), samples@.take(k + 1)));
                }
            },
        }
        k = k + 1;
    }
    assert(pool@.take(pool@.len() as int) =~= pool@);
    assert(samples@.take(samples@.len() as int) =~= samples@);
    let res = match cheapest_input(&inputs) {
        Some(x) => {
            if is_profitable(target_price, x.price) {
                Some((target, x))
            } else {
                None
            }
        },
        None => None,
    };
    proof {
        let ins = inputs@;
        let ss = samples@;
        let n = ss.len() as int;
        lemma_sampled_inputs(pool@, ss);
        if ins.len() > 0 {
            lemma_cheapest_pos(ins);
            let c = cheapest_pos(ins);
            let kc = found_at(ss, c);
            assert(0 <= kc < n && ss[kc] is Some && ins[c] == prepared(ss[kc]->0, pool@[kc]));
            assert forall|j: int| 0 <= j < n && #[trigger] ss[j] is Some implies ins[c].price <= ss[j]->0.price by {
                let m = choose|m: int| 0 <= m < count_found(ss) && #[trigger] found_at(ss, m) == j;
                assert(ins[m] == prepared(ss[j]->0, pool@[j]));
                assert(ins[c].price <= ins[m].price);
            }
            assert forall|j: int| 0 <= j < kc && #[trigger] ss[j] is Some implies ins[c].price < ss[j]->0.price by {
                let m = choose|m: int| 0 <= m < count_found(ss) && #[trigger] found_at(ss, m) == j;
                assert(ins[m] == prepared(ss[j]->0, pool@[j]));
                if m > c {
                    assert(found_at(ss, c) < found_at(ss, m));
                }
                assert(m < c);
                assert(ins[m].price > ins[c].price);
            }
            if target_price > 10 * ins[c].price {
                assert(ss[kc] is Some);
            } else {
                assert forall|k: int| 0 <= k < n && #[trigger] ss[k] is Some && target_price > 10 * ss[k]->0.price
                    implies !(forall|j: int| 0 <= j < n && #[trigger] ss[j] is Some ==> ss[k]->0.price <= ss[j]->0.price) by {
                    assert(ins[c].price <= ss[k]->0.price);
                }
            }
        } else {
            assert forall|k: int| 0 <= k < n implies !(#[trigger] ss[k] is Some) by {
                if ss[k] is Some {
                    let m = choose|m: int| 0 <= m < count_found(ss) && #[trigger] found_at(ss, m) == k;
                }
            }
        }
    }
    res
}


/// Whether a target/input pair is for collection `c`.
pub open spec fn for_collection(c: Seq<char>) -> spec_fn((Skin, TradeUpInput)) -> bool {
    |p: (Skin, TradeUpInput)| p.0.collections@ == c
}

/// The inputs of a sequence of target/input pairs.
pub open spec fn inputs_of(s: Seq<(Skin, TradeUpInput)>) -> Seq<TradeUpInput> {
    s.map_values(|p: (Skin, TradeUpInput)| p.1)
}

/// The pair kept for collection `c`: among the pairs for `c`, the first with
/// the cheapest input.
#[verifier::opaque]
pub open spec fn kept_pair(io: Seq<(Skin, TradeUpInput)>, c: Seq<char>) -> (Skin, TradeUpInput) {
    let g = io.filter(for_collection(c));
    g[cheapest_pos(inputs_of(g))]
}

/// No collection is kept twice.
#[verifier::opaque]
pub open spec fn distinct_collections(res: Seq<(Skin, TradeUpInput)>) -> bool {
    forall|a: int, b: int|
        0 <= a < b < res.len() ==> #[trigger] res[a].0.collections@ != #[trigger] res[b].0.collections@
}

/// Every kept pair is the pair to keep for its collection.
#[verifier::opaque]
pub open spec fn all_kept(io: Seq<(Skin, TradeUpInput)>, res: Seq<(Skin, TradeUpInput)>) -> bool {
    forall|k: int| 0 <= k < res.len() ==> #[trigger] res[k] == kept_pair(io, res[k].0.collections@)
}

/// Every kept collection has a pair in `io`.
#[verifier::opaque]
pub open spec fn kept_from(io: Seq<(Skin, TradeUpInput)>, res: Seq<(Skin, TradeUpInput)>) -> bool {
    forall|k: int| #![trigger res[k]] 0 <= k < res.len() ==> has_pair_for(io, res[k].0.collections@)
}

/// Some pair of `io` is for collection `c`.
pub open spec fn has_pair_for(io: Seq<(Skin, TradeUpInput)>, c: Seq<char>) -> bool {
    exists|p: int| 0 <= p < io.len() && #[trigger] io[p].0.collections@ == c
}

/// Every collection of `io` is kept.
#[verifier::opaque]
pub open spec fn covers(io: Seq<(Skin, TradeUpInput)>, res: Seq<(Skin, TradeUpInput)>) -> bool {
    forall|p: int| #![trigger io[p]] 0 <= p < io.len() ==> has_pair_for(res, io[p].0.collections@)
}

/// `res` keeps one pair per collection of `io`: the first with the cheapest input.
pub open spec fn one_pair_per_collection(io: Seq<(Skin, TradeUpInput)>, res: Seq<(Skin, TradeUpInput)>) -> bool {
    &&& distinct_collections(res)
    &&& all_kept(io, res)
    &&& kept_from(io, res)
    &&& covers(io, res)
}

proof fn lemma_inputs_of_push(s: Seq<(Skin, TradeUpInput)>, x: (Skin, TradeUpInput))
    ensures
        inputs_of(s.push(x)) == inputs_of(s).push(x.1),
        inputs_of(s).len() == s.len(),
{
    assert(inputs_of(s.push(x)) =~= inputs_of(s).push(x.1));
}

/// Extending the pairs by `x` keeps the choice for other collections, and for
/// the collection of `x` picks `x` when it is strictly cheaper than the kept pair.
proof fn lemma_kept_pair_push(io: Seq<(Skin, TradeUpInput)>, x: (Skin, TradeUpInput), c: Seq<char>)
    ensures
        c != x.0.collections@ ==> kept_pair(io.push(x), c) == kept_pair(io, c),
        c == x.0.collections@ && io.filter(for_collection(c)).len() == 0 ==> kept_pair(io.push(x), c) == x,
        c == x.0.collections@ && io.filter(for_collection(c)).len() > 0 ==> kept_pair(io.push(x), c) == if x.1.price < kept_pair(io, c).1.price {
            x
        } else {
            kept_pair(io, c)
        },
{
    reveal(kept_pair);
    let g = io.filter(for_collection(c));
    io.lemma_filter_push(x, for_collection(c));
    if c == x.0.collections@ {
        let g1 = g.push(x);
        lemma_inputs_of_push(g, x);
        let gs = inputs_of(g);
        let gs1 = inputs_of(g1);
        if g.len() > 0 {
            assert(gs1.drop_last() =~= gs);
            let k = cheapest_pos(gs);
            lemma_cheapest_pos(gs);
            assert(gs[k] == g[k].1);
            assert(g1[k] == g[k]);
        } else {
            assert(gs1.len() == 1);
        }
    }
}

/// A collection with a pair in `io` has pairs after filtering.
proof fn lemma_filter_present(io: Seq<(Skin, TradeUpInput)>, p: int)
    requires
        0 <= p < io.len(),
    ensures
        io.filter(for_collection(io[p].0.collections@)).len() > 0,
{
    io.lemma_filter_contains(for_collection(io[p].0.collections@), p);
}

/// A collection with no pair in `io` has no pair after filtering.
proof fn lemma_filter_absent(io: Seq<(Skin, TradeUpInput)>, c: Seq<char>)
    requires
        forall|p: int| 0 <= p < io.len() ==> #[trigger] io[p].0.collections@ != c,
    ensures
        io.filter(for_collection(c)).len() == 0,
{
    let g = io.filter(for_collection(c));
    if g.len() > 0 {
        io.lemma_filter_pred(for_collection(c), 0);
        io.lemma_filter_contains_rev(for_collection(c), g[0]);
        let p = choose|p: int| 0 <= p < io.len() && io[p] == g[0];
        assert(io[p].0.collections@ == c);
    }
}

/// The kept collection at `k` has a pair in `io`.
proof fn lemma_kept_from_at(io: Seq<(Skin, TradeUpInput)>, res: Seq<(Skin, TradeUpInput)>, k: int)
    requires
        kept_from(io, res),
        0 <= k < res.len(),
    ensures
        io.filter(for_collection(res[k].0.collections@)).len() > 0,
{
    reveal(kept_from);
    assert(res[k] == res[k]);
    let p = choose|p: int| 0 <= p < io.len() && #[trigger] io[p].0.collections@ == res[k].0.collections@;
    lemma_filter_present(io, p);
}

/// A collection that `res` does not keep has no pair in `io`.
proof fn lemma_covers_absent(io: Seq<(Skin, TradeUpInput)>, res: Seq<(Skin, TradeUpInput)>, c: Seq<char>)
    requires
        covers(io, res),
        forall|k: int| 0 <= k < res.len() ==> #[trigger] res[k].0.collections@ != c,
    ensures
        io.filter(for_collection(c)).len() == 0,
{
    reveal(covers);
    assert forall|p: int| 0 <= p < io.len() implies #[trigger] io[p].0.collections@ != c by {
        assert(io[p] == io[p]);
        let k = choose|k: int| 0 <= k < res.len() && #[trigger] res[k].0.collections@ == io[p].0.collections@;
    }
    lemma_filter_absent(io, c);
}

proof fn lemma_kept_from_push(io: Seq<(Skin, TradeUpInput)>, x: (Skin, TradeUpInput), res: Seq<(Skin, TradeUpInput)>)
    requires
        kept_from(io, res),
    ensures
        kept_from(io.push(x), res),
        kept_from(io.push(x), res.push(x)),
        forall|idx: int| 0 <= idx < res.len() && res[idx].0.collections@ == x.0.collections@ ==> kept_from(io.push(x), #[trigger] res.update(idx, x)),
{
    reveal(kept_from);
    let t1 = io.push(x);
    assert forall|k: int| #![trigger res[k]] 0 <= k < res.len() implies has_pair_for(t1, res[k].0.collections@) by {
        let p = choose|p: int| 0 <= p < io.len() && #[trigger] io[p].0.collections@ == res[k].0.collections@;
        assert(t1[p] == io[p]);
        assert(t1[p].0.collections@ == res[k].0.collections@);
    }
    assert(kept_from(t1, res));
    let r2 = res.push(x);
    assert forall|k: int| #![trigger r2[k]] 0 <= k < r2.len() implies has_pair_for(t1, r2[k].0.collections@) by {
        if k < res.len() {
            assert(r2[k] == res[k]);
            assert(res[k] == res[k]);
            let p = choose|p: int| 0 <= p < io.len() && #[trigger] io[p].0.collections@ == res[k].0.collections@;
            assert(t1[p] == io[p]);
            assert(t1[p].0.collections@ == r2[k].0.collections@);
        } else {
            let n = io.len() as int;
            assert(t1[n] == x);
            assert(t1[n].0.collections@ == r2[k].0.collections@);
        }
    }
    assert forall|idx: int| 0 <= idx < res.len() && res[idx].0.collections@ == x.0.collections@ implies kept_from(t1, #[trigger] res.update(idx, x)) by {
        let r1 = res.update(idx, x);
        assert forall|k: int| #![trigger r1[k]] 0 <= k < r1.len() implies has_pair_for(t1, r1[k].0.collections@) by {
            assert(res[k] == res[k]);
            assert(r1[k].0.collections@ == res[k].0.collections@);
            let p = choose|p: int| 0 <= p < io.len() && #[trigger] io[p].0.collections@ == res[k].0.collections@;
            assert(t1[p] == io[p]);
            assert(t1[p].0.collections@ == r1[k].0.collections@);
        }
    }
}

proof fn lemma_covers_push(io: Seq<(Skin, TradeUpInput)>, x: (Skin, TradeUpInput), res: Seq<(Skin, TradeUpInput)>, idx: int)
    requires
        covers(io, res),
        0 <= idx < res.len(),
        res[idx].0.collections@ == x.0.collections@,
    ensures
        covers(io.push(x), res),
        covers(io.push(x), res.update(idx, x)),
{
    reveal(covers);
    let t1 = io.push(x);
    let r1 = res.update(idx, x);
    assert forall|p: int| #![trigger t1[p]] 0 <= p < t1.len() implies has_pair_for(res, t1[p].0.collections@) by {
        if p < io.len() {
            assert(t1[p] == io[p]);
            assert(io[p] == io[p]);
        } else {
            assert(res[idx].0.collections@ == t1[p].0.collections@);
        }
    }
    assert forall|p: int| #![trigger t1[p]] 0 <= p < t1.len() implies has_pair_for(r1, t1[p].0.collections@) by {
        assert(t1[p] == t1[p]);
        let k = choose|k: int| 0 <= k < res.len() && #[trigger] res[k].0.collections@ == t1[p].0.collections@;
        assert(r1[k].0.collections@ == res[k].0.collections@);
    }
}

proof fn lemma_covers_push_new(io: Seq<(Skin, TradeUpInput)>, x: (Skin, TradeUpInput), res: Seq<(Skin, TradeUpInput)>)
    requires
        covers(io, res),
    ensures
        covers(io.push(x), res.push(x)),
{
    reveal(covers);
    let t1 = io.push(x);
    let r1 = res.push(x);
    assert forall|p: int| #![trigger t1[p]] 0 <= p < t1.len() implies has_pair_for(r1, t1[p].0.collections@) by {
        if p < io.len() {
            assert(t1[p] == io[p]);
            assert(io[p] == io[p]);
            let k = choose|k: int| 0 <= k < res.len() && #[trigger] res[k].0.collections@ == io[p].0.collections@;
            assert(r1[k] == res[k]);
            assert(r1[k].0.collections@ == t1[p].0.collections@);
        } else {
            let n = res.len() as int;
            assert(r1[n] == x);
            assert(r1[n].0.collections@ == t1[p].0.collections@);
        }
    }
}

proof fn lemma_all_kept_step(io: Seq<(Skin, TradeUpInput)>, x: (Skin, TradeUpInput), res: Seq<(Skin, TradeUpInput)>, idx: int)
    requires
        all_kept(io, res),
        distinct_collections(res),
        kept_from(io, res),
        0 <= idx < res.len(),
        res[idx].0.collections@ == x.0.collections@,
    ensures
        x.1.price < res[idx].1.price ==> all_kept(io.push(x), res.update(idx, x)),
        !(x.1.price < res[idx].1.price) ==> all_kept(io.push(x), res),
{
    reveal(all_kept);
    reveal(distinct_collections);
    let t1 = io.push(x);
    let c = x.0.collections@;
    lemma_kept_from_at(io, res, idx);
    lemma_kept_pair_push(io, x, c);
    assert(res[idx] == kept_pair(io, res[idx].0.collections@));
    let r1 = if x.1.price < res[idx].1.price { res.update(idx, x) } else { res };
    assert forall|k: int| 0 <= k < r1.len() implies #[trigger] r1[k] == kept_pair(t1, r1[k].0.collections@) by {
        if k != idx {
            assert(res[k] == kept_pair(io, res[k].0.collections@));
            if k < idx {
                assert(res[k].0.collections@ != res[idx].0.collections@);
            } else {
                assert(res[idx].0.collections@ != res[k].0.collections@);
            }
            lemma_kept_pair_push(io, x, res[k].0.collections@);
        }
    }
}

proof fn lemma_all_kept_new(io: Seq<(Skin, TradeUpInput)>, x: (Skin, TradeUpInput), res: Seq<(Skin, TradeUpInput)>)
    requires
        all_kept(io, res),
        covers(io, res),
        forall|k: int| 0 <= k < res.len() ==> #[trigger] res[k].0.collections@ != x.0.collections@,
    ensures
        all_kept(io.push(x), res.push(x)),
        distinct_collections(res) ==> distinct_collections(res.push(x)),
{
    reveal(all_kept);
    let t1 = io.push(x);
    let r1 = res.push(x);
    let c = x.0.collections@;
    lemma_covers_absent(io, res, c);
    lemma_kept_pair_push(io, x, c);
    assert forall|k: int| 0 <= k < r1.len() implies #[trigger] r1[k] == kept_pair(t1, r1[k].0.collections@) by {
        if k < res.len() {
            assert(r1[k] == res[k]);
            assert(res[k] == kept_pair(io, res[k].0.collections@));
            lemma_kept_pair_push(io, x, res[k].0.collections@);
        }
    }
    if distinct_collections(res) {
        reveal(distinct_collections);
        assert forall|a: int, b: int|
            0 <= a < b < r1.len() implies #[trigger] r1[a].0.collections@ != #[trigger] r1[b].0.collections@ by {
            assert(r1[a] == res[a]);
            if b < res.len() {
                assert(r1[b] == res[b]);
                assert(res[a].0.collections@ != res[b].0.collections@);
            }
        }
    }
}

proof fn lemma_distinct_update(res: Seq<(Skin, TradeUpInput)>, idx: int, x: (Skin, TradeUpInput))
    requires
        distinct_collections(res),
        0 <= idx < res.len(),
        res[idx].0.collections@ == x.0.collections@,
    ensures
        distinct_collections(res.update(idx, x)),
{
    reveal(distinct_collections);
    let r1 = res.update(idx, x);
    assert forall|a: int, b: int|
        0 <= a < b < r1.len() implies #[trigger] r1[a].0.collections@ != #[trigger] r1[b].0.collections@ by {
        assert(res[a].0.collections@ != res[b].0.collections@);
    }
}

/// The position in `res` of the pair for collection `name`, if there is one.
pub fn find_pair(res: &Vec<(Skin, TradeUpInput)>, name: &str) -> (r: Option<usize>)
    ensures
        match r {
            Some(i) => i < res@.len() && res@[i as int].0.collections@ == name@,
            None => forall|k: int| 0 <= k < res@.len() ==> #[trigger] res@[k].0.collections@ != name@,
        },
{
    let mut i: usize = 0;
    while i < res.len()
        invariant
            i <= res@.len(),
            forall|k: int| 0 <= k < i ==> #[trigger] res@[k].0.collections@ != name@,
        decreases res@.len() - i,
    {
        if crate::text::str_eq(res[i].0.collections.as_str(), name) {
            return Some(i);
        }
        i = i + 1;
    }
    None
}

/// `p` is the position of the first pair of `io` for collection `c`.
pub open spec fn first_pair_at(io: Seq<(Skin, TradeUpInput)>, c: Seq<char>, p: int) -> bool {
    &&& 0 <= p < io.len()
    &&& io[p].0.collections@ == c
    &&& forall|q: int| 0 <= q < p ==> #[trigger] io[q].0.collections@ != c
}

/// The pairs of `res` come in the order in which their collections first
/// appear in `io`.
pub open spec fn in_first_appearance_order(io: Seq<(Skin, TradeUpInput)>, res: Seq<(Skin, TradeUpInput)>) -> bool {
    forall|a: int, b: int, p: int, q: int|
        0 <= a < b < res.len() && #[trigger] first_pair_at(io, res[a].0.collections@, p)
            && #[trigger] first_pair_at(io, res[b].0.collections@, q) ==> p < q
}

/// Every collection of `res` first appears in `io` before position `i`.
spec fn firsts_before(io: Seq<(Skin, TradeUpInput)>, res: Seq<(Skin, TradeUpInput)>, i: int) -> bool {
    forall|k: int, p: int| 0 <= k < res.len() && #[trigger] first_pair_at(io, res[k].0.collections@, p) ==> p < i
}

/// Replacing pairs by pairs of the same collections keeps the order.
proof fn lemma_order_same_collections(
    io: Seq<(Skin, TradeUpInput)>,
    r0: Seq<(Skin, TradeUpInput)>,
    r1: Seq<(Skin, TradeUpInput)>,
    i: int,
)
    requires
        r0.len() == r1.len(),
        forall|k: int| 0 <= k < r0.len() ==> #[trigger] r1[k].0.collections@ == r0[k].0.collections@,
        in_first_appearance_order(io, r0),
        firsts_before(io, r0, i),
    ensures
        in_first_appearance_order(io, r1),
        firsts_before(io, r1, i + 1),
{
    assert forall|a: int, b: int, p: int, q: int|
        0 <= a < b < r1.len() && #[trigger] first_pair_at(io, r1[a].0.collections@, p)
            && #[trigger] first_pair_at(io, r1[b].0.collections@, q) implies p < q by {
        assert(r1[a].0.collections@ == r0[a].0.collections@);
        assert(r1[b].0.collections@ == r0[b].0.collections@);
        assert(first_pair_at(io, r0[a].0.collections@, p));
        assert(first_pair_at(io, r0[b].0.collections@, q));
    }
    assert forall|k: int, p: int| 0 <= k < r1.len() && #[trigger] first_pair_at(io, r1[k].0.collections@, p) implies p < i + 1 by {
        assert(r1[k].0.collections@ == r0[k].0.collections@);
        assert(first_pair_at(io, r0[k].0.collections@, p));
    }
}

/// Appending the pair at position `i`, whose collection no earlier pair has,
/// keeps the order.
proof fn lemma_order_push_new(
    io: Seq<(Skin, TradeUpInput)>,
    r0: Seq<(Skin, TradeUpInput)>,
    i: int,
)
    requires
        0 <= i < io.len(),
        forall|q: int| 0 <= q < i ==> #[trigger] io[q].0.collections@ != io[i].0.collections@,
        forall|k: int| 0 <= k < r0.len() ==> #[trigger] r0[k].0.collections@ != io[i].0.collections@,
        in_first_appearance_order(io, r0),
        firsts_before(io, r0, i),
    ensures
        in_first_appearance_order(io, r0.push(io[i])),
        firsts_before(io, r0.push(io[i]), i + 1),
{
    let r1 = r0.push(io[i]);
    let c = io[i].0.collections@;
    assert(first_pair_at(io, c, i));
    assert forall|a: int, b: int, p: int, q: int|
        0 <= a < b < r1.len() && #[trigger] first_pair_at(io, r1[a].0.collections@, p)
            && #[trigger] first_pair_at(io, r1[b].0.collections@, q) implies p < q by {
        assert(r1[a] == r0[a]);
        if b < r0.len() {
            assert(r1[b] == r0[b]);
        } else {
            assert(r1[b].0.collections@ == c);
            if q < i {
                assert(io[q].0.collections@ == c);
            } else if i < q {
                assert(io[i].0.collections@ == c);
            }
            assert(first_pair_at(io, r0[a].0.collections@, p));
        }
    }
    assert forall|k: int, p: int| 0 <= k < r1.len() && #[trigger] first_pair_at(io, r1[k].0.collections@, p) implies p < i + 1 by {
        if k < r0.len() {
            assert(r1[k] == r0[k]);
        } else {
            assert(r1[k].0.collections@ == c);
            if i < p {
                assert(io[i].0.collections@ == c);
            }
        }
    }
}

/// Keeps one target/input pair per collection: the first pair whose input is
/// the cheapest of that collection. Pairs come out in the order in which their
/// collections first appear.
pub fn dedup_by_collection(io_pair: Vec<(Skin, TradeUpInput)>) -> (res: Vec<(Skin, TradeUpInput)>)
    ensures
        one_pair_per_collection(io_pair@, res@),
        in_first_appearance_order(io_pair@, res@),
{
    let ghost io = io_pair@;
    let mut res: Vec<(Skin, TradeUpInput)> = Vec::new();
    let mut i: usize = 0;
    proof {
        reveal(distinct_collections);
        reveal(all_kept);
        reveal(kept_from);
        reveal(covers);
    }
    while i < io_pair.len()
        invariant
            io == io_pair@,
            i <= io.len(),
            one_pair_per_collection(io.take(i as int), res@),
            in_first_appearance_order(io, res@),
            firsts_before(io, res@, i as int),
        decreases io.len() - i,
    {
        let ghost t = io.take(i as int);
        let ghost r0 = res@;
        let ghost x = io[i as int];
        proof {
            assert(io.take(i + 1) =~= t.push(x));
            lemma_kept_from_push(t, x, r0);
        }
        let found = find_pair(&res, io_pair[i].0.collections.as_str());
        match found {
            Some(idx) => {
                proof {
                    lemma_all_kept_step(t, x, r0, idx as int);
                    lemma_covers_push(t, x, r0, idx as int);
                    lemma_distinct_update(r0, idx as int, x);
                }
                if io_pair[i].1.price < res[idx].1.price {
                    let pair = (io_pair[i].0.clone(), io_pair[i].1.clone());
                    res.set(idx, pair);
                }
                proof {
                    lemma_order_same_collections(io, r0, res@, i as int);
                }
            },
            None => {
                proof {
                    lemma_all_kept_new(t, x, r0);
                    lemma_covers_push_new(t, x, r0);
                }
                proof {
                    reveal(covers);
                    assert forall|q: int| 0 <= q < i implies #[trigger] io[q].0.collections@ != x.0.collections@ by {
                        assert(t[q] == io[q]);
                        if io[q].0.collections@ == x.0.collections@ {
                            assert(has_pair_for(r0, t[q].0.collections@));
                        }
                    }
                    lemma_order_push_new(io, r0, i as int);
                }
                let pair = (io_pair[i].0.clone(), io_pair[i].1.clone());
                res.push(pair);
            },
        }
        i = i + 1;
    }
    assert(io.take(io.len() as int) =~= io);
    res
}


/// Whether the target of a pair has an output tier: a tier of its own rarity
/// in its own collection.
pub open spec fn has_output_tier(collections: Collections) -> spec_fn((Skin, TradeUpInput)) -> bool {
    |p: (Skin, TradeUpInput)| collections.has_tier(p.0.collections@, p.0.rarity)
}

/// The target and input of a pair joined with its output pool.
pub open spec fn pair_of(t: (Skin, TradeUpInput, &Vec<Skin>)) -> (Skin, TradeUpInput) {
    (t.0, t.1)
}

/// The pairs whose target has an output tier, in order, each with that tier:
/// the skins a trade-up into the target can give. Pairs without one are dropped.
pub fn with_output_pools<'a>(collections: &'a Collections, pairs: &Vec<(Skin, TradeUpInput)>) -> (res: Vec<(Skin, TradeUpInput, &'a Vec<Skin>)>)
    requires
        collections.wf(),
    ensures
        res@.map_values(|t: (Skin, TradeUpInput, &Vec<Skin>)| pair_of(t)) == pairs@.filter(has_output_tier(*collections)),
        forall|k: int| 0 <= k < res@.len() ==> (#[trigger] res@[k]).2@ == collections.skins_of(res@[k].0.collections@, res@[k].0.rarity),
{
    let ghost ps = pairs@;
    let mut res: Vec<(Skin, TradeUpInput, &'a Vec<Skin>)> = Vec::new();
    let mut i: usize = 0;
    while i < pairs.len()
        invariant
            ps == pairs@,
            collections.wf(),
            i <= ps.len(),
            res@.map_values(|t: (Skin, TradeUpInput, &Vec<Skin>)| pair_of(t)) == ps.take(i as int).filter(has_output_tier(*collections)),
            forall|k: int| 0 <= k < res@.len() ==> (#[trigger] res@[k]).2@ == collections.skins_of(res@[k].0.collections@, res@[k].0.rarity),
        decreases ps.len() - i,
    {
        let ghost r0 = res@;
        proof {
            assert(ps.take(i + 1) =~= ps.take(i as int).push(ps[i as int]));
            ps.take(i as int).lemma_filter_push(ps[i as int], has_output_tier(*collections));
        }
        let target = &pairs[i].0;
        match collections.tier_of(target.collections.as_str(), target.rarity) {
            Some(pool) => {
                let t = (pairs[i].0.clone(), pairs[i].1.clone(), pool);
                res.push(t);
                proof {
                    assert(res@.map_values(|t: (Skin, TradeUpInput, &Vec<Skin>)| pair_of(t)) =~= r0.map_values(
                        |t: (Skin, TradeUpInput, &Vec<Skin>)| pair_of(t),
                    ).push(ps[i as int]));
                }
            },
            None => {},
        }
        i = i + 1;
    }
    assert(ps.take(ps.len() as int) =~= ps);
    res
}

/// One outcome of a trade-up: `output` in the wear condition `wear`, with the
/// outcome's float value (as a bit pattern) and its market price. Its
/// probability is left at zero for the caller to fill in.
pub fn make_output(output: &Skin, wear: Condition, float_value_bits: u64, price: u64) -> (res: TradeUpOutput)
    ensures
        res.market_hash_name@ == output.name@ + " ("@ + condition_label(wear) + ")"@,
        res.float_value_bits == float_value_bits,
        res.price == price,
        res.rarity == output.rarity,
        res.collection == output.collections,
        res.probability_bits == 0,
        res.min_float_bits == Some(output.min_float_bits),
        res.max_float_bits == Some(output.max_float_bits),
{
    TradeUpOutput {
        market_hash_name: market_hash_name(output.name.as_str(), wear),
        float_value_bits,
        price,
        rarity: output.rarity,
        collection: output.collections.clone(),
        probability_bits: 0,
        min_float_bits: Some(output.min_float_bits),
        max_float_bits: Some(output.max_float_bits),
    }
}

/// The lowest price among the outcomes (meaningful when there is one).
pub open spec fn lowest_price(s: Seq<TradeUpOutput>) -> int
    decreases s.len(),
{
    if s.len() <= 1 {
        s[0].price as int
    } else {
        let m = lowest_price(s.drop_last());
        if (s.last().price as int) < m { s.last().price as int } else { m }
    }
}

/// The highest price among the outcomes (meaningful when there is one).
pub open spec fn highest_price(s: Seq<TradeUpOutput>) -> int
    decreases s.len(),
{
    if s.len() <= 1 {
        s[0].price as int
    } else {
        let m = highest_price(s.drop_last());
        if (s.last().price as int) > m { s.last().price as int } else { m }
    }
}

/// The lowest and highest price are prices of outcomes, and bound all of them.
pub proof fn lemma_price_bounds(s: Seq<TradeUpOutput>)
    requires
        s.len() > 0,
    ensures
        exists|i: int| 0 <= i < s.len() && #[trigger] s[i].price == lowest_price(s),
        exists|i: int| 0 <= i < s.len() && #[trigger] s[i].price == highest_price(s),
        forall|i: int| 0 <= i < s.len() ==> lowest_price(s) <= #[trigger] s[i].price <= highest_price(s),
    decreases s.len(),
{
    if s.len() > 1 {
        let t = s.drop_last();
        lemma_price_bounds(t);
        let n = s.len() - 1;
        assert(s[n] == s.last());
        let a = choose|i: int| 0 <= i < t.len() && #[trigger] t[i].price == lowest_price(t);
        let b = choose|i: int| 0 <= i < t.len() && #[trigger] t[i].price == highest_price(t);
        assert(t[a] == s[a] && t[b] == s[b]);
        assert forall|i: int| 0 <= i < s.len() implies lowest_price(s) <= #[trigger] s[i].price <= highest_price(s) by {
            if i < n {
                assert(t[i] == s[i]);
            }
        }
    } else {
        assert(s[0].price == lowest_price(s));
    }
}

/// The worst and best outcome values: the lowest and highest outcome price,
/// or 0 and 1 when there are no outcomes.
pub fn value_bounds(outputs: &Vec<TradeUpOutput>) -> (res: (u64, u64))
    ensures
        outputs@.len() == 0 ==> res == (0u64, 1u64),
        outputs@.len() > 0 ==> res.0 == lowest_price(outputs@) && res.1 == highest_price(outputs@),
{
    if outputs.len() == 0 {
        return (0, 1);
    }
    let mut lo = outputs[0].price;
    let mut hi = outputs[0].price;
    let mut i: usize = 1;
    while i < outputs.len()
        invariant
            1 <= i <= outputs@.len(),
            lo == lowest_price(outputs@.take(i as int)),
            hi == highest_price(outputs@.take(i as int)),
        decreases outputs@.len() - i,
    {
        proof {
            assert(outputs@.take(i + 1).drop_last() =~= outputs@.take(i as int));
        }
        if outputs[i].price < lo {
            lo = outputs[i].price;
        }
        if outputs[i].price > hi {
            hi = outputs[i].price;
        }
        i = i + 1;
    }
    assert(outputs@.take(outputs@.len() as int) =~= outputs@);
    (lo, hi)
}

/// What ten inputs cost.
pub fn total_cost(input: &TradeUpInput) -> (res: u64)
    requires
        10 * input.price <= u64::MAX,
    ensures
        res == 10 * input.price,
{
    input.price * 10
}

/// Puts a trade-up together: ten copies of `input`, no filler, the outcomes,
/// their worst and best value, and the expected value and return on investment
/// (bit patterns computed by the caller).
pub fn assemble_tradeup(input: TradeUpInput, outputs: Vec<TradeUpOutput>, ev_bits: u64, roi_bits: u64) -> (res: TradeUp)
    requires
        10 * input.price <= u64::MAX,
    ensures
        res.input == input,
        res.input_count == 10,
        res.filler is None,
        res.filler_count == 0,
        res.outputs@ == outputs@,
        res.total_cost == 10 * input.price,
        outputs@.len() == 0 ==> res.worst_value == 0 && res.best_value == 1,
        outputs@.len() > 0 ==> res.worst_value == lowest_price(outputs@) && res.best_value == highest_price(outputs@),
        res.worst_value <= res.best_value,
        res.ev_bits == ev_bits,
        res.roi_bits == roi_bits,
{
    let cost = total_cost(&input);
    let (worst, best) = value_bounds(&outputs);
    proof {
        if outputs@.len() > 0 {
            lemma_price_bounds(outputs@);
        }
    }
    TradeUp {
        input,
        input_count: 10,
        filler: None,
        filler_count: 0,
        outputs,
        total_cost: cost,
        worst_value: worst,
        best_value: best,
        ev_bits,
        roi_bits,
    }
}

/// Whether `names` lists the name `c`.
pub open spec fn listed(names: Seq<String>, c: Seq<char>) -> bool {
    exists|i: int| 0 <= i < names.len() && #[trigger] names[i]@ == c
}

/// Whether `names` lists `name`.
pub fn is_listed(names: &Vec<String>, name: &str) -> (res: bool)
    ensures
        res == listed(names@, name@),
{
    let mut i: usize = 0;
    while i < names.len()
        invariant
            i <= names@.len(),
            forall|k: int| 0 <= k < i ==> #[trigger] names@[k]@ != name@,
        decreases names@.len() - i,
    {
        if crate::text::str_eq(names[i].as_str(), name) {
            return true;
        }
        i = i + 1;
    }
    false
}

/// Some of the first `i` groups is `g`, and `names` lists its name.
pub open spec fn listed_source(gs: Seq<CollectionGroup>, i: int, names: Seq<String>, g: CollectionGroup) -> bool {
    exists|b: int| 0 <= b < i && #[trigger] gs[b] == g && listed(names, gs[b].name@)
}

/// `kept` holds `g`.
pub open spec fn holds_group(kept: Seq<CollectionGroup>, g: CollectionGroup) -> bool {
    exists|a: int| 0 <= a < kept.len() && #[trigger] kept[a] == g
}

impl Collections {
    /// The collections whose name `names` lists, in their order.
    pub fn retain_named(self, names: &Vec<String>) -> (res: Collections)
        requires
            self.wf(),
        ensures
            res.wf(),
            forall|c: Seq<char>| #[trigger] res.has_collection(c) == (self.has_collection(c) && listed(names@, c)),
            forall|c: Seq<char>, r: Rarity| #[trigger] res.skins_of(c, r) == if listed(names@, c) {
                self.skins_of(c, r)
            } else {
                Seq::empty()
            },
            forall|c: Seq<char>, r: Rarity| #[trigger] res.has_tier(c, r) == (listed(names@, c) && self.has_tier(c, r)),
    {
        let ghost gs = self.groups@;
        let ghost n = gs.len() as int;
        let ghost pre = self;
        let mut kept: Vec<CollectionGroup> = Vec::new();
        let mut rest = self.groups;
        let mut i: usize = 0;
        assert(rest@.len() == rest.len());
        assert(gs.skip(0) =~= gs);
        while rest.len() > 0
            invariant
                gs == pre.groups@,
                n == gs.len(),
                n <= usize::MAX,
                pre.wf(),
                i <= n,
                rest@ == gs.skip(i as int),
                forall|a: int, b: int| 0 <= a < b < kept@.len() ==> #[trigger] kept@[a].name@ != #[trigger] kept@[b].name@,
                forall|a: int| 0 <= a < kept@.len() ==> #[trigger] kept@[a].wf(),
                forall|a: int| 0 <= a < kept@.len() ==> listed_source(gs, i as int, names@, #[trigger] kept@[a]),
                forall|b: int| 0 <= b < i && listed(names@, #[trigger] gs[b].name@) ==> holds_group(kept@, gs[b]),
            decreases rest@.len(),
        {
            let ghost gi = i as int;
            let ghost k0 = kept@;
            proof {
                assert forall|a: int| 0 <= a < k0.len() implies listed_source(gs, gi + 1, names@, #[trigger] k0[a]) by {
                    let b = choose|b: int| 0 <= b < gi && #[trigger] gs[b] == k0[a] && listed(names@, gs[b].name@);
                }
            }
            let g = rest.remove(0);
            proof {
                assert(g == gs[gi]);
                assert(rest@ =~= gs.skip(gi + 1));
            }
            if is_listed(names, g.name.as_str()) {
                proof {
                    assert forall|a: int| 0 <= a < k0.len() implies #[trigger] k0[a].name@ != gs[gi].name@ by {
                        let b = choose|b: int| 0 <= b < gi && #[trigger] gs[b] == k0[a] && listed(names@, gs[b].name@);
                        assert(gs[b].name@ != gs[gi].name@);
                    }
                }
                kept.push(g);
                proof {
                    let k1 = kept@;
                    assert(k1[k0.len() as int] == gs[gi]);
                    assert forall|a: int, b: int| 0 <= a < b < k1.len() implies #[trigger] k1[a].name@ != #[trigger] k1[b].name@ by {
                        if b < k0.len() {
                            assert(k0[a].name@ != k0[b].name@);
                        }
                    }
                    assert forall|a: int| 0 <= a < k1.len() implies #[trigger] k1[a].wf() by {
                        if a < k0.len() {
                            assert(k0[a].wf());
                        } else {
                            assert(gs[gi].wf());
                        }
                    }
                    assert forall|a: int| 0 <= a < k1.len() implies listed_source(gs, gi + 1, names@, #[trigger] k1[a]) by {
                        if a < k0.len() {
                            assert(k1[a] == k0[a]);
                        } else {
                            assert(gs[gi] == k1[a]);
                        }
                    }
                    assert forall|b: int| 0 <= b < gi + 1 && listed(names@, #[trigger] gs[b].name@) implies holds_group(k1, gs[b]) by {
                        if b < gi {
                            let a = choose|a: int| 0 <= a < k0.len() && #[trigger] k0[a] == gs[b];
                            assert(k1[a] == k0[a]);
                        } else {
                            assert(k1[k0.len() as int] == gs[b]);
                        }
                    }
                }
            }
            i = i + 1;
        }
        let res = Collections { groups: kept };
        proof {
            assert(res.wf());
            assert forall|c: Seq<char>| #[trigger] res.has_collection(c) == (pre.has_collection(c) && listed(names@, c)) by {
                if res.has_collection(c) {
                    let a = choose|a: int| 0 <= a < res.groups@.len() && #[trigger] res.groups@[a].name@ == c;
                    assert(listed_source(gs, n, names@, kept@[a]));
                    let b = choose|b: int| 0 <= b < n && #[trigger] gs[b] == kept@[a] && listed(names@, gs[b].name@);
                    assert(pre.groups@[b].name@ == c);
                }
                if pre.has_collection(c) && listed(names@, c) {
                    let b = choose|b: int| 0 <= b < n && #[trigger] pre.groups@[b].name@ == c;
                    assert(holds_group(kept@, gs[b]));
                    let a = choose|a: int| 0 <= a < kept@.len() && #[trigger] kept@[a] == gs[b];
                    assert(res.groups@[a].name@ == c);
                }
            }
            assert forall|c: Seq<char>, r: Rarity| #[trigger] res.skins_of(c, r) == if listed(names@, c) {
                pre.skins_of(c, r)
            } else {
                Seq::empty()
            } by {
                if res.has_collection(c) {
                    let a = choose|a: int| 0 <= a < res.groups@.len() && #[trigger] res.groups@[a].name@ == c;
                    assert(listed_source(gs, n, names@, kept@[a]));
                    let b = choose|b: int| 0 <= b < n && #[trigger] gs[b] == kept@[a] && listed(names@, gs[b].name@);
                    res.lemma_collection_at(a);
                    pre.lemma_collection_at(b);
                } else if pre.has_collection(c) && listed(names@, c) {
                    let b = choose|b: int| 0 <= b < n && #[trigger] pre.groups@[b].name@ == c;
                    assert(holds_group(kept@, gs[b]));
                    let a = choose|a: int| 0 <= a < kept@.len() && #[trigger] kept@[a] == gs[b];
                    assert(res.groups@[a].name@ == c);
                }
            }
            assert forall|c: Seq<char>, r: Rarity| #[trigger] res.has_tier(c, r) == (listed(names@, c) && pre.has_tier(c, r)) by {
                if res.has_collection(c) {
                    let a = choose|a: int| 0 <= a < res.groups@.len() && #[trigger] res.groups@[a].name@ == c;
                    assert(listed_source(gs, n, names@, kept@[a]));
                    let b = choose|b: int| 0 <= b < n && #[trigger] gs[b] == kept@[a] && listed(names@, gs[b].name@);
                    res.lemma_collection_at(a);
                    pre.lemma_collection_at(b);
                } else if pre.has_collection(c) && listed(names@, c) {
                    let b = choose|b: int| 0 <= b < n && #[trigger] pre.groups@[b].name@ == c;
                    assert(holds_group(kept@, gs[b]));
                    let a = choose|a: int| 0 <= a < kept@.len() && #[trigger] kept@[a] == gs[b];
                    assert(res.groups@[a].name@ == c);
                }
            }
        }
        res
    }
}


/// The market name under which a target's price is looked up: its Factory New name.
pub open spec fn factory_new_name(t: Skin) -> Seq<char> {
    t.name@ + " ("@ + condition_label(Condition::FactoryNew) + ")"@
}

/// The cache holds `price` for `name`.
pub open spec fn caches(m: Map<Seq<char>, u64>, name: Seq<char>, price: u64) -> bool {
    m.contains_key(name) && m[name] == price
}

/// The cache holds the price of each of the first `n` candidates.
pub open spec fn prices_cached(m: Map<Seq<char>, u64>, cands: Seq<Skin>, prices: Seq<u64>, n: int) -> bool {
    forall|k: int| 0 <= k < n ==> caches(m, factory_new_name(cands[k]), #[trigger] prices[k])
}

/// How many listing samples a target needs: one per skin of its input pool.
pub open spec fn pool_size(c: Collections, t: Skin) -> nat {
    match pool_of(c, t) {
        Some(pool) => pool.len(),
        None => 0,
    }
}

/// Each of the first `n` candidates was evaluated with one sample per skin of
/// its input pool.
pub open spec fn samples_complete(c: Collections, cands: Seq<Skin>, sampled: Seq<Seq<Option<TradeUpInput>>>, n: int) -> bool {
    forall|k: int| 0 <= k < n ==> (#[trigger] sampled[k]).len() == pool_size(c, cands[k])
}

/// What the search keeps of one target, given its price and the listing
/// samples found for its input pool.
pub open spec fn target_result(c: Collections, t: Skin, price: u64, samples: Seq<Option<TradeUpInput>>) -> Option<(Skin, TradeUpInput)> {
    match pool_of(c, t) {
        Some(pool) => target_outcome(t, price, pool, samples),
        None => None,
    }
}

/// The profitable targets among the first `n` candidates, in candidate order.
pub open spec fn search_results(
    c: Collections,
    cands: Seq<Skin>,
    prices: Seq<u64>,
    sampled: Seq<Seq<Option<TradeUpInput>>>,
    n: nat,
) -> Seq<(Skin, TradeUpInput)>
    decreases n,
{
    if n == 0 {
        Seq::empty()
    } else {
        let k = (n - 1) as nat;
        search_results(c, cands, prices, sampled, k) + match target_result(c, cands[k as int], prices[k as int], sampled[k as int]) {
            Some(x) => seq![x],
            None => Seq::empty(),
        }
    }
}

/// The kept targets of the first `n` candidates depend only on the first `n`
/// prices and samples.
pub proof fn lemma_search_results_prefix(
    c: Collections,
    cands: Seq<Skin>,
    p1: Seq<u64>,
    s1: Seq<Seq<Option<TradeUpInput>>>,
    p2: Seq<u64>,
    s2: Seq<Seq<Option<TradeUpInput>>>,
    n: nat,
)
    requires
        n <= p1.len(),
        n <= p2.len(),
        n <= s1.len(),
        n <= s2.len(),
        forall|k: int| 0 <= k < n ==> #[trigger] p1[k] == p2[k] && s1[k] == s2[k],
    ensures
        search_results(c, cands, p1, s1, n) == search_results(c, cands, p2, s2, n),
    decreases n,
{
    if n > 0 {
        let k = (n - 1) as nat;
        assert(p1[k as int] == p2[k as int] && s1[k as int] == s2[k as int]);
        lemma_search_results_prefix(c, cands, p1, s1, p2, s2, k);
    }
}

/// Evaluating one more candidate appends its outcome, if any, to the kept targets.
pub proof fn lemma_search_results_push(
    c: Collections,
    cands: Seq<Skin>,
    prices: Seq<u64>,
    sampled: Seq<Seq<Option<TradeUpInput>>>,
    price: u64,
    samples: Seq<Option<TradeUpInput>>,
)
    requires
        prices.len() == sampled.len(),
    ensures
        search_results(c, cands, prices.push(price), sampled.push(samples), (prices.len() + 1) as nat)
            == search_results(c, cands, prices, sampled, prices.len()) + match target_result(c, cands[prices.len() as int], price, samples) {
                Some(x) => seq![x],
                None => Seq::empty(),
            },
{
    let n = prices.len();
    let p2 = prices.push(price);
    let s2 = sampled.push(samples);
    assert forall|k: int| 0 <= k < n implies #[trigger] prices[k] == p2[k] && sampled[k] == s2[k] by {}
    lemma_search_results_prefix(c, cands, prices, sampled, p2, s2, n);
    assert(p2[n as int] == price && s2[n as int] == samples);
}

/// The outside work the search asks for next.
pub enum SearchAction {
    /// Look up the market price of this name.
    FetchPrice(String),
    /// The price of this name was found in the cache; nothing to fetch.
    CachedPrice(String),
    /// Find the cheapest listing of `skin` (a skin of the input pool of
    /// `target`) that suits a trade-up into `target`.
    FetchListing { target: Skin, skin: Skin },
    /// Every candidate has been evaluated.
    Finished,
}

/// The search for profitable trade-up targets. For each candidate in turn it
/// takes the price of its Factory New version (from the cache, or asks for it),
/// then a listing sample for each skin of its input pool, then keeps the
/// target when it sells for more than ten of the cheapest input.
pub struct ProfitSearch<'a> {
    collections: &'a Collections,
    candidates: Vec<Skin>,
    next: usize,
    price: Option<u64>,
    samples: Vec<Option<TradeUpInput>>,
    targets: Vec<(Skin, TradeUpInput)>,
    cache: PriceCache,
    prices: Ghost<Seq<u64>>,
    sampled: Ghost<Seq<Seq<Option<TradeUpInput>>>>,
}

impl<'a> ProfitSearch<'a> {
    /// The collections the search draws input pools from.
    pub closed spec fn collections(&self) -> Collections {
        *self.collections
    }

    /// The candidate targets, in the order they are evaluated.
    pub closed spec fn candidates(&self) -> Seq<Skin> {
        self.candidates@
    }

    /// How many candidates have been evaluated.
    pub closed spec fn next(&self) -> nat {
        self.next as nat
    }

    /// The price of the candidate being evaluated, once it is known.
    pub closed spec fn price(&self) -> Option<u64> {
        self.price
    }

    /// The listing samples taken so far for the candidate being evaluated.
    pub closed spec fn samples(&self) -> Seq<Option<TradeUpInput>> {
        self.samples@
    }

    /// The targets kept so far.
    pub closed spec fn targets(&self) -> Seq<(Skin, TradeUpInput)> {
        self.targets@
    }

    /// The prices the cache holds.
    pub closed spec fn cache(&self) -> Map<Seq<char>, u64> {
        self.cache.view()
    }

    /// The prices of the candidates already evaluated.
    pub closed spec fn prices(&self) -> Seq<u64> {
        self.prices@
    }

    /// The listing samples of the candidates already evaluated.
    pub closed spec fn sampled(&self) -> Seq<Seq<Option<TradeUpInput>>> {
        self.sampled@
    }

    /// The targets kept so far are those of the candidates already evaluated,
    /// each with the price that the cache holds for it and one listing sample
    /// per skin of its input pool; the target being
    /// evaluated has its price from the cache and no more samples than its pool
    /// has skins.
    pub open spec fn wf(&self) -> bool {
        let cands = self.candidates();
        &&& self.collections().wf()
        &&& self.next() <= cands.len()
        &&& self.prices().len() == self.next()
        &&& self.sampled().len() == self.next()
        &&& self.targets() == search_results(self.collections(), cands, self.prices(), self.sampled(), self.next() as nat)
        &&& self.price() is None ==> self.samples().len() == 0
        &&& self.price() is Some ==> {
            &&& self.next() < cands.len()
            &&& caches(self.cache(), factory_new_name(cands[self.next() as int]), self.price()->0)
            &&& match pool_of(self.collections(), cands[self.next() as int]) {
                Some(pool) => self.samples().len() <= pool.len(),
                None => self.samples().len() == 0,
            }
        }
        &&& prices_cached(self.cache(), cands, self.prices(), self.next() as int)
        &&& samples_complete(self.collections(), cands, self.sampled(), self.next() as int)
    }

    /// What an action asks of the caller, in the state the search is left in.
    pub open spec fn asks(&self, action: SearchAction) -> bool {
        let cands = self.candidates();
        match action {
            SearchAction::FetchPrice(name) => {
                &&& self.price() is None
                &&& self.next() < cands.len()
                &&& name@ == factory_new_name(cands[self.next() as int])
                &&& !self.cache().contains_key(name@)
            },
            SearchAction::CachedPrice(name) => {
                &&& self.price() is Some
                &&& self.next() < cands.len()
                &&& self.samples().len() == 0
                &&& name@ == factory_new_name(cands[self.next() as int])
                &&& caches(self.cache(), name@, self.price()->0)
            },
            SearchAction::FetchListing { target, skin } => {
                &&& self.price() is Some
                &&& self.next() < cands.len()
                &&& target == cands[self.next() as int]
                &&& pool_of(self.collections(), target) matches Some(pool)
                &&& self.samples().len() < pool.len()
                &&& skin == pool[self.samples().len() as int]
            },
            SearchAction::Finished => {
                &&& self.next() == cands.len()
                &&& self.targets() == search_results(self.collections(), cands, self.prices(), self.sampled(), cands.len())
            },
        }
    }

    /// A search over `candidates` that has evaluated none of them yet.
    pub fn new(collections: &'a Collections, candidates: Vec<Skin>, cache: PriceCache) -> (res: ProfitSearch<'a>)
        requires
            collections.wf(),
        ensures
            res.wf(),
            res.collections() == *collections,
            res.candidates() == candidates@,
            res.cache() == cache.view(),
            res.next() == 0,
            res.targets().len() == 0,
    {
        ProfitSearch {
            collections,
            candidates,
            next: 0,
            price: None,
            samples: Vec::new(),
            targets: Vec::new(),
            cache,
            prices: Ghost(Seq::empty()),
            sampled: Ghost(Seq::empty()),
        }
    }

    /// Goes on as far as it can without outside work and says what it needs next.
    pub fn step(&mut self) -> (action: SearchAction)
        requires
            old(self).wf(),
        ensures
            final(self).wf(),
            final(self).asks(action),
            final(self).collections() == old(self).collections(),
            final(self).candidates() == old(self).candidates(),
            final(self).cache() == old(self).cache(),
            final(self).next() >= old(self).next(),
            final(self).prices().subrange(0, old(self).next() as int) == old(self).prices(),
            final(self).sampled().subrange(0, old(self).next() as int) == old(self).sampled(),
            final(self).next() == old(self).next() ==> final(self).samples() == old(self).samples(),
            old(self).price() is Some && final(self).next() == old(self).next() ==> final(self).price() == old(self).price()
                && !(action is CachedPrice),
            old(self).price() is None ==> final(self).next() == old(self).next(),
            old(self).price() is None && old(self).next() < old(self).candidates().len() ==> (action is FetchPrice
                || action is CachedPrice),
            final(self).next() > old(self).next() ==> {
                &&& final(self).next() == old(self).next() + 1
                &&& final(self).prices() == old(self).prices().push(old(self).price()->0)
                &&& final(self).sampled() == old(self).sampled().push(old(self).samples())
            },
    {
        let ghost start = *self;
        assert(self.prices@.subrange(0, start.next as int) =~= start.prices@);
        assert(self.sampled@.subrange(0, start.next as int) =~= start.sampled@);
        let mut result: Option<SearchAction> = None;
        while result.is_none()
            invariant
                self.wf(),
                self.collections == start.collections,
                self.candidates@ == start.candidates@,
                self.cache.view() == start.cache.view(),
                self.next >= start.next,
                self.prices@.subrange(0, start.next as int) == start.prices@,
                self.sampled@.subrange(0, start.next as int) == start.sampled@,
                result matches Some(a) ==> self.asks(a),
                self.next == start.next ==> self.samples@ == start.samples@,
                start.price is Some && self.next == start.next ==> self.price == start.price
                    && !(result matches Some(SearchAction::CachedPrice(_))),
                start.price is None ==> self.next == start.next,
                start.price is None && start.next < start.candidates@.len() ==> (result matches Some(a) ==> (a is FetchPrice
                    || a is CachedPrice)),
                start.price is None ==> (result is Some || self.price == start.price),
                self.next <= start.next + 1,
                self.next > start.next ==> {
                    &&& start.price is Some
                    &&& self.prices@ == start.prices@.push(start.price->0)
                    &&& self.sampled@ == start.sampled@.push(start.samples@)
                    &&& (self.price is None || result is Some)
                },
            decreases 4 * (self.candidates@.len() - self.next) + (if self.price is None { 2int } else { 0int }) + (if result is None { 1int } else { 0int }),
        {
            let ghost before = *self;
            match self.price {
                None => {
                    if self.next == self.candidates.len() {
                        result = Some(SearchAction::Finished);
                    } else {
                        let name = market_hash_name(self.candidates[self.next].name.as_str(), Condition::FactoryNew);
                        match self.cache.cached_price(name.as_str()) {
                            Some(p) => {
                                self.price = Some(p);
                                result = Some(SearchAction::CachedPrice(name));
                                proof {
                                    let t = self.candidates@[self.next as int];
                                    match pool_of(*self.collections, t) {
                                        Some(pool) => {},
                                        None => {},
                                    }
                                }
                            },
                            None => {
                                result = Some(SearchAction::FetchPrice(name));
                            },
                        }
                    }
                },
                Some(price) => {
                    let i = self.next;
                    match input_pool(self.collections, &self.candidates[i]) {
                        Some(pool) => {
                            if self.samples.len() < pool.len() {
                                let target = self.candidates[i].clone();
                                let skin = pool[self.samples.len()].clone();
                                result = Some(SearchAction::FetchListing { target, skin });
                            } else {
                                let outcome = evaluate_target(self.candidates[i].clone(), price, pool, &self.samples);
                                proof {
                                    lemma_search_results_push(*self.collections, self.candidates@, self.prices@, self.sampled@, price, self.samples@);
                                    let t = self.candidates@[i as int];
                                    assert(pool_of(*self.collections, t) == Some(pool@));
                                    assert(target_result(*self.collections, t, price, self.samples@) == outcome);
                                }
                                match outcome {
                                    Some(pair) => {
                                        self.targets.push(pair);
                                    },
                                    None => {},
                                }
                                proof {
                                    assert(self.targets@ =~= before.targets@ + match outcome {
                                        Some(x) => seq![x],
                                        None => Seq::<(Skin, TradeUpInput)>::empty(),
                                    });
                                    assert(self.next == start.next);
                                    assert(self.prices@ =~= self.prices@.subrange(0, start.next as int));
                                    assert(self.sampled@ =~= self.sampled@.subrange(0, start.next as int));
                                }
                                self.finish_target(price);
                                proof {
                                    assert(self.prices@.subrange(0, start.next as int) =~= before.prices@.subrange(0, start.next as int));
                                    assert(self.sampled@.subrange(0, start.next as int) =~= before.sampled@.subrange(0, start.next as int));
                                }
                            }
                        },
                        None => {
                            proof {
                                lemma_search_results_push(*self.collections, self.candidates@, self.prices@, self.sampled@, price, self.samples@);
                                assert(self.next == start.next);
                                assert(self.prices@ =~= self.prices@.subrange(0, start.next as int));
                                assert(self.sampled@ =~= self.sampled@.subrange(0, start.next as int));
                            }
                            self.finish_target(price);
                            proof {
                                assert(self.prices@.subrange(0, start.next as int) =~= before.prices@.subrange(0, start.next as int));
                                assert(self.sampled@.subrange(0, start.next as int) =~= before.sampled@.subrange(0, start.next as int));
                            }
                        },
                    }
                },
            }
        }
        match result {
            Some(a) => a,
            None => SearchAction::Finished,
        }
    }

    /// Closes the evaluation of the current target, whose outcome is already
    /// among the targets.
    fn finish_target(&mut self, price: u64)
        requires
            old(self).price() == Some(price),
            old(self).collections().wf(),
            old(self).next() < old(self).candidates().len(),
            old(self).prices().len() == old(self).next(),
            old(self).sampled().len() == old(self).next(),
            old(self).targets() == search_results(old(self).collections(), old(self).candidates(), old(self).prices().push(price),
                old(self).sampled().push(old(self).samples()), (old(self).next() + 1) as nat),
            caches(old(self).cache(), factory_new_name(old(self).candidates()[old(self).next() as int]), price),
            prices_cached(old(self).cache(), old(self).candidates(), old(self).prices(), old(self).next() as int),
            samples_complete(old(self).collections(), old(self).candidates(), old(self).sampled(), old(self).next() as int),
            old(self).samples().len() == pool_size(old(self).collections(), old(self).candidates()[old(self).next() as int]),
        ensures
            final(self).wf(),
            final(self).collections() == old(self).collections(),
            final(self).candidates() == old(self).candidates(),
            final(self).cache() == old(self).cache(),
            final(self).targets() == old(self).targets(),
            final(self).next() == old(self).next() + 1,
            final(self).price() is None,
            final(self).prices() == old(self).prices().push(price),
            final(self).sampled() == old(self).sampled().push(old(self).samples()),
    {
        let ghost s0 = self.samples@;
        let ghost before = *self;
        assert(self.candidates@.len() == self.candidates.len());
        self.prices = Ghost(self.prices@.push(price));
        self.sampled = Ghost(self.sampled@.push(s0));
        self.samples = Vec::new();
        self.price = None;
        self.next = self.next + 1;
        proof {
            let cands = self.candidates@;
            assert forall|k: int| 0 <= k < self.next implies caches(self.cache.view(), factory_new_name(cands[k]), #[trigger] self.prices@[k]) by {
                if k < before.next {
                    assert(before.prices@[k] == self.prices@[k]);
                }
            }
            assert forall|k: int| 0 <= k < self.next implies (#[trigger] self.sampled@[k]).len() == pool_size(*self.collections, cands[k]) by {
                if k < before.next {
                    assert(before.sampled@[k] == self.sampled@[k]);
                }
            }
        }
    }

    /// Takes in the price that a `FetchPrice` action asked for; it is also
    /// recorded in the cache. Without a pending price request nothing changes.
    pub fn on_price(&mut self, price: u64)
        requires
            old(self).wf(),
        ensures
            final(self).wf(),
            final(self).collections() == old(self).collections(),
            final(self).candidates() == old(self).candidates(),
            final(self).next() == old(self).next(),
            final(self).targets() == old(self).targets(),
            final(self).prices() == old(self).prices(),
            final(self).sampled() == old(self).sampled(),
            ({
                let pending = old(self).price() is None && old(self).next() < old(self).candidates().len()
                    && !old(self).cache().contains_key(factory_new_name(old(self).candidates()[old(self).next() as int]));
                if pending {
                    &&& final(self).cache() == old(self).cache().insert(
                        factory_new_name(old(self).candidates()[old(self).next() as int]), price)
                    &&& final(self).price() == Some(price)
                    &&& final(self).samples().len() == 0
                } else {
                    &&& final(self).cache() == old(self).cache()
                    &&& final(self).price() == old(self).price()
                    &&& final(self).samples() == old(self).samples()
                }
            }),
    {
        if self.price.is_some() || self.next >= self.candidates.len() {
            return;
        }
        let name = market_hash_name(self.candidates[self.next].name.as_str(), Condition::FactoryNew);
        if self.cache.cached_price(name.as_str()).is_some() {
            return;
        }
        let ghost before = *self;
        self.cache.record(name, price);
        self.price = Some(price);
        proof {
            let cands = self.candidates@;
            let n = factory_new_name(cands[self.next as int]);
            assert forall|k: int| 0 <= k < self.next implies caches(self.cache.view(), factory_new_name(cands[k]), #[trigger] self.prices@[k]) by {
                assert(before.prices@[k] == self.prices@[k]);
                assert(caches(before.cache.view(), factory_new_name(cands[k]), before.prices@[k]));
                assert(factory_new_name(cands[k]) != n);
            }
            match pool_of(*self.collections, cands[self.next as int]) {
                Some(pool) => {},
                None => {},
            }
        }
    }

    /// Takes in the listing sample that a `FetchListing` action asked for.
    /// Without a pending listing request nothing changes.
    pub fn on_listing(&mut self, sample: Option<TradeUpInput>)
        requires
            old(self).wf(),
        ensures
            final(self).wf(),
            final(self).collections() == old(self).collections(),
            final(self).candidates() == old(self).candidates(),
            final(self).next() == old(self).next(),
            final(self).targets() == old(self).targets(),
            final(self).prices() == old(self).prices(),
            final(self).sampled() == old(self).sampled(),
            final(self).cache() == old(self).cache(),
            final(self).price() == old(self).price(),
            ({
                let pending = old(self).price() is Some
                    && (pool_of(old(self).collections(), old(self).candidates()[old(self).next() as int]) matches Some(pool)
                    && old(self).samples().len() < pool.len());
                if pending {
                    final(self).samples() == old(self).samples().push(sample)
                } else {
                    final(self).samples() == old(self).samples()
                }
            }),
    {
        if self.price.is_none() {
            return;
        }
        match input_pool(self.collections, &self.candidates[self.next]) {
            Some(pool) => {
                if self.samples.len() < pool.len() {
                    self.samples.push(sample);
                }
            },
            None => {},
        }
    }

    /// The targets kept, once the search has finished.
    pub fn into_targets(self) -> (res: (Vec<(Skin, TradeUpInput)>, PriceCache))
        ensures
            res.0@ == self.targets(),
            res.1.view() == self.cache(),
    {
        (self.targets, self.cache)
    }
}

} // verus!
