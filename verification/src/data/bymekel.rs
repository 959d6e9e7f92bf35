use vstd::prelude::*;

use crate::lists::{is_kept, lemma_filter_map_as_filter};
use crate::models::{rarity_named, Rarity, Skin};
use crate::text::{parse_i32, parsed_i32};

verus! {

/// The rarity object of the metadata feed.
pub struct RarityWrapper {
    pub name: String,
}

/// A collection entry of the metadata feed.
pub struct CollectionsWrapper {
    pub name: String,
}

/// One skin of the metadata feed (wear bounds as 64-bit float bit patterns).
pub struct Metadata {
    pub name: String,
    pub paint_index: Option<i32>,
    pub min_float_bits: Option<u64>,
    pub max_float_bits: Option<u64>,
    pub rarity: RarityWrapper,
    pub collections: Vec<CollectionsWrapper>,
}

/// A paint index that the feed wrote as text that is no integer.
#[derive(Debug, Clone, Copy, PartialEq, Eq, Structural)]
pub struct InvalidPaintIndex;

/// Reads the paint index field of the feed: absent stays absent, text must
/// be a 32-bit integer.
pub fn paint_index_from_text(text: Option<&str>) -> (res: Result<Option<i32>, InvalidPaintIndex>)
    ensures
        match text {
            None => res == Ok::<Option<i32>, InvalidPaintIndex>(None),
            Some(t) => match parsed_i32(t@) {
                Some(v) => res == Ok::<Option<i32>, InvalidPaintIndex>(Some(v)),
                None => res == Err::<Option<i32>, InvalidPaintIndex>(InvalidPaintIndex),
            },
        },
{
    match text {
        None => Ok(None),
        Some(t) => match parse_i32(t) {
            Some(v) => Ok(Some(v)),
            None => Err(InvalidPaintIndex),
        },
    }
}

/// The skin a metadata entry describes, when it has a collection, a paint
/// index, both wear bounds and a known rarity; it is filed under its first
/// collection.
pub open spec fn metadata_skin(m: Metadata) -> Option<Skin> {
    if m.collections@.len() > 0 && m.paint_index is Some && m.min_float_bits is Some
        && m.max_float_bits is Some && rarity_named(m.rarity.name@) is Some {
        Some(Skin {
            name: m.name,
            paint_index: m.paint_index->0,
            min_float_bits: m.min_float_bits->0,
            max_float_bits: m.max_float_bits->0,
            rarity: rarity_named(m.rarity.name@)->0,
            collections: m.collections@[0].name,
        })
    } else {
        None
    }
}

/// Whether a metadata entry describes a complete skin: it has a collection, a
/// paint index, both wear bounds and a known rarity.
pub open spec fn is_complete() -> spec_fn(Metadata) -> bool {
    |m: Metadata| m.collections@.len() > 0 && m.paint_index is Some && m.min_float_bits is Some
        && m.max_float_bits is Some && rarity_named(m.rarity.name@) is Some
}

/// The skin of one metadata entry, if it describes a complete skin: its name,
/// paint index, wear bounds and rarity, filed under its first collection.
pub fn skin_from_metadata(m: &Metadata) -> (res: Option<Skin>)
    ensures
        res == metadata_skin(*m),
        res is Some == is_complete()(*m),
        res matches Some(sk) ==> {
            &&& sk.name == m.name
            &&& sk.paint_index == m.paint_index->0
            &&& sk.min_float_bits == m.min_float_bits->0
            &&& sk.max_float_bits == m.max_float_bits->0
            &&& sk.rarity == rarity_named(m.rarity.name@)->0
            &&& sk.collections == m.collections@[0].name
        },
{
    if m.collections.len() == 0 {
        return None;
    }
    let paint_index = match m.paint_index {
        Some(p) => p,
        None => return None,
    };
    let min_float_bits = match m.min_float_bits {
        Some(f) => f,
        None => return None,
    };
    let max_float_bits = match m.max_float_bits {
        Some(f) => f,
        None => return None,
    };
    let rarity = match Rarity::from_str(m.rarity.name.as_str()) {
        Some(r) => r,
        None => return None,
    };
    Some(Skin {
        name: m.name.clone(),
        paint_index,
        min_float_bits,
        max_float_bits,
        rarity,
        collections: m.collections[0].name.clone(),
    })
}

/// The skins the metadata entries describe, in feed order; incomplete entries
/// are skipped.
pub fn skins_from_metadata(data: &Vec<Metadata>) -> (res: Vec<Skin>)
    ensures
        res@ == data@.filter_map(|m: Metadata| metadata_skin(m)),
        res@.len() == data@.filter(is_complete()).len(),
        forall|k: int| 0 <= k < res@.len() ==> {
            let m = data@.filter(is_complete())[k];
            &&& (#[trigger] res@[k]).name == m.name
            &&& res@[k].paint_index == m.paint_index->0
            &&& res@[k].min_float_bits == m.min_float_bits->0
            &&& res@[k].max_float_bits == m.max_float_bits->0
            &&& res@[k].rarity == rarity_named(m.rarity.name@)->0
            &&& res@[k].collections == m.collections@[0].name
        },
{
    let mut res: Vec<Skin> = Vec::new();
    let mut i: usize = 0;
    while i < data.len()
        invariant
            i <= data@.len(),
            res@ == data@.take(i as int).filter_map(|m: Metadata| metadata_skin(m)),
        decreases data@.len() - i,
    {
        proof {
            data@.lemma_filter_map_take_succ(|m: Metadata| metadata_skin(m), i as int);
        }
        match skin_from_metadata(&data[i]) {
            Some(s) => res.push(s),
            None => {},
        }
        proof {
            assert(res@ =~= data@.take(i + 1).filter_map(|m: Metadata| metadata_skin(m)));
        }
        i = i + 1;
    }
    assert(data@.take(data@.len() as int) =~= data@);
    proof {
        let f = |m: Metadata| metadata_skin(m);
        let ds = data@;
        lemma_filter_map_as_filter(ds, f);
        assert(is_kept(f) =~= is_complete());
        assert forall|k: int| 0 <= k < res@.len() implies {
            let m = ds.filter(is_complete())[k];
            &&& (#[trigger] res@[k]).name == m.name
            &&& res@[k].paint_index == m.paint_index->0
            &&& res@[k].min_float_bits == m.min_float_bits->0
            &&& res@[k].max_float_bits == m.max_float_bits->0
            &&& res@[k].rarity == rarity_named(m.rarity.name@)->0
            &&& res@[k].collections == m.collections@[0].name
        } by {
            assert(f(ds.filter(is_kept(f))[k]) == Some(ds.filter_map(f)[k]));
        }
    }
    res
}

} // verus!
