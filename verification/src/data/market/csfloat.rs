use vstd::prelude::*;

use crate::models::{rarity_at, CSFloatResponse, Listing, TradeUpInput};
use crate::lists::{is_kept, lemma_filter_map_as_filter};
use crate::text::{decimal, push_decimal, push_signed_decimal, signed_decimal};

verus! {

/// Bytes that percent-encoding leaves as they are: ASCII letters and digits,
/// `-`, `.`, `_` and `~`.
pub open spec fn is_unreserved(b: u8) -> bool {
    (48 <= b <= 57) || (65 <= b <= 90) || (97 <= b <= 122) || b == 45 || b == 46 || b == 95 || b == 126
}

/// An upper-case hexadecimal digit.
pub open spec fn hex_digit(d: int) -> char {
    if d < 10 {
        (48 + d) as char
    } else {
        (55 + d) as char
    }
}

/// Percent-encoding of a byte string: unreserved bytes stay, every other byte
/// becomes `%` and two upper-case hexadecimal digits.
pub open spec fn percent_encoded(bytes: Seq<u8>) -> Seq<char>
    decreases bytes.len(),
{
    if bytes.len() == 0 {
        Seq::empty()
    } else {
        let b = bytes.last();
        percent_encoded(bytes.drop_last()) + if is_unreserved(b) {
            seq![b as char]
        } else {
            seq!['%', hex_digit(b as int / 16), hex_digit(b as int % 16)]
        }
    }
}

/// `urlencoding::encode`: percent-encodes the UTF-8 bytes of `s`, leaving
/// ASCII letters, digits, `-`, `.`, `_` and `~` as they are, and writing every
/// other byte as `%` followed by two upper-case hexadecimal digits.
#[verifier::external_body]
fn url_encode(s: &str) -> (res: String)
    ensures
        res@ == percent_encoded(crate::text::utf8_of(s@)),
{
    urlencoding::encode(s).into_owned()
}

/// The listings endpoint of the market service.
pub open spec fn listings_endpoint() -> Seq<char> {
    "https://csfloat.com/api/v1/listings"@
}

/// The query for the `count` cheapest buy-now listings of a market name.
pub open spec fn price_query(market_hash_name: Seq<char>, count: u64) -> Seq<char> {
    listings_endpoint() + "?limit="@ + decimal(count as nat) + "&sort_by=lowest_price&market_hash_name="@
        + percent_encoded(crate::text::utf8_of(market_hash_name)) + "&category=1&type=buy_now"@
}

/// The address of the query for the `count` cheapest buy-now listings of a
/// market name; the name is percent-encoded.
pub fn price_query_url(market_hash_name: &str, count: u64) -> (res: String)
    ensures
        res@ == price_query(market_hash_name@, count),
        res@ == "https://csfloat.com/api/v1/listings"@ + "?limit="@ + decimal(count as nat)
            + "&sort_by=lowest_price&market_hash_name="@ + percent_encoded(crate::text::utf8_of(market_hash_name@))
            + "&category=1&type=buy_now"@,
{
    let mut url = String::from_str("https://csfloat.com/api/v1/listings");
    url.append("?limit=");
    push_decimal(&mut url, count);
    url.append("&sort_by=lowest_price&market_hash_name=");
    let encoded = url_encode(market_hash_name);
    url.append(encoded.as_str());
    url.append("&category=1&type=buy_now");
    url
}

/// The query for the `count` cheapest buy-now listings of a paint index below
/// a float value (given as its decimal text).
pub open spec fn paint_query(paint_index: i32, max_float_text: Seq<char>, count: i64) -> Seq<char> {
    listings_endpoint() + "?limit="@ + signed_decimal(count as int) + "&sort_by=lowest_price&paint_index="@
        + signed_decimal(paint_index as int) + "&category=1&max_float="@ + max_float_text + "&type=buy_now"@
}

/// The address of the query for the `count` cheapest buy-now listings of a
/// paint index whose float value is at most `max_float_text`.
pub fn paint_query_url(paint_index: i32, max_float_text: &str, count: i64) -> (res: String)
    ensures
        res@ == paint_query(paint_index, max_float_text@, count),
        res@ == "https://csfloat.com/api/v1/listings"@ + "?limit="@ + signed_decimal(count as int)
            + "&sort_by=lowest_price&paint_index="@ + signed_decimal(paint_index as int) + "&category=1&max_float="@
            + max_float_text@ + "&type=buy_now"@,
{
    let mut url = String::from_str("https://csfloat.com/api/v1/listings");
    url.append("?limit=");
    push_signed_decimal(&mut url, count);
    url.append("&sort_by=lowest_price&paint_index=");
    push_signed_decimal(&mut url, paint_index as i64);
    url.append("&category=1&max_float=");
    url.append(max_float_text);
    url.append("&type=buy_now");
    url
}

impl CSFloatResponse {
    /// The listings of the response; none when the service sent no list.
    pub fn listings(self) -> (res: Vec<Listing>)
        ensures
            res@ == match self.data {
                Some(v) => v@,
                None => Seq::empty(),
            },
    {
        match self.data {
            Some(v) => v,
            None => Vec::new(),
        }
    }
}

/// The sum of the listing prices.
pub open spec fn total_price(s: Seq<Listing>) -> int
    decreases s.len(),
{
    if s.len() == 0 {
        0
    } else {
        total_price(s.drop_last()) + s.last().price
    }
}

/// The sum over no listings is 0, and one more listing adds its price.
pub proof fn lemma_total_price_push(s: Seq<Listing>, l: Listing)
    ensures
        total_price(Seq::<Listing>::empty()) == 0,
        total_price(s.push(l)) == total_price(s) + l.price,
{
    assert(s.push(l).drop_last() =~= s);
}

/// The average lies between the cheapest and the dearest listing.
pub proof fn lemma_average_between(s: Seq<Listing>, lo: int, hi: int)
    requires
        s.len() > 0,
        forall|k: int| 0 <= k < s.len() ==> lo <= #[trigger] s[k].price <= hi,
    ensures
        lo <= total_price(s) / (s.len() as int) <= hi,
{
    lemma_total_price_range(s, lo, hi);
    let n = s.len() as int;
    let t = total_price(s);
    assert(lo <= t / n <= hi) by (nonlinear_arith)
        requires
            n > 0,
            n * lo <= t <= n * hi,
    {
        assert(t / n * n <= t);
        assert(t < (t / n + 1) * n);
    }
}

proof fn lemma_total_price_range(s: Seq<Listing>, lo: int, hi: int)
    requires
        forall|k: int| 0 <= k < s.len() ==> lo <= #[trigger] s[k].price <= hi,
    ensures
        s.len() * lo <= total_price(s) <= s.len() * hi,
    decreases s.len(),
{
    if s.len() > 0 {
        let r = s.drop_last();
        assert forall|k: int| 0 <= k < r.len() implies lo <= #[trigger] r[k].price <= hi by {
            assert(r[k] == s[k]);
        }
        lemma_total_price_range(r, lo, hi);
        assert(lo <= s[s.len() - 1].price <= hi);
        assert(s.len() * lo == r.len() * lo + lo) by (nonlinear_arith)
            requires
                s.len() == r.len() + 1,
        ;
        assert(s.len() * hi == r.len() * hi + hi) by (nonlinear_arith)
            requires
                s.len() == r.len() + 1,
        ;
    }
}

proof fn lemma_total_price_bound(s: Seq<Listing>)
    ensures
        0 <= total_price(s) <= s.len() * (u64::MAX as int),
    decreases s.len(),
{
    if s.len() > 0 {
        lemma_total_price_bound(s.drop_last());
    }
}

/// The average listing price, rounded down; 0 when there are no listings.
pub fn average_price(listings: &Vec<Listing>) -> (res: u64)
    ensures
        listings@.len() == 0 ==> res == 0,
        listings@.len() > 0 ==> res == total_price(listings@) / (listings@.len() as int),
{
    if listings.len() == 0 {
        return 0;
    }
    let mut total: u128 = 0;
    let mut i: usize = 0;
    while i < listings.len()
        invariant
            i <= listings@.len(),
            total == total_price(listings@.take(i as int)),
            listings@.len() <= usize::MAX,
        decreases listings@.len() - i,
    {
        proof {
            assert(listings@.take(i + 1).drop_last() =~= listings@.take(i as int));
            lemma_total_price_bound(listings@.take(i + 1));
            assert((i + 1) * (u64::MAX as int) <= 0x1_0000_0000_0000_0000 * 0x1_0000_0000_0000_0000) by (nonlinear_arith)
                requires
                    i + 1 <= 0x1_0000_0000_0000_0000,
            ;
        }
        total = total + listings[i].price as u128;
        i = i + 1;
    }
    assert(listings@.take(listings@.len() as int) =~= listings@);
    let n = listings.len() as u128;
    let avg = total / n;
    proof {
        lemma_total_price_bound(listings@);
        assert(total / n <= u64::MAX) by (nonlinear_arith)
            requires
                total <= n * (u64::MAX as int),
                n > 0,
        ;
    }
    avg as u64
}

/// The trade-up input a listing offers, when its rarity is on the scale.
pub open spec fn listing_input(l: Listing) -> Option<TradeUpInput> {
    match rarity_at(l.item.rarity as int) {
        Some(r) => Some(TradeUpInput {
            market_hash_name: l.item.market_hash_name,
            float_value_bits: l.item.float_value_bits,
            price: l.price,
            rarity: r,
            collection: l.item.collection,
            min_float_bits: None,
            max_float_bits: None,
        }),
        None => None,
    }
}

/// The listings whose item rarity is on the scale.
pub open spec fn known_rarity() -> spec_fn(Listing) -> bool {
    |l: Listing| rarity_at(l.item.rarity as int) is Some
}

/// The trade-up inputs the listings offer, in listing order; listings whose
/// rarity is off the scale are skipped. The `k`-th input is made of the `k`-th
/// listing of known rarity: its item's name, float, collection and rarity, and
/// its price, with no wear bounds.
pub fn inputs_from_listings(listings: Vec<Listing>) -> (res: Vec<TradeUpInput>)
    ensures
        res@ == listings@.filter_map(|l: Listing| listing_input(l)),
        res@.len() == listings@.filter(known_rarity()).len(),
        forall|k: int| 0 <= k < res@.len() ==> {
            let l = listings@.filter(known_rarity())[k];
            &&& (#[trigger] res@[k]).market_hash_name == l.item.market_hash_name
            &&& res@[k].float_value_bits == l.item.float_value_bits
            &&& res@[k].price == l.price
            &&& res@[k].rarity == rarity_at(l.item.rarity as int)->0
            &&& res@[k].collection == l.item.collection
            &&& res@[k].min_float_bits is None
            &&& res@[k].max_float_bits is None
        },
{
    let ghost ls = listings@;
    let mut res: Vec<TradeUpInput> = Vec::new();
    let mut i: usize = 0;
    while i < listings.len()
        invariant
            ls == listings@,
            i <= ls.len(),
            res@ == ls.take(i as int).filter_map(|l: Listing| listing_input(l)),
        decreases ls.len() - i,
    {
        proof {
            ls.lemma_filter_map_take_succ(|l: Listing| listing_input(l), i as int);
        }
        let l = &listings[i];
        match crate::models::Rarity::from_int(l.item.rarity) {
            Some(r) => {
                let input = TradeUpInput {
                    market_hash_name: l.item.market_hash_name.clone(),
                    float_value_bits: l.item.float_value_bits,
                    price: l.price,
                    rarity: r,
                    collection: l.item.collection.clone(),
                    min_float_bits: None,
                    max_float_bits: None,
                };
                res.push(input);
            },
            None => {},
        }
        proof {
            assert(res@ =~= ls.take(i + 1).filter_map(|l: Listing| listing_input(l)));
        }
        i = i + 1;
    }
    assert(ls.take(ls.len() as int) =~= ls);
    proof {
        let f = |l: Listing| listing_input(l);
        lemma_filter_map_as_filter(ls, f);
        assert(is_kept(f) =~= known_rarity());
        assert forall|k: int| 0 <= k < res@.len() implies {
            let l = ls.filter(known_rarity())[k];
            &&& (#[trigger] res@[k]).market_hash_name == l.item.market_hash_name
            &&& res@[k].float_value_bits == l.item.float_value_bits
            &&& res@[k].price == l.price
            &&& res@[k].rarity == rarity_at(l.item.rarity as int)->0
            &&& res@[k].collection == l.item.collection
            &&& res@[k].min_float_bits is None
            &&& res@[k].max_float_bits is None
        } by {
            assert(f(ls.filter(is_kept(f))[k]) == Some(ls.filter_map(f)[k]));
        }
    }
    res
}

} // verus!
