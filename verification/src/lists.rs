use vstd::prelude::*;

verus! {

/// The elements on which `f` gives a value.
pub open spec fn is_kept<A, B>(f: spec_fn(A) -> Option<B>) -> spec_fn(A) -> bool {
    |a: A| f(a) is Some
}

/// `filter_map` keeps the elements on which `f` gives a value, in order: its
/// `k`-th result is `f` of the `k`-th such element.
pub proof fn lemma_filter_map_as_filter<A, B>(s: Seq<A>, f: spec_fn(A) -> Option<B>)
    ensures
        s.filter_map(f).len() == s.filter(is_kept(f)).len(),
        forall|k: int| 0 <= k < s.filter_map(f).len() ==> f(s.filter(is_kept(f))[k]) == Some(#[trigger] s.filter_map(f)[k]),
    decreases s.len(),
{
    reveal_with_fuel(Seq::filter, 1);
    if s.len() > 0 {
        let r = s.drop_last();
        lemma_filter_map_as_filter(r, f);
        let fr = r.filter(is_kept(f));
        let mr = r.filter_map(f);
        match f(s.last()) {
            Some(b) => {
                assert(s.filter(is_kept(f)) == fr.push(s.last()));
                assert(s.filter_map(f) == mr + seq![b]);
                assert forall|k: int| 0 <= k < s.filter_map(f).len() implies f(s.filter(is_kept(f))[k]) == Some(
                    #[trigger] s.filter_map(f)[k],
                ) by {
                    if k < mr.len() {
                        assert(s.filter(is_kept(f))[k] == fr[k]);
                        assert(s.filter_map(f)[k] == mr[k]);
                    }
                }
            },
            None => {
                assert(s.filter(is_kept(f)) == fr);
                assert(s.filter_map(f) == mr);
            },
        }
    }
}

} // verus!
