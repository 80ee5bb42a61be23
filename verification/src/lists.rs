//! Facts about sequences that loops over lists rest on.
use vstd::prelude::*;

verus! {

/// Filtering one element more.
pub proof fn lemma_filter_take<A>(s: Seq<A>, keep: spec_fn(A) -> bool, i: int)
    requires
        0 <= i < s.len(),
    ensures
        s.take(i + 1).filter(keep) == (if keep(s[i]) {
            s.take(i).filter(keep).push(s[i])
        } else {
            s.take(i).filter(keep)
        }),
{
    reveal(Seq::filter);
    assert(s.take(i + 1).drop_last() == s.take(i));
    assert(s.take(i + 1).last() == s[i]);
}

/// Filtering nothing.
pub proof fn lemma_filter_empty<A>(keep: spec_fn(A) -> bool)
    ensures
        Seq::<A>::empty().filter(keep) == Seq::<A>::empty(),
{
    reveal(Seq::filter);
}

/// What a filter lets through passes its test, and was there before.
pub proof fn lemma_filter_holds<A>(s: Seq<A>, keep: spec_fn(A) -> bool)
    ensures
        forall|i: int|
            0 <= i < s.filter(keep).len() ==> keep(#[trigger] s.filter(keep)[i]) && s.contains(
                s.filter(keep)[i],
            ),
        s.filter(keep).len() <= s.len(),
    decreases s.len(),
{
    reveal(Seq::filter);
    if s.len() > 0 {
        lemma_filter_holds(s.drop_last(), keep);
        let before = s.drop_last().filter(keep);
        assert forall|i: int| 0 <= i < s.filter(keep).len() implies keep(
            #[trigger] s.filter(keep)[i],
        ) && s.contains(s.filter(keep)[i]) by {
            if i < before.len() {
                assert(s.filter(keep)[i] == before[i]);
                let j = choose|j: int| 0 <= j < s.drop_last().len() && s.drop_last()[j] == before[i];
                assert(s[j] == before[i]);
            } else {
                assert(s[s.len() - 1] == s.filter(keep)[i]);
            }
        }
    }
}

/// What passes the test of a filter is let through.
pub proof fn lemma_filter_keeps<A>(s: Seq<A>, keep: spec_fn(A) -> bool, i: int)
    requires
        0 <= i < s.len(),
        keep(s[i]),
    ensures
        s.filter(keep).contains(s[i]),
    decreases s.len(),
{
    reveal(Seq::filter);
    let before = s.drop_last().filter(keep);
    if i == s.len() - 1 {
        assert(s.filter(keep)[before.len() as int] == s[i]);
    } else {
        assert(s.drop_last()[i] == s[i]);
        lemma_filter_keeps(s.drop_last(), keep, i);
        let j = choose|j: int| 0 <= j < before.len() && before[j] == s[i];
        assert(s.filter(keep)[j] == s[i]);
    }
}

/// A filter that everything passes changes nothing.
pub proof fn lemma_filter_all<A>(s: Seq<A>, keep: spec_fn(A) -> bool)
    requires
        forall|i: int| 0 <= i < s.len() ==> keep(#[trigger] s[i]),
    ensures
        s.filter(keep) == s,
    decreases s.len(),
{
    reveal(Seq::filter);
    if s.len() > 0 {
        assert forall|i: int| 0 <= i < s.drop_last().len() implies keep(
            #[trigger] s.drop_last()[i],
        ) by {
            assert(s.drop_last()[i] == s[i]);
        }
        lemma_filter_all(s.drop_last(), keep);
        assert(keep(s[s.len() - 1]));
        assert(s.drop_last().push(s.last()) == s);
    }
}

/// Places in a sequence, one behind the other, where the items of another stand.
pub open spec fn stand_at<A>(part: Seq<A>, whole: Seq<A>, places: Seq<int>) -> bool {
    &&& places.len() == part.len()
    &&& forall|i: int|
        0 <= i < part.len() ==> 0 <= #[trigger] places[i] < whole.len() && whole[places[i]]
            == part[i]
    &&& forall|i: int, j: int| 0 <= i < j < places.len() ==> #[trigger] places[i]
        < #[trigger] places[j]
}

/// The items of a sequence stand in another one in the same order.
pub open spec fn in_order<A>(part: Seq<A>, whole: Seq<A>) -> bool {
    exists|places: Seq<int>| stand_at(part, whole, places)
}

/// A sequence stands in itself.
pub proof fn lemma_in_order_itself<A>(s: Seq<A>)
    ensures
        in_order(s, s),
{
    assert(stand_at(s, s, Seq::new(s.len(), |i: int| i)));
}

/// A filter keeps the order.
pub proof fn lemma_filter_in_order<A>(s: Seq<A>, keep: spec_fn(A) -> bool)
    ensures
        in_order(s.filter(keep), s),
    decreases s.len(),
{
    reveal(Seq::filter);
    if s.len() == 0 {
        lemma_in_order_itself(s);
    } else {
        let shorter = s.drop_last();
        lemma_filter_in_order(shorter, keep);
        let places = choose|places: Seq<int>| stand_at(shorter.filter(keep), shorter, places);
        assert forall|i: int| 0 <= i < places.len() implies s[#[trigger] places[i]]
            == shorter[places[i]] by {}
        if keep(s.last()) {
            assert(stand_at(s.filter(keep), s, places.push(s.len() - 1)));
        } else {
            assert(stand_at(s.filter(keep), s, places));
        }
    }
}

} // verus!
