//! Sequences of values, seen as sequences of what they say.

use vstd::multiset::Multiset;
use vstd::prelude::*;

verus! {

/// What the elements of `s` say, in order.
pub open spec fn views<T: View>(s: Seq<T>) -> Seq<T::V> {
    s.map_values(|t: T| t@)
}

/// Appending an element appends what it says.
pub(crate) proof fn lemma_views_push<T: View>(s: Seq<T>, t: T)
    ensures
        views(s.push(t)) == views(s).push(t@),
{
    assert(views(s.push(t)) =~= views(s).push(t@));
}

/// What an element of `s` is mapped to is in the mapped sequence.
pub(crate) proof fn lemma_filter_map_holds<A, B>(s: Seq<A>, f: spec_fn(A) -> Option<B>, i: int)
    requires
        0 <= i < s.len(),
        f(s[i]) is Some,
    ensures
        s.filter_map(f).contains(f(s[i])->0),
    decreases s.len(),
{
    let n = s.len() - 1;
    let b = f(s[i])->0;
    s.lemma_filter_map_take_succ(f, n);
    assert(s.take(n + 1) == s);
    let front = s.take(n).filter_map(f);
    let all = s.filter_map(f);
    if i == n {
        assert(all == front + seq![b]);
        assert(all[front.len() as int] == b);
    } else {
        assert(s.take(n)[i] == s[i]);
        lemma_filter_map_holds(s.take(n), f, i);
        let k = choose|k: int| 0 <= k < front.len() && front[k] == b;
        assert(all[k] == b);
    }
}

/// What `f` makes of one element, as the elements that it contributes.
pub(crate) open spec fn contribution<A, B>(f: spec_fn(A) -> Option<B>, a: A) -> Multiset<B> {
    match f(a) {
        Some(b) => Multiset::singleton(b),
        None => Multiset::empty(),
    }
}

/// Taking an element out takes out what it is mapped to.
pub(crate) proof fn lemma_filter_map_remove<A, B>(s: Seq<A>, f: spec_fn(A) -> Option<B>, k: int)
    requires
        0 <= k < s.len(),
    ensures
        s.filter_map(f).to_multiset() == s.remove(k).filter_map(f).to_multiset().add(
            contribution(f, s[k]),
        ),
        f(s[k]) is None ==> s.remove(k).filter_map(f) == s.filter_map(f),
    decreases s.len(),
{
    broadcast use vstd::seq_lib::group_to_multiset_ensures;

    let front = s.drop_last();
    if k == s.len() - 1 {
        assert(s.remove(k) =~= front);
        if f(s[k]) is Some {
            assert(s.filter_map(f) =~= front.filter_map(f).push(f(s[k])->0));
        }
        assert(s.filter_map(f).to_multiset() =~= front.filter_map(f).to_multiset().add(
            contribution(f, s[k]),
        ));
    } else {
        lemma_filter_map_remove(front, f, k);
        let rest = s.remove(k);
        assert(rest.drop_last() =~= front.remove(k));
        assert(rest.last() == s.last());
        assert(front[k] == s[k]);
        match f(s.last()) {
            Some(b) => {
                assert(s.filter_map(f) =~= front.filter_map(f).push(b));
                assert(rest.filter_map(f) =~= rest.drop_last().filter_map(f).push(b));
            },
            None => {},
        }
        assert(s.filter_map(f).to_multiset() =~= rest.filter_map(f).to_multiset().add(
            contribution(f, s[k]),
        ));
    }
}

/// The order of the elements does not matter to what they are mapped to, but for its
/// order.
pub(crate) proof fn lemma_filter_map_reordered<A, B>(
    s: Seq<A>,
    t: Seq<A>,
    f: spec_fn(A) -> Option<B>,
)
    requires
        s.to_multiset() == t.to_multiset(),
    ensures
        s.filter_map(f).to_multiset() == t.filter_map(f).to_multiset(),
    decreases s.len(),
{
    broadcast use vstd::seq_lib::group_to_multiset_ensures;

    assert(s.len() == s.to_multiset().len() == t.len());
    if s.len() > 0 {
        let n = s.len() - 1;
        let a = s[n];
        assert(s.contains(a));
        assert(s.to_multiset().count(a) > 0);
        assert(t.contains(a));
        let k = choose|k: int| 0 <= k < t.len() && t[k] == a;
        assert(s.remove(n).to_multiset() == t.remove(k).to_multiset());
        lemma_filter_map_reordered(s.remove(n), t.remove(k), f);
        lemma_filter_map_remove(s, f, n);
        lemma_filter_map_remove(t, f, k);
    } else {
        assert(s =~= t);
    }
}

/// Every element is mapped by exactly one of two functions, so that their results are as
/// many as the elements.
pub(crate) proof fn lemma_filter_maps_part<A, B, C>(
    s: Seq<A>,
    f: spec_fn(A) -> Option<B>,
    g: spec_fn(A) -> Option<C>,
)
    requires
        forall|a: A| (#[trigger] f(a)) is Some <==> g(a) is None,
    ensures
        s.filter_map(f).len() + s.filter_map(g).len() == s.len(),
    decreases s.len(),
{
    if s.len() > 0 {
        lemma_filter_maps_part(s.drop_last(), f, g);
        assert(f(s.last()) is Some <==> g(s.last()) is None);
    }
}

} // verus!
