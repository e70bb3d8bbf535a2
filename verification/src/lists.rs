//! Facts about filtering a list from left to right.
use vstd::prelude::*;

verus! {

/// Filtering one more item: it is kept at the end, or not at all.
pub proof fn lemma_filter_next<T>(s: Seq<T>, keep: spec_fn(T) -> bool, i: int)
    requires
        0 <= i < s.len(),
    ensures
        s.take(i + 1).filter(keep) == (if keep(s[i]) {
            s.take(i).filter(keep).push(s[i])
        } else {
            s.take(i).filter(keep)
        }),
{
    reveal(Seq::filter);
    assert(s.take(i + 1).drop_last() == s.take(i));
    assert(s.take(i + 1).last() == s[i]);
}

/// Filtering no item gives no item.
pub proof fn lemma_filter_none<T>(s: Seq<T>, keep: spec_fn(T) -> bool)
    ensures
        s.take(0).filter(keep) == Seq::<T>::empty(),
{
    reveal(Seq::filter);
    assert(s.take(0) == Seq::<T>::empty());
}

/// An item is in the filtered list exactly when it is in the list and kept.
pub proof fn lemma_filter_contains<T>(s: Seq<T>, keep: spec_fn(T) -> bool)
    ensures
        forall|x: T| #[trigger] s.filter(keep).contains(x) <==> s.contains(x) && keep(x),
    decreases s.len(),
{
    reveal(Seq::filter);
    if s.len() > 0 {
        let t = s.drop_last();
        lemma_filter_contains(t, keep);
        assert forall|x: T| #[trigger] s.filter(keep).contains(x) <==> s.contains(x) && keep(
            x,
        ) by {
            let f = t.filter(keep);
            let g = s.filter(keep);
            if g.contains(x) {
                let a = choose|a: int| 0 <= a < g.len() && g[a] == x;
                if a < f.len() {
                    assert(f[a] == x);
                    assert(f.contains(x));
                    let b = choose|b: int| 0 <= b < t.len() && t[b] == x;
                    assert(s[b] == x);
                } else {
                    assert(s[s.len() - 1] == x);
                }
            }
            if s.contains(x) && keep(x) {
                let b = choose|b: int| 0 <= b < s.len() && s[b] == x;
                if b < t.len() {
                    assert(t[b] == x);
                    assert(f.contains(x));
                    let a = choose|a: int| 0 <= a < f.len() && f[a] == x;
                    assert(g[a] == x);
                } else {
                    assert(g[g.len() - 1] == x);
                }
            }
        }
    }
}

/// Filtering keeps items in their places: the positions of the kept items go up,
/// and every position of an item that is to be kept is among them.
pub proof fn lemma_filter_places<T>(s: Seq<T>, keep: spec_fn(T) -> bool) -> (places: Seq<int>)
    ensures
        places.len() == s.filter(keep).len(),
        forall|a: int|
            0 <= a < places.len() ==> 0 <= #[trigger] places[a] < s.len() && keep(s[places[a]])
                && s.filter(keep)[a] == s[places[a]],
        forall|a: int, b: int|
            0 <= a < b < places.len() ==> #[trigger] places[a] < #[trigger] places[b],
        forall|i: int| 0 <= i < s.len() && keep(#[trigger] s[i]) ==> places.contains(i),
    decreases s.len(),
{
    reveal(Seq::filter);
    if s.len() == 0 {
        Seq::empty()
    } else {
        let n = s.len() - 1;
        let t = s.drop_last();
        let before = lemma_filter_places(t, keep);
        let places = if keep(s[n]) {
            before.push(n)
        } else {
            before
        };
        assert forall|i: int| 0 <= i < s.len() && keep(#[trigger] s[i]) implies places.contains(
            i,
        ) by {
            if i < n {
                assert(t[i] == s[i]);
                assert(before.contains(i));
                let a = choose|a: int| 0 <= a < before.len() && before[a] == i;
                assert(places[a] == i);
            } else {
                assert(places[before.len() as int] == n);
            }
        }
        assert forall|a: int| 0 <= a < places.len() implies 0 <= #[trigger] places[a] < s.len()
            && keep(s[places[a]]) && s.filter(keep)[a] == s[places[a]] by {
            if a < before.len() {
                assert(before[a] == places[a]);
                assert(t[before[a]] == s[before[a]]);
            }
        }
        places
    }
}

} // verus!
