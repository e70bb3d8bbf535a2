//! Stable ordering, highest rank first.
//!
//! Every list of the deck is ordered in the same way: by a rank made of up to
//! three numbers, greatest first, where items of one rank keep the order in
//! which they came.
use vstd::prelude::*;

verus! {

/// A rank: compared number by number, the first difference decides.
#[derive(Debug, Clone, Copy, PartialEq, Eq, Structural)]
pub struct Rank {
    pub first: u64,
    pub second: u64,
    pub third: u64,
}

/// `x` ranks strictly above `y`.
pub open spec fn above(x: Rank, y: Rank) -> bool {
    ||| x.first > y.first
    ||| x.first == y.first && x.second > y.second
    ||| x.first == y.first && x.second == y.second && x.third > y.third
}

/// Item `i` comes before item `j`: it ranks above it, or as high and came earlier.
pub open spec fn precedes(ranks: Seq<Rank>, i: int, j: int) -> bool {
    above(ranks[i], ranks[j]) || (ranks[i] == ranks[j] && i < j)
}

/// `p` lists each position of `ranks` once, in order of precedence.
pub open spec fn is_order(ranks: Seq<Rank>, p: Seq<int>) -> bool {
    &&& p.len() == ranks.len()
    &&& forall|a: int| 0 <= a < p.len() ==> 0 <= #[trigger] p[a] < ranks.len()
    &&& forall|i: int| 0 <= i < ranks.len() ==> #[trigger] p.contains(i)
    &&& forall|a: int, b: int| 0 <= a < b < p.len() ==> precedes(ranks, #[trigger] p[a], #[trigger] p[b])
}

/// The positions of `ranks` in order of precedence.
pub open spec fn order_of(ranks: Seq<Rank>) -> Seq<int> {
    choose|p: Seq<int>| is_order(ranks, p)
}

/// The items of `s` at the positions that `p` lists.
pub open spec fn pick<T>(s: Seq<T>, p: Seq<int>) -> Seq<T> {
    Seq::new(p.len(), |a: int| s[p[a]])
}

/// `s` ordered by `rank`, greatest first, equal ranks as they came.
pub open spec fn ranked<T>(s: Seq<T>, rank: spec_fn(T) -> Rank) -> Seq<T> {
    pick(s, order_of(s.map_values(rank)))
}

/// There is at most one order of precedence.
pub proof fn lemma_order_unique(ranks: Seq<Rank>, p: Seq<int>, q: Seq<int>)
    requires
        is_order(ranks, p),
        is_order(ranks, q),
    ensures
        p == q,
{
    lemma_prefix_same(ranks, p, q, p.len() as int);
    assert(p =~= q);
}

proof fn lemma_prefix_same(ranks: Seq<Rank>, p: Seq<int>, q: Seq<int>, n: int)
    requires
        is_order(ranks, p),
        is_order(ranks, q),
        0 <= n <= p.len(),
    ensures
        forall|a: int| 0 <= a < n ==> p[a] == q[a],
    decreases n,
{
    if n > 0 {
        lemma_prefix_same(ranks, p, q, n - 1);
        let a = n - 1;
        if p[a] != q[a] {
            assert(p.contains(q[a]));
            let b = choose|b: int| 0 <= b < p.len() && p[b] == q[a];
            assert(q.contains(p[a]));
            let c = choose|c: int| 0 <= c < q.len() && q[c] == p[a];
            if b < a {
                assert(q[b] == q[a]);
                assert(precedes(ranks, q[b], q[a]));
            }
            if c < a {
                assert(p[c] == p[a]);
                assert(precedes(ranks, p[c], p[a]));
            }
            assert(precedes(ranks, p[a], p[b]));
            assert(precedes(ranks, q[a], q[c]));
            assert(false);
        }
    }
}

/// Inserting the next position keeps an order of precedence.
proof fn lemma_insert_keeps_order(ranks: Seq<Rank>, n: int, p: Seq<int>, at: int)
    requires
        0 <= n < ranks.len(),
        is_order(ranks.take(n), p),
        0 <= at <= p.len(),
        at > 0 ==> !above(ranks[n], ranks[p[at - 1]]),
        forall|b: int| at <= b < p.len() ==> above(ranks[n], ranks[#[trigger] p[b]]),
    ensures
        is_order(ranks.take(n + 1), p.insert(at, n)),
{
    let q = p.insert(at, n);
    let r0 = ranks.take(n);
    let r = ranks.take(n + 1);
    assert forall|a: int| 0 <= a < q.len() implies 0 <= #[trigger] q[a] < r.len() by {
        if a < at {
            assert(q[a] == p[a]);
        } else if a > at {
            assert(q[a] == p[a - 1]);
        }
    }
    assert forall|i: int| 0 <= i < r.len() implies #[trigger] q.contains(i) by {
        if i == n {
            assert(q[at] == n);
        } else {
            assert(p.contains(i));
            let b = choose|b: int| 0 <= b < p.len() && p[b] == i;
            if b < at {
                assert(q[b] == i);
            } else {
                assert(q[b + 1] == i);
            }
        }
    }
    assert forall|a: int, b: int| 0 <= a < b < q.len() implies precedes(
        r,
        #[trigger] q[a],
        #[trigger] q[b],
    ) by {
        let x = if a < at {
            p[a]
        } else if a == at {
            n
        } else {
            p[a - 1]
        };
        let y = if b < at {
            p[b]
        } else if b == at {
            n
        } else {
            p[b - 1]
        };
        assert(q[a] == x && q[b] == y);
        if a != at && b != at {
            assert(precedes(r0, x, y));
        } else if a == at {
            assert(above(ranks[n], ranks[p[b - 1]]));
        } else {
            if a < at - 1 {
                assert(precedes(r0, p[a], p[at - 1]));
            }
            assert(!above(ranks[n], ranks[p[a]]));
        }
    }
}

/// Where position `n` goes in the order `p` of the positions before it.
spec fn place(ranks: Seq<Rank>, p: Seq<int>, n: int, at: int) -> int
    decreases at,
{
    if at > 0 && above(ranks[n], ranks[p[at - 1]]) {
        place(ranks, p, n, at - 1)
    } else {
        at
    }
}

proof fn lemma_place(ranks: Seq<Rank>, p: Seq<int>, n: int, at: int)
    requires
        0 <= n < ranks.len(),
        is_order(ranks.take(n), p),
        0 <= at <= p.len(),
        forall|b: int| at <= b < p.len() ==> above(ranks[n], ranks[#[trigger] p[b]]),
    ensures
        ({
            let k = place(ranks, p, n, at);
            &&& 0 <= k <= p.len()
            &&& k > 0 ==> !above(ranks[n], ranks[p[k - 1]])
            &&& forall|b: int| k <= b < p.len() ==> above(ranks[n], ranks[#[trigger] p[b]])
        }),
    decreases at,
{
    if at > 0 && above(ranks[n], ranks[p[at - 1]]) {
        lemma_place(ranks, p, n, at - 1);
    }
}

proof fn lemma_order_of_prefix(ranks: Seq<Rank>, n: int) -> (p: Seq<int>)
    requires
        0 <= n <= ranks.len(),
    ensures
        is_order(ranks.take(n), p),
    decreases n,
{
    if n == 0 {
        Seq::empty()
    } else {
        let p = lemma_order_of_prefix(ranks, n - 1);
        lemma_place(ranks, p, n - 1, p.len() as int);
        let k = place(ranks, p, n - 1, p.len() as int);
        lemma_insert_keeps_order(ranks, n - 1, p, k);
        p.insert(k, n - 1)
    }
}

/// Every list of ranks has an order of precedence, and `order_of` is it.
pub proof fn lemma_order_of(ranks: Seq<Rank>)
    ensures
        is_order(ranks, order_of(ranks)),
{
    let p = lemma_order_of_prefix(ranks, ranks.len() as int);
    assert(ranks.take(ranks.len() as int) == ranks);
}

/// Ordering a list only rearranges it: a greater rank never follows a smaller
/// one, and exactly the items of the list are in it.
pub proof fn lemma_ranked<T>(s: Seq<T>, rank: spec_fn(T) -> Rank)
    ensures
        ranked(s, rank).len() == s.len(),
        forall|a: int, b: int|
            0 <= a < b < s.len() ==> !above(
                rank(#[trigger] ranked(s, rank)[b]),
                rank(#[trigger] ranked(s, rank)[a]),
            ),
        forall|x: T| ranked(s, rank).contains(x) <==> s.contains(x),
{
    let ranks = s.map_values(rank);
    lemma_order_of(ranks);
    let p = order_of(ranks);
    let r = ranked(s, rank);
    assert forall|a: int, b: int| 0 <= a < b < s.len() implies !above(
        rank(#[trigger] r[b]),
        rank(#[trigger] r[a]),
    ) by {
        assert(precedes(ranks, p[a], p[b]));
    }
    assert forall|x: T| r.contains(x) implies s.contains(x) by {
        let a = choose|a: int| 0 <= a < r.len() && r[a] == x;
        assert(s[p[a]] == x);
    }
    assert forall|x: T| s.contains(x) implies r.contains(x) by {
        let i = choose|i: int| 0 <= i < s.len() && s[i] == x;
        assert(p.contains(i));
        let a = choose|a: int| 0 <= a < p.len() && p[a] == i;
        assert(r[a] == x);
    }
}

/// Whether `x` ranks strictly above `y`.
fn is_above(x: &Rank, y: &Rank) -> (r: bool)
    ensures
        r == above(*x, *y),
{
    x.first > y.first || (x.first == y.first && (x.second > y.second || (x.second == y.second
        && x.third > y.third)))
}

/// The positions of a list of indices as mathematical integers.
pub open spec fn as_ints(v: Seq<usize>) -> Seq<int> {
    v.map_values(|i: usize| i as int)
}

/// The positions of `ranks`, greatest rank first; positions of one rank in ascending order.
pub fn order(ranks: &Vec<Rank>) -> (p: Vec<usize>)
    ensures
        as_ints(p@) == order_of(ranks@),
        is_order(ranks@, as_ints(p@)),
{
    let mut p: Vec<usize> = Vec::new();
    let mut n: usize = 0;
    while n < ranks.len()
        invariant
            n <= ranks@.len(),
            is_order(ranks@.take(n as int), as_ints(p@)),
        decreases ranks@.len() - n,
    {
        let mut at: usize = p.len();
        let ghost q = as_ints(p@);
        assert(forall|a: int| 0 <= a < p@.len() ==> #[trigger] p@[a] == q[a]);
        while at > 0 && is_above(&ranks[n], &ranks[p[at - 1]])
            invariant
                at <= p@.len(),
                n < ranks@.len(),
                q == as_ints(p@),
                is_order(ranks@.take(n as int), q),
                forall|a: int| 0 <= a < p@.len() ==> #[trigger] p@[a] == q[a],
                forall|a: int| 0 <= a < q.len() ==> 0 <= #[trigger] q[a] < n,
                forall|b: int| at <= b < q.len() ==> above(ranks@[n as int], ranks@[#[trigger] q[b]]),
            decreases at,
        {
            assert(q[at - 1] == p@[at - 1]);
            at = at - 1;
        }
        proof {
            lemma_insert_keeps_order(ranks@, n as int, q, at as int);
        }
        p.insert(at, n);
        assert(as_ints(p@) == q.insert(at as int, n as int));
        n = n + 1;
    }
    proof {
        assert(ranks@.take(n as int) == ranks@);
        lemma_order_of(ranks@);
        lemma_order_unique(ranks@, as_ints(p@), order_of(ranks@));
    }
    p
}

/// The greatest rank comes first: by the first number, among equals by the second
/// and then by the third; items of the same rank stay in their order.
///
/// The result holds, for each place, where the item stood in the list.
pub proof fn lemma_ranked_by_number_and_place<T>(
    s: Seq<T>,
    rank: spec_fn(T) -> Rank,
) -> (p: Seq<int>)
    ensures
        p.len() == s.len(),
        ranked(s, rank).len() == s.len(),
        forall|a: int|
            0 <= a < p.len() ==> 0 <= #[trigger] p[a] < s.len() && ranked(s, rank)[a] == s[p[a]],
        forall|i: int| 0 <= i < s.len() ==> #[trigger] p.contains(i),
        forall|a: int, b: int|
            0 <= a < b < p.len() ==> {
                let (x, y) = (rank(s[#[trigger] p[a]]), rank(s[#[trigger] p[b]]));
                if x.first != y.first {
                    x.first > y.first
                } else if x.second != y.second {
                    x.second > y.second
                } else if x.third != y.third {
                    x.third > y.third
                } else {
                    p[a] < p[b]
                }
            },
{
    let ranks = s.map_values(rank);
    lemma_order_of(ranks);
    let p = order_of(ranks);
    assert forall|a: int, b: int| 0 <= a < b < p.len() implies {
        let (x, y) = (rank(s[#[trigger] p[a]]), rank(s[#[trigger] p[b]]));
        if x.first != y.first {
            x.first > y.first
        } else if x.second != y.second {
            x.second > y.second
        } else if x.third != y.third {
            x.third > y.third
        } else {
            p[a] < p[b]
        }
    } by {
        assert(precedes(ranks, p[a], p[b]));
    }
    p
}

} // verus!
