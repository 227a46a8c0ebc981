//! Picking the first of many by rank.
use vstd::prelude::*;

verus! {

/// A rank: what counts first, and what decides where that is equal. The higher
/// the better.
pub type Rank = (i128, i128);

/// One rank is higher than another.
pub open spec fn higher(a: Rank, b: Rank) -> bool {
    a.0 > b.0 || (a.0 == b.0 && a.1 > b.1)
}

/// One position comes before another: it has the higher rank, or the same rank
/// and came first.
pub open spec fn precedes(ranks: Seq<Rank>, i: int, j: int) -> bool {
    higher(ranks[i], ranks[j]) || (ranks[i] == ranks[j] && i < j)
}

/// A position is among others.
pub open spec fn among(order: Seq<int>, i: int) -> bool {
    exists|a: int| 0 <= a < order.len() && #[trigger] order[a] == i
}

/// The first `most` positions in the order of their ranks.
pub open spec fn leads(ranks: Seq<Rank>, order: Seq<int>, most: nat) -> bool {
    &&& order.len() == if ranks.len() <= most {
        ranks.len()
    } else {
        most
    }
    &&& forall|a: int| 0 <= a < order.len() ==> 0 <= #[trigger] order[a] < ranks.len()
    &&& forall|a: int, b: int|
        0 <= a < b < order.len() ==> precedes(ranks, #[trigger] order[a], #[trigger] order[b])
    &&& forall|a: int, i: int|
        0 <= a < order.len() && 0 <= i < ranks.len() && !among(order, i) ==> #[trigger] precedes(
            ranks,
            order[a],
            i,
        )
}

/// The first `most` positions in the order of their ranks.
pub open spec fn leaders(ranks: Seq<Rank>, most: nat) -> Seq<int> {
    choose|order: Seq<int>| leads(ranks, order, most)
}

proof fn lemma_ahead(ranks: Seq<Rank>, x: Seq<int>, y: Seq<int>, most: nat, a: int)
    requires
        leads(ranks, x, most),
        leads(ranks, y, most),
        0 <= a < x.len(),
        forall|b: int| 0 <= b < a ==> x[b] == y[b],
        x[a] != y[a],
    ensures
        precedes(ranks, y[a], x[a]),
{
    if among(y, x[a]) {
        let b = choose|b: int| 0 <= b < y.len() && y[b] == x[a];
        if b < a {
            assert(precedes(ranks, x[b], x[a]));
        }
        assert(precedes(ranks, y[a], y[b]));
    } else {
        assert(precedes(ranks, y[a], x[a]));
    }
}

/// There is one order of ranks.
pub proof fn law_order_of_ranks_is_unique(
    ranks: Seq<Rank>,
    x: Seq<int>,
    y: Seq<int>,
    most: nat,
)
    requires
        leads(ranks, x, most),
        leads(ranks, y, most),
    ensures
        x == y,
{
    lemma_same_prefix(ranks, x, y, most, x.len() as int);
    assert(x =~= y);
}

proof fn lemma_same_prefix(ranks: Seq<Rank>, x: Seq<int>, y: Seq<int>, most: nat, n: int)
    requires
        leads(ranks, x, most),
        leads(ranks, y, most),
        0 <= n <= x.len(),
    ensures
        forall|a: int| 0 <= a < n ==> x[a] == y[a],
    decreases n,
{
    if n > 0 {
        lemma_same_prefix(ranks, x, y, most, n - 1);
        let a = n - 1;
        if x[a] != y[a] {
            lemma_ahead(ranks, x, y, most, a);
            lemma_ahead(ranks, y, x, most, a);
        }
    }
}

fn is_higher(a: Rank, b: Rank) -> (r: bool)
    ensures
        r == higher(a, b),
{
    a.0 > b.0 || (a.0 == b.0 && a.1 > b.1)
}

/// Positions as integers.
pub open spec fn positions(order: Seq<usize>) -> Seq<int> {
    Seq::new(order.len(), |a: int| order[a] as int)
}

proof fn lemma_inserted(ranks: Seq<Rank>, order: Seq<int>, most: nat, n: int, p: int)
    requires
        0 <= n < ranks.len(),
        leads(ranks.take(n), order, most),
        0 <= p <= order.len(),
        forall|a: int| 0 <= a < p ==> !higher(ranks[n], ranks[#[trigger] order[a]]),
        p < order.len() ==> higher(ranks[n], ranks[order[p]]),
    ensures
        ({
            let longer = order.insert(p, n);
            leads(
                ranks.take(n + 1),
                if longer.len() > most {
                    longer.drop_last()
                } else {
                    longer
                },
                most,
            )
        }),
{
    let had = ranks.take(n);
    let now = ranks.take(n + 1);
    let longer = order.insert(p, n);
    let kept = if longer.len() > most {
        longer.drop_last()
    } else {
        longer
    };
    assert forall|a: int| 0 <= a < order.len() implies 0 <= #[trigger] order[a] < n by {}
    assert forall|a: int, b: int| 0 <= a < b < order.len() implies precedes(
        now,
        #[trigger] order[a],
        #[trigger] order[b],
    ) by {
        assert(precedes(had, order[a], order[b]));
    }
    assert forall|a: int| 0 <= a < p implies precedes(now, #[trigger] order[a], n) by {
        assert(!higher(ranks[n], ranks[order[a]]));
    }
    assert forall|a: int| p <= a < order.len() implies precedes(now, n, #[trigger] order[a]) by {
        assert(higher(ranks[n], ranks[order[p]]));
        if a > p {
            assert(precedes(now, order[p], order[a]));
        }
    }
    assert forall|a: int| 0 <= a < longer.len() implies #[trigger] longer[a] == (if a < p {
        order[a]
    } else if a == p {
        n
    } else {
        order[a - 1]
    }) by {}
    assert forall|a: int, b: int| 0 <= a < b < longer.len() implies precedes(
        now,
        #[trigger] longer[a],
        #[trigger] longer[b],
    ) by {
        let x = if a < p {
            a
        } else {
            a - 1
        };
        let y = if b < p {
            b
        } else {
            b - 1
        };
        if a == p {
            assert(precedes(now, n, order[y]));
        } else if b == p {
            assert(precedes(now, order[x], n));
        } else {
            assert(precedes(now, order[x], order[y]));
        }
    }
    assert forall|a: int, i: int|
        0 <= a < kept.len() && 0 <= i < now.len() && !among(kept, i) implies #[trigger] precedes(
        now,
        kept[a],
        i,
    ) by {
        assert(kept[a] == longer[a]);
        if among(longer, i) {
            let b = choose|b: int| 0 <= b < longer.len() && longer[b] == i;
            if b < kept.len() {
                assert(kept[b] == i);
            }
            assert(b == longer.len() - 1);
            assert(precedes(now, longer[a], longer[b]));
        } else {
            assert(longer[p] == n);
            assert(i < n);
            if among(order, i) {
                let c = choose|c: int| 0 <= c < order.len() && order[c] == i;
                let d = if c < p {
                    c
                } else {
                    c + 1
                };
                assert(longer[d] == i);
            }
            assert(longer.len() > most) by {
                if longer.len() <= most {
                    assert(order.len() == had.len());
                    lemma_all_among(had, order, most, i);
                }
            }
            let last = order[order.len() - 1];
            if order.len() > 0 {
                assert(precedes(had, order[order.len() - 1], i));
                assert(precedes(now, last, i));
                if a < longer.len() - 1 {
                    if p < order.len() {
                        assert(longer[longer.len() - 1] == last);
                        assert(precedes(now, longer[a], longer[longer.len() - 1]));
                    } else {
                        assert(longer[a] == order[a]);
                        assert(precedes(had, order[a], i));
                    }
                }
            }
        }
    }
}

/// Where no position is left out, every one is among them.
proof fn lemma_all_among(ranks: Seq<Rank>, order: Seq<int>, most: nat, i: int)
    requires
        leads(ranks, order, most),
        order.len() == ranks.len(),
        0 <= i < ranks.len(),
    ensures
        among(order, i),
{
    if !among(order, i) {
        let n = ranks.len();
        let all = vstd::set_lib::set_int_range(0, n as int);
        let taken = order.to_set();
        vstd::set_lib::lemma_int_range(0, n as int);
        assert(order.no_duplicates()) by {
            assert forall|a: int, b: int| 0 <= a < order.len() && 0 <= b < order.len() && a
                != b implies order[a] != order[b] by {
                if a < b {
                    assert(precedes(ranks, order[a], order[b]));
                } else {
                    assert(precedes(ranks, order[b], order[a]));
                }
            }
        }
        order.unique_seq_to_set();
        assert(taken.subset_of(all.remove(i))) by {
            assert forall|x: int| taken.contains(x) implies all.remove(i).contains(x) by {
                let a = choose|a: int| 0 <= a < order.len() && order[a] == x;
                assert(order[a] == x);
            }
        }
        vstd::set_lib::lemma_len_subset(taken, all.remove(i));
    }
}

spec fn place_for(ranks: Seq<Rank>, order: Seq<int>, n: int, p: int) -> int
    decreases order.len() - p,
{
    if p >= order.len() || higher(ranks[n], ranks[order[p]]) {
        p
    } else {
        place_for(ranks, order, n, p + 1)
    }
}

proof fn lemma_place_for(ranks: Seq<Rank>, order: Seq<int>, n: int, p: int)
    requires
        0 <= p <= order.len(),
        forall|a: int| 0 <= a < p ==> !higher(ranks[n], ranks[#[trigger] order[a]]),
    ensures
        ({
            let q = place_for(ranks, order, n, p);
            &&& p <= q <= order.len()
            &&& forall|a: int| 0 <= a < q ==> !higher(ranks[n], ranks[#[trigger] order[a]])
            &&& q < order.len() ==> higher(ranks[n], ranks[order[q]])
        }),
    decreases order.len() - p,
{
    if p < order.len() && !higher(ranks[n], ranks[order[p]]) {
        lemma_place_for(ranks, order, n, p + 1);
    }
}

proof fn lemma_some_order(ranks: Seq<Rank>, most: nat, n: int) -> (order: Seq<int>)
    requires
        0 <= n <= ranks.len(),
    ensures
        leads(ranks.take(n), order, most),
    decreases n,
{
    if n == 0 {
        Seq::empty()
    } else {
        let had = lemma_some_order(ranks, most, n - 1);
        lemma_place_for(ranks, had, n - 1, 0);
        let p = place_for(ranks, had, n - 1, 0);
        lemma_inserted(ranks, had, most, n - 1, p);
        let longer = had.insert(p, n - 1);
        if longer.len() > most {
            longer.drop_last()
        } else {
            longer
        }
    }
}

/// Any ranks can be put in order.
pub proof fn law_there_is_an_order(ranks: Seq<Rank>, most: nat)
    ensures
        leads(ranks, leaders(ranks, most), most),
{
    let order = lemma_some_order(ranks, most, ranks.len() as int);
    assert(ranks.take(ranks.len() as int) =~= ranks);
    assert(leads(ranks, order, most));
}

/// Finds the first positions in the order of their ranks.
pub fn find_leaders(ranks: &Vec<Rank>, most: usize) -> (r: Vec<usize>)
    ensures
        positions(r@) == leaders(ranks@, most as nat),
        leads(ranks@, positions(r@), most as nat),
{
    let mut order: Vec<usize> = Vec::new();
    let mut n: usize = 0;
    while n < ranks.len()
        invariant
            n <= ranks@.len(),
            order@.len() <= most,
            leads(ranks@.take(n as int), positions(order@), most as nat),
        decreases ranks@.len() - n,
    {
        let ghost had = positions(order@);
        let ghost was = order@;
        assert forall|a: int| 0 <= a < order@.len() implies 0 <= #[trigger] order@[a] < n by {
            assert(had[a] == order@[a]);
        }
        let mut p: usize = 0;
        while p < order.len() && !is_higher(ranks[n], ranks[order[p]])
            invariant
                n < ranks@.len(),
                p <= order@.len(),
                order@ == was,
                had == positions(was),
                forall|a: int| 0 <= a < order@.len() ==> 0 <= #[trigger] order@[a] < n,
                forall|a: int| 0 <= a < p ==> !higher(ranks@[n as int], ranks@[#[trigger] had[a]]),
            decreases order@.len() - p,
        {
            assert(had[p as int] == order@[p as int]);
            p = p + 1;
        }
        proof {
            if p < was.len() {
                assert(had[p as int] == was[p as int]);
            }
            lemma_inserted(ranks@, had, most as nat, n as int, p as int);
        }
        order.insert(p, n);
        proof {
            assert(positions(order@) =~= had.insert(p as int, n as int));
        }
        if order.len() > most {
            let ghost longer = order@;
            order.pop();
            assert(positions(order@) =~= positions(longer).drop_last());
        }
        n = n + 1;
    }
    assert(ranks@.take(ranks@.len() as int) =~= ranks@);
    proof {
        law_order_of_ranks_is_unique(
            ranks@,
            positions(order@),
            leaders(ranks@, most as nat),
            most as nat,
        );
    }
    order
}

} // verus!
