//! Stable ordering of positions in a list.

use vstd::prelude::*;

verus! {

/// A way to rank the positions `0..count` of a list.
pub trait Ranking {
    /// How many positions there are.
    spec fn count(&self) -> nat;

    /// Whether the item at `a` comes before the item at `b`.
    spec fn before(&self, a: int, b: int) -> bool;

    /// Nothing comes both before and after something else, and what does not
    /// come after something that does not come after a third does not come
    /// after it.
    proof fn lemma_weak_order(&self, a: int, b: int, c: int)
        requires
            0 <= a < self.count(),
            0 <= b < self.count(),
            0 <= c < self.count(),
        ensures
            self.before(a, b) ==> !self.before(b, a),
            !self.before(b, a) && !self.before(c, b) ==> !self.before(c, a),
    ;

    /// Whether the item at `a` comes before the item at `b`.
    fn comes_before(&self, a: usize, b: usize) -> (r: bool)
        requires
            a < self.count(),
            b < self.count(),
        ensures
            r == self.before(a as int, b as int),
    ;
}

/// Whether `order` lists each position that `keep` marks, and no other, once:
/// what comes before comes first, and what comes in neither order stays in the
/// order of the positions.
pub open spec fn is_stable_order<R: Ranking>(order: Seq<usize>, keep: Seq<bool>, ranking: &R) -> bool {
    &&& order.no_duplicates()
    &&& forall|k: int|
        0 <= k < order.len() ==> 0 <= #[trigger] order[k] < keep.len() && keep[order[k] as int]
    &&& forall|i: usize| i < keep.len() && keep[i as int] ==> #[trigger] order.contains(i)
    &&& forall|a: int, b: int|
        0 <= a < b < order.len() ==> #[trigger] in_place(ranking, order[a], order[b])
}

/// Whether position `x` may stand somewhere before position `y`.
pub open spec fn in_place<R: Ranking>(ranking: &R, x: usize, y: usize) -> bool {
    ranking.before(x as int, y as int) || (!ranking.before(y as int, x as int) && x < y)
}

/// There is one stable order: two that fit the same marks and the same ranking
/// are the same.
pub proof fn law_stable_order_is_unique<R: Ranking>(
    a: Seq<usize>,
    b: Seq<usize>,
    keep: Seq<bool>,
    ranking: &R,
)
    requires
        is_stable_order(a, keep, ranking),
        is_stable_order(b, keep, ranking),
        keep.len() <= ranking.count(),
    ensures
        a == b,
    decreases a.len(),
{
    if a.len() == 0 {
        if b.len() > 0 {
            assert(keep[b[0] as int]);
            assert(a.contains(b[0]));
        }
        assert(a =~= b);
    } else {
        let x = a.last();
        assert(a[a.len() - 1] == x);
        assert(keep[x as int]);
        assert(b.contains(x));
        let y = b.last();
        assert(b[b.len() - 1] == y);
        assert(keep[y as int]);
        assert(a.contains(y));
        if x != y {
            let i = choose|i: int| 0 <= i < a.len() && a[i] == y;
            let j = choose|j: int| 0 <= j < b.len() && b[j] == x;
            assert(in_place(ranking, a[i], a[a.len() - 1]));
            assert(in_place(ranking, b[j], b[b.len() - 1]));
            ranking.lemma_weak_order(x as int, y as int, x as int);
            assert(false);
        }
        let rest = keep.update(x as int, false);
        lemma_drop_last(a, keep, ranking);
        lemma_drop_last(b, keep, ranking);
        law_stable_order_is_unique(a.drop_last(), b.drop_last(), rest, ranking);
        assert(a =~= a.drop_last().push(x));
        assert(b =~= b.drop_last().push(x));
    }
}

/// A stable order without its last position is one of what is left.
proof fn lemma_drop_last<R: Ranking>(a: Seq<usize>, keep: Seq<bool>, ranking: &R)
    requires
        is_stable_order(a, keep, ranking),
        a.len() > 0,
    ensures
        is_stable_order(a.drop_last(), keep.update(a.last() as int, false), ranking),
{
    let x = a.last();
    let rest = keep.update(x as int, false);
    let d = a.drop_last();
    assert forall|k: int| 0 <= k < d.len() implies 0 <= #[trigger] d[k] < rest.len()
        && rest[d[k] as int] by {
        assert(d[k] == a[k]);
        assert(a[k] != a[a.len() - 1]);
    }
    assert forall|i: usize| i < rest.len() && rest[i as int] implies #[trigger] d.contains(i) by {
        assert(i != x) by {
            assert(0 <= a[a.len() - 1] < keep.len());
        }
        assert(keep[i as int]);
        assert(a.contains(i));
        let k = choose|k: int| 0 <= k < a.len() && a[k] == i;
        assert(d[k] == i);
    }
    assert forall|i: int, j: int| 0 <= i < j < d.len() implies #[trigger] in_place(
        ranking,
        d[i],
        d[j],
    ) by {
        assert(in_place(ranking, a[i], a[j]));
    }
}

/// The positions that `keep` marks, in the order of `ranking`.
pub fn stable_order<R: Ranking>(keep: &Vec<bool>, ranking: &R) -> (r: Vec<usize>)
    requires
        keep@.len() == ranking.count(),
    ensures
        is_stable_order(r@, keep@, ranking),
{
    let mut out: Vec<usize> = Vec::new();
    let mut i: usize = 0;
    while i < keep.len()
        invariant
            i <= keep@.len(),
            keep@.len() == ranking.count(),
            is_stable_order(out@, keep@.take(i as int), ranking),
        decreases keep@.len() - i,
    {
        let ghost known = keep@.take(i as int);
        let ghost next = keep@.take(i + 1);
        if keep[i] {
            let ghost before = out@;
            let mut pos: usize = out.len();
            while pos > 0 && ranking.comes_before(i, out[pos - 1])
                invariant
                    out@ == before,
                    pos <= out@.len(),
                    i < keep@.len() == ranking.count(),
                    known == keep@.take(i as int),
                    is_stable_order(before, known, ranking),
                    forall|k: int|
                        pos <= k < out@.len() ==> ranking.before(i as int, #[trigger] out@[k] as int),
                decreases pos,
            {
                pos -= 1;
            }
            out.insert(pos, i);
            proof {
                assert(out@ =~= before.insert(pos as int, i));
                assert forall|k: int| 0 <= k < before.len() implies out@[if k < pos {
                    k
                } else {
                    k + 1
                }] == #[trigger] before[k] by {}
                assert forall|k: int| 0 <= k < pos implies in_place(
                    ranking,
                    #[trigger] before[k],
                    i,
                ) by {
                    let p = before[pos - 1];
                    assert(before[k] < i && p < i);
                    assert(!ranking.before(i as int, p as int));
                    if k < pos - 1 {
                        assert(in_place(ranking, before[k], before[pos - 1]));
                        ranking.lemma_weak_order(before[k] as int, p as int, i as int);
                    }
                }
                assert forall|k: int| 0 <= k < out@.len() implies 0 <= #[trigger] out@[k]
                    < next.len() && next[out@[k] as int] by {
                    if k < pos {
                        assert(out@[k] == before[k]);
                        assert(known[before[k] as int]);
                    } else if k > pos {
                        assert(out@[k] == before[k - 1]);
                        assert(known[before[k - 1] as int]);
                    }
                }
                assert forall|a: int, b: int|
                    0 <= a < b < out@.len() implies #[trigger] in_place(ranking, out@[a], out@[b]) by {
                    let oa = if a < pos { a } else { a - 1 };
                    let ob = if b < pos { b } else { b - 1 };
                    if a == pos {
                        assert(out@[b] == before[b - 1]);
                    } else if b == pos {
                        assert(out@[a] == before[a]);
                    } else {
                        assert(out@[a] == before[oa] && out@[b] == before[ob]);
                        assert(in_place(ranking, before[oa], before[ob]));
                    }
                }
                assert forall|a: int, b: int|
                    0 <= a < out@.len() && 0 <= b < out@.len() && a != b implies out@[a]
                    != out@[b] by {
                    let oa = if a < pos { a } else { a - 1 };
                    let ob = if b < pos { b } else { b - 1 };
                    if a == pos {
                        assert(out@[b] == before[ob] && before[ob] < i);
                    } else if b == pos {
                        assert(out@[a] == before[oa] && before[oa] < i);
                    } else {
                        assert(out@[a] == before[oa] && out@[b] == before[ob]);
                    }
                }
                assert forall|j: usize| j < next.len() && next[j as int] implies
                    #[trigger] out@.contains(j) by {
                    if j == i {
                        assert(out@[pos as int] == i);
                    } else {
                        assert(known[j as int]);
                        assert(before.contains(j));
                        let k = choose|k: int| 0 <= k < before.len() && before[k] == j;
                        assert(out@[if k < pos { k } else { k + 1 }] == j);
                    }
                }
            }
        } else {
            proof {
                assert forall|k: int| 0 <= k < out@.len() implies 0 <= #[trigger] out@[k]
                    < next.len() && next[out@[k] as int] by {
                    assert(known[out@[k] as int]);
                }
                assert forall|j: usize| j < next.len() && next[j as int] implies
                    #[trigger] out@.contains(j) by {
                    assert(j < i);
                    assert(known[j as int]);
                }
            }
        }
        i += 1;
    }
    assert(keep@.take(i as int) =~= keep@);
    out
}

/// In a stable order nothing stands behind something that it comes before, what
/// comes in neither order stays in the order of the positions, and it holds
/// exactly the positions that are kept, each once.
pub proof fn law_order_is_sorted_and_complete<R: Ranking>(
    order: Seq<usize>,
    keep: Seq<bool>,
    ranking: &R,
)
    requires
        is_stable_order(order, keep, ranking),
        keep.len() == ranking.count(),
    ensures
        order.no_duplicates(),
        forall|i: usize| i < keep.len() ==> (#[trigger] order.contains(i) <==> keep[i as int]),
        forall|a: int, b: int|
            0 <= a < b < order.len() ==> !ranking.before(
                #[trigger] order[b] as int,
                #[trigger] order[a] as int,
            ),
        forall|a: int, b: int|
            0 <= a < b < order.len() && !ranking.before(
                #[trigger] order[a] as int,
                #[trigger] order[b] as int,
            ) ==> order[a] < order[b],
{
    assert forall|a: int, b: int| 0 <= a < b < order.len() implies !ranking.before(
        #[trigger] order[b] as int,
        #[trigger] order[a] as int,
    ) by {
        assert(in_place(ranking, order[a], order[b]));
        ranking.lemma_weak_order(order[a] as int, order[b] as int, order[a] as int);
    }
    assert forall|a: int, b: int|
        0 <= a < b < order.len() && !ranking.before(
            #[trigger] order[a] as int,
            #[trigger] order[b] as int,
        ) implies order[a] < order[b] by {
        assert(in_place(ranking, order[a], order[b]));
    }
    assert forall|i: usize| i < keep.len() implies (#[trigger] order.contains(i)
        <==> keep[i as int]) by {
        if order.contains(i) {
            let k = choose|k: int| 0 <= k < order.len() && order[k] == i;
            assert(keep[order[k] as int]);
        }
    }
}

} // verus!
