use vstd::prelude::*;
use vstd::multiset::Multiset;
use vstd::relations::{sorted_by, total_ordering};
use vstd::seq_lib::lemma_multiset_commutative;

verus! {

broadcast use vstd::seq_lib::group_to_multiset_ensures, vstd::multiset::group_multiset_axioms;

/// A pixel that passed the brightness filter: its brightness and its row-major index.
#[derive(Debug, Clone, Copy, PartialEq, Eq, Structural)]
pub struct RankedPixel {
    pub brightness: u32,
    pub index: usize,
}

/// Ranking order: brighter first; among equally bright pixels, the earlier in scan order.
pub open spec fn rank_leq(a: RankedPixel, b: RankedPixel) -> bool {
    a.brightness > b.brightness || (a.brightness == b.brightness && a.index <= b.index)
}

pub open spec fn rank_order() -> spec_fn(RankedPixel, RankedPixel) -> bool {
    |a: RankedPixel, b: RankedPixel| rank_leq(a, b)
}

pub proof fn lemma_rank_order_total()
    ensures
        total_ordering(rank_order()),
{
}

fn ranks_before(a: &RankedPixel, b: &RankedPixel) -> (r: bool)
    ensures
        r == rank_leq(*a, *b),
{
    a.brightness > b.brightness || (a.brightness == b.brightness && a.index <= b.index)
}

/// Two sequences sorted by a total order that hold the same elements are equal.
pub proof fn lemma_sorted_unique<A>(a: Seq<A>, b: Seq<A>, leq: spec_fn(A, A) -> bool)
    requires
        total_ordering(leq),
        sorted_by(a, leq),
        sorted_by(b, leq),
        a.to_multiset() == b.to_multiset(),
    ensures
        a == b,
    decreases a.len(),
{
    assert(a.len() == a.to_multiset().len());
    assert(b.len() == b.to_multiset().len());
    if a.len() == 0 {
        assert(a =~= b);
    } else {
        let n = a.len() - 1;
        let (x, y) = (a[n], b[n]);
        assert(a.contains(x));
        assert(b.to_multiset().count(x) > 0);
        let jb = choose|j: int| 0 <= j < b.len() && b[j] == x;
        if jb < n {
            assert(leq(b[jb], b[n]));
        }
        assert(leq(x, y));
        assert(b.contains(y));
        assert(a.to_multiset().count(y) > 0);
        let ja = choose|j: int| 0 <= j < a.len() && a[j] == y;
        if ja < n {
            assert(leq(a[ja], a[n]));
        }
        assert(leq(y, x));
        assert(x == y);
        let (a0, b0) = (a.drop_last(), b.drop_last());
        assert(a0.push(x) =~= a);
        assert(b0.push(x) =~= b);
        assert(a0.to_multiset() =~= b0.to_multiset()) by {
            assert(a.to_multiset() == a0.to_multiset().insert(x));
            assert(b.to_multiset() == b0.to_multiset().insert(x));
            assert forall|v: A| a0.to_multiset().count(v) == b0.to_multiset().count(v) by {
                assert(a.to_multiset().count(v) == b.to_multiset().count(v));
                if v == x {
                    assert(a.to_multiset().count(v) == a0.to_multiset().count(v) + 1);
                    assert(b.to_multiset().count(v) == b0.to_multiset().count(v) + 1);
                } else {
                    assert(a.to_multiset().count(v) == a0.to_multiset().count(v));
                    assert(b.to_multiset().count(v) == b0.to_multiset().count(v));
                }
            }
        }
        assert(sorted_by(a0, leq)) by {
            assert forall|i: int, j: int| 0 <= i < j < a0.len() implies #[trigger] leq(a0[i], a0[j]) by {
                assert(leq(a[i], a[j]));
            }
        }
        assert(sorted_by(b0, leq)) by {
            assert forall|i: int, j: int| 0 <= i < j < b0.len() implies #[trigger] leq(b0[i], b0[j]) by {
                assert(leq(b[i], b[j]));
            }
        }
        lemma_sorted_unique(a0, b0, leq);
    }
}

/// Merges two ranked sequences into one.
fn merge(a: Vec<RankedPixel>, b: Vec<RankedPixel>) -> (r: Vec<RankedPixel>)
    requires
        sorted_by(a@, rank_order()),
        sorted_by(b@, rank_order()),
    ensures
        sorted_by(r@, rank_order()),
        r@.to_multiset() == a@.to_multiset().add(b@.to_multiset()),
{
    let ghost leq = rank_order();
    let mut out: Vec<RankedPixel> = Vec::new();
    let mut i: usize = 0;
    let mut j: usize = 0;
    assert(a@.take(0).to_multiset() =~= Multiset::empty());
    assert(b@.take(0).to_multiset() =~= Multiset::empty());
    assert(out@.to_multiset() =~= Multiset::empty());
    while i < a.len() || j < b.len()
        invariant
            leq == rank_order(),
            sorted_by(a@, leq),
            sorted_by(b@, leq),
            i <= a@.len(),
            j <= b@.len(),
            sorted_by(out@, leq),
            out@.len() == i + j,
            out@.to_multiset() == a@.take(i as int).to_multiset().add(b@.take(j as int).to_multiset()),
            out@.len() > 0 && i < a@.len() ==> rank_leq(out@.last(), a@[i as int]),
            out@.len() > 0 && j < b@.len() ==> rank_leq(out@.last(), b@[j as int]),
        decreases a@.len() + b@.len() - i - j,
    {
        let ghost prev = out@;
        let take_a = i < a.len() && (j >= b.len() || ranks_before(&a[i], &b[j]));
        let x = if take_a { a[i] } else { b[j] };
        out.push(x);
        proof {
            assert forall|p: int, q: int| 0 <= p < q < out@.len() implies #[trigger] leq(out@[p], out@[q]) by {
                if q == out@.len() - 1 {
                    if p < prev.len() - 1 {
                        assert(leq(prev[p], prev[prev.len() - 1]));
                    }
                } else {
                    assert(leq(prev[p], prev[q]));
                }
            }
        }
        if take_a {
            proof {
                assert(a@.take(i as int + 1) =~= a@.take(i as int).push(x));
                assert(out@.to_multiset() =~= a@.take(i as int + 1).to_multiset().add(b@.take(j as int).to_multiset()));
                if i + 1 < a@.len() {
                    assert(leq(a@[i as int], a@[i as int + 1]));
                }
            }
            i += 1;
        } else {
            proof {
                assert(b@.take(j as int + 1) =~= b@.take(j as int).push(x));
                assert(out@.to_multiset() =~= a@.take(i as int).to_multiset().add(b@.take(j as int + 1).to_multiset()));
                if j + 1 < b@.len() {
                    assert(leq(b@[j as int], b@[j as int + 1]));
                }
            }
            j += 1;
        }
    }
    assert(a@.take(a@.len() as int) =~= a@);
    assert(b@.take(b@.len() as int) =~= b@);
    out
}

/// Sorts pixels into ranking order (see `rank_leq`), keeping every element.
pub fn merge_sort(v: Vec<RankedPixel>) -> (r: Vec<RankedPixel>)
    ensures
        sorted_by(r@, rank_order()),
        r@.to_multiset() == v@.to_multiset(),
    decreases v@.len(),
{
    if v.len() <= 1 {
        return v;
    }
    let mut left = v;
    let ghost whole = left@;
    let right = left.split_off(left.len() / 2);
    proof {
        assert(whole =~= left@ + right@);
        lemma_multiset_commutative(left@, right@);
    }
    let l = merge_sort(left);
    let r = merge_sort(right);
    merge(l, r)
}

} // verus!
