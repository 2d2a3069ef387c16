//! A stable insertion sort driven by a three-way comparison.
use vstd::prelude::*;

use crate::text::Order3;
use vstd::multiset::Multiset;

verus! {

broadcast use vstd::seq_lib::group_to_multiset_ensures;

/// `ord` orders the pairs of the sequence that stand next to each other.
pub open spec fn sorted_by<T>(s: Seq<T>, ord: spec_fn(T, T) -> Order3) -> bool {
    forall|i: int| 0 <= i < s.len() - 1 ==> ord(s[i], #[trigger] s[i + 1]) != Order3::Greater
}

/// A three-way comparison of values of `T`.
pub trait Orderer<T> {
    spec fn spec_order(&self, a: T, b: T) -> Order3;

    proof fn lemma_flip(&self, a: T, b: T)
        ensures
            self.spec_order(b, a) == self.spec_order(a, b).flip(),
    ;

    fn order(&self, a: &T, b: &T) -> (r: Order3)
        ensures
            r == self.spec_order(*a, *b),
    ;
}

/// `out` rearranges `inp`: its `k`-th element is `inp[idx[k]]`, each place of
/// `inp` is taken once, and two elements that `ord` finds equal stand in
/// `out` in the order they had in `inp`.
pub open spec fn stable_arrangement<T>(
    out: Seq<T>,
    inp: Seq<T>,
    ord: spec_fn(T, T) -> Order3,
    idx: Seq<int>,
) -> bool {
    &&& idx.len() == out.len()
    &&& out.len() == inp.len()
    &&& forall|k: int| 0 <= k < out.len() ==> 0 <= #[trigger] idx[k] < inp.len() && out[k] == inp[idx[k]]
    &&& forall|k1: int, k2: int|
        #![trigger idx[k1], idx[k2]]
        0 <= k1 < k2 < out.len() ==> idx[k1] != idx[k2]
    &&& forall|k1: int, k2: int|
        #![trigger idx[k1], idx[k2]]
        0 <= k1 < k2 < out.len() && ord(out[k1], out[k2]) == Order3::Equal ==> idx[k1] < idx[k2]
}

/// The comparison of an orderer, as a function.
pub open spec fn order_of<T, O: Orderer<T>>(o: &O) -> spec_fn(T, T) -> Order3 {
    |a: T, b: T| o.spec_order(a, b)
}

/// Sorts `v` by `o`; elements that compare equal keep their order (each
/// element is inserted after every element that is not greater).
pub fn sort_by<T, O: Orderer<T>>(v: &mut Vec<T>, o: &O)
    ensures
        sorted_by(final(v)@, |a: T, b: T| o.spec_order(a, b)),
        final(v)@.to_multiset() == old(v)@.to_multiset(),
        final(v)@.len() == old(v)@.len(),
        exists|idx: Seq<int>| #[trigger] stable_arrangement(final(v)@, old(v)@, order_of(o), idx),
{
    let ghost ord = |a: T, b: T| o.spec_order(a, b);
    let ghost orig = v@;
    let mut src: Vec<T> = Vec::new();
    std::mem::swap(&mut src, v);
    let mut res: Vec<T> = Vec::new();
    let ghost mut n: int = 0;
    let ghost mut idx: Seq<int> = Seq::empty();
    assert(res@.to_multiset().add(src@.to_multiset()) =~= orig.to_multiset());
    assert(src@ =~= orig.subrange(0, orig.len() as int));
    while src.len() > 0
        invariant
            ord == (|a: T, b: T| o.spec_order(a, b)),
            sorted_by(res@, ord),
            res@.to_multiset().add(src@.to_multiset()) == orig.to_multiset(),
            res@.len() + src@.len() == orig.len(),
            0 <= n <= orig.len(),
            res@.len() == n,
            src@ == orig.subrange(n, orig.len() as int),
            idx.len() == n,
            forall|k: int| 0 <= k < n ==> 0 <= #[trigger] idx[k] < n && res@[k] == orig[idx[k]],
            forall|k1: int, k2: int|
                #![trigger idx[k1], idx[k2]]
                0 <= k1 < k2 < n ==> idx[k1] != idx[k2],
            forall|k1: int, k2: int|
                #![trigger idx[k1], idx[k2]]
                0 <= k1 < k2 < n && ord(res@[k1], res@[k2]) == Order3::Equal ==> idx[k1] < idx[k2],
        decreases src.len(),
    {
        let ghost src0 = src@;
        let x = src.remove(0);
        let mut p = res.len();
        while p > 0 && o.order(&res[p - 1], &x) == Order3::Greater
            invariant
                ord == (|a: T, b: T| o.spec_order(a, b)),
                p <= res.len(),
                forall|k: int| p <= k < res.len() ==> ord(#[trigger] res@[k], x) == Order3::Greater,
            decreases p,
        {
            p = p - 1;
        }
        let ghost r0 = res@;
        let ghost i0 = idx;
        assert(p == 0 || ord(r0[p - 1], x) != Order3::Greater);
        res.insert(p, x);
        proof {
            assert(x == orig[n]);
            assert(src@ =~= orig.subrange(n + 1, orig.len() as int));
            assert(src0.to_multiset() == src@.to_multiset().insert(x)) by {
                assert(src0.remove(0) =~= src@);
            }
            assert(res@.to_multiset() == r0.to_multiset().insert(x));
            assert(res@.to_multiset().add(src@.to_multiset()) =~= orig.to_multiset());
            assert forall|i: int| 0 <= i < res@.len() - 1 implies ord(res@[i], #[trigger] res@[i + 1]) != Order3::Greater by {
                if i + 1 < p {
                    assert(res@[i] == r0[i] && res@[i + 1] == r0[i + 1]);
                    assert(ord(r0[i], r0[i + 1]) != Order3::Greater);
                } else if i + 1 == p {
                    assert(res@[i] == r0[i] && res@[i + 1] == x);
                } else if i == p {
                    assert(res@[i] == x && res@[i + 1] == r0[i]);
                    assert(ord(r0[i], x) == Order3::Greater);
                    o.lemma_flip(r0[i], x);
                } else {
                    assert(res@[i] == r0[i - 1] && res@[i + 1] == r0[i]);
                    assert(ord(r0[i - 1], r0[(i - 1) + 1]) != Order3::Greater);
                }
            }
            idx = i0.insert(p as int, n);
            assert forall|k: int| 0 <= k < n + 1 implies 0 <= #[trigger] idx[k] < n + 1 && res@[k] == orig[idx[k]] by {
                if k < p {
                    assert(idx[k] == i0[k] && res@[k] == r0[k]);
                } else if k > p {
                    assert(idx[k] == i0[k - 1] && res@[k] == r0[k - 1]);
                }
            }
            assert forall|k1: int, k2: int|
                #![trigger idx[k1], idx[k2]]
                0 <= k1 < k2 < n + 1 implies idx[k1] != idx[k2] by {
                if k1 == p {
                    assert(i0[k2 - 1] < n);
                } else if k2 == p {
                    assert(i0[k1] < n);
                } else if k1 < p && k2 < p {
                    assert(idx[k1] == i0[k1] && idx[k2] == i0[k2]);
                } else if k1 < p {
                    assert(idx[k1] == i0[k1] && idx[k2] == i0[k2 - 1]);
                } else {
                    assert(idx[k1] == i0[k1 - 1] && idx[k2] == i0[k2 - 1]);
                }
            }
            assert forall|k1: int, k2: int|
                #![trigger idx[k1], idx[k2]]
                0 <= k1 < k2 < n + 1 && ord(res@[k1], res@[k2]) == Order3::Equal implies idx[k1] < idx[k2] by {
                if k1 == p {
                    assert(res@[k2] == r0[k2 - 1]);
                    assert(ord(r0[k2 - 1], x) == Order3::Greater);
                    o.lemma_flip(r0[k2 - 1], x);
                } else if k2 == p {
                    assert(i0[k1] < n);
                } else if k1 < p && k2 < p {
                    assert(idx[k1] == i0[k1] && idx[k2] == i0[k2]);
                    assert(res@[k1] == r0[k1] && res@[k2] == r0[k2]);
                } else if k1 < p {
                    assert(idx[k1] == i0[k1] && idx[k2] == i0[k2 - 1]);
                    assert(res@[k1] == r0[k1] && res@[k2] == r0[k2 - 1]);
                } else {
                    assert(idx[k1] == i0[k1 - 1] && idx[k2] == i0[k2 - 1]);
                    assert(res@[k1] == r0[k1 - 1] && res@[k2] == r0[k2 - 1]);
                }
            }
            n = n + 1;
        }
    }
    assert(src@.to_multiset() =~= Multiset::empty());
    assert(ord == order_of(o));
    assert(stable_arrangement(res@, orig, order_of(o), idx));
    *v = res;
}

/// Two sequences with the same elements keep the same elements under a map.
pub proof fn lemma_map_multiset<A, B>(s1: Seq<A>, s2: Seq<A>, f: spec_fn(A) -> B)
    requires
        s1.to_multiset() == s2.to_multiset(),
    ensures
        s1.map_values(f).to_multiset() == s2.map_values(f).to_multiset(),
    decreases s1.len(),
{
    if s1.len() == 0 {
        assert(s1.to_multiset().len() == s1.len());
        assert(s2.to_multiset().len() == s2.len());
        assert(s1.map_values(f) =~= s2.map_values(f));
    } else {
        let x = s1.last();
        assert(s1.to_multiset().count(x) > 0) by {
            assert(s1.drop_last().push(x) =~= s1);
        }
        assert(s2.contains(x));
        let k = choose|k: int| 0 <= k < s2.len() && s2[k] == x;
        assert(s1.drop_last().push(x) =~= s1);
        assert(s2.remove(k).to_multiset() == s1.drop_last().to_multiset());
        lemma_map_multiset(s1.drop_last(), s2.remove(k), f);
        assert(s1.map_values(f) =~= s1.drop_last().map_values(f).push(f(x)));
        assert(s2.map_values(f).remove(k) =~= s2.remove(k).map_values(f));
        assert(s2.map_values(f).to_multiset() == s2.map_values(f).remove(k).to_multiset().insert(f(x)));
    }
}

} // verus!
