//! Stable sorting by a strict weak order.
use vstd::prelude::*;

verus! {

broadcast use vstd::std_specs::vec::group_vec_axioms;

/// A strict weak order on values: `precedes` is transitive, and values that
/// are equivalent (neither precedes the other) are interchangeable.
pub trait Precedes: Sized {
    spec fn precedes(&self, other: &Self) -> bool;

    fn precedes_exec(&self, other: &Self) -> (r: bool)
        ensures
            r == self.precedes(other),
    ;

    proof fn lemma_transitive(a: &Self, b: &Self, c: &Self)
        requires
            a.precedes(b),
            b.precedes(c),
        ensures
            a.precedes(c),
    ;

    proof fn lemma_equivalent(a: &Self, b: &Self, c: &Self)
        requires
            !a.precedes(b),
            !b.precedes(a),
        ensures
            a.precedes(c) == b.precedes(c),
            c.precedes(a) == c.precedes(b),
    ;

    proof fn lemma_irreflexive(a: &Self)
        ensures
            !a.precedes(a),
    ;
}

/// No item precedes an item placed before it.
pub open spec fn is_sorted<T: Precedes>(s: Seq<T>) -> bool {
    forall|i: int, j: int| 0 <= i < j < s.len() ==> !s[j].precedes(&s[i])
}

/// `out[i] == input[perm[i]]` for a permutation `perm` of the input positions,
/// and equivalent items keep their input order.
pub open spec fn is_stable_sort_of<T: Precedes>(out: Seq<T>, input: Seq<T>, perm: Seq<int>) -> bool {
    &&& out.len() == input.len()
    &&& perm.len() == out.len()
    &&& forall|i: int| 0 <= i < perm.len() ==> 0 <= #[trigger] perm[i] < input.len()
    &&& forall|i: int, j: int| 0 <= i < j < perm.len() ==> perm[i] != perm[j]
    &&& forall|i: int| 0 <= i < out.len() ==> #[trigger] out[i] == input[perm[i]]
    &&& is_sorted(out)
    &&& forall|i: int, j: int|
        0 <= i < j < out.len() && !out[i].precedes(&out[j]) ==> perm[i] < perm[j]
}

/// Sorts stably: the result is sorted and equivalent items keep their order.
pub fn stable_sort<T: Precedes>(v: Vec<T>) -> (r: Vec<T>)
    ensures
        exists|perm: Seq<int>| is_stable_sort_of(r@, v@, perm),
{
    let ghost input = v@;
    let total = v.len();
    assert(input.len() == total);
    let mut rest = v;
    let mut out: Vec<T> = Vec::new();
    let ghost mut perm: Seq<int> = Seq::empty();
    let mut n: usize = 0;
    while rest.len() > 0
        invariant
            input.len() <= usize::MAX,
            n + rest@.len() == input.len(),
            rest@ == input.subrange(n as int, input.len() as int),
            out@.len() == n,
            perm.len() == n,
            forall|i: int| 0 <= i < n ==> 0 <= #[trigger] perm[i] < n,
            forall|i: int, j: int| 0 <= i < j < n ==> perm[i] != perm[j],
            forall|i: int| 0 <= i < n ==> #[trigger] out@[i] == input[perm[i]],
            is_sorted(out@),
            forall|i: int, j: int|
                0 <= i < j < n && !out@[i].precedes(&out@[j]) ==> perm[i] < perm[j],
        decreases rest@.len(),
    {
        let x = rest.remove(0);
        assert(x == input[n as int]);
        // first position whose item x precedes
        let mut p: usize = 0;
        while p < out.len() && !x.precedes_exec(&out[p])
            invariant
                0 <= p <= out@.len(),
                forall|q: int| 0 <= q < p ==> !x.precedes(&out@[q]),
            decreases out@.len() - p,
        {
            p = p + 1;
        }
        let ghost old_out = out@;
        let ghost old_perm = perm;
        out.insert(p, x);
        proof {
            perm = old_perm.insert(p as int, n as int);
            assert forall|i: int, j: int| 0 <= i < j < out@.len() implies !out@[j].precedes(&out@[i]) by {
                if i < p && j == p {
                } else if i == p && j > p {
                    // x precedes old_out[p] (when it exists); old_out[j-1] does not precede old_out[p]
                    let y = old_out[j - 1];
                    if y.precedes(&x) {
                        let z = old_out[p as int];
                        T::lemma_transitive(&y, &x, &z);
                        if j - 1 > p {
                        } else {
                            T::lemma_irreflexive(&y);
                        }
                    }
                } else if i < p && j > p {
                } else if j < p {
                } else {
                }
            }
            assert forall|i: int, j: int|
                0 <= i < j < out@.len() && !out@[i].precedes(&out@[j]) implies perm[i] < perm[j] by {
                if j == p {
                    assert(perm[j] == n);
                    assert(perm[i] == old_perm[i]);
                } else if i == p {
                    // x precedes old_out[p]; every later equivalent item would contradict
                    let z = old_out[p as int];
                    let y = out@[j];
                    assert(x.precedes(&z));
                    if !y.precedes(&x) {
                        T::lemma_equivalent(&x, &y, &z);
                        if j == p + 1 {
                            T::lemma_irreflexive(&z);
                        } else {
                            assert(!old_out[j - 1].precedes(&old_out[p as int]));
                        }
                    }
                } else {
                }
            }
            assert forall|i: int| 0 <= i < n + 1 implies 0 <= #[trigger] perm[i] < n + 1 by {
            }
            assert forall|i: int, j: int| 0 <= i < j < n + 1 implies perm[i] != perm[j] by {
                if i == p || j == p {
                } else {
                }
            }
            assert forall|i: int| 0 <= i < n + 1 implies #[trigger] out@[i] == input[perm[i]] by {
            }
        }
        n = n + 1;
        assert(rest@ =~= input.subrange(n as int, input.len() as int));
    }
    assert(is_stable_sort_of(out@, input, perm));
    out
}

} // verus!
