//! Ordering of result rows: an insertion sort under any total
//! preorder, proved to return a sorted permutation of its input.

use vstd::prelude::*;
use vstd::seq_lib::*;

verus! {

/// `le` is total and transitive.
pub open spec fn total_preorder<T>(le: spec_fn(T, T) -> bool) -> bool {
    &&& forall|a: T, b: T| #[trigger] le(a, b) || le(b, a)
    &&& forall|a: T, b: T, c: T| #[trigger] le(a, b) && #[trigger] le(b, c) ==> le(a, c)
}

/// Each element of `s` comes `le`-before every later one.
pub open spec fn sorted_by<T>(s: Seq<T>, le: spec_fn(T, T) -> bool) -> bool {
    forall|i: int, j: int| 0 <= i < j < s.len() ==> le(#[trigger] s[i], #[trigger] s[j])
}

proof fn lemma_insert_sorted<T>(o: Seq<T>, i: int, x: T, le: spec_fn(T, T) -> bool)
    requires
        total_preorder(le),
        sorted_by(o, le),
        0 <= i <= o.len(),
        forall|k: int| 0 <= k < i ==> le(#[trigger] o[k], x),
        i < o.len() ==> !le(o[i], x),
    ensures
        sorted_by(o.insert(i, x), le),
{
    o.insert_ensures(i, x);
    let n = o.insert(i, x);
    if i < o.len() {
        assert(le(x, o[i]));
    }
    assert forall|p: int, q: int| 0 <= p < q < n.len() implies le(#[trigger] n[p], #[trigger] n[q]) by {
        if q < i {
            assert(n[p] == o[p] && n[q] == o[q]);
        } else if q == i {
            assert(n[p] == o[p]);
        } else {
            assert(n[q] == o[q - 1]);
            if p < i {
                assert(n[p] == o[p]);
            } else if p == i {
                if q - 1 > i {
                    assert(le(o[i], o[q - 1]));
                }
            } else {
                assert(n[p] == o[p - 1]);
            }
        }
    }
}

/// Mapping two permutations of each other by one function gives
/// permutations of each other.
pub proof fn lemma_map_permutation<A, B>(a: Seq<A>, b: Seq<A>, f: spec_fn(A) -> B)
    requires
        a.to_multiset() == b.to_multiset(),
    ensures
        a.map_values(f).to_multiset() == b.map_values(f).to_multiset(),
    decreases a.len(),
{
    broadcast use group_to_multiset_ensures;

    to_multiset_len(a);
    to_multiset_len(b);
    if a.len() == 0 {
        assert(b.len() == 0);
        assert(a.map_values(f) =~= b.map_values(f));
    } else {
        let x = a.last();
        let a2 = a.drop_last();
        assert(a =~= a2.push(x));
        assert(a.to_multiset().count(x) > 0);
        assert(b.contains(x));
        let j = choose|j: int| 0 <= j < b.len() && b[j] == x;
        let b2 = b.remove(j);
        to_multiset_remove(b, j);
        to_multiset_build(a2, x);
        assert(b2.to_multiset() =~= a2.to_multiset());
        lemma_map_permutation(a2, b2, f);
        assert(a.map_values(f) =~= a2.map_values(f).push(f(x)));
        assert(b.map_values(f) =~= b2.map_values(f).insert(j, f(x)));
        to_multiset_insert(b2.map_values(f), j, f(x));
    }
}

/// Sorts `v` so that each element comes `le`-before every later one;
/// `before` decides `le`.
pub fn sort_by<T, F: Fn(&T, &T) -> bool>(
    v: Vec<T>,
    before: &F,
    Ghost(le): Ghost<spec_fn(T, T) -> bool>,
) -> (r: Vec<T>)
    requires
        total_preorder(le),
        forall|a: &T, b: &T| before.requires((a, b)),
        forall|a: &T, b: &T, x: bool| before.ensures((a, b), x) ==> x == le(*a, *b),
    ensures
        sorted_by(r@, le),
        r@.to_multiset() == v@.to_multiset(),
{
    broadcast use group_to_multiset_ensures;

    let mut rest = v;
    let mut out: Vec<T> = Vec::new();
    while rest.len() > 0
        invariant
            total_preorder(le),
            forall|a: &T, b: &T| before.requires((a, b)),
            forall|a: &T, b: &T, x: bool| before.ensures((a, b), x) ==> x == le(*a, *b),
            sorted_by(out@, le),
            out@.to_multiset().add(rest@.to_multiset()) == v@.to_multiset(),
        decreases rest@.len(),
    {
        let ghost old_rest = rest@;
        let x = rest.pop().unwrap();
        assert(old_rest =~= rest@.push(x));
        let mut i: usize = 0;
        let mut found = false;
        while i < out.len() && !found
            invariant
                i <= out@.len(),
                forall|a: &T, b: &T| before.requires((a, b)),
                forall|a: &T, b: &T, x: bool| before.ensures((a, b), x) ==> x == le(*a, *b),
                forall|k: int| 0 <= k < i ==> le(#[trigger] out@[k], x),
                found ==> i < out@.len() && !le(out@[i as int], x),
            decreases out@.len() - i + (if found { 0int } else { 1int }),
        {
            if before(&out[i], &x) {
                i += 1;
            } else {
                found = true;
            }
        }
        let ghost old_out = out@;
        proof {
            lemma_insert_sorted(out@, i as int, x, le);
            to_multiset_build(rest@, x);
            to_multiset_insert(old_out, i as int, x);
        }
        out.insert(i, x);
        assert(out@.to_multiset() == old_out.to_multiset().insert(x));
        assert(old_rest.to_multiset() == rest@.to_multiset().insert(x));
        assert(out@.to_multiset().add(rest@.to_multiset()) =~= old_out.to_multiset().add(
            old_rest.to_multiset(),
        ));
    }
    assert(rest@.to_multiset() =~= vstd::multiset::Multiset::empty());
    assert(out@.to_multiset().add(rest@.to_multiset()) =~= out@.to_multiset());
    out
}

} // verus!
