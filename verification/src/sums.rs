//! Sums over finite sets.

use vstd::prelude::*;

verus! {

/// The sum of what `f` gives for the elements of a finite set.
pub open spec fn sum_over<A>(s: Set<A>, f: spec_fn(A) -> nat) -> nat
    decreases s.len(),
    when s.finite()
{
    if s.len() == 0 {
        0
    } else {
        f(s.choose()) + sum_over(s.remove(s.choose()), f)
    }
}

/// The sum of what `f` gives for the elements of a sequence.
pub open spec fn sum_along<A>(s: Seq<A>, f: spec_fn(A) -> nat) -> nat
    decreases s.len(),
{
    if s.len() == 0 {
        0
    } else {
        sum_along(s.drop_last(), f) + f(s.last())
    }
}

/// Any element can be added last.
pub proof fn lemma_sum_remove<A>(s: Set<A>, f: spec_fn(A) -> nat, a: A)
    requires
        s.finite(),
        s.contains(a),
    ensures
        sum_over(s, f) == f(a) + sum_over(s.remove(a), f),
    decreases s.len(),
{
    let c = s.choose();
    assert(s.len() > 0);
    if c != a {
        lemma_sum_remove(s.remove(c), f, a);
        lemma_sum_remove(s.remove(a), f, c);
        assert(s.remove(c).remove(a) =~= s.remove(a).remove(c));
    }
}

/// The sum over the image of a set, under a function that keeps its elements
/// apart, is the sum over the set.
pub proof fn lemma_sum_image<A, B>(
    s: Set<A>,
    t: Set<B>,
    h: spec_fn(A) -> B,
    f: spec_fn(A) -> nat,
    g: spec_fn(B) -> nat,
)
    requires
        s.finite(),
        t.finite(),
        forall|a: A| #[trigger] s.contains(a) ==> t.contains(h(a)) && g(h(a)) == f(a),
        forall|b: B| #[trigger] t.contains(b) ==> exists|a: A| #[trigger] s.contains(a) && h(a) == b,
        forall|a: A, b: A| #[trigger] s.contains(a) && #[trigger] s.contains(b) && a != b ==> h(a) != h(b),
    ensures
        sum_over(s, f) == sum_over(t, g),
    decreases s.len(),
{
    if s.len() == 0 {
        assert(s =~= Set::empty());
        if t.len() > 0 {
            assert(t.contains(t.choose()));
        }
    } else {
        let a = s.choose();
        assert(s.contains(a));
        let b = h(a);
        let s1 = s.remove(a);
        let t1 = t.remove(b);
        assert forall|y: B| #[trigger] t1.contains(y) implies exists|x: A| #[trigger]
            s1.contains(x) && h(x) == y by {
            assert(t.contains(y));
            let x = choose|x: A| #[trigger] s.contains(x) && h(x) == y;
            assert(s1.contains(x));
        }
        lemma_sum_image(s1, t1, h, f, g);
        lemma_sum_remove(t, g, b);
    }
}

/// The sum along a sequence without duplicates is the sum over its elements.
pub proof fn lemma_sum_along<A>(s: Seq<A>, f: spec_fn(A) -> nat)
    requires
        s.no_duplicates(),
    ensures
        s.to_set().finite(),
        sum_along(s, f) == sum_over(s.to_set(), f),
    decreases s.len(),
{
    vstd::seq_lib::seq_to_set_is_finite(s);
    if s.len() == 0 {
        assert(s.to_set() =~= Set::empty());
    } else {
        let front = s.drop_last();
        lemma_sum_along(front, f);
        assert(s.to_set().contains(s.last())) by {
            assert(s[s.len() - 1] == s.last());
        }
        assert(s.to_set().remove(s.last()) =~= front.to_set()) by {
            assert forall|a: A| s.to_set().remove(s.last()).contains(a) == front.to_set().contains(
                a,
            ) by {
                if front.contains(a) {
                    let i = choose|i: int| 0 <= i < front.len() && front[i] == a;
                    assert(s[i] == a);
                    assert(s.contains(a));
                }
                if s.contains(a) && a != s.last() {
                    let i = choose|i: int| 0 <= i < s.len() && s[i] == a;
                    assert(front[i] == a);
                }
            }
        }
        lemma_sum_remove(s.to_set(), f, s.last());
    }
}

} // verus!
