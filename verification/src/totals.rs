//! Sums of a natural-valued function over a finite set, and the sets of what sequences hold.

use vstd::prelude::*;
use vstd::set::fold::{is_fun_commutative, lemma_fold_empty, lemma_fold_insert};

verus! {

/// The step of the fold behind [`sum_over`]: add the value of `f` at the next element.
pub open spec fn add_value<A>(f: spec_fn(A) -> nat) -> spec_fn(nat, A) -> nat {
    |acc: nat, a: A| acc + f(a)
}

/// The sum of `f(a)` over every element `a` of the finite set `s`.
pub open spec fn sum_over<A>(s: Set<A>, f: spec_fn(A) -> nat) -> nat {
    s.fold(0nat, add_value(f))
}

/// Adding values one element at a time does not depend on the order of the elements.
pub proof fn lemma_add_value_commutes<A>(f: spec_fn(A) -> nat)
    ensures
        is_fun_commutative(add_value(f)),
{
    assert forall|a1: A, a2: A, b: nat| #[trigger]
        add_value(f)(add_value(f)(b, a2), a1) == add_value(f)(add_value(f)(b, a1), a2) by {}
}

/// The sum over the empty set is zero.
pub proof fn lemma_sum_empty<A>(f: spec_fn(A) -> nat)
    ensures
        sum_over(Set::<A>::empty(), f) == 0,
{
    lemma_fold_empty(0nat, add_value(f));
}

/// A new element adds its own value to the sum.
pub proof fn lemma_sum_insert<A>(s: Set<A>, f: spec_fn(A) -> nat, a: A)
    requires
        s.finite(),
        !s.contains(a),
    ensures
        sum_over(s.insert(a), f) == sum_over(s, f) + f(a),
{
    lemma_add_value_commutes(f);
    lemma_fold_insert(s, 0nat, add_value(f), a);
}

/// Any element of a finite set can be split off from the sum.
pub proof fn lemma_sum_remove<A>(s: Set<A>, f: spec_fn(A) -> nat, a: A)
    requires
        s.finite(),
        s.contains(a),
    ensures
        sum_over(s, f) == sum_over(s.remove(a), f) + f(a),
{
    assert(s.remove(a).insert(a) =~= s);
    lemma_sum_insert(s.remove(a), f, a);
}

/// A subset sums to no more than the whole set.
pub proof fn lemma_sum_subset<A>(s: Set<A>, t: Set<A>, f: spec_fn(A) -> nat)
    requires
        t.finite(),
        s.subset_of(t),
    ensures
        sum_over(s, f) <= sum_over(t, f),
    decreases t.len(),
{
    if t.len() == 0 {
        assert(t =~= Set::<A>::empty());
        assert(s =~= Set::<A>::empty());
    } else {
        let a = t.choose();
        lemma_sum_remove(t, f, a);
        if s.contains(a) {
            vstd::set_lib::lemma_set_subset_finite(t, s);
            lemma_sum_remove(s, f, a);
            lemma_sum_subset(s.remove(a), t.remove(a), f);
        } else {
            lemma_sum_subset(s, t.remove(a), f);
        }
    }
}

/// Each element of a finite set is worth no more than the whole set.
pub proof fn lemma_sum_member<A>(s: Set<A>, f: spec_fn(A) -> nat, a: A)
    requires
        s.finite(),
        s.contains(a),
    ensures
        f(a) <= sum_over(s, f),
{
    lemma_sum_remove(s, f, a);
}

/// The sum over the first `i + 1` elements of a sequence without repetition is the sum over
/// the first `i` and the value at place `i`.
pub proof fn lemma_sum_prefix<A>(s: Seq<A>, f: spec_fn(A) -> nat, i: int)
    requires
        s.no_duplicates(),
        0 <= i < s.len(),
    ensures
        sum_over(s.take(i + 1).to_set(), f) == sum_over(s.take(i).to_set(), f) + f(s[i]),
{
    let head = s.take(i);
    vstd::seq_lib::seq_to_set_is_finite(head);
    assert(!head.to_set().contains(s[i])) by {
        if head.to_set().contains(s[i]) {
            let j = choose|j: int| 0 <= j < head.len() && head[j] == s[i];
            assert(s[j] == s[i]);
        }
    }
    s.lemma_take_succ_push(i);
    head.lemma_push_to_set_commute(s[i]);
    lemma_sum_insert(head.to_set(), f, s[i]);
}

/// A sequence with one more element put in at some place holds that element and what it held
/// before.
pub proof fn lemma_insert_to_set<A>(s: Seq<A>, k: int, a: A)
    requires
        0 <= k <= s.len(),
    ensures
        s.insert(k, a).to_set() == s.to_set().insert(a),
{
    let t = s.insert(k, a);
    s.insert_ensures(k, a);
    assert forall|x: A| t.to_set().contains(x) implies s.to_set().insert(a).contains(x) by {
        let i = choose|i: int| 0 <= i < t.len() && t[i] == x;
        if i < k {
            assert(s[i] == x);
        } else if i > k {
            assert(t[(i - 1) + 1] == s[i - 1]);
        }
    }
    assert forall|x: A| s.to_set().insert(a).contains(x) implies t.to_set().contains(x) by {
        if x == a {
            assert(t[k] == x);
        } else {
            let i = choose|i: int| 0 <= i < s.len() && s[i] == x;
            if i < k {
                assert(t[i] == x);
            } else {
                assert(t[i + 1] == x);
            }
        }
    }
    assert(t.to_set() =~= s.to_set().insert(a));
}

} // verus!
