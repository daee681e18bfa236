//! Sorting a list of names in natural order, stably.

use std::cmp::Ordering;
use vstd::prelude::*;
use crate::laws::{reversed, lemma_natural_order_is_total};
use crate::order::{natural_cmp, natural_sort_compare};
use crate::tokens::views_of;

verus! {

/// `x` placed into `t` after every element that is not greater than it,
/// scanning from the end: the step of a stable insertion sort.
pub open spec fn insert_sorted(t: Seq<Seq<char>>, x: Seq<char>) -> Seq<Seq<char>>
    decreases t.len(),
{
    if t.len() == 0 {
        seq![x]
    } else if natural_cmp(t.last(), x) == Ordering::Greater {
        insert_sorted(t.drop_last(), x).push(t.last())
    } else {
        t.push(x)
    }
}

/// The stable natural sort of a list of names.
pub open spec fn natural_sorted(s: Seq<Seq<char>>) -> Seq<Seq<char>>
    decreases s.len(),
{
    if s.len() == 0 {
        s
    } else {
        insert_sorted(natural_sorted(s.drop_last()), s.last())
    }
}

/// Each name is not greater than the one after it.
pub open spec fn is_sorted(t: Seq<Seq<char>>) -> bool {
    forall|i: int, j: int|
        0 <= i && j == i + 1 && j < t.len() ==> natural_cmp(#[trigger] t[i], #[trigger] t[j])
            != Ordering::Greater
}

proof fn lemma_insert_last(t: Seq<Seq<char>>, x: Seq<char>)
    ensures
        insert_sorted(t, x).len() == t.len() + 1,
        insert_sorted(t, x).last() == x || (t.len() > 0 && insert_sorted(t, x).last() == t.last()),
    decreases t.len(),
{
    if t.len() > 0 && natural_cmp(t.last(), x) == Ordering::Greater {
        lemma_insert_last(t.drop_last(), x);
    }
}

proof fn lemma_insert_keeps_sorted(t: Seq<Seq<char>>, x: Seq<char>)
    requires
        is_sorted(t),
    ensures
        is_sorted(insert_sorted(t, x)),
    decreases t.len(),
{
    if t.len() > 0 && natural_cmp(t.last(), x) == Ordering::Greater {
        let u = t.drop_last();
        assert(is_sorted(u)) by {
            assert forall|i: int, j: int|
                0 <= i && j == i + 1 && j < u.len() implies natural_cmp(
                #[trigger] u[i],
                #[trigger] u[j],
            ) != Ordering::Greater by {
                assert(u[i] == t[i] && u[j] == t[j]);
            }
        }
        lemma_insert_keeps_sorted(u, x);
        lemma_insert_last(u, x);
        lemma_natural_order_is_total(t.last(), x, x);
        if u.len() > 0 {
            assert(t[u.len() - 1] == u.last());
        }
        let r = insert_sorted(t, x);
        let w = insert_sorted(u, x);
        assert(r == w.push(t.last()));
        assert forall|i: int, j: int|
                0 <= i && j == i + 1 && j < r.len() implies natural_cmp(
                #[trigger] r[i],
                #[trigger] r[j],
            ) != Ordering::Greater by {
            if i < w.len() - 1 {
                assert(r[i] == w[i] && r[j] == w[j]);
            }
        }
    } else if t.len() > 0 {
        let r = t.push(x);
        assert forall|i: int, j: int|
                0 <= i && j == i + 1 && j < r.len() implies natural_cmp(
                #[trigger] r[i],
                #[trigger] r[j],
            ) != Ordering::Greater by {
            if i < t.len() - 1 {
                assert(r[i] == t[i] && r[j] == t[j]);
            }
        }
    }
}

proof fn lemma_insert_permutes(t: Seq<Seq<char>>, x: Seq<char>)
    ensures
        insert_sorted(t, x).to_multiset() == t.to_multiset().insert(x),
    decreases t.len(),
{
    broadcast use vstd::seq_lib::group_to_multiset_ensures;

    if t.len() > 0 && natural_cmp(t.last(), x) == Ordering::Greater {
        let u = t.drop_last();
        lemma_insert_permutes(u, x);
        assert(u.push(t.last()) =~= t);
        assert(insert_sorted(t, x).to_multiset() =~= t.to_multiset().insert(x));
    } else if t.len() == 0 {
        assert(seq![x] =~= Seq::<Seq<char>>::empty().push(x));
    }
}

/// The sort's result holds the same names as its input, each as often.
pub proof fn lemma_sorted_permutes(s: Seq<Seq<char>>)
    ensures
        natural_sorted(s).to_multiset() == s.to_multiset(),
    decreases s.len(),
{
    broadcast use vstd::seq_lib::group_to_multiset_ensures;

    if s.len() > 0 {
        lemma_sorted_permutes(s.drop_last());
        lemma_insert_permutes(natural_sorted(s.drop_last()), s.last());
        assert(s.drop_last().push(s.last()) =~= s);
    }
}

/// The sort's result is in order.
pub proof fn lemma_sorted_in_order(s: Seq<Seq<char>>)
    ensures
        is_sorted(natural_sorted(s)),
        natural_sorted(s).len() == s.len(),
    decreases s.len(),
{
    if s.len() > 0 {
        lemma_sorted_in_order(s.drop_last());
        lemma_insert_keeps_sorted(natural_sorted(s.drop_last()), s.last());
        lemma_insert_last(natural_sorted(s.drop_last()), s.last());
    }
}

/// A list already in order is left as it is.
pub proof fn lemma_sorted_is_fixed(t: Seq<Seq<char>>)
    requires
        is_sorted(t),
    ensures
        natural_sorted(t) == t,
    decreases t.len(),
{
    if t.len() > 0 {
        let u = t.drop_last();
        assert(is_sorted(u)) by {
            assert forall|i: int, j: int|
                0 <= i && j == i + 1 && j < u.len() implies natural_cmp(
                #[trigger] u[i],
                #[trigger] u[j],
            ) != Ordering::Greater by {
                assert(u[i] == t[i] && u[j] == t[j]);
            }
        }
        lemma_sorted_is_fixed(u);
        if u.len() > 0 {
            assert(natural_cmp(t[u.len() - 1], t[u.len() as int]) != Ordering::Greater);
        }
        assert(u.push(t.last()) =~= t);
    }
}

/// Sorting a list twice gives what sorting it once gave.
pub proof fn lemma_sort_idempotent(s: Seq<Seq<char>>)
    ensures
        natural_sorted(natural_sorted(s)) == natural_sorted(s),
{
    lemma_sorted_in_order(s);
    lemma_sorted_is_fixed(natural_sorted(s));
}

fn precedes_strictly(a: &str, b: &str) -> (r: bool)
    ensures
        r == (natural_cmp(a@, b@) == Ordering::Greater),
{
    match natural_sort_compare(a, b) {
        Ordering::Greater => true,
        _ => false,
    }
}

/// Sorts `names` in natural order; names that compare `Equal` keep their
/// relative order. The result is in order and holds the same names.
pub fn sort_names(names: &mut Vec<String>)
    ensures
        views_of(final(names)@) == natural_sorted(views_of(old(names)@)),
        is_sorted(views_of(final(names)@)),
        views_of(final(names)@).to_multiset() == views_of(old(names)@).to_multiset(),
{
    let ghost input = views_of(names@);
    let mut sorted: Vec<String> = Vec::new();
    let mut k: usize = 0;
    assert(input.take(0) =~= Seq::<Seq<char>>::empty());
    assert(views_of(sorted@) =~= Seq::<Seq<char>>::empty());
    while k < names.len()
        invariant
            k <= names@.len(),
            input == views_of(names@),
            views_of(sorted@) == natural_sorted(input.take(k as int)),
        decreases names@.len() - k,
    {
        let x = names[k].clone();
        let ghost xs = x@;
        let ghost before = views_of(sorted@);
        assert(input.take(k + 1).drop_last() =~= input.take(k as int));
        assert(input.take(k + 1).last() == xs);
        let mut p: usize = sorted.len();
        assert(before.take(before.len() as int) =~= before);
        assert(before.skip(before.len() as int) =~= Seq::<Seq<char>>::empty());
        while p > 0 && precedes_strictly(sorted[p - 1].as_str(), x.as_str())
            invariant
                p <= sorted@.len(),
                x@ == xs,
                before == views_of(sorted@),
                insert_sorted(before, xs) == insert_sorted(before.take(p as int), xs) + before.skip(
                    p as int,
                ),
            decreases p,
        {
            let ghost head = before.take(p as int);
            assert(head.last() == before[p - 1]);
            assert(head.drop_last() =~= before.take(p - 1));
            assert(insert_sorted(before.take(p - 1), xs).push(before[p - 1]) + before.skip(p as int)
                =~= insert_sorted(before.take(p - 1), xs) + before.skip(p - 1));
            p = p - 1;
        }
        proof {
            if p > 0 {
                assert(before.take(p as int).last() == before[p - 1]);
            } else {
                assert(before.take(0) =~= Seq::<Seq<char>>::empty());
            }
        }
        sorted.insert(p, x);
        assert(views_of(sorted@) =~= before.take(p as int).push(xs) + before.skip(p as int));
        k = k + 1;
    }
    assert(input.take(k as int) =~= input);
    proof {
        lemma_sorted_in_order(input);
        lemma_sorted_permutes(input);
    }
    *names = sorted;
}

} // verus!
