//! Facts about filtered sequences.

use vstd::prelude::*;

verus! {

/// Filtering a sequence whose every element satisfies `keep` changes nothing.
pub proof fn filter_keeps_all<A>(s: Seq<A>, keep: spec_fn(A) -> bool)
    requires
        forall|i: int| 0 <= i < s.len() ==> keep(#[trigger] s[i]),
    ensures
        s.filter(keep) == s,
    decreases s.len(),
{
    reveal(Seq::filter);
    if s.len() > 0 {
        assert forall|i: int| 0 <= i < s.drop_last().len() implies keep(
            #[trigger] s.drop_last()[i],
        ) by {
            assert(s.drop_last()[i] == s[i]);
        }
        filter_keeps_all(s.drop_last(), keep);
        assert(s.filter(keep) =~= s.drop_last().push(s.last()));
    }
}

/// An element is in the filtered sequence if and only if it is in the sequence and satisfies
/// `keep`.
pub proof fn filter_membership<A>(s: Seq<A>, keep: spec_fn(A) -> bool, x: A)
    ensures
        s.filter(keep).contains(x) <==> s.contains(x) && keep(x),
{
    if s.filter(keep).contains(x) {
        s.lemma_filter_contains_rev(keep, x);
        let i = choose|i: int| 0 <= i < s.filter(keep).len() && s.filter(keep)[i] == x;
        s.lemma_filter_pred(keep, i);
    }
    if s.contains(x) && keep(x) {
        let i = choose|i: int| 0 <= i < s.len() && s[i] == x;
        s.lemma_filter_contains(keep, i);
    }
}

/// Filtering keeps elements distinct.
pub proof fn filter_keeps_distinct<A>(s: Seq<A>, keep: spec_fn(A) -> bool)
    requires
        s.no_duplicates(),
    ensures
        s.filter(keep).no_duplicates(),
    decreases s.len(),
{
    reveal(Seq::filter);
    if s.len() > 0 {
        let rest = s.drop_last();
        filter_keeps_distinct(rest, keep);
        if keep(s.last()) {
            let out = rest.filter(keep);
            assert(!out.contains(s.last())) by {
                filter_membership(rest, keep, s.last());
            }
            assert(s.filter(keep) == out.push(s.last()));
        }
    }
}

/// `s` without the occurrences of `x`.
pub open spec fn without<A>(s: Seq<A>, x: A) -> Seq<A> {
    s.filter(|y: A| y != x)
}

/// What is left of `s` without `x`: everything else, and distinct elements stay distinct.
pub proof fn without_membership<A>(s: Seq<A>, x: A)
    ensures
        forall|y: A| #[trigger] without(s, x).contains(y) <==> s.contains(y) && y != x,
        s.no_duplicates() ==> without(s, x).no_duplicates(),
{
    let keep = |y: A| y != x;
    assert forall|y: A| #[trigger] without(s, x).contains(y) <==> s.contains(y) && y != x by {
        filter_membership(s, keep, y);
    }
    if s.no_duplicates() {
        filter_keeps_distinct(s, keep);
    }
}

/// Removing an element that is not there changes nothing.
pub proof fn without_absent<A>(s: Seq<A>, x: A)
    requires
        !s.contains(x),
    ensures
        without(s, x) == s,
{
    let keep = |y: A| y != x;
    assert forall|i: int| 0 <= i < s.len() implies keep(#[trigger] s[i]) by {
        assert(s.contains(s[i]));
    }
    filter_keeps_all(s, keep);
}

/// Removing an element from nothing leaves nothing.
pub proof fn without_of_empty<A>(x: A)
    ensures
        without(Seq::<A>::empty(), x) == Seq::<A>::empty(),
{
    without_absent(Seq::<A>::empty(), x);
}

/// Removing an element twice is the same as once.
pub proof fn without_twice<A>(s: Seq<A>, x: A)
    ensures
        without(without(s, x), x) == without(s, x),
{
    without_membership(s, x);
    without_absent(without(s, x), x);
}

/// Removing an element after appending one.
pub proof fn without_push<A>(s: Seq<A>, last: A, x: A)
    ensures
        without(s.push(last), x) == (if last == x {
            without(s, x)
        } else {
            without(s, x).push(last)
        }),
{
    s.lemma_filter_push(last, |y: A| y != x);
}

/// Removing an element of a list without repetitions closes the gap and keeps the order of the
/// rest.
pub proof fn without_at<A>(s: Seq<A>, k: int)
    requires
        s.no_duplicates(),
        0 <= k < s.len(),
    ensures
        without(s, s[k]) == s.take(k) + s.skip(k + 1),
{
    let x = s[k];
    let low = s.take(k);
    let high = s.skip(k + 1);
    let keep = |y: A| y != x;
    assert(!low.contains(x)) by {
        if low.contains(x) {
            let i = choose|i: int| 0 <= i < low.len() && low[i] == x;
            assert(s[i] == s[k]);
        }
    }
    assert(!high.contains(x)) by {
        if high.contains(x) {
            let i = choose|i: int| 0 <= i < high.len() && high[i] == x;
            assert(s[k + 1 + i] == s[k]);
        }
    }
    without_absent(low, x);
    without_absent(high, x);
    without_push(low, x, x);
    assert(s =~= low.push(x) + high);
    Seq::filter_distributes_over_add(low.push(x), high, keep);
}

} // verus!
