//! Sequences without repetitions, and facts about filtered sequences.

use vstd::prelude::*;

verus! {

/// Filtering one more element of a sequence appends it or leaves it out.
pub proof fn lemma_filter_step<A>(s: Seq<A>, i: int, p: spec_fn(A) -> bool)
    requires
        0 <= i < s.len(),
    ensures
        s.take(i + 1).filter(p) == if p(s[i]) {
            s.take(i).filter(p).push(s[i])
        } else {
            s.take(i).filter(p)
        },
{
    reveal(Seq::filter);
    assert(s.take(i + 1).drop_last() =~= s.take(i));
}

/// A filtered sequence holds exactly the elements that pass.
pub proof fn lemma_filter_contains<A>(s: Seq<A>, p: spec_fn(A) -> bool, x: A)
    ensures
        s.filter(p).contains(x) <==> s.contains(x) && p(x),
    decreases s.len(),
{
    reveal(Seq::filter);
    if s.len() > 0 {
        let t = s.drop_last();
        let last = s.last();
        lemma_filter_contains(t, p, x);
        assert(s =~= t.push(last));
        assert(s.contains(x) <==> t.contains(x) || x == last) by {
            if t.contains(x) {
                let i = choose|i: int| 0 <= i < t.len() && t[i] == x;
                assert(s[i] == x);
            }
            if x == last {
                assert(s[s.len() - 1] == x);
            }
        }
        if p(last) {
            let f = t.filter(p);
            assert(s.filter(p) == f.push(last));
            if f.contains(x) {
                let i = choose|i: int| 0 <= i < f.len() && f[i] == x;
                assert(f.push(last)[i] == x);
            }
            if x == last {
                assert(f.push(last)[f.len() as int] == x);
            }
        }
    }
}

/// Taking one more element adds that element and nothing else.
pub proof fn lemma_take_contains<A>(s: Seq<A>, i: int)
    requires
        0 <= i < s.len(),
    ensures
        forall|x: A| #[trigger]
            s.take(i + 1).contains(x) <==> s.take(i).contains(x) || x == s[i],
{
    let (seen, next) = (s.take(i), s.take(i + 1));
    assert forall|x: A| #[trigger] next.contains(x) <==> seen.contains(x) || x == s[i] by {
        if seen.contains(x) {
            let j = choose|j: int| 0 <= j < seen.len() && seen[j] == x;
            assert(next[j] == x);
        }
        if next.contains(x) && x != s[i] {
            let j = choose|j: int| 0 <= j < next.len() && next[j] == x;
            assert(seen[j] == x);
        }
        assert(next[i] == s[i]);
    }
}

/// The elements of `s` in order, each at its first occurrence only.
pub open spec fn distinct<A>(s: Seq<A>) -> Seq<A>
    decreases s.len(),
{
    if s.len() == 0 {
        Seq::empty()
    } else {
        let before = distinct(s.drop_last());
        if before.contains(s.last()) {
            before
        } else {
            before.push(s.last())
        }
    }
}

/// Distinct elements of a sequence with one more element at the end.
pub proof fn lemma_distinct_push<A>(s: Seq<A>, x: A)
    ensures
        distinct(s.push(x)) == if distinct(s).contains(x) {
            distinct(s)
        } else {
            distinct(s).push(x)
        },
{
    assert(s.push(x).drop_last() =~= s);
}

/// The distinct elements are the elements, without repetitions.
pub proof fn lemma_distinct<A>(s: Seq<A>)
    ensures
        distinct(s).no_duplicates(),
        forall|x: A| #[trigger] distinct(s).contains(x) <==> s.contains(x),
    decreases s.len(),
{
    if s.len() > 0 {
        let t = s.drop_last();
        let last = s.last();
        let before = distinct(t);
        lemma_distinct(t);
        assert forall|x: A| #[trigger] distinct(s).contains(x) <==> s.contains(x) by {
            if before.contains(x) {
                let i = choose|i: int| 0 <= i < before.len() && before[i] == x;
                assert(before.push(last)[i] == x);
                let j = choose|j: int| 0 <= j < t.len() && t[j] == x;
                assert(s[j] == x);
            }
            if x == last {
                assert(s[s.len() - 1] == x);
                assert(before.push(last)[before.len() as int] == x);
            }
            if s.contains(x) && x != last {
                let j = choose|j: int| 0 <= j < s.len() && s[j] == x;
                assert(t[j] == x);
            }
        }
    }
}

/// Repetitions are dropped in place: the distinct elements of a beginning of a
/// sequence are a beginning of its distinct elements, and an element that is new
/// follows them.
pub proof fn law_distinct_keeps_the_order<A>(s: Seq<A>, x: A)
    ensures
        s.contains(x) ==> distinct(s.push(x)) == distinct(s),
        !s.contains(x) ==> distinct(s.push(x)) == distinct(s).push(x),
        distinct(Seq::<A>::empty()).len() == 0,
{
    lemma_distinct_push(s, x);
    lemma_distinct(s);
}

/// Filtering keeps the order: of two elements that pass, the earlier one stands
/// earlier in the sequence.
pub proof fn lemma_filter_keeps_order<A>(s: Seq<A>, p: spec_fn(A) -> bool, i: int, j: int)
    requires
        0 <= i < j < s.filter(p).len(),
    ensures
        exists|a: int, b: int|
            0 <= a < b < s.len() && #[trigger] s[a] == s.filter(p)[i] && #[trigger] s[b] == s.filter(
                p,
            )[j],
    decreases s.len(),
{
    reveal(Seq::filter);
    let t = s.drop_last();
    let f = t.filter(p);
    if j < f.len() {
        lemma_filter_keeps_order(t, p, i, j);
        let (a, b) = choose|a: int, b: int|
            0 <= a < b < t.len() && #[trigger] t[a] == f[i] && #[trigger] t[b] == f[j];
        assert(s[a] == t[a] && s[b] == t[b]);
    } else {
        assert(s.filter(p) == f.push(s.last()));
        assert(f.contains(f[i]));
        lemma_filter_contains(t, p, f[i]);
        let a = choose|a: int| 0 <= a < t.len() && t[a] == f[i];
        assert(s[a] == f[i] && s[s.len() - 1] == s.last());
    }
}

} // verus!
