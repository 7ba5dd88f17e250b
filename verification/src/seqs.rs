//! Facts about filtered sequences.

use vstd::prelude::*;

verus! {

/// The test that holds where both tests hold.
pub open spec fn both<A>(p: spec_fn(A) -> bool, q: spec_fn(A) -> bool) -> spec_fn(A) -> bool {
    |x: A| p(x) && q(x)
}

/// The places of a sequence of `n` items: 0, 1, ... , `n` - 1.
pub open spec fn positions(n: nat) -> Seq<usize> {
    Seq::new(n, |i: int| i as usize)
}

/// Whether the sequence goes strictly up and stays below `bound`.
pub open spec fn ascending_below(s: Seq<usize>, bound: int) -> bool {
    &&& forall|i: int| 0 <= i < s.len() ==> (#[trigger] s[i]) < bound
    &&& forall|i: int, j: int| 0 <= i < j < s.len() ==> (#[trigger] s[i]) < (#[trigger] s[j])
}

/// Filtering twice keeps the items on which both tests hold.
pub proof fn lemma_filter_twice<A>(s: Seq<A>, p: spec_fn(A) -> bool, q: spec_fn(A) -> bool)
    ensures
        s.filter(p).filter(q) == s.filter(both(p, q)),
    decreases s.len(),
{
    reveal(Seq::filter);
    if s.len() > 0 {
        lemma_filter_twice(s.drop_last(), p, q);
        let head = s.drop_last().filter(p);
        if p(s.last()) {
            assert(head.push(s.last()).drop_last() =~= head);
        }
    }
}

/// A narrower test keeps no more items.
pub proof fn lemma_filter_narrower<A>(s: Seq<A>, p: spec_fn(A) -> bool, q: spec_fn(A) -> bool)
    requires
        forall|i: int| 0 <= i < s.len() ==> (p(#[trigger] s[i]) ==> q(s[i])),
    ensures
        s.filter(p).len() <= s.filter(q).len(),
    decreases s.len(),
{
    reveal(Seq::filter);
    if s.len() > 0 {
        assert forall|i: int| 0 <= i < s.drop_last().len() && p(
            #[trigger] s.drop_last()[i],
        ) implies q(s.drop_last()[i]) by {
            assert(s.drop_last()[i] == s[i]);
        }
        lemma_filter_narrower(s.drop_last(), p, q);
        assert(p(s[s.len() - 1]) ==> q(s[s.len() - 1]));
    }
}

/// What is kept of a sequence that goes strictly up goes strictly up.
pub proof fn lemma_filter_ascending(s: Seq<usize>, p: spec_fn(usize) -> bool, bound: int)
    requires
        ascending_below(s, bound),
    ensures
        ascending_below(s.filter(p), bound),
        forall|i: int|
            0 <= i < s.filter(p).len() ==> s.contains(#[trigger] s.filter(p)[i]) && p(
                s.filter(p)[i],
            ),
        s.len() > 0 ==> forall|i: int|
            0 <= i < s.filter(p).len() ==> (#[trigger] s.filter(p)[i]) <= s.last(),
    decreases s.len(),
{
    reveal(Seq::filter);
    if s.len() > 0 {
        let head = s.drop_last();
        assert forall|i: int| 0 <= i < head.len() implies (#[trigger] head[i]) < bound by {
            assert(head[i] == s[i]);
        }
        assert forall|i: int, j: int| 0 <= i < j < head.len() implies (#[trigger] head[i]) < (
        #[trigger] head[j]) by {
            assert(head[i] == s[i] && head[j] == s[j]);
        }
        lemma_filter_ascending(head, p, bound);
        let kept = head.filter(p);
        assert forall|i: int| 0 <= i < kept.len() implies s.contains(#[trigger] kept[i]) && kept[i]
            < s.last() by {
            assert(head.contains(kept[i]));
            let k = choose|k: int| 0 <= k < head.len() && head[k] == kept[i];
            assert(s[k] == kept[i]);
            assert(s[k] < s[s.len() - 1]);
        }
        assert(s.contains(s.last())) by {
            assert(s[s.len() - 1] == s.last());
        }
    }
}

/// The places of a sequence go strictly up and stay below its length.
pub proof fn lemma_positions_ascending(n: nat)
    requires
        n <= usize::MAX,
    ensures
        ascending_below(positions(n), n as int),
{
}

} // verus!
