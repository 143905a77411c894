//! Facts about lists and what is kept of them.

use vstd::prelude::*;

verus! {

/// Filtering keeps or drops the last element by itself.
pub proof fn lemma_filter_push<A>(s: Seq<A>, a: A, keep: spec_fn(A) -> bool)
    ensures
        s.push(a).filter(keep) == (if keep(a) {
            s.filter(keep).push(a)
        } else {
            s.filter(keep)
        }),
{
    reveal(Seq::filter);
    assert(s.push(a).drop_last() =~= s);
}

/// What is kept of a list comes from it and was to be kept.
pub proof fn lemma_filter_elements<A>(s: Seq<A>, keep: spec_fn(A) -> bool)
    ensures
        s.filter(keep).len() <= s.len(),
        forall|i: int|
            0 <= i < s.filter(keep).len() ==> s.contains(#[trigger] s.filter(keep)[i]) && keep(
                s.filter(keep)[i],
            ),
    decreases s.len(),
{
    let kept = s.filter(keep);
    if s.len() == 0 {
        reveal(Seq::filter);
    } else {
        let rest = s.drop_last();
        assert(s =~= rest.push(s.last()));
        lemma_filter_push(rest, s.last(), keep);
        lemma_filter_elements(rest, keep);
        let before = rest.filter(keep);
        assert forall|i: int| 0 <= i < kept.len() implies s.contains(#[trigger] kept[i]) && keep(
            kept[i],
        ) by {
            if i < before.len() {
                assert(kept[i] == before[i]);
                assert(rest.contains(before[i]));
                let j = choose|j: int| 0 <= j < rest.len() && rest[j] == before[i];
                assert(s[j] == before[i]);
            } else {
                assert(kept[i] == s[s.len() - 1]);
            }
        }
    }
}

} // verus!
