//! Facts about sequences that the library's proofs share.
use vstd::prelude::*;

verus! {

/// Each element of a mapped and flattened sequence is an element of what one
/// element of the sequence is mapped to.
pub proof fn lemma_flat_map_index<A, B>(s: Seq<A>, f: spec_fn(A) -> Seq<B>, i: int) -> (at: (
    int,
    int,
))
    requires
        0 <= i < s.flat_map(f).len(),
    ensures
        0 <= at.0 < s.len(),
        0 <= at.1 < f(s[at.0]).len(),
        s.flat_map(f)[i] == f(s[at.0])[at.1],
    decreases s.len(),
{
    if s.len() == 0 {
        assert(s.flat_map(f) =~= Seq::<B>::empty());
        (0, 0)
    } else {
        let front = s.drop_last();
        assert(s == front.push(s.last()));
        front.lemma_flat_map_push(f, s.last());
        if i < front.flat_map(f).len() {
            lemma_flat_map_index(front, f, i)
        } else {
            (s.len() - 1, i - front.flat_map(f).len())
        }
    }
}

/// Each element of what one element of a sequence is mapped to is an element
/// of the mapped and flattened sequence.
pub proof fn lemma_flat_map_holds<A, B>(
    s: Seq<A>,
    f: spec_fn(A) -> Seq<B>,
    k: int,
    j: int,
) -> (i: int)
    requires
        0 <= k < s.len(),
        0 <= j < f(s[k]).len(),
    ensures
        0 <= i < s.flat_map(f).len(),
        s.flat_map(f)[i] == f(s[k])[j],
    decreases s.len(),
{
    let front = s.drop_last();
    assert(s == front.push(s.last()));
    front.lemma_flat_map_push(f, s.last());
    if k < s.len() - 1 {
        lemma_flat_map_holds(front, f, k, j)
    } else {
        front.flat_map(f).len() + j
    }
}

} // verus!
