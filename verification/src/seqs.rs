//! Order-keeping selections over sequences, as the collections in this
//! crate are searched: front to back.

use vstd::prelude::*;

verus! {

/// The elements of `s` that satisfy `p`, in order.
pub open spec fn keep<T>(s: Seq<T>, p: spec_fn(T) -> bool) -> Seq<T>
    decreases s.len(),
{
    if s.len() == 0 {
        Seq::empty()
    } else {
        let prev = keep(s.drop_last(), p);
        if p(s.last()) {
            prev.push(s.last())
        } else {
            prev
        }
    }
}

/// Extending a prefix by one element extends its selection by that element
/// exactly when the element is selected.
pub proof fn lemma_keep_step<T>(s: Seq<T>, p: spec_fn(T) -> bool, i: int)
    requires
        0 <= i < s.len(),
    ensures
        keep(s.take(i + 1), p) == (if p(s[i]) {
            keep(s.take(i), p).push(s[i])
        } else {
            keep(s.take(i), p)
        }),
{
    assert(s.take(i + 1).drop_last() =~= s.take(i));
    assert(s.take(i + 1).last() == s[i]);
}

/// The whole sequence is its longest prefix.
pub proof fn lemma_take_all<T>(s: Seq<T>)
    ensures
        s.take(s.len() as int) == s,
{
    assert(s.take(s.len() as int) =~= s);
}

/// A selection is no longer than what it selects from.
pub proof fn lemma_keep_len<T>(s: Seq<T>, p: spec_fn(T) -> bool)
    ensures
        keep(s, p).len() <= s.len(),
    decreases s.len(),
{
    if s.len() > 0 {
        lemma_keep_len(s.drop_last(), p);
    }
}

/// Everything selected satisfies the predicate and comes from the sequence.
pub proof fn lemma_keep_members<T>(s: Seq<T>, p: spec_fn(T) -> bool, k: int)
    requires
        0 <= k < keep(s, p).len(),
    ensures
        p(keep(s, p)[k]),
        s.contains(keep(s, p)[k]),
    decreases s.len(),
{
    if s.len() > 0 {
        let prev = keep(s.drop_last(), p);
        if k < prev.len() {
            lemma_keep_members(s.drop_last(), p, k);
            let j = choose|j: int| 0 <= j < s.drop_last().len() && s.drop_last()[j] == prev[k];
            assert(s[j] == keep(s, p)[k]);
        } else {
            assert(s[s.len() - 1] == keep(s, p)[k]);
        }
    }
}

} // verus!

verus! {

/// The position of the first element of `s` that satisfies `p`, or -1.
pub open spec fn first_index<T>(s: Seq<T>, p: spec_fn(T) -> bool) -> int
    decreases s.len(),
{
    if s.len() == 0 {
        -1
    } else {
        let k = first_index(s.drop_last(), p);
        if k >= 0 {
            k
        } else if p(s.last()) {
            s.len() - 1
        } else {
            -1
        }
    }
}

/// What `first_index` names: an element that satisfies `p` with none before
/// it, or -1 when no element does.
pub proof fn lemma_first_index<T>(s: Seq<T>, p: spec_fn(T) -> bool)
    ensures
        -1 <= first_index(s, p) < s.len(),
        first_index(s, p) >= 0 ==> p(s[first_index(s, p)]),
        forall|j: int| 0 <= j < s.len() && (first_index(s, p) < 0 || j < first_index(s, p)) ==> !p(s[j]),
    decreases s.len(),
{
    if s.len() > 0 {
        lemma_first_index(s.drop_last(), p);
        assert forall|j: int| 0 <= j < s.len() - 1 implies s.drop_last()[j] == s[j] by {}
    }
}

/// A position that satisfies `p` with none before it is the first index.
pub proof fn lemma_first_index_is<T>(s: Seq<T>, p: spec_fn(T) -> bool, i: int)
    requires
        0 <= i < s.len(),
        p(s[i]),
        forall|j: int| 0 <= j < i ==> !p(s[j]),
    ensures
        first_index(s, p) == i,
{
    lemma_first_index(s, p);
}

/// With no element satisfying `p`, the first index is -1.
pub proof fn lemma_first_index_none<T>(s: Seq<T>, p: spec_fn(T) -> bool)
    requires
        forall|j: int| 0 <= j < s.len() ==> !p(s[j]),
    ensures
        first_index(s, p) == -1,
{
    lemma_first_index(s, p);
}

} // verus!
