use vstd::prelude::*;

verus! {

/// Filtering a prefix one element longer adds that element when it passes.
pub proof fn lemma_filter_prefix_step<A>(s: Seq<A>, i: int, pred: spec_fn(A) -> bool)
    requires
        0 <= i < s.len(),
    ensures
        s.subrange(0, i + 1).filter(pred) == (if pred(s[i]) {
            s.subrange(0, i).filter(pred).push(s[i])
        } else {
            s.subrange(0, i).filter(pred)
        }),
{
    reveal(Seq::filter);
    assert(s.subrange(0, i + 1).drop_last() =~= s.subrange(0, i));
}

/// What a filter keeps comes from the filtered sequence.
pub proof fn lemma_filter_member<A>(s: Seq<A>, pred: spec_fn(A) -> bool, i: int) -> (k: int)
    requires
        0 <= i < s.filter(pred).len(),
    ensures
        0 <= k < s.len(),
        s[k] == s.filter(pred)[i],
        pred(s[k]),
{
    broadcast use vstd::seq_lib::group_filter_ensures;

    let f = s.filter(pred);
    assert(f.contains(f[i]));
    s.lemma_filter_contains_rev(pred, f[i]);
    choose|k: int| 0 <= k < s.len() && s[k] == f[i]
}

} // verus!
