//! What filters do to sequences.

use vstd::prelude::*;

verus! {

/// Appending an item to a sequence appends it to what a filter leaves, if it
/// passes.
pub proof fn lemma_filter_push<A>(s: Seq<A>, a: A, pred: spec_fn(A) -> bool)
    ensures
        s.push(a).filter(pred) == if pred(a) {
            s.filter(pred).push(a)
        } else {
            s.filter(pred)
        },
{
    reveal(Seq::filter);
    assert(s.push(a).drop_last() =~= s);
}

/// Filtering twice is filtering by both.
pub proof fn lemma_filter_twice<A>(
    s: Seq<A>,
    first: spec_fn(A) -> bool,
    second: spec_fn(A) -> bool,
    both: spec_fn(A) -> bool,
)
    requires
        forall|i: int|
            0 <= i < s.len() ==> both(#[trigger] s[i]) == (first(s[i]) && second(s[i])),
    ensures
        s.filter(first).filter(second) == s.filter(both),
    decreases s.len(),
{
    if s.len() > 0 {
        let init = s.drop_last();
        assert(forall|i: int| 0 <= i < init.len() ==> #[trigger] init[i] == s[i]);
        lemma_filter_twice(init, first, second, both);
        assert(s =~= init.push(s.last()));
        assert(both(s[s.len() - 1]) == (first(s[s.len() - 1]) && second(s[s.len() - 1])));
        lemma_filter_push(init, s.last(), first);
        lemma_filter_push(init, s.last(), both);
        lemma_filter_push(init.filter(first), s.last(), second);
    } else {
        reveal(Seq::filter);
        assert(s.filter(first) =~= s);
        assert(s.filter(first).filter(second) =~= s.filter(both));
    }
}

/// What a filter leaves are the items that pass, and all of them.
pub proof fn lemma_filter_members<A>(s: Seq<A>, pred: spec_fn(A) -> bool)
    ensures
        forall|i: int|
            0 <= i < s.filter(pred).len() ==> s.contains(#[trigger] s.filter(pred)[i]) && pred(
                s.filter(pred)[i],
            ),
        forall|i: int|
            0 <= i < s.len() && pred(#[trigger] s[i]) ==> s.filter(pred).contains(s[i]),
    decreases s.len(),
{
    reveal(Seq::filter);
    if s.len() > 0 {
        let init = s.drop_last();
        lemma_filter_members(init, pred);
        lemma_filter_push(init, s.last(), pred);
        assert(s =~= init.push(s.last()));
        let kept = init.filter(pred);
        let out = s.filter(pred);
        assert forall|i: int| 0 <= i < out.len() implies s.contains(#[trigger] out[i]) && pred(
            out[i],
        ) by {
            if i < kept.len() {
                assert(out[i] == kept[i]);
                let k = choose|k: int| 0 <= k < init.len() && init[k] == kept[i];
                assert(s[k] == out[i]);
            } else {
                assert(s[s.len() - 1] == out[i]);
            }
        }
        assert forall|i: int| 0 <= i < s.len() && pred(#[trigger] s[i]) implies out.contains(
            s[i],
        ) by {
            if i < init.len() {
                assert(init[i] == s[i]);
                let k = choose|k: int| 0 <= k < kept.len() && kept[k] == s[i];
                assert(out[k] == s[i]);
            } else {
                assert(out[out.len() - 1] == s[i]);
            }
        }
    }
}

} // verus!
