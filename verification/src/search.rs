//! First-match search over a sequence, as a deterministic specification
//! for the model's linear scans.

use vstd::prelude::*;

verus! {

/// The least index of `s` satisfying `pred`, or `-1` when none does.
pub open spec fn first_idx<A>(s: Seq<A>, pred: spec_fn(A) -> bool) -> int
    decreases s.len(),
{
    if s.len() == 0 {
        -1
    } else if pred(s[0]) {
        0
    } else {
        let r = first_idx(s.subrange(1, s.len() as int), pred);
        if r < 0 {
            -1
        } else {
            r + 1
        }
    }
}

/// A position that matches, before which nothing matches, is the first
/// match.
pub proof fn lemma_first_idx_at<A>(s: Seq<A>, pred: spec_fn(A) -> bool, k: int)
    requires
        0 <= k < s.len(),
        pred(s[k]),
        forall|j: int| 0 <= j < k ==> !pred(s[j]),
    ensures
        first_idx(s, pred) == k,
    decreases k,
{
    if k == 0 {
    } else {
        let t = s.subrange(1, s.len() as int);
        assert(t[k - 1] == s[k]);
        assert forall|j: int| 0 <= j < k - 1 implies !pred(t[j]) by {
            assert(t[j] == s[j + 1]);
        }
        lemma_first_idx_at(t, pred, k - 1);
    }
}

/// When nothing matches, there is no first match.
pub proof fn lemma_first_idx_none<A>(s: Seq<A>, pred: spec_fn(A) -> bool)
    requires
        forall|j: int| 0 <= j < s.len() ==> !pred(s[j]),
    ensures
        first_idx(s, pred) == -1,
    decreases s.len(),
{
    if s.len() > 0 {
        let t = s.subrange(1, s.len() as int);
        assert forall|j: int| 0 <= j < t.len() implies !pred(t[j]) by {
            assert(t[j] == s[j + 1]);
        }
        lemma_first_idx_none(t, pred);
    }
}

/// The first match is never past the end of the sequence.
pub proof fn lemma_first_idx_bounds<A>(s: Seq<A>, pred: spec_fn(A) -> bool)
    ensures
        -1 <= first_idx(s, pred) < s.len(),
    decreases s.len(),
{
    if s.len() > 0 && !pred(s[0]) {
        lemma_first_idx_bounds(s.subrange(1, s.len() as int), pred);
    }
}

/// When something matches, the first match exists and matches.
pub proof fn lemma_first_idx_found<A>(s: Seq<A>, pred: spec_fn(A) -> bool)
    requires
        exists|k: int| 0 <= k < s.len() && pred(s[k]),
    ensures
        0 <= first_idx(s, pred) < s.len() && pred(s[first_idx(s, pred)]),
    decreases s.len(),
{
    if !pred(s[0]) {
        let t = s.subrange(1, s.len() as int);
        let k = choose|k: int| 0 <= k < s.len() && pred(s[k]);
        assert(t[k - 1] == s[k]);
        lemma_first_idx_found(t, pred);
    }
}

} // verus!
