//! First-match search in a sequence, the backbone of the name- and
//! identifier-keyed tables of the registry.

use vstd::prelude::*;

verus! {

/// The first index whose element satisfies `p`, or the length when none
/// does.
pub open spec fn first_where<T>(s: Seq<T>, p: spec_fn(T) -> bool) -> int
    decreases s.len(),
{
    if s.len() == 0 {
        0
    } else if p(s[0]) {
        0
    } else {
        1 + first_where(s.skip(1), p)
    }
}

pub proof fn lemma_first_where<T>(s: Seq<T>, p: spec_fn(T) -> bool)
    ensures
        0 <= first_where(s, p) <= s.len(),
        first_where(s, p) < s.len() ==> p(s[first_where(s, p)]),
        forall|j: int| 0 <= j < first_where(s, p) ==> !p(s[j]),
    decreases s.len(),
{
    if s.len() > 0 && !p(s[0]) {
        lemma_first_where(s.skip(1), p);
        assert(forall|j: int| 0 <= j < first_where(s, p) ==> !p(s[j])) by {
            assert(forall|j: int|
                1 <= j < first_where(s, p) ==> s[j] == s.skip(1)[j - 1] && !p(s.skip(1)[j - 1]));
        }
    }
}

/// Pins the first match down: an index that satisfies `p` while all before
/// it do not is the first match.
pub proof fn lemma_first_where_is<T>(s: Seq<T>, p: spec_fn(T) -> bool, i: int)
    requires
        0 <= i < s.len(),
        p(s[i]),
        forall|j: int| 0 <= j < i ==> !p(s[j]),
    ensures
        first_where(s, p) == i,
{
    lemma_first_where(s, p);
}

/// When no element satisfies `p`, the first match is the length.
pub proof fn lemma_first_where_none<T>(s: Seq<T>, p: spec_fn(T) -> bool)
    requires
        forall|j: int| 0 <= j < s.len() ==> !p(s[j]),
    ensures
        first_where(s, p) == s.len(),
{
    lemma_first_where(s, p);
}

} // verus!
