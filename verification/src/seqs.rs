//! Small facts about sequences that the rest of the crate leans on.

use vstd::prelude::*;

verus! {

/// The least index at which `x` occurs in `s`, if it occurs at all.
pub open spec fn first_index<A>(s: Seq<A>, x: A) -> Option<int>
    decreases s.len(),
{
    if s.len() == 0 {
        None
    } else {
        match first_index(s.drop_last(), x) {
            Some(i) => Some(i),
            None => if s.last() == x {
                Some(s.len() - 1)
            } else {
                None
            },
        }
    }
}

/// `first_index` finds the least occurrence and misses only what is absent.
pub proof fn lemma_first_index<A>(s: Seq<A>, x: A)
    ensures
        match first_index(s, x) {
            Some(i) => 0 <= i < s.len() && s[i] == x && forall|j: int| 0 <= j < i ==> s[j] != x,
            None => forall|j: int| 0 <= j < s.len() ==> s[j] != x,
        },
    decreases s.len(),
{
    if s.len() > 0 {
        let t = s.drop_last();
        lemma_first_index(t, x);
        assert(forall|j: int| 0 <= j < t.len() ==> t[j] == s[j]);
        match first_index(t, x) {
            Some(i) => {
                assert(t[i] == s[i]);
            },
            None => {},
        }
    }
}

/// An index that holds `x` with no earlier occurrence is the first index.
pub proof fn lemma_first_index_is<A>(s: Seq<A>, x: A, i: int)
    requires
        0 <= i < s.len(),
        s[i] == x,
        forall|j: int| 0 <= j < i ==> s[j] != x,
    ensures
        first_index(s, x) == Some(i),
{
    lemma_first_index(s, x);
}

/// A value found nowhere in `s` has no first index.
pub proof fn lemma_first_index_none<A>(s: Seq<A>, x: A)
    requires
        forall|j: int| 0 <= j < s.len() ==> s[j] != x,
    ensures
        first_index(s, x) == None::<int>,
{
    lemma_first_index(s, x);
}

} // verus!
