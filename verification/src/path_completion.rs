//! Completing a file name from the names found in its directory.

use vstd::prelude::*;
use vstd::string::StrSliceExecFns;
use crate::template::texts;
use crate::template::Text;

verus! {

/// The position of the first of `names` that starts with `prefix`.
pub open spec fn first_with_prefix(names: Seq<Text>, prefix: Text) -> Option<int>
    decreases names.len(),
{
    if names.len() == 0 {
        None
    } else {
        match first_with_prefix(names.drop_last(), prefix) {
            Some(i) => Some(i),
            None => if prefix.is_prefix_of(names.last()) {
                Some(names.len() - 1)
            } else {
                None
            },
        }
    }
}

/// `first_with_prefix` finds the first name with the prefix and misses none.
pub proof fn law_first_with_prefix(names: Seq<Text>, prefix: Text)
    ensures
        match first_with_prefix(names, prefix) {
            Some(i) => 0 <= i < names.len() && prefix.is_prefix_of(names[i]) && forall|j: int|
                0 <= j < i ==> !prefix.is_prefix_of(#[trigger] names[j]),
            None => forall|j: int| 0 <= j < names.len() ==> !prefix.is_prefix_of(#[trigger] names[j]),
        },
    decreases names.len(),
{
    if names.len() > 0 {
        let front = names.drop_last();
        law_first_with_prefix(front, prefix);
        assert(forall|j: int| 0 <= j < front.len() ==> front[j] == names[j]);
        match first_with_prefix(front, prefix) {
            Some(i) => {
                assert(front[i] == names[i]);
            },
            None => {},
        }
    }
}

/// Whether `text` starts with `prefix`.
pub fn starts_with(text: &str, prefix: &str) -> (b: bool)
    ensures
        b == prefix@.is_prefix_of(text@),
{
    let n = prefix.unicode_len();
    if n > text.unicode_len() {
        return false;
    }
    let mut i: usize = 0;
    while i < n
        invariant
            i <= n,
            n == prefix@.len(),
            n <= text@.len(),
            forall|j: int| 0 <= j < i ==> prefix@[j] == text@[j],
        decreases n - i,
    {
        if prefix.get_char(i) != text.get_char(i) {
            assert(text@.subrange(0, n as int)[i as int] != prefix@[i as int]);
            return false;
        }
        i += 1;
    }
    assert(text@.subrange(0, n as int) =~= prefix@);
    true
}

/// Completes file names from a directory listing.
#[derive(Clone, Copy, Debug, PartialEq, Eq, Structural)]
pub struct PathCompletion;

impl PathCompletion {
    /// The first of `entries`, the names found in a directory, that starts
    /// with `name`.
    pub fn get(&self, name: &str, entries: &Vec<String>) -> (r: Option<String>)
        ensures
            match first_with_prefix(texts(entries@), name@) {
                Some(i) => r matches Some(s) && s@ == entries[i]@,
                None => r is None,
            },
    {
        let ghost names = texts(entries@);
        let mut i: usize = 0;
        assert(names.take(0) =~= Seq::<Text>::empty());
        while i < entries.len()
            invariant
                i <= entries.len(),
                names == texts(entries@),
                first_with_prefix(names.take(i as int), name@) is None,
            decreases entries.len() - i,
        {
            let ghost next = names.take(i as int + 1);
            assert(next.drop_last() =~= names.take(i as int));
            assert(next.last() == entries[i as int]@);
            if starts_with(entries[i].as_str(), name) {
                proof {
                    lemma_found(names, name@, i as int + 1);
                }
                return Some(entries[i].clone());
            }
            i += 1;
        }
        assert(names.take(entries.len() as int) =~= names);
        None
    }
}

/// What is found among the first `k` names is what is found among all.
proof fn lemma_found(names: Seq<Text>, prefix: Text, k: int)
    requires
        0 <= k <= names.len(),
        first_with_prefix(names.take(k), prefix) is Some,
    ensures
        first_with_prefix(names, prefix) == first_with_prefix(names.take(k), prefix),
    decreases names.len() - k,
{
    if k == names.len() {
        assert(names.take(k) =~= names);
    } else {
        assert(names.take(k + 1).drop_last() =~= names.take(k));
        lemma_found(names, prefix, k + 1);
    }
}

} // verus!
