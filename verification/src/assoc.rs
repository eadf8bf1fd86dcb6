//! Name-keyed association sequences: the mathematical model shared by the
//! property collections and the virtual archive.
use vstd::prelude::*;

verus! {

/// Index of the first entry with the given key, or -1.
pub open spec fn spec_index_of<T>(s: Seq<(Seq<char>, T)>, k: Seq<char>) -> int
    decreases s.len(),
{
    if s.len() == 0 {
        -1
    } else if s[0].0 == k {
        0
    } else {
        let r = spec_index_of(s.skip(1), k);
        if r < 0 {
            -1
        } else {
            r + 1
        }
    }
}

/// Whether an entry with the given key exists.
pub open spec fn spec_has_key<T>(s: Seq<(Seq<char>, T)>, k: Seq<char>) -> bool {
    spec_index_of(s, k) >= 0
}

/// The first value stored under the given key.
pub open spec fn spec_lookup<T>(s: Seq<(Seq<char>, T)>, k: Seq<char>) -> Option<T> {
    if spec_has_key(s, k) {
        Some(s[spec_index_of(s, k)].1)
    } else {
        None
    }
}

/// Keys are pairwise distinct.
pub open spec fn unique_keys<T>(s: Seq<(Seq<char>, T)>) -> bool {
    forall|i: int, j: int| 0 <= i < j < s.len() ==> (#[trigger] s[i].0) != (#[trigger] s[j].0)
}

pub proof fn lemma_index_of_in_range<T>(s: Seq<(Seq<char>, T)>, k: Seq<char>)
    ensures
        spec_has_key(s, k) ==> 0 <= spec_index_of(s, k) < s.len() && s[spec_index_of(s, k)].0 == k,
        !spec_has_key(s, k) ==> spec_index_of(s, k) == -1,
    decreases s.len(),
{
    if s.len() > 0 && s[0].0 != k {
        lemma_index_of_in_range(s.skip(1), k);
    }
}

/// The first matching index is the first position whose key matches.
pub proof fn lemma_index_of_first<T>(s: Seq<(Seq<char>, T)>, k: Seq<char>, i: int)
    requires
        0 <= i < s.len(),
        s[i].0 == k,
        forall|j: int| 0 <= j < i ==> (#[trigger] s[j].0) != k,
    ensures
        spec_index_of(s, k) == i,
    decreases i,
{
    if i > 0 {
        assert(s.skip(1)[i - 1] == s[i]);
        assert(forall|j: int| 0 <= j < i - 1 ==> (#[trigger] s.skip(1)[j].0) == s[j + 1].0);
        lemma_index_of_first(s.skip(1), k, i - 1);
    }
}

/// If no position matches, no entry is found.
pub proof fn lemma_index_of_none<T>(s: Seq<(Seq<char>, T)>, k: Seq<char>)
    requires
        forall|j: int| 0 <= j < s.len() ==> (#[trigger] s[j].0) != k,
    ensures
        spec_index_of(s, k) == -1,
    decreases s.len(),
{
    if s.len() > 0 {
        assert(forall|j: int| 0 <= j < s.len() - 1 ==> (#[trigger] s.skip(1)[j].0) == s[j + 1].0);
        lemma_index_of_none(s.skip(1), k);
    }
}

/// Nothing before the first match matches.
pub proof fn lemma_index_of_prefix<T>(s: Seq<(Seq<char>, T)>, k: Seq<char>)
    ensures
        forall|j: int| 0 <= j < spec_index_of(s, k) ==> (#[trigger] s[j].0) != k,
    decreases s.len(),
{
    lemma_index_of_in_range(s, k);
    if s.len() > 0 && s[0].0 != k {
        lemma_index_of_prefix(s.skip(1), k);
        lemma_index_of_in_range(s.skip(1), k);
        assert forall|j: int| 0 <= j < spec_index_of(s, k) implies (#[trigger] s[j].0) != k by {
            if j > 0 {
                assert(0 <= j - 1 < spec_index_of(s.skip(1), k));
                assert(s.skip(1)[j - 1] == s[j]);
            }
        }
    }
}

/// A present key has a nonnegative first index.
pub proof fn lemma_index_of_has<T>(s: Seq<(Seq<char>, T)>, k: Seq<char>, j: int)
    requires
        0 <= j < s.len(),
        s[j].0 == k,
    ensures
        spec_has_key(s, k),
    decreases j,
{
    if s[0].0 != k {
        assert(s.skip(1)[j - 1] == s[j]);
        lemma_index_of_has(s.skip(1), k, j - 1);
    }
}

/// Appending a fresh key preserves key uniqueness.
pub proof fn lemma_push_fresh_preserves_unique<T>(s: Seq<(Seq<char>, T)>, k: Seq<char>, p: T)
    requires
        unique_keys(s),
        !spec_has_key(s, k),
    ensures
        unique_keys(s.push((k, p))),
{
    let post = s.push((k, p));
    assert forall|a: int, b: int| 0 <= a < b < post.len() implies (#[trigger] post[a].0) != (
    #[trigger] post[b].0) by {
        if b == s.len() {
            if s[a].0 == k {
                lemma_index_of_has(s, k, a);
            }
        }
    }
}

/// Replacing an entry in place, key unchanged, preserves key uniqueness.
pub proof fn lemma_update_value_preserves_unique<T>(s: Seq<(Seq<char>, T)>, i: int, e: (Seq<char>, T))
    requires
        unique_keys(s),
        0 <= i < s.len(),
        e.0 == s[i].0,
    ensures
        unique_keys(s.update(i, e)),
{
    let post = s.update(i, e);
    assert(forall|a: int| 0 <= a < post.len() ==> (#[trigger] post[a].0) == s[a].0);
}

/// Removing an entry preserves key uniqueness.
pub proof fn lemma_remove_preserves_unique<T>(s: Seq<(Seq<char>, T)>, i: int)
    requires
        unique_keys(s),
        0 <= i < s.len(),
    ensures
        unique_keys(s.remove(i)),
{
    let post = s.remove(i);
    assert(forall|a: int|
        0 <= a < post.len() ==> (#[trigger] post[a]) == if a < i {
            s[a]
        } else {
            s[a + 1]
        });
}

} // verus!
