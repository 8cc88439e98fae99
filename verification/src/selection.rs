//! Choosing the best of several candidates.

use vstd::prelude::*;

verus! {

/// Whether the first key comes before the second: by its first part, then by
/// its second.
pub open spec fn key_before(a: (int, int), b: (int, int)) -> bool {
    a.0 < b.0 || (a.0 == b.0 && a.1 < b.1)
}

/// The index of the least key; of several, the first.
pub open spec fn first_least(keys: Seq<(int, int)>) -> int
    decreases keys.len(),
{
    if keys.len() <= 1 {
        0
    } else {
        let i = first_least(keys.drop_last());
        if key_before(keys.last(), keys[i]) {
            keys.len() - 1
        } else {
            i
        }
    }
}

/// `first_least` is what its name says.
pub proof fn lemma_first_least(keys: Seq<(int, int)>)
    requires
        keys.len() > 0,
    ensures
        0 <= first_least(keys) < keys.len(),
        forall|j: int|
            0 <= j < keys.len() ==> !key_before(#[trigger] keys[j], keys[first_least(keys)]),
        forall|j: int|
            0 <= j < first_least(keys) ==> key_before(keys[first_least(keys)], #[trigger] keys[j]),
    decreases keys.len(),
{
    if keys.len() > 1 {
        let init = keys.drop_last();
        lemma_first_least(init);
        let i = first_least(init);
        let k = first_least(keys);
        assert forall|j: int| 0 <= j < keys.len() implies !key_before(#[trigger] keys[j], keys[k]) by {
            if j < init.len() {
                assert(!key_before(init[j], init[i]));
            }
        }
        assert forall|j: int| 0 <= j < k implies key_before(keys[k], #[trigger] keys[j]) by {
            assert(!key_before(init[j], init[i]));
            if k == i {
                assert(key_before(init[i], init[j]));
            }
        }
    }
}

/// One more key decides between itself and the least one so far.
pub proof fn lemma_first_least_step(keys: Seq<(int, int)>, n: int)
    requires
        0 < n < keys.len(),
    ensures
        first_least(keys.take(n + 1)) == if key_before(keys[n], keys[first_least(keys.take(n))]) {
            n
        } else {
            first_least(keys.take(n))
        },
        0 <= first_least(keys.take(n)) < n,
{
    assert(keys.take(n + 1).drop_last() =~= keys.take(n));
    lemma_first_least(keys.take(n));
}

} // verus!
