use vstd::prelude::*;

verus! {

/// The first place of `s` that holds `value`, or the length of `s` when no
/// place does.
pub open spec fn first_index<T>(s: Seq<T>, value: T) -> int
    decreases s.len(),
{
    if s.len() == 0 {
        0
    } else if s.first() == value {
        0
    } else {
        1 + first_index(s.drop_first(), value)
    }
}

/// `first_index` is the one place `i` before which the value does not occur and
/// at which, if it lies inside the sequence, the value stands.
pub proof fn lemma_first_index<T>(s: Seq<T>, value: T, i: int)
    requires
        0 <= i <= s.len(),
        forall|j: int| 0 <= j < i ==> s[j] != value,
        i < s.len() ==> s[i] == value,
    ensures
        first_index(s, value) == i,
    decreases s.len(),
{
    if s.len() != 0 && s.first() != value {
        let rest = s.drop_first();
        assert forall|j: int| 0 <= j < i - 1 implies rest[j] != value by {
            assert(rest[j] == s[j + 1]);
        }
        lemma_first_index(rest, value, i - 1);
    }
}

/// `first_index` lies within the sequence or at its end, no earlier place holds
/// the value, and the place itself holds it when it lies within.
pub proof fn lemma_first_index_is_first<T>(s: Seq<T>, value: T)
    ensures
        0 <= first_index(s, value) <= s.len(),
        forall|j: int| 0 <= j < first_index(s, value) ==> s[j] != value,
        first_index(s, value) < s.len() ==> s[first_index(s, value)] == value,
    decreases s.len(),
{
    if s.len() != 0 && s.first() != value {
        let rest = s.drop_first();
        lemma_first_index_is_first(rest, value);
        assert forall|j: int| 0 <= j < first_index(s, value) implies s[j] != value by {
            if j > 0 {
                assert(rest[j - 1] == s[j]);
            }
        }
        if first_index(s, value) < s.len() {
            assert(rest[first_index(rest, value)] == s[first_index(rest, value) + 1]);
        }
    }
}

} // verus!
