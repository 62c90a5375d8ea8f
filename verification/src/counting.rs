use crate::matching::nth_occurrence;
use vstd::prelude::*;

verus! {

/// How often `c` occurs in `s` at the offsets from `from` up to, but not
/// including, `to`.
pub open spec fn occurrences(s: Seq<char>, c: char, from: nat, to: nat) -> nat
    recommends
        to <= s.len(),
    decreases to,
{
    if to <= from {
        0
    } else if s[to - 1] == c {
        occurrences(s, c, from, (to - 1) as nat) + 1
    } else {
        occurrences(s, c, from, (to - 1) as nat)
    }
}

/// Splits the count at its first offset.
pub proof fn lemma_occurrences_first(s: Seq<char>, c: char, from: nat, to: nat)
    requires
        from < to,
    ensures
        occurrences(s, c, from, to) == occurrences(s, c, from + 1, to) + if s[from as int] == c {
            1nat
        } else {
            0nat
        },
    decreases to,
{
    if from + 1 < to {
        lemma_occurrences_first(s, c, from, (to - 1) as nat);
    } else {
        assert(occurrences(s, c, from, from) == 0);
        assert(occurrences(s, c, from + 1, to) == 0);
    }
}

/// A longer stretch holds no fewer occurrences.
pub proof fn lemma_occurrences_grow(s: Seq<char>, c: char, from: nat, mid: nat, to: nat)
    requires
        mid <= to,
    ensures
        occurrences(s, c, from, mid) <= occurrences(s, c, from, to),
    decreases to,
{
    if mid < to {
        lemma_occurrences_grow(s, c, from, mid, (to - 1) as nat);
    }
}

/// The count over a stretch is the sum of the counts over its two parts.
pub proof fn lemma_occurrences_split(s: Seq<char>, c: char, from: nat, mid: nat, to: nat)
    requires
        from <= mid <= to,
    ensures
        occurrences(s, c, from, to) == occurrences(s, c, from, mid) + occurrences(s, c, mid, to),
    decreases to,
{
    if mid < to {
        lemma_occurrences_split(s, c, from, mid, (to - 1) as nat);
    }
}

/// A stretch without `c` counts none.
pub proof fn lemma_occurrences_none(s: Seq<char>, c: char, from: nat, to: nat)
    requires
        forall|j: int| from <= j < to ==> s[j] != c,
    ensures
        occurrences(s, c, from, to) == 0,
    decreases to,
{
    if from < to {
        lemma_occurrences_none(s, c, from, (to - 1) as nat);
    }
}

/// What `nth_occurrence` finds is an offset that holds `c` and has exactly
/// `skip` occurrences of `c` between `from` and itself; it finds nothing only
/// where `s` holds no more than `skip` occurrences from `from` on.
pub proof fn law_nth_occurrence_counts(s: Seq<char>, from: nat, c: char, skip: nat)
    requires
        from <= s.len(),
    ensures
        match nth_occurrence(s, from, c, skip) {
            Some(found) => from <= found < s.len() && s[found as int] == c && occurrences(
                s,
                c,
                from,
                found,
            ) == skip,
            None => occurrences(s, c, from, s.len()) <= skip,
        },
    decreases s.len() - from,
{
    if from < s.len() {
        let rest = if s[from as int] == c && skip > 0 {
            (skip - 1) as nat
        } else {
            skip
        };
        if !(s[from as int] == c && skip == 0) {
            law_nth_occurrence_counts(s, from + 1, c, rest);
            match nth_occurrence(s, from + 1, c, rest) {
                Some(found) => {
                    lemma_occurrences_first(s, c, from, found);
                },
                None => {
                    lemma_occurrences_first(s, c, from, s.len());
                },
            }
        }
    }
}

} // verus!
