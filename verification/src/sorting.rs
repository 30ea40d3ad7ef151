//! Sorting a population of lengths from the longest to the shortest.

use vstd::prelude::*;
use vstd::seq_lib::lemma_sorted_unique;

verus! {

/// The order by which lengths are arranged: the longer one first.
pub open spec fn longer_first() -> spec_fn(usize, usize) -> bool {
    |a: usize, b: usize| a >= b
}

/// Whether no length of `s` is followed by a longer one.
pub open spec fn descending(s: Seq<usize>) -> bool {
    forall|i: int, j: int| 0 <= i < j < s.len() ==> s[i] >= s[j]
}

/// Whether `a` and `b` hold the same lengths, each as often as the other.
pub open spec fn same_lengths(a: Seq<usize>, b: Seq<usize>) -> bool {
    a.to_multiset() == b.to_multiset()
}

/// The lengths of `s` from the longest to the shortest.
pub open spec fn sorted_descending(s: Seq<usize>) -> Seq<usize> {
    s.sort_by(longer_first())
}

/// The descending arrangement holds the lengths that it was given and no
/// others, and no length in it is followed by a longer one.
pub proof fn lemma_sorted_descending(s: Seq<usize>)
    ensures
        descending(sorted_descending(s)),
        same_lengths(sorted_descending(s), s),
        sorted_descending(s).len() == s.len(),
{
    s.lemma_sort_by_ensures(longer_first());
    let d = sorted_descending(s);
    assert(descending(d)) by {
        assert forall|i: int, j: int| 0 <= i < j < d.len() implies d[i] >= d[j] by {
            assert(longer_first()(d[i], d[j]));
        }
    }
    s.to_multiset_ensures();
    d.to_multiset_ensures();
}

/// There is one descending arrangement only: a sequence that holds the
/// lengths of `s`, none of them followed by a longer one, is it.
pub proof fn lemma_descending_is_unique(d: Seq<usize>, s: Seq<usize>)
    requires
        descending(d),
        same_lengths(d, s),
    ensures
        d == sorted_descending(s),
{
    lemma_sorted_descending(s);
    let e = sorted_descending(s);
    lemma_sorted_unique(d, e, longer_first());
}

/// The lengths of two stretches joined are those of the one and those of
/// the other.
proof fn lemma_lengths_of_concat(a: Seq<usize>, b: Seq<usize>)
    ensures
        (a + b).to_multiset() == a.to_multiset().add(b.to_multiset()),
    decreases b.len(),
{
    a.to_multiset_ensures();
    if b.len() == 0 {
        b.to_multiset_ensures();
    } else {
        let front = b.drop_last();
        lemma_lengths_of_concat(a, front);
        assert(a + b =~= (a + front).push(b.last()));
        assert(b =~= front.push(b.last()));
        (a + front).to_multiset_ensures();
        front.to_multiset_ensures();
        assert(a.to_multiset().add(front.to_multiset()).insert(b.last()) =~= a.to_multiset().add(
            front.to_multiset().insert(b.last()),
        ));
    }
}

/// Joins two descending runs into one.
fn merge_runs(left: &Vec<usize>, right: &Vec<usize>) -> (merged: Vec<usize>)
    requires
        descending(left@),
        descending(right@),
    ensures
        descending(merged@),
        same_lengths(merged@, left@ + right@),
{
    let mut merged: Vec<usize> = Vec::new();
    let mut i: usize = 0;
    let mut j: usize = 0;
    proof {
        assert(left@.take(0) + right@.take(0) =~= merged@);
    }
    while i < left.len() || j < right.len()
        invariant
            i <= left.len(),
            j <= right.len(),
            descending(left@),
            descending(right@),
            descending(merged@),
            same_lengths(merged@, left@.take(i as int) + right@.take(j as int)),
            forall|k: int|
                0 <= k < merged@.len() && i < left.len() ==> merged@[k] >= left@[i as int],
            forall|k: int|
                0 <= k < merged@.len() && j < right.len() ==> merged@[k] >= right@[j as int],
        decreases left.len() - i + right.len() - j,
    {
        let ghost before = merged@;
        let ghost taken_left = left@.take(i as int);
        let ghost taken_right = right@.take(j as int);
        let from_left = j == right.len() || (i < left.len() && left[i] >= right[j]);
        if from_left {
            let x = left[i];
            merged.push(x);
            i += 1;
            proof {
                assert(left@.take(i as int) =~= taken_left.push(x));
                lemma_lengths_of_concat(taken_left, taken_right);
                lemma_lengths_of_concat(taken_left.push(x), taken_right);
                before.to_multiset_ensures();
                taken_left.to_multiset_ensures();
                assert(taken_left.push(x).to_multiset().add(taken_right.to_multiset())
                    =~= taken_left.to_multiset().add(taken_right.to_multiset()).insert(x));
            }
        } else {
            let x = right[j];
            merged.push(x);
            j += 1;
            proof {
                assert(right@.take(j as int) =~= taken_right.push(x));
                lemma_lengths_of_concat(taken_left, taken_right);
                lemma_lengths_of_concat(taken_left, taken_right.push(x));
                before.to_multiset_ensures();
                taken_right.to_multiset_ensures();
                assert(taken_left.to_multiset().add(taken_right.push(x).to_multiset())
                    =~= taken_left.to_multiset().add(taken_right.to_multiset()).insert(x));
            }
        }
    }
    proof {
        assert(left@.take(i as int) =~= left@);
        assert(right@.take(j as int) =~= right@);
    }
    merged
}

/// Sorts the lengths of `v` in `from..to`, the longest first.
fn sort_range(v: &Vec<usize>, from: usize, to: usize) -> (sorted: Vec<usize>)
    requires
        from <= to <= v.len(),
    ensures
        descending(sorted@),
        same_lengths(sorted@, v@.subrange(from as int, to as int)),
    decreases to - from,
{
    if to - from <= 1 {
        let mut sorted: Vec<usize> = Vec::new();
        if from < to {
            sorted.push(v[from]);
        }
        assert(sorted@ =~= v@.subrange(from as int, to as int));
        sorted
    } else {
        let middle = from + (to - from) / 2;
        let left = sort_range(v, from, middle);
        let right = sort_range(v, middle, to);
        let merged = merge_runs(&left, &right);
        proof {
            let a = v@.subrange(from as int, middle as int);
            let b = v@.subrange(middle as int, to as int);
            assert(a + b =~= v@.subrange(from as int, to as int));
            lemma_lengths_of_concat(left@, right@);
            lemma_lengths_of_concat(a, b);
        }
        merged
    }
}

/// Arranges lengths from the longest to the shortest.
pub fn sort_descending(lengths: &Vec<usize>) -> (sorted: Vec<usize>)
    ensures
        sorted@ == sorted_descending(lengths@),
        descending(sorted@),
        same_lengths(sorted@, lengths@),
        sorted@.len() == lengths@.len(),
{
    let sorted = sort_range(lengths, 0, lengths.len());
    proof {
        assert(lengths@.subrange(0, lengths@.len() as int) =~= lengths@);
        lemma_descending_is_unique(sorted@, lengths@);
        lemma_sorted_descending(lengths@);
    }
    sorted
}

} // verus!
