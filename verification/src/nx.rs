//! Nx breakpoints of a population of lengths: with the lengths arranged
//! from the longest to the shortest, the Nx length is the first one at
//! which the running sum reaches x percent of the sum of all lengths.

use crate::sorting::{
    descending, lemma_sorted_descending, same_lengths, sort_descending, sorted_descending,
};
use vstd::prelude::*;
use vstd::seq_lib::{to_multiset_contains, to_multiset_remove};

verus! {

/// Number of breakpoints in a table: N10, N20 and so on up to N90.
pub const BREAKPOINTS: usize = 9;

/// The sum of the lengths of `s`.
pub open spec fn sum_of(s: Seq<usize>) -> int
    decreases s.len(),
{
    if s.len() == 0 {
        0
    } else {
        sum_of(s.drop_last()) + s.last()
    }
}

/// Whether a running sum `cum` has reached `tenths` tenths of `total`.
pub open spec fn reached(cum: int, tenths: int, total: int) -> bool {
    10 * cum >= tenths * total
}

/// Whether the sum of the first `rank` lengths of `s` has reached
/// `tenths` tenths of the sum of all its lengths.
pub open spec fn reaches(s: Seq<usize>, rank: int, tenths: int) -> bool {
    reached(sum_of(s.take(rank)), tenths, sum_of(s))
}

/// The least rank from `rank` on at which the running sum of `s` has
/// reached `tenths` tenths of the whole; ranks are counted from one, and
/// the last rank is given where none before it will do.
pub open spec fn crossing_from(s: Seq<usize>, tenths: int, rank: int) -> int
    decreases s.len() - rank,
{
    if rank >= s.len() {
        s.len() as int
    } else if reaches(s, rank, tenths) {
        rank
    } else {
        crossing_from(s, tenths, rank + 1)
    }
}

/// The rank of the breakpoint for `tenths` tenths in `s`.
pub open spec fn crossing_rank(s: Seq<usize>, tenths: int) -> int {
    crossing_from(s, tenths, 1)
}

/// One breakpoint of a population.
#[derive(Clone, Copy, Debug, PartialEq, Eq, Structural)]
pub struct NxPoint {
    /// The x of Nx: 10, 20 and so on up to 90.
    pub percent: u8,
    /// The rank of the length at which the running sum reaches x percent
    /// of the total, counted from one, the longest length first.
    pub rank: usize,
    /// That length.
    pub length: usize,
}

/// The breakpoint for `tenths` tenths in `d`, a population arranged from
/// the longest to the shortest.
pub open spec fn breakpoint(d: Seq<usize>, tenths: int) -> NxPoint {
    NxPoint {
        percent: (10 * tenths) as u8,
        rank: crossing_rank(d, tenths) as usize,
        length: d[crossing_rank(d, tenths) - 1],
    }
}

/// The table of breakpoints of the population `d`, arranged from the
/// longest to the shortest: N10 to N90 in this order, or no breakpoint
/// at all where the lengths sum to zero.
pub open spec fn breakpoints(d: Seq<usize>) -> Seq<NxPoint> {
    if sum_of(d) == 0 {
        Seq::empty()
    } else {
        Seq::new(BREAKPOINTS as nat, |k: int| breakpoint(d, k + 1))
    }
}

/// What is reported of a population.
#[derive(Clone, Debug, PartialEq, Eq)]
pub struct NxReport {
    /// The breakpoints N10 to N90; none where the lengths sum to zero.
    pub points: Vec<NxPoint>,
    /// The longest length.
    pub longest: usize,
    /// The shortest length.
    pub shortest: usize,
    /// The number of lengths.
    pub count: usize,
    /// The sum of the lengths.
    pub total: u128,
}

/// Why nothing can be reported of a population.
#[derive(Clone, Copy, Debug, PartialEq, Eq, Structural)]
pub enum NxError {
    /// The population holds no length.
    InsufficientData,
}

impl NxReport {
    /// Whether the report has breakpoints: the lengths do not sum to zero.
    pub fn has_data(&self) -> (b: bool)
        ensures
            b == (self.points@.len() > 0),
    {
        self.points.len() > 0
    }
}

impl NxError {
    /// The wording of the error.
    pub open spec fn message_text(self) -> Seq<char> {
        "insufficient data"@
    }

    /// The error in words.
    pub fn message(&self) -> (s: String)
        ensures
            s@ == self.message_text(),
    {
        "insufficient data".to_owned()
    }
}

/// The sum of a population is not negative, and each of its lengths is
/// a machine word at most.
pub proof fn lemma_sum_range(s: Seq<usize>)
    ensures
        0 <= sum_of(s) <= s.len() * usize::MAX,
    decreases s.len(),
{
    if s.len() > 0 {
        lemma_sum_range(s.drop_last());
        assert((s.len() - 1) * usize::MAX + usize::MAX == s.len() * usize::MAX)
            by (nonlinear_arith);
    } else {
        assert(s.len() * usize::MAX == 0) by (nonlinear_arith)
            requires
                s.len() == 0,
        ;
    }
}

/// The sum of a stretch of lengths at the front of a population is at
/// most the sum of all of them.
pub proof fn lemma_sum_bounds(s: Seq<usize>, n: int)
    requires
        0 <= n <= s.len(),
    ensures
        0 <= sum_of(s.take(n)) <= sum_of(s),
        sum_of(s) <= s.len() * usize::MAX,
    decreases s.len() - n,
{
    lemma_sum_range(s);
    lemma_sum_range(s.take(n));
    if n < s.len() {
        lemma_sum_bounds(s, n + 1);
        assert(s.take(n + 1).drop_last() =~= s.take(n));
    } else {
        assert(s.take(n) =~= s);
    }
}

/// Taking one length out of a population lowers the sum by that length.
proof fn lemma_sum_remove(s: Seq<usize>, i: int)
    requires
        0 <= i < s.len(),
    ensures
        sum_of(s.remove(i)) + s[i] == sum_of(s),
    decreases s.len(),
{
    if i < s.len() - 1 {
        lemma_sum_remove(s.drop_last(), i);
        assert(s.remove(i).drop_last() =~= s.drop_last().remove(i));
    }
}

/// The sum of a population does not depend on the order of its lengths.
pub proof fn lemma_sum_of_same_lengths(a: Seq<usize>, b: Seq<usize>)
    requires
        same_lengths(a, b),
    ensures
        sum_of(a) == sum_of(b),
    decreases a.len(),
{
    a.to_multiset_ensures();
    b.to_multiset_ensures();
    if a.len() > 0 {
        let x = a.last();
        a.drop_last().to_multiset_ensures();
        to_multiset_contains(b, x);
        let i = choose|i: int| 0 <= i < b.len() && b[i] == x;
        to_multiset_remove(b, i);
        to_multiset_remove(a, a.len() - 1);
        lemma_sum_of_same_lengths(a.drop_last(), b.remove(i));
        lemma_sum_remove(b, i);
    }
}

/// The breakpoint for `tenths` tenths is where the running sum first
/// reaches that share: no rank before it does, and where the lengths do
/// not sum to zero the rank itself does.
pub proof fn lemma_crossing_is_first(s: Seq<usize>, tenths: int, from: int)
    requires
        1 <= from <= s.len(),
        0 <= tenths <= 10,
    ensures
        from <= crossing_from(s, tenths, from) <= s.len(),
        reaches(s, crossing_from(s, tenths, from), tenths),
        forall|r: int| from <= r < crossing_from(s, tenths, from) ==> !reaches(s, r, tenths),
    decreases s.len() - from,
{
    if from >= s.len() {
        assert(s.take(s.len() as int) =~= s);
        lemma_sum_bounds(s, 0);
        assert(reached(sum_of(s), tenths, sum_of(s))) by (nonlinear_arith)
            requires
                0 <= tenths <= 10,
                sum_of(s) >= 0,
        ;
    } else if !reaches(s, from, tenths) {
        lemma_crossing_is_first(s, tenths, from + 1);
    }
}

/// A rank that reaches a share reaches every smaller share.
proof fn lemma_reaches_smaller(s: Seq<usize>, rank: int, tenths: int)
    requires
        0 <= rank <= s.len(),
        reaches(s, rank, tenths + 1),
    ensures
        reaches(s, rank, tenths),
{
    lemma_sum_bounds(s, rank);
    let total = sum_of(s);
    assert((tenths + 1) * total == tenths * total + total) by (nonlinear_arith);
}

/// The breakpoint for a share is the first rank that reaches it.
proof fn lemma_crossing_found(s: Seq<usize>, tenths: int, rank: int, from: int)
    requires
        1 <= from <= rank <= s.len(),
        reaches(s, rank, tenths),
        forall|r: int| from <= r < rank ==> !reaches(s, r, tenths),
    ensures
        crossing_from(s, tenths, from) == rank,
    decreases rank - from,
{
    if from < rank {
        lemma_crossing_found(s, tenths, rank, from + 1);
    }
}

/// The least running sum that reaches `tenths` tenths of `total`.
fn reaching_sum(total: u128, tenths: u8) -> (least: u128)
    requires
        1 <= tenths <= 9,
    ensures
        forall|cum: int| #[trigger] reached(cum, tenths as int, total as int) <==> cum >= least,
{
    let k: u128 = tenths as u128;
    let q: u128 = total / 10;
    let r: u128 = total % 10;
    assert(k * r <= 81) by (nonlinear_arith)
        requires
            k <= 9,
            r <= 9,
    ;
    let c: u128 = (k * r + 9) / 10;
    assert(k * q <= 9 * q) by (nonlinear_arith)
        requires
            k <= 9,
            q >= 0,
    ;
    let least: u128 = k * q + c;
    proof {
        let ki = k as int;
        let qi = q as int;
        let ri = r as int;
        assert(ki * (10 * qi + ri) == 10 * (ki * qi) + ki * ri) by (nonlinear_arith);
        assert forall|cum: int| #[trigger]
            reached(cum, tenths as int, total as int) <==> cum >= least by {}
    }
    least
}

/// Computes the sum of a population of lengths.
pub fn total_length(lengths: &Vec<usize>) -> (total: u128)
    ensures
        total == sum_of(lengths@),
{
    let mut total: u128 = 0;
    let mut i: usize = 0;
    while i < lengths.len()
        invariant
            i <= lengths.len(),
            total == sum_of(lengths@.take(i as int)),
        decreases lengths.len() - i,
    {
        proof {
            assert(lengths@.take(i + 1).drop_last() =~= lengths@.take(i as int));
            lemma_sum_bounds(lengths@, i + 1);
            lemma_sum_bounds(lengths@, lengths@.len() as int);
            assert(lengths@.len() * usize::MAX <= usize::MAX * usize::MAX) by (nonlinear_arith)
                requires
                    lengths@.len() <= usize::MAX,
            ;
            assert(usize::MAX * usize::MAX < u128::MAX) by (nonlinear_arith)
                requires
                    usize::MAX <= 0xffff_ffff_ffff_ffff,
            ;
        }
        total = total + lengths[i] as u128;
        i += 1;
    }
    assert(lengths@.take(i as int) =~= lengths@);
    total
}

/// Finds the breakpoints of a population that is arranged from the
/// longest to the shortest, in one pass over its lengths.
pub fn find_breakpoints(sorted: &Vec<usize>) -> (points: Vec<NxPoint>)
    ensures
        points@ == breakpoints(sorted@),
{
    let total = total_length(sorted);
    let mut points: Vec<NxPoint> = Vec::new();
    if total == 0 {
        return points;
    }
    let mut next: u8 = 1;
    let mut least: u128 = reaching_sum(total, next);
    let mut cum: u128 = 0;
    let mut i: usize = 0;
    while i < sorted.len()
        invariant
            i <= sorted.len(),
            total == sum_of(sorted@),
            total > 0,
            cum == sum_of(sorted@.take(i as int)),
            1 <= next <= 10,
            points@.len() == next - 1,
            forall|k: int| 0 <= k < points@.len() ==> points@[k] == breakpoint(sorted@, k + 1),
            next <= 9 ==> forall|r: int| 1 <= r <= i ==> !reaches(sorted@, r, next as int),
            next <= 9 ==> forall|c: int| #[trigger]
                reached(c, next as int, total as int) <==> c >= least,
        decreases sorted.len() - i,
    {
        proof {
            assert(sorted@.take(i + 1).drop_last() =~= sorted@.take(i as int));
            lemma_sum_bounds(sorted@, i + 1);
        }
        let length = sorted[i];
        cum = cum + length as u128;
        i += 1;
        while next <= 9 && cum >= least
            invariant
                1 <= i <= sorted.len(),
                total == sum_of(sorted@),
                total > 0,
                cum == sum_of(sorted@.take(i as int)),
                length == sorted@[i - 1],
                1 <= next <= 10,
                points@.len() == next - 1,
                forall|k: int|
                    0 <= k < points@.len() ==> points@[k] == breakpoint(sorted@, k + 1),
                next <= 9 ==> forall|r: int| 1 <= r < i ==> !reaches(sorted@, r, next as int),
                next <= 9 ==> forall|c: int| #[trigger]
                    reached(c, next as int, total as int) <==> c >= least,
            decreases 10 - next,
        {
            proof {
                lemma_crossing_found(sorted@, next as int, i as int, 1);
                let after: int = next + 1;
                assert forall|r: int| 1 <= r < i implies !#[trigger] reaches(
                    sorted@,
                    r,
                    after,
                ) by {
                    if reaches(sorted@, r, after) {
                        lemma_reaches_smaller(sorted@, r, next as int);
                    }
                }
            }
            points.push(NxPoint { percent: 10 * next, rank: i, length });
            next = next + 1;
            if next <= 9 {
                least = reaching_sum(total, next);
            }
        }
    }
    proof {
        assert(sorted@.take(i as int) =~= sorted@);
        if next <= 9 {
            assert(reached(total as int, next as int, total as int)) by (nonlinear_arith)
                requires
                    total > 0,
                    1 <= next <= 9,
            ;
            assert(reaches(sorted@, i as int, next as int));
        }
    }
    points
}

/// Reports on a population of lengths: its breakpoints N10 to N90, its
/// longest and its shortest length, how many lengths it holds and what
/// they sum to. An empty population has nothing to report; one whose
/// lengths sum to zero is reported without breakpoints.
pub fn calculate_nx(lengths: Vec<usize>) -> (result: Result<NxReport, NxError>)
    ensures
        result is Err <==> lengths@.len() == 0,
        result matches Ok(report) ==> {
            &&& report.points@ == breakpoints(sorted_descending(lengths@))
            &&& report.longest == sorted_descending(lengths@)[0]
            &&& report.shortest == sorted_descending(lengths@)[lengths@.len() - 1]
            &&& report.count == lengths@.len()
            &&& report.total == sum_of(lengths@)
        },
{
    let count = lengths.len();
    if count == 0 {
        return Err(NxError::InsufficientData);
    }
    let sorted = sort_descending(&lengths);
    let total = total_length(&sorted);
    proof {
        lemma_sum_of_same_lengths(sorted@, lengths@);
    }
    let points = find_breakpoints(&sorted);
    Ok(NxReport { points, longest: sorted[0], shortest: sorted[count - 1], count, total })
}

/// The longest length of a population stands first in its descending
/// arrangement and the shortest last: no length is longer than the one,
/// none shorter than the other, and both are lengths of the population.
pub proof fn lemma_longest_and_shortest(lengths: Seq<usize>)
    requires
        lengths.len() > 0,
    ensures
        forall|i: int|
            0 <= i < lengths.len() ==> sorted_descending(lengths)[lengths.len() - 1]
                <= #[trigger] lengths[i] <= sorted_descending(lengths)[0],
        lengths.contains(sorted_descending(lengths)[0]),
        lengths.contains(sorted_descending(lengths)[lengths.len() - 1]),
{
    lemma_sorted_descending(lengths);
    let d = sorted_descending(lengths);
    let n = lengths.len() as int;
    assert forall|i: int| 0 <= i < n implies d[n - 1] <= #[trigger] lengths[i] <= d[0] by {
        let x = lengths[i];
        to_multiset_contains(lengths, x);
        to_multiset_contains(d, x);
        let j = choose|j: int| 0 <= j < d.len() && d[j] == x;
    }
    to_multiset_contains(d, d[0]);
    to_multiset_contains(lengths, d[0]);
    to_multiset_contains(d, d[n - 1]);
    to_multiset_contains(lengths, d[n - 1]);
}

} // verus!
