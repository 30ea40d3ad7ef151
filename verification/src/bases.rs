//! Statistics of one nucleotide sequence: how often each of the symbols
//! A, T, C, G and N occurs in it, and how long its gap-free segments are.

use vstd::prelude::*;
use vstd::string::StrSliceExecFns;
use vstd::string::StringExecFns;

verus! {

/// How often each of the five symbols occurs, as numbers without a bound.
pub struct Composition {
    pub a: nat,
    pub t: nat,
    pub c: nat,
    pub g: nat,
    pub n: nat,
}

/// Whether `c` is the symbol whose capital letter is `upper`, in either
/// case. `upper` is a capital letter of the basic Latin alphabet.
pub open spec fn is_symbol(c: char, upper: char) -> bool {
    c == upper || c as u32 == upper as u32 + 32
}

/// Whether `c` is the gap symbol N, in either case.
pub open spec fn is_gap(c: char) -> bool {
    is_symbol(c, 'N')
}

/// Whether `c` is one of the five symbols, in either case.
pub open spec fn recognized(c: char) -> bool {
    is_symbol(c, 'A') || is_symbol(c, 'T') || is_symbol(c, 'C') || is_symbol(c, 'G') || is_gap(c)
}

impl Composition {
    /// No symbol counted.
    pub open spec fn zero() -> Composition {
        Composition { a: 0, t: 0, c: 0, g: 0, n: 0 }
    }

    /// The counts after one more character.
    pub open spec fn tally(self, c: char) -> Composition {
        Composition {
            a: self.a + if is_symbol(c, 'A') { 1nat } else { 0nat },
            t: self.t + if is_symbol(c, 'T') { 1nat } else { 0nat },
            c: self.c + if is_symbol(c, 'C') { 1nat } else { 0nat },
            g: self.g + if is_symbol(c, 'G') { 1nat } else { 0nat },
            n: self.n + if is_gap(c) { 1nat } else { 0nat },
        }
    }

    /// The sum of two counts, symbol by symbol.
    pub open spec fn plus(self, other: Composition) -> Composition {
        Composition {
            a: self.a + other.a,
            t: self.t + other.t,
            c: self.c + other.c,
            g: self.g + other.g,
            n: self.n + other.n,
        }
    }

    /// The number of characters counted.
    pub open spec fn total(self) -> nat {
        self.a + self.t + self.c + self.g + self.n
    }

    /// Whether each count can be held in a machine word.
    pub open spec fn fits(self) -> bool {
        &&& self.a <= usize::MAX
        &&& self.t <= usize::MAX
        &&& self.c <= usize::MAX
        &&& self.g <= usize::MAX
        &&& self.n <= usize::MAX
    }
}

/// How often each of the five symbols occurs in `s`.
pub open spec fn composition(s: Seq<char>) -> Composition
    decreases s.len(),
{
    if s.len() == 0 {
        Composition::zero()
    } else {
        composition(s.drop_last()).tally(s.last())
    }
}

/// The number of characters of `s` behind its last gap symbol: the length
/// of the gap-free segment that the end of `s` leaves open.
pub open spec fn open_run(s: Seq<char>) -> nat
    decreases s.len(),
{
    if s.len() == 0 || is_gap(s.last()) {
        0
    } else {
        open_run(s.drop_last()) + 1
    }
}

/// The lengths of the gap-free segments of `s` that a gap symbol ends, in
/// their order. Two gap symbols in a row have no segment between them.
pub open spec fn closed_runs(s: Seq<char>) -> Seq<nat>
    decreases s.len(),
{
    if s.len() == 0 {
        Seq::empty()
    } else if is_gap(s.last()) && open_run(s.drop_last()) > 0 {
        closed_runs(s.drop_last()).push(open_run(s.drop_last()))
    } else {
        closed_runs(s.drop_last())
    }
}

/// The lengths of the gap-free segments of `s`, in their order: of the
/// longest stretches without a gap symbol that hold a character at all.
pub open spec fn segments(s: Seq<char>) -> Seq<nat> {
    if open_run(s) > 0 {
        closed_runs(s).push(open_run(s))
    } else {
        closed_runs(s)
    }
}

/// The sum of a sequence of lengths.
pub open spec fn sum(lengths: Seq<nat>) -> nat
    decreases lengths.len(),
{
    if lengths.len() == 0 {
        0
    } else {
        sum(lengths.drop_last()) + lengths.last()
    }
}

/// The lengths held in a vector, as numbers without a bound.
pub open spec fn as_nats(lengths: Seq<usize>) -> Seq<nat> {
    lengths.map_values(|x: usize| x as nat)
}

/// No symbol is counted twice, so the counts of a sequence add up to its
/// length at most, and to its length where every character is
/// recognized.
pub proof fn lemma_composition_total(s: Seq<char>)
    ensures
        composition(s).total() <= s.len(),
        composition(s).total() == s.len() <==> forall|i: int|
            0 <= i < s.len() ==> recognized(#[trigger] s[i]),
    decreases s.len(),
{
    if s.len() > 0 {
        let before = s.drop_last();
        lemma_composition_total(before);
        if composition(s).total() == s.len() {
            assert forall|i: int| 0 <= i < s.len() implies recognized(#[trigger] s[i]) by {
                if i < s.len() - 1 {
                    assert(before[i] == s[i]);
                }
            }
        }
        if forall|i: int| 0 <= i < s.len() ==> recognized(#[trigger] s[i]) {
            assert forall|i: int| 0 <= i < before.len() implies recognized(
                #[trigger] before[i],
            ) by {}
        }
    }
}

/// The counts of two sequences joined are the sums of their counts.
pub proof fn lemma_composition_concat(a: Seq<char>, b: Seq<char>)
    ensures
        composition(a + b) == composition(a).plus(composition(b)),
    decreases b.len(),
{
    if b.len() > 0 {
        lemma_composition_concat(a, b.drop_last());
        assert((a + b).drop_last() =~= a + b.drop_last());
    }
}

/// Every gap-free segment holds a character, and the segments and the gap
/// symbols together make up the sequence: the lengths of the segments
/// add up to the length of the sequence without its gap symbols.
pub proof fn lemma_segments_cover(s: Seq<char>)
    ensures
        forall|i: int| 0 <= i < segments(s).len() ==> #[trigger] segments(s)[i] > 0,
        forall|i: int| 0 <= i < closed_runs(s).len() ==> #[trigger] closed_runs(s)[i] > 0,
        sum(closed_runs(s)) + open_run(s) + composition(s).n == s.len(),
        sum(segments(s)) + composition(s).n == s.len(),
    decreases s.len(),
{
    if s.len() > 0 {
        let before = s.drop_last();
        lemma_segments_cover(before);
    }
    if open_run(s) > 0 {
        assert(segments(s).drop_last() =~= closed_runs(s));
    }
}

/// A sequence without a gap symbol is one segment, unless it is empty.
pub proof fn lemma_segments_gap_free(s: Seq<char>)
    requires
        forall|i: int| 0 <= i < s.len() ==> !is_gap(#[trigger] s[i]),
    ensures
        open_run(s) == s.len(),
        closed_runs(s) == Seq::<nat>::empty(),
        segments(s) == if s.len() == 0 {
            Seq::<nat>::empty()
        } else {
            seq![s.len()]
        },
    decreases s.len(),
{
    if s.len() > 0 {
        let before = s.drop_last();
        assert forall|i: int| 0 <= i < before.len() implies !is_gap(#[trigger] before[i]) by {}
        lemma_segments_gap_free(before);
    }
}

/// A gap symbol parts a sequence: the segments of the whole are those in
/// front of the gap symbol, then those behind it.
pub proof fn lemma_segments_split(a: Seq<char>, gap: char, b: Seq<char>)
    requires
        is_gap(gap),
    ensures
        segments(a + seq![gap] + b) == segments(a) + segments(b),
    decreases b.len(),
{
    let head = a + seq![gap];
    assert(head.drop_last() =~= a);
    lemma_runs_concat(head, b);
    if open_run(b) > 0 {
        assert((segments(a) + closed_runs(b)).push(open_run(b)) =~= segments(a) + closed_runs(
            b,
        ).push(open_run(b)));
    }
}

/// Behind a sequence that leaves no segment open, the runs of what
/// follows are counted afresh.
proof fn lemma_runs_concat(head: Seq<char>, b: Seq<char>)
    requires
        open_run(head) == 0,
    ensures
        open_run(head + b) == open_run(b),
        closed_runs(head + b) == closed_runs(head) + closed_runs(b),
    decreases b.len(),
{
    if b.len() > 0 {
        lemma_runs_concat(head, b.drop_last());
        assert((head + b).drop_last() =~= head + b.drop_last());
        if is_gap(b.last()) && open_run(b.drop_last()) > 0 {
            assert((closed_runs(head) + closed_runs(b.drop_last())).push(open_run(b.drop_last()))
                =~= closed_runs(head) + closed_runs(b.drop_last()).push(
                open_run(b.drop_last()),
            ));
        }
    }
}

/// Running counts of the five symbols over all the sequences of a batch.
#[derive(Clone, Copy, Debug, PartialEq, Eq)]
pub struct Bases {
    pub a: usize,
    pub t: usize,
    pub c: usize,
    pub g: usize,
    pub n: usize,
}

impl View for Bases {
    type V = Composition;

    open spec fn view(&self) -> Composition {
        Composition {
            a: self.a as nat,
            t: self.t as nat,
            c: self.c as nat,
            g: self.g as nat,
            n: self.n as nat,
        }
    }
}

impl Bases {
    /// Counts that start at zero.
    pub fn new() -> (bases: Self)
        ensures
            bases@ == Composition::zero(),
    {
        Self { a: 0, t: 0, c: 0, g: 0, n: 0 }
    }

    /// The number of C and G counted, and the number of A, T, C and G
    /// counted: the GC fraction is the first over the second.
    pub fn gc_fraction(&self) -> (fraction: (u128, u128))
        ensures
            fraction.0 == self@.c + self@.g,
            fraction.1 == self@.a + self@.t + self@.c + self@.g,
    {
        let gc: u128 = self.c as u128 + self.g as u128;
        let at: u128 = self.a as u128 + self.t as u128;
        (gc, at + gc)
    }

    /// Adds the counts of one sequence, unless a sum is too large for a
    /// machine word: then nothing is added.
    pub fn accumulate(&mut self, counts: &Bases) -> (added: bool)
        ensures
            added == old(self)@.plus(counts@).fits(),
            added ==> final(self)@ == old(self)@.plus(counts@),
            !added ==> *final(self) == *old(self),
    {
        let limit: usize = usize::MAX;
        if self.a > limit - counts.a || self.t > limit - counts.t || self.c > limit - counts.c
            || self.g > limit - counts.g || self.n > limit - counts.n {
            return false;
        }
        self.a = self.a + counts.a;
        self.t = self.t + counts.t;
        self.c = self.c + counts.c;
        self.g = self.g + counts.g;
        self.n = self.n + counts.n;
        true
    }
}

/// What `stat_seq` finds of one sequence.
#[derive(Clone, Debug, PartialEq, Eq)]
pub struct SeqStat {
    /// The number of characters of the sequence.
    pub scaffold_len: usize,
    /// The number of its characters that are not the gap symbol.
    pub gapless_scaffold_len: usize,
    /// The lengths of its gap-free segments, in their order.
    pub ctg_lens: Vec<usize>,
    /// A warning that names the sequence, when it holds a character that
    /// is none of the five symbols.
    pub warning: Option<String>,
}

/// The warning for a sequence that holds a character that is none of the
/// five symbols.
pub open spec fn warning_text(seq_id: Seq<char>) -> Seq<char> {
    "Seq "@ + seq_id + " has base(s) not in A, T, C, G, N"@
}

/// Tells whether `c` is the symbol whose capital letter is `upper`.
fn matches_symbol(c: char, upper: char) -> (b: bool)
    requires
        'A' <= upper <= 'Z',
    ensures
        b == is_symbol(c, upper),
{
    c == upper || c as u32 == upper as u32 + 32
}

/// Takes the statistics of one sequence and adds its symbols to the
/// running counts. Upper and lower case count alike; a character that is
/// none of the five symbols is counted in the lengths only, and has the
/// result carry a warning. Where a running count would no longer fit in a
/// machine word nothing is counted and `None` is returned.
pub fn stat_seq(seq_id: &str, seq: &str, bases: &mut Bases) -> (result: Option<SeqStat>)
    ensures
        result is Some <==> old(bases)@.plus(composition(seq@)).fits(),
        result is None ==> *final(bases) == *old(bases),
        result matches Some(stat) ==> {
            &&& final(bases)@ == old(bases)@.plus(composition(seq@))
            &&& stat.scaffold_len == seq@.len()
            &&& stat.gapless_scaffold_len == seq@.len() - composition(seq@).n
            &&& as_nats(stat.ctg_lens@) == segments(seq@)
            &&& stat.warning is Some <==> composition(seq@).total() != seq@.len()
            &&& stat.warning matches Some(w) ==> w@ == warning_text(seq_id@)
        },
{
    let scaffold_len = seq.unicode_len();
    let mut counts = Bases::new();
    let mut run: usize = 0;
    let mut ctg_lens: Vec<usize> = Vec::new();
    for c in it: seq.chars()
        invariant
            it.seq() == seq@,
            scaffold_len == seq@.len(),
            counts@ == composition(seq@.take(it.index())),
            run == open_run(seq@.take(it.index())),
            as_nats(ctg_lens@) == closed_runs(seq@.take(it.index())),
    {
        let ghost before = seq@.take(it.index());
        let ghost now = seq@.take(it.index() + 1);
        proof {
            assert(now.drop_last() =~= before);
            lemma_composition_total(before);
            lemma_segments_cover(before);
        }
        if matches_symbol(c, 'A') {
            counts.a = counts.a + 1;
        }
        if matches_symbol(c, 'T') {
            counts.t = counts.t + 1;
        }
        if matches_symbol(c, 'C') {
            counts.c = counts.c + 1;
        }
        if matches_symbol(c, 'G') {
            counts.g = counts.g + 1;
        }
        if matches_symbol(c, 'N') {
            counts.n = counts.n + 1;
            if run > 0 {
                ctg_lens.push(run);
            }
            run = 0;
        } else {
            run = run + 1;
        }
    }
    assert(seq@.take(seq@.len() as int) =~= seq@);
    if run > 0 {
        ctg_lens.push(run);
    }
    proof {
        lemma_composition_total(seq@);
    }
    if !bases.accumulate(&counts) {
        return None;
    }
    let recognized_len = counts.a + counts.t + counts.c + counts.g + counts.n;
    let warning = if recognized_len != scaffold_len {
        Some(String::from_str("Seq ").concat(seq_id).concat(" has base(s) not in A, T, C, G, N"))
    } else {
        None
    };
    Some(
        SeqStat {
            scaffold_len,
            gapless_scaffold_len: scaffold_len - counts.n,
            ctg_lens,
            warning,
        },
    )
}

} // verus!
