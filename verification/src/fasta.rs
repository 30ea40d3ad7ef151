//! Sequences in FASTA-like text: a line that begins with `>` names a
//! sequence, and the lines behind it, up to the next such line, hold its
//! characters. The scanner takes the statistics of each sequence and
//! collects three populations of lengths. A text without a line that
//! names a sequence and without characters holds no sequence.

use crate::bases::{
    as_nats, composition, segments, stat_seq, warning_text, Bases, Composition,
};
use crate::text::first_char;
use vstd::prelude::*;
use vstd::string::StrSliceExecFns;
use vstd::string::StringExecFns;

verus! {

/// The first character of a line that names a sequence.
pub const NAME_MARK: char = '>';

/// Whether a line names a sequence.
pub open spec fn is_name_line(line: Seq<char>) -> bool {
    line.len() > 0 && line[0] == NAME_MARK
}

/// What has been collected of the sequences of a batch.
pub struct Populations {
    /// How often each symbol occurs in all the sequences.
    pub bases: Composition,
    /// The length of each sequence.
    pub scaffold_lens: Seq<nat>,
    /// The length of each sequence without its gap symbols.
    pub gapless_scaffold_lens: Seq<nat>,
    /// The lengths of the gap-free segments of all the sequences.
    pub ctg_lens: Seq<nat>,
    /// A warning for each sequence that holds a character that is none of
    /// the five symbols.
    pub warnings: Seq<Seq<char>>,
}

impl Populations {
    /// Nothing collected.
    pub open spec fn empty() -> Populations {
        Populations {
            bases: Composition::zero(),
            scaffold_lens: Seq::empty(),
            gapless_scaffold_lens: Seq::empty(),
            ctg_lens: Seq::empty(),
            warnings: Seq::empty(),
        }
    }

    /// The populations after one more sequence.
    pub open spec fn record(self, name: Seq<char>, data: Seq<char>) -> Populations {
        Populations {
            bases: self.bases.plus(composition(data)),
            scaffold_lens: self.scaffold_lens.push(data.len()),
            gapless_scaffold_lens: self.gapless_scaffold_lens.push(
                (data.len() - composition(data).n) as nat,
            ),
            ctg_lens: self.ctg_lens + segments(data),
            warnings: if composition(data).total() != data.len() {
                self.warnings.push(warning_text(name))
            } else {
                self.warnings
            },
        }
    }
}

/// Where a scan stands between two lines.
pub struct Scan {
    /// Whether a line has named a sequence yet.
    pub started: bool,
    /// The name of the sequence that is being read.
    pub name: Seq<char>,
    /// The characters of that sequence that have been read.
    pub data: Seq<char>,
    /// What has been collected of the sequences before it.
    pub collected: Populations,
}

/// A scan before its first line: no sequence has been named, and no
/// character has been read.
pub open spec fn scan_start() -> Scan {
    Scan {
        started: false,
        name: Seq::empty(),
        data: Seq::empty(),
        collected: Populations::empty(),
    }
}

/// Whether a sequence is being read: a line has named one, or characters
/// have been read, which then make a sequence without a name.
pub open spec fn sequence_open(scan: Scan) -> bool {
    scan.started || scan.data.len() > 0
}

/// The scan after one more line. An empty line changes nothing. A name
/// line ends the sequence that is being read, which is recorded if it
/// has a character, and names the next one. Any other line is added to
/// the characters of the sequence that is being read.
pub open spec fn scan_line(scan: Scan, line: Seq<char>) -> Scan {
    if line.len() == 0 {
        scan
    } else if is_name_line(line) {
        Scan {
            started: true,
            name: line.skip(1),
            data: Seq::empty(),
            collected: if scan.data.len() > 0 {
                scan.collected.record(scan.name, scan.data)
            } else {
                scan.collected
            },
        }
    } else {
        Scan { data: scan.data + line, ..scan }
    }
}

/// The scan after the lines of a text.
pub open spec fn scan_lines(lines: Seq<Seq<char>>) -> Scan
    decreases lines.len(),
{
    if lines.len() == 0 {
        scan_start()
    } else {
        scan_line(scan_lines(lines.drop_last()), lines.last())
    }
}

/// What a scan has collected once the text has ended: the sequence that
/// was being read is recorded, whether it has a character or not. Where
/// none was being read there is nothing to record.
pub open spec fn scan_end(scan: Scan) -> Populations {
    if sequence_open(scan) {
        scan.collected.record(scan.name, scan.data)
    } else {
        scan.collected
    }
}

/// The populations of a whole text.
pub open spec fn fasta_populations(lines: Seq<Seq<char>>) -> Populations {
    scan_end(scan_lines(lines))
}

/// A text without a line holds no sequence: its populations are empty
/// and no symbol is counted.
pub proof fn lemma_empty_text_has_no_sequence()
    ensures
        fasta_populations(Seq::empty()) == Populations::empty(),
{
}

/// Empty lines hold no sequence either.
pub proof fn lemma_empty_lines_hold_no_sequence(lines: Seq<Seq<char>>)
    requires
        forall|i: int| 0 <= i < lines.len() ==> (#[trigger] lines[i]).len() == 0,
    ensures
        scan_lines(lines) == scan_start(),
        fasta_populations(lines) == Populations::empty(),
    decreases lines.len(),
{
    if lines.len() > 0 {
        lemma_empty_lines_hold_no_sequence(lines.drop_last());
    }
}

/// The counts of a scan never fall: what fits at the end has fitted all
/// along.
pub proof fn lemma_counts_grow(lines: Seq<Seq<char>>, n: int)
    requires
        0 <= n <= lines.len(),
        fasta_populations(lines).bases.fits(),
    ensures
        scan_lines(lines.take(n)).collected.bases.fits(),
        scan_end(scan_lines(lines.take(n))).bases.fits(),
    decreases lines.len() - n,
{
    if n < lines.len() {
        assert(lines.take(n + 1).drop_last() =~= lines.take(n));
        lemma_counts_grow(lines, n + 1);
        let before = scan_lines(lines.take(n));
        let line = lines.take(n + 1).last();
        if line.len() > 0 && !is_name_line(line) {
            crate::bases::lemma_composition_concat(before.data, line);
        }
    } else {
        assert(lines.take(n) =~= lines);
    }
}

/// The populations of a batch of sequences.
#[derive(Clone, Debug, PartialEq, Eq)]
pub struct FastaStats {
    /// The length of each sequence.
    pub scaffold_lens: Vec<usize>,
    /// The length of each sequence without its gap symbols.
    pub gapless_scaffold_lens: Vec<usize>,
    /// The lengths of the gap-free segments of all the sequences.
    pub ctg_lens: Vec<usize>,
    /// How often each symbol occurs in all the sequences.
    pub bases: Bases,
    /// A warning for each sequence that holds a character that is none of
    /// the five symbols.
    pub warnings: Vec<String>,
}

impl View for FastaStats {
    type V = Populations;

    open spec fn view(&self) -> Populations {
        Populations {
            bases: self.bases@,
            scaffold_lens: as_nats(self.scaffold_lens@),
            gapless_scaffold_lens: as_nats(self.gapless_scaffold_lens@),
            ctg_lens: as_nats(self.ctg_lens@),
            warnings: self.warnings.deep_view(),
        }
    }
}

impl FastaStats {
    /// Populations without a sequence.
    pub fn new() -> (stats: Self)
        ensures
            stats@ == Populations::empty(),
    {
        let stats = FastaStats {
            scaffold_lens: Vec::new(),
            gapless_scaffold_lens: Vec::new(),
            ctg_lens: Vec::new(),
            bases: Bases::new(),
            warnings: Vec::new(),
        };
        assert(stats@.scaffold_lens =~= Seq::empty());
        assert(stats@.warnings =~= Seq::empty());
        stats
    }

    /// Records one sequence, unless a count of symbols would no longer
    /// fit in a machine word: then nothing is recorded.
    pub fn record(&mut self, name: &str, data: &str) -> (recorded: bool)
        ensures
            recorded == old(self)@.record(name@, data@).bases.fits(),
            recorded ==> final(self)@ == old(self)@.record(name@, data@),
            !recorded ==> final(self)@ == old(self)@,
    {
        let ghost before = self@;
        match stat_seq(name, data, &mut self.bases) {
            None => false,
            Some(stat) => {
                let mut ctg_lens = stat.ctg_lens;
                let ghost mine = self.ctg_lens@;
                let ghost more = ctg_lens@;
                self.scaffold_lens.push(stat.scaffold_len);
                self.gapless_scaffold_lens.push(stat.gapless_scaffold_len);
                self.ctg_lens.append(&mut ctg_lens);
                match stat.warning {
                    Some(warning) => {
                        self.warnings.push(warning);
                    },
                    None => {},
                }
                proof {
                    let after = before.record(name@, data@);
                    assert(self@.scaffold_lens =~= after.scaffold_lens);
                    assert(self@.gapless_scaffold_lens =~= after.gapless_scaffold_lens);
                    assert(as_nats(mine + more) =~= as_nats(mine) + as_nats(more));
                    assert(self@.warnings =~= after.warnings);
                }
                true
            },
        }
    }
}

/// A scanner that takes the lines of a text one at a time.
pub struct FastaScanner {
    started: bool,
    name: String,
    data: String,
    collected: FastaStats,
}

impl View for FastaScanner {
    type V = Scan;

    closed spec fn view(&self) -> Scan {
        Scan {
            started: self.started,
            name: self.name@,
            data: self.data@,
            collected: self.collected@,
        }
    }
}

impl FastaScanner {
    /// A scanner before its first line.
    pub fn new() -> (scanner: Self)
        ensures
            scanner@ == scan_start(),
    {
        FastaScanner {
            started: false,
            name: String::new(),
            data: String::new(),
            collected: FastaStats::new(),
        }
    }

    /// Takes the next line of the text. Where a count of symbols would no
    /// longer fit in a machine word the line is not taken, and `false` is
    /// returned.
    pub fn feed(&mut self, line: &str) -> (taken: bool)
        ensures
            taken == scan_line(old(self)@, line@).collected.bases.fits(),
            taken ==> final(self)@ == scan_line(old(self)@, line@),
            !taken ==> final(self)@ == old(self)@,
    {
        match first_char(line) {
            None => true,
            Some(c) => {
                if c == NAME_MARK {
                    if !self.data.as_str().is_empty() {
                        if !self.collected.record(self.name.as_str(), self.data.as_str()) {
                            return false;
                        }
                    }
                    let n = line.unicode_len();
                    self.started = true;
                    self.name = line.substring_char(1, n).to_owned();
                    self.data = String::new();
                    true
                } else {
                    self.data.append(line);
                    true
                }
            },
        }
    }

    /// Ends the text: the sequence that was being read, if any, is
    /// recorded, and the populations are handed out. `None` where a count
    /// of symbols would not fit in a machine word.
    pub fn finish(self) -> (stats: Option<FastaStats>)
        ensures
            stats is Some <==> scan_end(self@).bases.fits(),
            stats matches Some(s) ==> s@ == scan_end(self@),
    {
        let mut collected = self.collected;
        if !self.started && self.data.as_str().is_empty() {
            return Some(collected);
        }
        if collected.record(self.name.as_str(), self.data.as_str()) {
            Some(collected)
        } else {
            None
        }
    }
}

/// Takes the statistics of the sequences of a text that is held in
/// memory, line by line. `None` where a count of symbols would not fit in
/// a machine word.
pub fn parse_fasta(lines: &Vec<String>) -> (stats: Option<FastaStats>)
    ensures
        stats is Some <==> fasta_populations(lines.deep_view()).bases.fits(),
        stats matches Some(s) ==> s@ == fasta_populations(lines.deep_view()),
{
    let ghost input = lines.deep_view();
    let mut scanner = FastaScanner::new();
    let mut i: usize = 0;
    while i < lines.len()
        invariant
            i <= lines.len(),
            input == lines.deep_view(),
            scanner@ == scan_lines(input.take(i as int)),
        decreases lines.len() - i,
    {
        assert(input.take(i + 1).drop_last() =~= input.take(i as int));
        if !scanner.feed(lines[i].as_str()) {
            proof {
                if fasta_populations(input).bases.fits() {
                    lemma_counts_grow(input, i + 1);
                }
            }
            return None;
        }
        i += 1;
    }
    assert(input.take(i as int) =~= input);
    scanner.finish()
}

} // verus!
