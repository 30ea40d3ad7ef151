//! The pair assembler: a state machine that takes the lines of a
//! name-grouped alignment stream one at a time, passes header lines
//! through, groups records into mate pairs and emits the pairs that
//! survive the filters.

use crate::filter::{decide_pair, pair_survives, FilterConfig};
use crate::record::{identifier, is_header, same_identifier, FilterError, HEADER_MARK};
use crate::text::{first_char, to_chars};
use vstd::prelude::*;

verus! {

/// What the assembler holds between two lines.
pub enum Pending {
    /// No record is held: the next line is a header line or the first
    /// record of a pair.
    AwaitingFirst,
    /// The first record of a candidate pair is held: the next line is
    /// taken as its mate.
    HaveFirst(Seq<char>),
    /// A fatal error has ended the run: no further line is looked at.
    Done,
}

/// What the assembler hands out for one line.
pub enum Emission {
    /// Nothing is written.
    Nothing,
    /// A header line, to be written as it came.
    Header(Seq<char>),
    /// The two mates of a surviving pair, to be written in this order.
    Pair(Seq<char>, Seq<char>),
    /// The run is over: the error is fatal.
    Abort(FilterError),
}

/// The transition of the assembler: the state and the line it is given
/// decide the next state and what is handed out.
///
/// A record whose identifier differs from that of the record held is not
/// its mate. With singleton removal the record held is dropped and the
/// new one is held in its place; without it the run is over.
pub open spec fn step(cfg: FilterConfig, state: Pending, line: Seq<char>) -> (Pending, Emission) {
    match state {
        Pending::Done => (Pending::Done, Emission::Nothing),
        Pending::AwaitingFirst => if is_header(line) {
            (Pending::AwaitingFirst, Emission::Header(line))
        } else {
            (Pending::HaveFirst(line), Emission::Nothing)
        },
        Pending::HaveFirst(first) => if identifier(first) != identifier(line) {
            if cfg.remove_singletons {
                (Pending::HaveFirst(line), Emission::Nothing)
            } else {
                (Pending::Done, Emission::Abort(FilterError::OrderingViolation))
            }
        } else {
            match pair_survives(cfg, first, line) {
                Err(e) => (Pending::Done, Emission::Abort(e)),
                Ok(true) => (Pending::AwaitingFirst, Emission::Pair(first, line)),
                Ok(false) => (Pending::AwaitingFirst, Emission::Nothing),
            }
        },
    }
}

/// The lines that an emission writes.
pub open spec fn emission_lines(e: Emission) -> Seq<Seq<char>> {
    match e {
        Emission::Header(h) => seq![h],
        Emission::Pair(a, b) => seq![a, b],
        _ => Seq::empty(),
    }
}

/// The positions in the input of the lines that an emission writes, when
/// it is handed out for the line at position `i`: a record held is always
/// the line before.
pub open spec fn emission_positions(e: Emission, i: int) -> Seq<int> {
    match e {
        Emission::Header(_) => seq![i],
        Emission::Pair(_, _) => seq![i - 1, i],
        _ => Seq::empty(),
    }
}

/// Where a run stands after some lines.
pub struct Outcome {
    /// The state of the assembler.
    pub state: Pending,
    /// The lines written so far, in the order in which they were written.
    pub emitted: Seq<Seq<char>>,
    /// The positions in the input of the lines written so far.
    pub kept: Seq<int>,
    /// The error that ended the run, if one did.
    pub error: Option<FilterError>,
}

/// The outcome of feeding `lines` to an assembler that starts in state
/// `start`.
pub open spec fn run_from(cfg: FilterConfig, start: Pending, lines: Seq<Seq<char>>) -> Outcome
    decreases lines.len(),
{
    if lines.len() == 0 {
        Outcome { state: start, emitted: Seq::empty(), kept: Seq::empty(), error: None }
    } else {
        let before = run_from(cfg, start, lines.drop_last());
        let (state, emission) = step(cfg, before.state, lines.last());
        Outcome {
            state,
            emitted: before.emitted + emission_lines(emission),
            kept: before.kept + emission_positions(emission, lines.len() - 1),
            error: match emission {
                Emission::Abort(e) => Some(e),
                _ => before.error,
            },
        }
    }
}

/// The outcome of filtering a whole stream.
pub open spec fn run(cfg: FilterConfig, lines: Seq<Seq<char>>) -> Outcome {
    run_from(cfg, Pending::AwaitingFirst, lines)
}

/// The three situations in which an assembler can be.
#[derive(Clone, Copy, Debug, PartialEq, Eq, Structural)]
pub enum Phase {
    /// No record is held.
    AwaitingFirst,
    /// The first record of a candidate pair is held.
    HaveFirstAwaitingSecond,
    /// A fatal error has ended the run.
    Done,
}

/// What `PairAssembler::feed` hands out for one line.
#[derive(Clone, Debug, PartialEq, Eq)]
pub enum Step {
    /// Nothing is to be written.
    Nothing,
    /// A header line, to be written as it came.
    Header(String),
    /// The two mates of a surviving pair, to be written in this order.
    Pair(String, String),
    /// The run is over: the error is fatal.
    Abort(FilterError),
}

impl View for Step {
    type V = Emission;

    open spec fn view(&self) -> Emission {
        match self {
            Step::Nothing => Emission::Nothing,
            Step::Header(h) => Emission::Header(h@),
            Step::Pair(a, b) => Emission::Pair(a@, b@),
            Step::Abort(e) => Emission::Abort(*e),
        }
    }
}

/// A pair assembler. It holds at most one line at a time.
pub struct PairAssembler {
    config: FilterConfig,
    held: Option<String>,
    done: bool,
}

/// Tells whether a line is a header line.
pub fn is_header_line(line: &str) -> (b: bool)
    ensures
        b == is_header(line@),
{
    match first_char(line) {
        Some(c) => c == HEADER_MARK,
        None => false,
    }
}

impl PairAssembler {
    /// The settings that the assembler was made with.
    pub closed spec fn config(&self) -> FilterConfig {
        self.config
    }

    /// The state of the assembler.
    pub closed spec fn state(&self) -> Pending {
        if self.done {
            Pending::Done
        } else {
            match self.held {
                Some(first) => Pending::HaveFirst(first@),
                None => Pending::AwaitingFirst,
            }
        }
    }

    /// An assembler at the start of a stream.
    pub fn new(config: FilterConfig) -> (assembler: Self)
        ensures
            assembler.config() == config,
            assembler.state() == Pending::AwaitingFirst,
    {
        PairAssembler { config, held: None, done: false }
    }

    /// The situation in which the assembler is.
    pub fn phase(&self) -> (phase: Phase)
        ensures
            phase == match self.state() {
                Pending::AwaitingFirst => Phase::AwaitingFirst,
                Pending::HaveFirst(_) => Phase::HaveFirstAwaitingSecond,
                Pending::Done => Phase::Done,
            },
    {
        if self.done {
            Phase::Done
        } else if self.held.is_some() {
            Phase::HaveFirstAwaitingSecond
        } else {
            Phase::AwaitingFirst
        }
    }

    /// Takes the next line of the stream and says what is to be written.
    pub fn feed(&mut self, line: String) -> (out: Step)
        ensures
            final(self).config() == old(self).config(),
            (final(self).state(), out@) == step(old(self).config(), old(self).state(), line@),
    {
        if self.done {
            return Step::Nothing;
        }
        match self.held.take() {
            None => {
                if is_header_line(line.as_str()) {
                    Step::Header(line)
                } else {
                    self.held = Some(line);
                    Step::Nothing
                }
            },
            Some(first) => {
                let first_chars = to_chars(first.as_str());
                let line_chars = to_chars(line.as_str());
                if !same_identifier(first_chars.as_slice(), line_chars.as_slice()) {
                    if self.config.remove_singletons {
                        self.held = Some(line);
                        Step::Nothing
                    } else {
                        self.done = true;
                        Step::Abort(FilterError::OrderingViolation)
                    }
                } else {
                    match decide_pair(&self.config, first_chars.as_slice(), line_chars.as_slice()) {
                        Err(e) => {
                            self.done = true;
                            Step::Abort(e)
                        },
                        Ok(true) => Step::Pair(first, line),
                        Ok(false) => Step::Nothing,
                    }
                }
            },
        }
    }

    /// Ends the stream. A record that is still held has no mate: it is
    /// handed back and not written.
    pub fn finish(self) -> (unpaired: Option<String>)
        ensures
            match self.state() {
                Pending::HaveFirst(first) => unpaired matches Some(s) && s@ == first,
                _ => unpaired is None,
            },
    {
        if self.done {
            None
        } else {
            self.held
        }
    }
}

/// What filtering a whole stream has given.
#[derive(Clone, Debug, PartialEq, Eq)]
pub struct FilterRun {
    /// The lines written, in the order in which they were written.
    pub emitted: Vec<String>,
    /// The error that ended the run, if one did.
    pub error: Option<FilterError>,
    /// The record that was left without a mate when the stream ended.
    pub unpaired: Option<String>,
}

/// Filters a whole stream that is held in memory: its header lines and
/// the pairs that survive come out in their order and as they went in.
/// After a fatal error nothing more is looked at.
pub fn parse_bam(config: FilterConfig, lines: &Vec<String>) -> (result: FilterRun)
    ensures
        result.emitted.deep_view() == run(config, lines.deep_view()).emitted,
        result.error == run(config, lines.deep_view()).error,
        match run(config, lines.deep_view()).state {
            Pending::HaveFirst(first) => result.unpaired matches Some(s) && s@ == first,
            _ => result.unpaired is None,
        },
{
    let ghost input = lines.deep_view();
    let mut assembler = PairAssembler::new(config);
    let mut emitted: Vec<String> = Vec::new();
    let mut i: usize = 0;
    while i < lines.len()
        invariant
            i <= lines.len(),
            input == lines.deep_view(),
            assembler.config() == config,
            assembler.state() == run(config, input.take(i as int)).state,
            emitted.deep_view() == run(config, input.take(i as int)).emitted,
            run(config, input.take(i as int)).error is None,
        decreases lines.len() - i,
    {
        assert(input.take(i + 1).drop_last() =~= input.take(i as int));
        let out = assembler.feed(lines[i].clone());
        i += 1;
        match out {
            Step::Nothing => {},
            Step::Header(header) => {
                emitted.push(header);
            },
            Step::Pair(first, second) => {
                emitted.push(first);
                emitted.push(second);
            },
            Step::Abort(e) => {
                proof {
                    lemma_run_concat(
                        config,
                        Pending::AwaitingFirst,
                        input.take(i as int),
                        input.skip(i as int),
                    );
                    lemma_done_is_final(config, input.skip(i as int));
                    assert(input.take(i as int) + input.skip(i as int) =~= input);
                }
                return FilterRun { emitted, error: Some(e), unpaired: None };
            },
        }
    }
    assert(input.take(i as int) =~= input);
    let unpaired = assembler.finish();
    FilterRun { emitted, error: None, unpaired }
}

/// An assembler that has given up stays so: it writes nothing more.
pub proof fn lemma_done_is_final(cfg: FilterConfig, lines: Seq<Seq<char>>)
    ensures
        run_from(cfg, Pending::Done, lines) == (Outcome {
            state: Pending::Done,
            emitted: Seq::empty(),
            kept: Seq::empty(),
            error: None,
        }),
    decreases lines.len(),
{
    if lines.len() > 0 {
        lemma_done_is_final(cfg, lines.drop_last());
    }
}

/// A run reports an error exactly when it ends in the state `Done`,
/// unless it started there.
pub proof fn lemma_error_iff_done(cfg: FilterConfig, start: Pending, lines: Seq<Seq<char>>)
    requires
        start != Pending::Done,
    ensures
        run_from(cfg, start, lines).error is Some <==> run_from(cfg, start, lines).state
            == Pending::Done,
    decreases lines.len(),
{
    if lines.len() > 0 {
        lemma_error_iff_done(cfg, start, lines.drop_last());
    }
}

/// Feeding two stretches of lines one after the other is feeding them
/// joined: the second run goes on where the first one stopped.
pub proof fn lemma_run_concat(
    cfg: FilterConfig,
    start: Pending,
    head: Seq<Seq<char>>,
    tail: Seq<Seq<char>>,
)
    requires
        start != Pending::Done,
    ensures
        ({
            let first = run_from(cfg, start, head);
            let second = run_from(cfg, first.state, tail);
            let whole = run_from(cfg, start, head + tail);
            &&& whole.state == second.state
            &&& whole.emitted == first.emitted + second.emitted
            &&& whole.error == if first.error is Some {
                first.error
            } else {
                second.error
            }
        }),
    decreases tail.len(),
{
    let first = run_from(cfg, start, head);
    if tail.len() > 0 {
        lemma_run_concat(cfg, start, head, tail.drop_last());
        assert((head + tail).drop_last() =~= head + tail.drop_last());
        let second_before = run_from(cfg, first.state, tail.drop_last());
        let (state, emission) = step(cfg, second_before.state, tail.last());
        assert(first.emitted + (second_before.emitted + emission_lines(emission)) =~= (
        first.emitted + second_before.emitted) + emission_lines(emission));
        lemma_error_iff_done(cfg, start, head);
        if first.error is Some {
            lemma_done_is_final(cfg, tail.drop_last());
        }
    }
}

} // verus!
