//! What holds of every run of the pair assembler: on a stream that is
//! grouped by mate it writes exactly the pairs that survive the filters,
//! and a record without its mate either ends the run or is dropped.

use crate::assembler::{
    emission_lines, emission_positions, lemma_done_is_final, lemma_error_iff_done,
    lemma_run_concat, run, run_from, step, Emission, Pending,
};
use crate::filter::{
    lemma_no_filter_keeps_all, lemma_single_end_keeps_more, pair_survives, with_single_end,
    FilterConfig,
};
use crate::record::{identifier, is_header, mapping_quality, FilterError};
use vstd::prelude::*;

verus! {

/// A unit of a stream that is grouped by mate: a header line, or the two
/// mates of a pair one after the other.
pub enum Block {
    /// A header line.
    Header(Seq<char>),
    /// The two mates of a pair.
    Pair(Seq<char>, Seq<char>),
}

/// The lines of a block.
pub open spec fn block_lines(block: Block) -> Seq<Seq<char>> {
    match block {
        Block::Header(h) => seq![h],
        Block::Pair(a, b) => seq![a, b],
    }
}

/// The stream that a sequence of blocks makes: their lines in order.
pub open spec fn stream_of(blocks: Seq<Block>) -> Seq<Seq<char>>
    decreases blocks.len(),
{
    if blocks.len() == 0 {
        Seq::empty()
    } else {
        stream_of(blocks.drop_last()) + block_lines(blocks.last())
    }
}

/// A block as it stands in a stream that is grouped by mate: a header
/// line begins with the header mark; the first mate of a pair does not,
/// and the two mates carry the same read identifier.
pub open spec fn grouped(block: Block) -> bool {
    match block {
        Block::Header(h) => is_header(h),
        Block::Pair(a, b) => !is_header(a) && identifier(a) == identifier(b),
    }
}

/// Whether the filters can decide a block: the fields that they read of a
/// pair are well formed.
pub open spec fn decided(cfg: FilterConfig, block: Block) -> bool {
    match block {
        Block::Header(_) => true,
        Block::Pair(a, b) => pair_survives(cfg, a, b) is Ok,
    }
}

/// Whether a block is written: a header line always, a pair when it
/// survives the filters.
pub open spec fn survives(cfg: FilterConfig, block: Block) -> bool {
    match block {
        Block::Header(_) => true,
        Block::Pair(a, b) => pair_survives(cfg, a, b) == Ok::<bool, FilterError>(true),
    }
}

/// The test by which the blocks that are written are picked.
pub open spec fn keeps(cfg: FilterConfig) -> spec_fn(Block) -> bool {
    |block: Block| survives(cfg, block)
}

/// Feeding one line is one transition.
pub proof fn lemma_run_one(cfg: FilterConfig, start: Pending, line: Seq<char>)
    ensures
        run_from(cfg, start, seq![line]).state == step(cfg, start, line).0,
        run_from(cfg, start, seq![line]).emitted == emission_lines(step(cfg, start, line).1),
        run_from(cfg, start, seq![line]).error == match step(cfg, start, line).1 {
            Emission::Abort(e) => Some(e),
            _ => None,
        },
{
    let lines = seq![line];
    assert(run_from(cfg, start, lines.drop_last()).state == start);
    assert(Seq::<Seq<char>>::empty() + emission_lines(step(cfg, start, line).1)
        =~= emission_lines(step(cfg, start, line).1));
}

/// Feeding a block that is grouped and can be decided writes the block if
/// it survives and nothing otherwise, and leaves no record behind.
pub proof fn lemma_run_block(cfg: FilterConfig, block: Block)
    requires
        grouped(block),
        decided(cfg, block),
    ensures
        run_from(cfg, Pending::AwaitingFirst, block_lines(block)).state == Pending::AwaitingFirst,
        run_from(cfg, Pending::AwaitingFirst, block_lines(block)).error is None,
        run_from(cfg, Pending::AwaitingFirst, block_lines(block)).emitted == if survives(
            cfg,
            block,
        ) {
            block_lines(block)
        } else {
            Seq::empty()
        },
{
    match block {
        Block::Header(h) => {
            lemma_run_one(cfg, Pending::AwaitingFirst, h);
        },
        Block::Pair(a, b) => {
            lemma_run_one(cfg, Pending::AwaitingFirst, a);
            lemma_run_one(cfg, Pending::HaveFirst(a), b);
            lemma_run_concat(cfg, Pending::AwaitingFirst, seq![a], seq![b]);
            assert(seq![a] + seq![b] =~= seq![a, b]);
        },
    }
}

/// Of a stream that is grouped by mate, with no record left without its
/// mate and every pair well formed, exactly the header lines and the
/// pairs that survive the filters are written, in their order and as they
/// came; no error is reported and no record is left over.
pub proof fn lemma_grouped_stream_is_filtered(cfg: FilterConfig, blocks: Seq<Block>)
    requires
        forall|i: int| 0 <= i < blocks.len() ==> grouped(#[trigger] blocks[i]) && decided(cfg, blocks[i]),
    ensures
        run(cfg, stream_of(blocks)).emitted == stream_of(blocks.filter(keeps(cfg))),
        run(cfg, stream_of(blocks)).error is None,
        run(cfg, stream_of(blocks)).state == Pending::AwaitingFirst,
    decreases blocks.len(),
{
    reveal(Seq::filter);
    if blocks.len() > 0 {
        let before = blocks.drop_last();
        let last = blocks.last();
        lemma_grouped_stream_is_filtered(cfg, before);
        lemma_run_concat(cfg, Pending::AwaitingFirst, stream_of(before), block_lines(last));
        lemma_run_block(cfg, last);
        let kept = before.filter(keeps(cfg));
        if survives(cfg, last) {
            assert(kept.push(last).drop_last() =~= kept);
        }
    }
}

/// With a mapping-quality cutoff of zero and no edit-distance cutoff the
/// filter changes nothing: a stream that is grouped by mate, with
/// mapping qualities that can be read, is written as it came.
pub proof fn lemma_no_filter_is_identity(cfg: FilterConfig, blocks: Seq<Block>)
    requires
        cfg.mapq_cutoff == 0,
        cfg.edit_distance_cutoff is None,
        forall|i: int| 0 <= i < blocks.len() ==> grouped(#[trigger] blocks[i]),
        forall|i: int|
            0 <= i < blocks.len() ==> (#[trigger] blocks[i] matches Block::Pair(a, b)
                ==> mapping_quality(a) is Ok && mapping_quality(b) is Ok),
    ensures
        run(cfg, stream_of(blocks)).emitted == stream_of(blocks),
        run(cfg, stream_of(blocks)).error is None,
    decreases blocks.len(),
{
    assert forall|i: int| 0 <= i < blocks.len() implies decided(cfg, #[trigger] blocks[i])
        && survives(cfg, blocks[i]) by {
        match blocks[i] {
            Block::Header(_) => {},
            Block::Pair(a, b) => {
                lemma_no_filter_keeps_all(cfg, a, b);
            },
        }
    }
    lemma_grouped_stream_is_filtered(cfg, blocks);
    lemma_filter_keeps_all(cfg, blocks);
}

/// Picking the blocks that are written changes nothing where every block
/// is written.
proof fn lemma_filter_keeps_all(cfg: FilterConfig, blocks: Seq<Block>)
    requires
        forall|i: int| 0 <= i < blocks.len() ==> survives(cfg, #[trigger] blocks[i]),
    ensures
        blocks.filter(keeps(cfg)) == blocks,
    decreases blocks.len(),
{
    reveal(Seq::filter);
    if blocks.len() > 0 {
        lemma_filter_keeps_all(cfg, blocks.drop_last());
    }
}

/// Single-end mode keeps every line that paired mode keeps, whatever the
/// stream: the two runs pass through the same states and end with the
/// same error, and each position that is written in paired mode is
/// written in single-end mode.
pub proof fn lemma_single_end_stream_keeps_more(cfg: FilterConfig, lines: Seq<Seq<char>>)
    ensures
        run(with_single_end(cfg, false), lines).state == run(
            with_single_end(cfg, true),
            lines,
        ).state,
        run(with_single_end(cfg, false), lines).error == run(
            with_single_end(cfg, true),
            lines,
        ).error,
        forall|k: int| #[trigger]
            run(with_single_end(cfg, false), lines).kept.contains(k) ==> run(
                with_single_end(cfg, true),
                lines,
            ).kept.contains(k),
    decreases lines.len(),
{
    let paired = with_single_end(cfg, false);
    let single = with_single_end(cfg, true);
    if lines.len() > 0 {
        let before = lines.drop_last();
        lemma_single_end_stream_keeps_more(cfg, before);
        let p0 = run(paired, before);
        let s0 = run(single, before);
        let i = lines.len() - 1;
        let (_, pe) = step(paired, p0.state, lines.last());
        let (_, se) = step(single, s0.state, lines.last());
        match p0.state {
            Pending::HaveFirst(first) => {
                lemma_single_end_keeps_more(cfg, first, lines.last());
            },
            _ => {},
        }
        let pp = emission_positions(pe, i);
        let sp = emission_positions(se, i);
        assert forall|k: int| #[trigger] pp.contains(k) implies sp.contains(k) by {}
        assert forall|k: int| #[trigger]
            run(paired, lines).kept.contains(k) implies run(single, lines).kept.contains(k) by {
            let j = choose|j: int| 0 <= j < (p0.kept + pp).len() && (p0.kept + pp)[j] == k;
            if j < p0.kept.len() {
                assert(p0.kept.contains(k));
                let m = choose|m: int| 0 <= m < s0.kept.len() && s0.kept[m] == k;
                assert((s0.kept + sp)[m] == k);
            } else {
                let m = choose|m: int| 0 <= m < sp.len() && sp[m] == k;
                assert((s0.kept + sp)[s0.kept.len() + m] == k);
            }
        }
    }
}

/// The positions that a run keeps are those of the lines that it writes:
/// they rise, each stands for one line of the input, and the line written
/// is that line. A record that is held is the last line of the input, and
/// has not been written.
pub proof fn lemma_kept_positions(cfg: FilterConfig, lines: Seq<Seq<char>>)
    ensures
        run(cfg, lines).kept.len() == run(cfg, lines).emitted.len(),
        forall|j: int|
            0 <= j < run(cfg, lines).kept.len() ==> 0 <= #[trigger] run(cfg, lines).kept[j]
                < lines.len() && run(cfg, lines).emitted[j] == lines[run(cfg, lines).kept[j]],
        forall|j: int, k: int|
            0 <= j < k < run(cfg, lines).kept.len() ==> run(cfg, lines).kept[j] < run(
                cfg,
                lines,
            ).kept[k],
        run(cfg, lines).state matches Pending::HaveFirst(first) ==> lines.len() > 0 && first
            == lines.last() && forall|j: int|
            0 <= j < run(cfg, lines).kept.len() ==> #[trigger] run(cfg, lines).kept[j]
                < lines.len() - 1,
    decreases lines.len(),
{
    if lines.len() > 0 {
        let before = lines.drop_last();
        lemma_kept_positions(cfg, before);
        let r = run(cfg, lines);
        assert forall|j: int| 0 <= j < r.kept.len() implies 0 <= #[trigger] r.kept[j]
            < lines.len() && r.emitted[j] == lines[r.kept[j]] by {}
        assert forall|j: int, k: int| 0 <= j < k < r.kept.len() implies r.kept[j] < r.kept[k] by {}
    }
}

/// Once a run has reported an error it writes nothing more, whatever
/// follows in the stream.
pub proof fn lemma_abort_is_final(cfg: FilterConfig, lines: Seq<Seq<char>>, n: int)
    requires
        0 <= n <= lines.len(),
        run(cfg, lines.take(n)).error is Some,
    ensures
        run(cfg, lines).emitted == run(cfg, lines.take(n)).emitted,
        run(cfg, lines).error == run(cfg, lines.take(n)).error,
        run(cfg, lines).state == Pending::Done,
{
    lemma_run_concat(cfg, Pending::AwaitingFirst, lines.take(n), lines.skip(n));
    lemma_error_iff_done(cfg, Pending::AwaitingFirst, lines.take(n));
    lemma_done_is_final(cfg, lines.skip(n));
    assert(lines.take(n) + lines.skip(n) =~= lines);
    assert(run(cfg, lines.take(n)).emitted + Seq::<Seq<char>>::empty() =~= run(
        cfg,
        lines.take(n),
    ).emitted);
}

/// Without singleton removal a record that is not followed by its mate
/// ends the run with an ordering violation: neither that record nor any
/// line behind it is written.
pub proof fn lemma_singleton_aborts(cfg: FilterConfig, lines: Seq<Seq<char>>, n: int)
    requires
        !cfg.remove_singletons,
        0 < n < lines.len(),
        run(cfg, lines.take(n)).state is HaveFirst,
        identifier(lines[n - 1]) != identifier(lines[n]),
    ensures
        run(cfg, lines).error == Some(FilterError::OrderingViolation),
        run(cfg, lines).emitted == run(cfg, lines.take(n)).emitted,
        forall|j: int|
            0 <= j < run(cfg, lines).kept.len() ==> #[trigger] run(cfg, lines).kept[j] < n - 1,
{
    let head = lines.take(n);
    let next = lines.take(n + 1);
    lemma_kept_positions(cfg, head);
    assert(next.drop_last() =~= head);
    lemma_abort_is_final(cfg, lines, n + 1);
    lemma_kept_is_final(cfg, lines, n + 1);
}

/// Once a run has reported an error it keeps no further position.
proof fn lemma_kept_is_final(cfg: FilterConfig, lines: Seq<Seq<char>>, n: int)
    requires
        0 <= n <= lines.len(),
        run(cfg, lines.take(n)).error is Some,
    ensures
        run(cfg, lines).kept == run(cfg, lines.take(n)).kept,
    decreases lines.len() - n,
{
    if n < lines.len() {
        let next = lines.take(n + 1);
        assert(next.drop_last() =~= lines.take(n));
        lemma_error_iff_done(cfg, Pending::AwaitingFirst, lines.take(n));
        lemma_kept_is_final(cfg, lines, n + 1);
    } else {
        assert(lines.take(n) =~= lines);
    }
}

/// With singleton removal a record that is not followed by its mate is
/// dropped, and the run goes on as if the record had not been in the
/// stream: the record behind it is taken as the first of the next pair.
pub proof fn lemma_singleton_is_dropped(
    cfg: FilterConfig,
    head: Seq<Seq<char>>,
    singleton: Seq<char>,
    tail: Seq<Seq<char>>,
)
    requires
        cfg.remove_singletons,
        run(cfg, head).state == Pending::AwaitingFirst,
        !is_header(singleton),
        tail.len() > 0,
        !is_header(tail[0]),
        identifier(singleton) != identifier(tail[0]),
    ensures
        run(cfg, head + seq![singleton] + tail).emitted == run(cfg, head + tail).emitted,
        run(cfg, head + seq![singleton] + tail).error == run(cfg, head + tail).error,
        run(cfg, head + seq![singleton] + tail).state == run(cfg, head + tail).state,
{
    let next = tail[0];
    let rest = tail.skip(1);
    assert(seq![next] + rest =~= tail);
    // with the singleton: it is held, then replaced by the record behind it
    lemma_run_concat(cfg, Pending::AwaitingFirst, head + seq![singleton], tail);
    lemma_run_concat(cfg, Pending::AwaitingFirst, head, seq![singleton]);
    lemma_run_one(cfg, Pending::AwaitingFirst, singleton);
    lemma_run_concat(cfg, Pending::HaveFirst(singleton), seq![next], rest);
    lemma_run_one(cfg, Pending::HaveFirst(singleton), next);
    // without it: the record behind it is held at once
    lemma_run_concat(cfg, Pending::AwaitingFirst, head, tail);
    lemma_run_concat(cfg, Pending::AwaitingFirst, seq![next], rest);
    lemma_run_one(cfg, Pending::AwaitingFirst, next);
    lemma_error_iff_done(cfg, Pending::AwaitingFirst, head);
}

} // verus!
