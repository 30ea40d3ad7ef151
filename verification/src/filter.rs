//! The filters that decide whether a pair of mates is kept: the
//! edit-distance filter first, then the mapping-quality filter.

use crate::record::{
    edit_distance_text, edit_distance_value, find_edit_distance, mapping_quality,
    read_edit_distance, read_mapping_quality, FilterError,
};
use crate::text::to_chars;
use vstd::prelude::*;

verus! {

/// The settings of a filter run, fixed when it starts.
#[derive(Clone, Copy, Debug, PartialEq, Eq)]
pub struct FilterConfig {
    /// Mapping-quality cutoff.
    pub mapq_cutoff: u8,
    /// Keep a pair when either mate reaches the cutoff; by default both
    /// mates must reach it.
    pub single_end: bool,
    /// Edit-distance cutoff: a pair is removed when a mate reaches it.
    pub edit_distance_cutoff: Option<u32>,
    /// Leave out the records that are marked as duplicates when the
    /// stream is read.
    pub remove_duplicates: bool,
    /// Drop a record without its mate instead of giving up.
    pub remove_singletons: bool,
}

/// Whether the mapping qualities of two mates clear the cutoff: one of
/// them suffices in single-end mode, both are needed otherwise.
pub open spec fn mapq_passes(cfg: FilterConfig, q1: u8, q2: u8) -> bool {
    if cfg.single_end {
        q1 >= cfg.mapq_cutoff || q2 >= cfg.mapq_cutoff
    } else {
        q1 >= cfg.mapq_cutoff && q2 >= cfg.mapq_cutoff
    }
}

/// Whether the edit distances of two mates have the pair removed: one of
/// them reaches the cutoff.
pub open spec fn edit_distance_rejects(cutoff: u32, nm1: u32, nm2: u32) -> bool {
    nm1 >= cutoff || nm2 >= cutoff
}

/// What the edit-distance filter says of a pair of records: `Ok(true)`
/// when it removes the pair. Without a cutoff, or when a mate carries no
/// tag, the filter is passed over and the tags are not read.
pub open spec fn edit_distance_verdict(cfg: FilterConfig, first: Seq<char>, second: Seq<char>)
    -> Result<bool, FilterError> {
    match cfg.edit_distance_cutoff {
        None => Ok(false),
        Some(cutoff) => match (edit_distance_text(first), edit_distance_text(second)) {
            (Some(t1), Some(t2)) => match edit_distance_value(t1) {
                Err(e) => Err(e),
                Ok(nm1) => match edit_distance_value(t2) {
                    Err(e) => Err(e),
                    Ok(nm2) => Ok(edit_distance_rejects(cutoff, nm1, nm2)),
                },
            },
            _ => Ok(false),
        },
    }
}

/// What the mapping-quality filter says of a pair of records: `Ok(true)`
/// when the pair passes.
pub open spec fn mapq_verdict(cfg: FilterConfig, first: Seq<char>, second: Seq<char>) -> Result<
    bool,
    FilterError,
> {
    match mapping_quality(first) {
        Err(e) => Err(e),
        Ok(q1) => match mapping_quality(second) {
            Err(e) => Err(e),
            Ok(q2) => Ok(mapq_passes(cfg, q1, q2)),
        },
    }
}

/// Whether a pair of mates survives all the filters that are switched on.
/// The mapping qualities are read only of a pair that the edit-distance
/// filter has let through.
pub open spec fn pair_survives(cfg: FilterConfig, first: Seq<char>, second: Seq<char>) -> Result<
    bool,
    FilterError,
> {
    match edit_distance_verdict(cfg, first, second) {
        Err(e) => Err(e),
        Ok(true) => Ok(false),
        Ok(false) => mapq_verdict(cfg, first, second),
    }
}

/// A pair of records of which every field that the filters read is well
/// formed, whatever the settings.
pub open spec fn well_formed_pair(first: Seq<char>, second: Seq<char>) -> bool {
    &&& mapping_quality(first) is Ok
    &&& mapping_quality(second) is Ok
    &&& edit_distance_text(first) matches Some(t) ==> edit_distance_value(t) is Ok
    &&& edit_distance_text(second) matches Some(t) ==> edit_distance_value(t) is Ok
}

/// The settings `cfg` with the single-end mode switched on or off.
pub open spec fn with_single_end(cfg: FilterConfig, single_end: bool) -> FilterConfig {
    FilterConfig { single_end, ..cfg }
}

/// Single-end mode keeps every pair that paired mode keeps, and the two
/// modes fail on the same pairs with the same error.
pub proof fn lemma_single_end_keeps_more(cfg: FilterConfig, first: Seq<char>, second: Seq<char>)
    ensures
        pair_survives(with_single_end(cfg, false), first, second) == Ok::<bool, FilterError>(true)
            ==> pair_survives(with_single_end(cfg, true), first, second) == Ok::<
            bool,
            FilterError,
        >(true),
        pair_survives(with_single_end(cfg, false), first, second) is Err <==> pair_survives(
            with_single_end(cfg, true),
            first,
            second,
        ) is Err,
        pair_survives(with_single_end(cfg, false), first, second) is Err ==> pair_survives(
            with_single_end(cfg, false),
            first,
            second,
        ) == pair_survives(with_single_end(cfg, true), first, second),
{
}

/// With a cutoff of zero and no edit-distance cutoff every pair survives
/// whose mapping qualities can be read.
pub proof fn lemma_no_filter_keeps_all(cfg: FilterConfig, first: Seq<char>, second: Seq<char>)
    requires
        cfg.mapq_cutoff == 0,
        cfg.edit_distance_cutoff is None,
        mapping_quality(first) is Ok,
        mapping_quality(second) is Ok,
    ensures
        pair_survives(cfg, first, second) == Ok::<bool, FilterError>(true),
{
}

/// A well-formed pair is decided without an error.
pub proof fn lemma_well_formed_pair_is_decided(
    cfg: FilterConfig,
    first: Seq<char>,
    second: Seq<char>,
)
    requires
        well_formed_pair(first, second),
    ensures
        pair_survives(cfg, first, second) is Ok,
{
}

/// Applies the mapping-quality filter to the qualities of two mates.
pub fn passes_mapping_quality(cfg: &FilterConfig, q1: u8, q2: u8) -> (keep: bool)
    ensures
        keep == mapq_passes(*cfg, q1, q2),
{
    if cfg.single_end {
        q1 >= cfg.mapq_cutoff || q2 >= cfg.mapq_cutoff
    } else {
        q1 >= cfg.mapq_cutoff && q2 >= cfg.mapq_cutoff
    }
}

/// Applies the edit-distance filter to a pair of records.
pub fn check_edit_distance(cfg: &FilterConfig, first: &[char], second: &[char]) -> (r: Result<
    bool,
    FilterError,
>)
    ensures
        r == edit_distance_verdict(*cfg, first@, second@),
{
    let cutoff = match cfg.edit_distance_cutoff {
        None => {
            return Ok(false);
        },
        Some(cutoff) => cutoff,
    };
    let (a1, e1) = match find_edit_distance(first) {
        None => {
            return Ok(false);
        },
        Some(range) => range,
    };
    let (a2, e2) = match find_edit_distance(second) {
        None => {
            return Ok(false);
        },
        Some(range) => range,
    };
    let nm1 = match read_edit_distance(first, a1, e1) {
        Err(e) => {
            return Err(e);
        },
        Ok(nm) => nm,
    };
    let nm2 = match read_edit_distance(second, a2, e2) {
        Err(e) => {
            return Err(e);
        },
        Ok(nm) => nm,
    };
    Ok(nm1 >= cutoff || nm2 >= cutoff)
}

/// Applies the mapping-quality filter to a pair of records.
pub fn check_mapping_quality(cfg: &FilterConfig, first: &[char], second: &[char]) -> (r: Result<
    bool,
    FilterError,
>)
    ensures
        r == mapq_verdict(*cfg, first@, second@),
{
    let q1 = match read_mapping_quality(first) {
        Err(e) => {
            return Err(e);
        },
        Ok(q) => q,
    };
    let q2 = match read_mapping_quality(second) {
        Err(e) => {
            return Err(e);
        },
        Ok(q) => q,
    };
    Ok(passes_mapping_quality(cfg, q1, q2))
}

/// Decides whether a pair of mates survives the filters.
pub fn decide_pair(cfg: &FilterConfig, first: &[char], second: &[char]) -> (r: Result<
    bool,
    FilterError,
>)
    ensures
        r == pair_survives(*cfg, first@, second@),
{
    match check_edit_distance(cfg, first, second) {
        Err(e) => Err(e),
        Ok(true) => Ok(false),
        Ok(false) => check_mapping_quality(cfg, first, second),
    }
}

/// Decides whether a pair of mates, given as lines of text, survives the
/// filters.
pub fn pair_passes(cfg: &FilterConfig, first: &str, second: &str) -> (r: Result<
    bool,
    FilterError,
>)
    ensures
        r == pair_survives(*cfg, first@, second@),
{
    let first_chars = to_chars(first);
    let second_chars = to_chars(second);
    decide_pair(cfg, first_chars.as_slice(), second_chars.as_slice())
}

} // verus!
