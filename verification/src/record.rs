//! Lines of a tab-delimited alignment stream: header lines, and the fields
//! of an alignment record that the pair filter reads.

use crate::text::{
    all_digits, field, find_field, find_separator, is_digit, next_separator, parse_decimal,
    parse_unsigned, to_chars,
};
use vstd::prelude::*;

verus! {

/// The first character of a header line.
pub const HEADER_MARK: char = '@';

/// Position of the mapping-quality field among the fields of a record,
/// counted from zero.
pub const MAPQ_FIELD: usize = 4;

/// The largest mapping quality.
pub const MAX_MAPQ: u64 = 255;

/// The largest edit distance that can be represented.
pub const MAX_EDIT_DISTANCE: u64 = 0xffff_ffff;

/// Number of characters in the marker `NM:i:` that introduces the
/// edit-distance tag.
pub const TAG_MARKER_LEN: usize = 5;

/// Why a stream cannot be filtered any further.
#[derive(Clone, Copy, Debug, PartialEq, Eq, Structural)]
pub enum FilterError {
    /// Two consecutive records carry different read identifiers, and
    /// singletons are not to be removed: the stream is sorted by
    /// coordinate, or holds reads without their mates.
    OrderingViolation,
    /// A record has fewer than five fields.
    MissingMappingQuality,
    /// The mapping-quality field is not an integer from 0 to 255.
    MalformedMappingQuality,
    /// The digits of an edit-distance tag exceed the largest 32-bit value.
    MalformedEditDistance,
}

/// Whether a line is a header line: its first character is `@`.
pub open spec fn is_header(line: Seq<char>) -> bool {
    line.len() > 0 && line[0] == HEADER_MARK
}

/// The read identifier of a record: its first field.
pub open spec fn identifier(line: Seq<char>) -> Seq<char> {
    line.subrange(0, next_separator(line, 0))
}

/// The mapping quality of a record: its fifth field, read as a numeral.
pub open spec fn mapping_quality(line: Seq<char>) -> Result<u8, FilterError> {
    match field(line, MAPQ_FIELD as nat) {
        None => Err(FilterError::MissingMappingQuality),
        Some(text) => match parse_unsigned(text, MAX_MAPQ as nat) {
            Some(q) => Ok(q as u8),
            None => Err(FilterError::MalformedMappingQuality),
        },
    }
}

/// Whether an edit-distance tag begins at position `p` of `line`: the
/// marker `NM:i:` stands there, followed by at least one of the digits
/// `0` to `9`. No other character counts as a digit, whatever script it
/// belongs to.
pub open spec fn tag_at(line: Seq<char>, p: int) -> bool {
    &&& 0 <= p
    &&& p + TAG_MARKER_LEN < line.len()
    &&& line[p] == 'N'
    &&& line[p + 1] == 'M'
    &&& line[p + 2] == ':'
    &&& line[p + 3] == 'i'
    &&& line[p + 4] == ':'
    &&& is_digit(line[p + 5])
}

/// Position of the first edit-distance tag at or after `from`.
pub open spec fn first_tag_from(line: Seq<char>, from: int) -> Option<int>
    decreases line.len() - from,
{
    if from + TAG_MARKER_LEN >= line.len() {
        None
    } else if tag_at(line, from) {
        Some(from)
    } else {
        first_tag_from(line, from + 1)
    }
}

/// Index of the first character at or after `from` that is not a digit,
/// or `line.len()` when only digits follow.
pub open spec fn digits_end(line: Seq<char>, from: int) -> int
    decreases line.len() - from,
{
    if from >= line.len() {
        line.len() as int
    } else if !is_digit(line[from]) {
        from
    } else {
        digits_end(line, from + 1)
    }
}

/// The digits of the first edit-distance tag of a line, wherever in the
/// line it stands: the longest run of digits behind the first marker that
/// a digit follows. `None` when the line has no such tag.
pub open spec fn edit_distance_text(line: Seq<char>) -> Option<Seq<char>> {
    match first_tag_from(line, 0) {
        Some(p) => Some(line.subrange(p + TAG_MARKER_LEN, digits_end(line, p + TAG_MARKER_LEN))),
        None => None,
    }
}

/// The value of an edit-distance tag, given its digits.
pub open spec fn edit_distance_value(digits: Seq<char>) -> Result<u32, FilterError> {
    match parse_unsigned(digits, MAX_EDIT_DISTANCE as nat) {
        Some(v) => Ok(v as u32),
        None => Err(FilterError::MalformedEditDistance),
    }
}

/// The first tag found is the leftmost one.
pub proof fn lemma_first_tag_is_leftmost(line: Seq<char>, from: int)
    requires
        0 <= from,
    ensures
        match first_tag_from(line, from) {
            Some(p) => from <= p && tag_at(line, p) && forall|q: int|
                from <= q < p ==> !tag_at(line, q),
            None => forall|q: int| from <= q ==> !tag_at(line, q),
        },
    decreases line.len() - from,
{
    if from + TAG_MARKER_LEN < line.len() && !tag_at(line, from) {
        lemma_first_tag_is_leftmost(line, from + 1);
    }
}

/// The digits of a tag are a run of digits that cannot be extended.
pub proof fn lemma_digits_end(line: Seq<char>, from: int)
    requires
        0 <= from <= line.len(),
    ensures
        from <= digits_end(line, from) <= line.len(),
        all_digits(line.subrange(from, digits_end(line, from))),
        digits_end(line, from) < line.len() ==> !is_digit(line[digits_end(line, from)]),
    decreases line.len() - from,
{
    if from < line.len() && is_digit(line[from]) {
        lemma_digits_end(line, from + 1);
        let e = digits_end(line, from);
        assert forall|i: int| 0 <= i < e - from implies is_digit(
            #[trigger] line.subrange(from, e)[i],
        ) by {
            if i > 0 {
                assert(line.subrange(from, e)[i] == line.subrange(from + 1, e)[i - 1]);
            }
        }
    }
}

impl FilterError {
    /// The diagnosis shown to the user.
    pub open spec fn message_text(self) -> Seq<char> {
        match self {
            FilterError::OrderingViolation =>
                "BAM may be coord-sorted or has singletons. Sort it by read name or try --remove-singletons"@,
            FilterError::MissingMappingQuality =>
                "an alignment record has fewer than five fields, so no mapping quality"@,
            FilterError::MalformedMappingQuality =>
                "the mapping quality of an alignment record is not an integer from 0 to 255"@,
            FilterError::MalformedEditDistance =>
                "the edit distance of an alignment record does not fit in 32 bits"@,
        }
    }

    /// A diagnosis of the error that tells the user how to remedy it.
    pub fn message(&self) -> (s: String)
        ensures
            s@ == self.message_text(),
    {
        match self {
            FilterError::OrderingViolation =>
                "BAM may be coord-sorted or has singletons. Sort it by read name or try --remove-singletons".to_owned(),
            FilterError::MissingMappingQuality =>
                "an alignment record has fewer than five fields, so no mapping quality".to_owned(),
            FilterError::MalformedMappingQuality =>
                "the mapping quality of an alignment record is not an integer from 0 to 255".to_owned(),
            FilterError::MalformedEditDistance =>
                "the edit distance of an alignment record does not fit in 32 bits".to_owned(),
        }
    }
}

/// Tells whether two records carry the same read identifier.
pub fn same_identifier(a: &[char], b: &[char]) -> (same: bool)
    ensures
        same == (identifier(a@) == identifier(b@)),
{
    let ea = find_separator(a, 0);
    let eb = find_separator(b, 0);
    if ea != eb {
        return false;
    }
    let mut i: usize = 0;
    while i < ea
        invariant
            i <= ea,
            ea == eb,
            ea <= a@.len(),
            eb <= b@.len(),
            ea == next_separator(a@, 0),
            eb == next_separator(b@, 0),
            forall|j: int| 0 <= j < i ==> a@[j] == b@[j],
        decreases ea - i,
    {
        if a[i] != b[i] {
            assert(identifier(a@)[i as int] != identifier(b@)[i as int]);
            return false;
        }
        i += 1;
    }
    assert(identifier(a@) =~= identifier(b@));
    true
}

/// Reads the mapping quality of a record.
pub fn read_mapping_quality(line: &[char]) -> (r: Result<u8, FilterError>)
    ensures
        r == mapping_quality(line@),
{
    match find_field(line, MAPQ_FIELD) {
        None => Err(FilterError::MissingMappingQuality),
        Some((a, e)) => match parse_decimal(line, a, e, MAX_MAPQ) {
            Some(q) => Ok(q as u8),
            None => Err(FilterError::MalformedMappingQuality),
        },
    }
}

/// Tells whether an edit-distance tag begins at position `p`.
fn tag_begins(line: &[char], p: usize) -> (b: bool)
    requires
        p + TAG_MARKER_LEN < line@.len(),
    ensures
        b == tag_at(line@, p as int),
{
    line[p] == 'N' && line[p + 1] == 'M' && line[p + 2] == ':' && line[p + 3] == 'i' && line[p
        + 4] == ':' && line[p + 5] >= '0' && line[p + 5] <= '9'
}

/// Locates the digits of the first edit-distance tag of a line: the
/// half-open range of indices that they occupy.
pub fn find_edit_distance(line: &[char]) -> (r: Option<(usize, usize)>)
    ensures
        match r {
            Some((a, e)) => a < e <= line@.len() && edit_distance_text(line@) == Some(
                line@.subrange(a as int, e as int),
            ),
            None => edit_distance_text(line@) is None,
        },
{
    let n = line.len();
    if n <= TAG_MARKER_LEN {
        return None;
    }
    let mut p: usize = 0;
    while p + TAG_MARKER_LEN < n
        invariant
            n == line@.len(),
            p + TAG_MARKER_LEN <= n,
            first_tag_from(line@, 0) == first_tag_from(line@, p as int),
        decreases n - p,
    {
        if tag_begins(line, p) {
            let a = p + TAG_MARKER_LEN;
            let mut e: usize = a + 1;
            while e < n && line[e] >= '0' && line[e] <= '9'
                invariant
                    a < e <= n,
                    n == line@.len(),
                    is_digit(line@[a as int]),
                    digits_end(line@, a as int) == digits_end(line@, e as int),
                decreases n - e,
            {
                e += 1;
            }
            return Some((a, e));
        }
        p += 1;
    }
    None
}

/// Reads the value of an edit-distance tag from its digits, which stand
/// in `from..to`.
pub(crate) fn read_edit_distance(line: &[char], from: usize, to: usize) -> (r: Result<u32, FilterError>)
    requires
        from <= to <= line@.len(),
    ensures
        r == edit_distance_value(line@.subrange(from as int, to as int)),
{
    match parse_decimal(line, from, to, MAX_EDIT_DISTANCE) {
        Some(v) => Ok(v as u32),
        None => Err(FilterError::MalformedEditDistance),
    }
}

/// The digits of the first edit-distance tag of a line, if it has one.
pub fn edit_distance_tag(line: &str) -> (tag: Option<Vec<char>>)
    ensures
        match tag {
            Some(digits) => edit_distance_text(line@) == Some(digits@),
            None => edit_distance_text(line@) is None,
        },
{
    let chars = to_chars(line);
    match find_edit_distance(chars.as_slice()) {
        None => None,
        Some((a, e)) => {
            let mut digits: Vec<char> = Vec::new();
            let mut i: usize = a;
            while i < e
                invariant
                    a <= i <= e <= chars@.len(),
                    digits@ == chars@.subrange(a as int, i as int),
                decreases e - i,
            {
                digits.push(chars[i]);
                assert(chars@.subrange(a as int, i + 1) =~= chars@.subrange(a as int, i as int).push(
                    chars@[i as int],
                ));
                i += 1;
            }
            Some(digits)
        },
    }
}

/// Reads the mapping quality of a line of text.
pub fn mapping_quality_of(line: &str) -> (r: Result<u8, FilterError>)
    ensures
        r == mapping_quality(line@),
{
    let chars = to_chars(line);
    read_mapping_quality(chars.as_slice())
}

} // verus!
