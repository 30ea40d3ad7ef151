//! Character-level helpers shared by the record and sequence scanners:
//! tab-separated fields and unsigned decimal numerals.

use vstd::prelude::*;

verus! {

/// The character that separates the fields of a record.
pub const FIELD_SEPARATOR: char = '\t';

/// Copies the characters of `s` into a vector, so that they can be indexed
/// in constant time.
pub fn to_chars(s: &str) -> (v: Vec<char>)
    ensures
        v@ == s@,
{
    let mut v: Vec<char> = Vec::new();
    for c in it: s.chars()
        invariant
            it.seq() == s@,
            v@ == it.seq().take(it.index()),
    {
        v.push(c);
    }
    v
}

/// The first character of `s`, if it has one.
pub fn first_char(s: &str) -> (c: Option<char>)
    ensures
        c == if s@.len() > 0 {
            Some(s@[0])
        } else {
            None
        },
{
    let mut chars = s.chars();
    chars.next()
}

/// Index of the first separator at or after `from`, or `s.len()` when there
/// is none.
pub open spec fn next_separator(s: Seq<char>, from: int) -> int
    decreases s.len() - from,
{
    if from >= s.len() {
        s.len() as int
    } else if s[from] == FIELD_SEPARATOR {
        from
    } else {
        next_separator(s, from + 1)
    }
}

/// Index at which field `k` (counted from zero) begins, if `s` has that
/// many fields. A text without separators is a single field.
pub open spec fn field_start(s: Seq<char>, k: nat) -> Option<int>
    decreases k,
{
    if k == 0 {
        Some(0)
    } else {
        match field_start(s, (k - 1) as nat) {
            Some(a) => {
                let e = next_separator(s, a);
                if e < s.len() {
                    Some(e + 1)
                } else {
                    None
                }
            },
            None => None,
        }
    }
}

/// Field `k` of `s`: the text between separator `k` and separator `k + 1`.
pub open spec fn field(s: Seq<char>, k: nat) -> Option<Seq<char>> {
    match field_start(s, k) {
        Some(a) => Some(s.subrange(a, next_separator(s, a))),
        None => None,
    }
}

/// Number of separators among the first `n` characters of `s`.
pub open spec fn separators_before(s: Seq<char>, n: int) -> nat
    decreases n,
{
    if n <= 0 {
        0
    } else {
        separators_before(s, n - 1) + if s[n - 1] == FIELD_SEPARATOR {
            1nat
        } else {
            0nat
        }
    }
}

/// `next_separator` stops at a separator or at the end, and passes over
/// none on its way.
pub proof fn lemma_next_separator(s: Seq<char>, from: int)
    requires
        0 <= from <= s.len(),
    ensures
        from <= next_separator(s, from) <= s.len(),
        next_separator(s, from) < s.len() ==> s[next_separator(s, from)] == FIELD_SEPARATOR,
        forall|j: int| from <= j < next_separator(s, from) ==> s[j] != FIELD_SEPARATOR,
        separators_before(s, next_separator(s, from)) == separators_before(s, from),
    decreases s.len() - from,
{
    if from < s.len() && s[from] != FIELD_SEPARATOR {
        lemma_next_separator(s, from + 1);
    }
}

/// Field `k` begins right after the `k`-th separator: exactly `k`
/// separators precede it, and it extends to the next separator or the end.
pub proof fn lemma_field_start(s: Seq<char>, k: nat)
    ensures
        match field_start(s, k) {
            Some(a) => {
                &&& 0 <= a <= s.len()
                &&& separators_before(s, a) == k
                &&& k > 0 ==> s[a - 1] == FIELD_SEPARATOR
            },
            None => separators_before(s, s.len() as int) < k,
        },
    decreases k,
{
    if k > 0 {
        lemma_field_start(s, (k - 1) as nat);
        match field_start(s, (k - 1) as nat) {
            Some(a) => {
                lemma_next_separator(s, a);
            },
            None => {},
        }
    }
}

/// Returns the first separator at or after `from`, or the length of `s`.
pub fn find_separator(s: &[char], from: usize) -> (e: usize)
    ensures
        e == next_separator(s@, from as int),
        e <= s@.len(),
        from <= s@.len() ==> from <= e,
{
    if from >= s.len() {
        return s.len();
    }
    let mut i: usize = from;
    while i < s.len() && s[i] != FIELD_SEPARATOR
        invariant
            from <= i <= s@.len(),
            next_separator(s@, from as int) == next_separator(s@, i as int),
        decreases s@.len() - i,
    {
        i += 1;
    }
    i
}

/// Locates field `k` of `s`: the half-open range of indices that it
/// occupies, or `None` when `s` has fewer than `k + 1` fields.
pub fn find_field(s: &[char], k: usize) -> (r: Option<(usize, usize)>)
    ensures
        match r {
            Some((a, e)) => {
                &&& a <= e <= s@.len()
                &&& field_start(s@, k as nat) == Some(a as int)
                &&& e == next_separator(s@, a as int)
                &&& field(s@, k as nat) == Some(s@.subrange(a as int, e as int))
            },
            None => field(s@, k as nat) is None,
        },
{
    let mut a: usize = 0;
    let mut i: usize = 0;
    while i < k
        invariant
            i <= k,
            a <= s@.len(),
            field_start(s@, i as nat) == Some(a as int),
        decreases k - i,
    {
        let e = find_separator(s, a);
        if e >= s.len() {
            proof {
                lemma_field_start_none(s@, (i + 1) as nat, k as nat);
            }
            return None;
        }
        a = e + 1;
        i += 1;
    }
    let e = find_separator(s, a);
    Some((a, e))
}

/// Once a field is missing, so are all later ones.
pub proof fn lemma_field_start_none(s: Seq<char>, j: nat, k: nat)
    requires
        j <= k,
        field_start(s, j) is None,
    ensures
        field_start(s, k) is None,
    decreases k - j,
{
    if j < k {
        lemma_field_start_none(s, j, (k - 1) as nat);
    }
}

/// Whether `c` is one of the ten decimal digits `0` to `9`.
pub open spec fn is_digit(c: char) -> bool {
    '0' <= c <= '9'
}

/// The number that a decimal digit stands for.
pub open spec fn digit_value(c: char) -> nat {
    (c as u32 - '0' as u32) as nat
}

/// Whether `s` consists of decimal digits only.
pub open spec fn all_digits(s: Seq<char>) -> bool {
    forall|i: int| 0 <= i < s.len() ==> is_digit(#[trigger] s[i])
}

/// The number written by the digits of `s`, most significant first.
pub open spec fn decimal_value(s: Seq<char>) -> nat
    decreases s.len(),
{
    if s.len() == 0 {
        0
    } else {
        10 * decimal_value(s.drop_last()) + digit_value(s.last())
    }
}

/// The digits of a numeral: `s` without a leading plus sign.
pub open spec fn numeral_digits(s: Seq<char>) -> Seq<char> {
    if s.len() > 0 && s[0] == '+' {
        s.skip(1)
    } else {
        s
    }
}

/// Reads `s` as an unsigned decimal numeral no larger than `max`: an
/// optional plus sign followed by one or more digits and nothing else.
pub open spec fn parse_unsigned(s: Seq<char>, max: nat) -> Option<nat> {
    let digits = numeral_digits(s);
    if digits.len() > 0 && all_digits(digits) && decimal_value(digits) <= max {
        Some(decimal_value(digits))
    } else {
        None
    }
}

/// Appending digits never makes a numeral smaller.
pub proof fn lemma_decimal_value_monotonic(s: Seq<char>, n: int)
    requires
        0 <= n <= s.len(),
    ensures
        decimal_value(s.take(n)) <= decimal_value(s),
    decreases s.len() - n,
{
    if n < s.len() {
        lemma_decimal_value_monotonic(s.drop_last(), n);
        assert(s.drop_last().take(n) == s.take(n));
    } else {
        assert(s.take(n) == s);
    }
}

/// The numeral that stands in `from..to` of `s`, read as `parse_unsigned`
/// reads it; nothing where `from..to` is no range of `s`.
pub open spec fn numeral_in(s: Seq<char>, from: int, to: int, max: nat) -> Option<nat> {
    if 0 <= from <= to <= s.len() {
        parse_unsigned(s.subrange(from, to), max)
    } else {
        None
    }
}

/// Reads the characters of `s` in `from..to` as an unsigned decimal
/// numeral no larger than `max`.
pub fn parse_decimal(s: &[char], from: usize, to: usize, max: u64) -> (r: Option<u64>)
    ensures
        match r {
            Some(v) => numeral_in(s@, from as int, to as int, max as nat) == Some(v as nat),
            None => numeral_in(s@, from as int, to as int, max as nat) is None,
        },
{
    if from > to || to > s.len() {
        return None;
    }
    let ghost text = s@.subrange(from as int, to as int);
    let start: usize = if from < to && s[from] == '+' {
        from + 1
    } else {
        from
    };
    let ghost digits = numeral_digits(text);
    if start == to {
        return None;
    }
    let mut acc: u64 = 0;
    let mut i: usize = start;
    while i < to
        invariant
            from <= start <= i <= to <= s@.len(),
            start < to,
            text == s@.subrange(from as int, to as int),
            digits == numeral_digits(text),
            digits == s@.subrange(start as int, to as int),
            all_digits(digits.take(i - start)),
            acc == decimal_value(digits.take(i - start)),
            acc <= max,
        decreases to - i,
    {
        let c = s[i];
        proof {
            assert(digits[i - start] == c);
            assert(digits.take(i - start + 1).drop_last() == digits.take(i - start));
        }
        if !(c >= '0' && c <= '9') {
            return None;
        }
        let d: u64 = (c as u32 - '0' as u32) as u64;
        if d > max || acc > (max - d) / 10 {
            proof {
                lemma_decimal_value_monotonic(digits, i - start + 1);
            }
            return None;
        }
        acc = acc * 10 + d;
        i += 1;
        assert forall|j: int| 0 <= j < i - start implies is_digit(
            #[trigger] digits.take(i - start)[j],
        ) by {}
    }
    assert(digits.take(to - start) == digits);
    Some(acc)
}

} // verus!
