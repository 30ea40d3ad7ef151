//! The arguments with which the alignment viewer is started to read a
//! stream of records, and the decimal text of numbers among them.

use crate::text::{all_digits, decimal_value, is_digit, parse_unsigned};
use vstd::prelude::*;
use vstd::string::StringExecFns;

verus! {

/// The number of threads that the viewer reads with when none is given.
pub const DEFAULT_THREADS: usize = 8;

/// The decimal digit that stands for `d`, which is less than ten.
pub open spec fn digit_char(d: nat) -> char {
    if d == 0 {
        '0'
    } else if d == 1 {
        '1'
    } else if d == 2 {
        '2'
    } else if d == 3 {
        '3'
    } else if d == 4 {
        '4'
    } else if d == 5 {
        '5'
    } else if d == 6 {
        '6'
    } else if d == 7 {
        '7'
    } else if d == 8 {
        '8'
    } else {
        '9'
    }
}

/// The decimal numeral of `n`: its digits, the most significant first,
/// without leading zeros.
pub open spec fn decimal_text(n: nat) -> Seq<char>
    decreases n,
{
    if n < 10 {
        seq![digit_char(n)]
    } else {
        decimal_text(n / 10).push(digit_char(n % 10))
    }
}

/// Reading the decimal numeral of a number gives the number back.
pub proof fn lemma_decimal_round_trip(n: nat, max: nat)
    requires
        n <= max,
    ensures
        decimal_text(n).len() > 0,
        all_digits(decimal_text(n)),
        decimal_value(decimal_text(n)) == n,
        parse_unsigned(decimal_text(n), max) == Some(n),
    decreases n,
{
    let text = decimal_text(n);
    if n < 10 {
        assert(decimal_value(text.drop_last()) == 0);
    } else {
        lemma_decimal_round_trip(n / 10, n / 10);
        let front = decimal_text(n / 10);
        assert(text.drop_last() =~= front);
        assert forall|i: int| 0 <= i < text.len() implies is_digit(#[trigger] text[i]) by {}
    }
}

/// The text of one decimal digit.
fn digit_text(d: usize) -> (text: &'static str)
    requires
        d < 10,
    ensures
        text@ == seq![digit_char(d as nat)],
{
    proof {
        reveal_strlit("0");
        reveal_strlit("1");
        reveal_strlit("2");
        reveal_strlit("3");
        reveal_strlit("4");
        reveal_strlit("5");
        reveal_strlit("6");
        reveal_strlit("7");
        reveal_strlit("8");
        reveal_strlit("9");
    }
    let text = if d == 0 {
        "0"
    } else if d == 1 {
        "1"
    } else if d == 2 {
        "2"
    } else if d == 3 {
        "3"
    } else if d == 4 {
        "4"
    } else if d == 5 {
        "5"
    } else if d == 6 {
        "6"
    } else if d == 7 {
        "7"
    } else if d == 8 {
        "8"
    } else {
        "9"
    };
    text
}

/// Writes a number as a decimal numeral.
pub fn render_decimal(n: usize) -> (text: String)
    ensures
        text@ == decimal_text(n as nat),
    decreases n,
{
    if n < 10 {
        String::from_str(digit_text(n))
    } else {
        let front = render_decimal(n / 10);
        let last = digit_text(n % 10);
        let text = front.concat(last);
        text
    }
}

/// The arguments for the viewer: it is to print the file `bam` as text
/// with its header, reading with `threads` threads, and to leave out the
/// records that are marked as duplicates if `remove_duplicates` is set.
pub open spec fn viewer_arguments_text(bam: Seq<char>, threads: nat, remove_duplicates: bool)
    -> Seq<Seq<char>> {
    let always = seq!["view"@, bam, "-h"@, "-@"@, decimal_text(threads)];
    if remove_duplicates {
        always.push("-F 1024"@)
    } else {
        always
    }
}

/// Builds the arguments with which the viewer is started.
pub fn viewer_arguments(bam: &str, threads: usize, remove_duplicates: bool) -> (args: Vec<String>)
    ensures
        args.deep_view() == viewer_arguments_text(bam@, threads as nat, remove_duplicates),
{
    let mut args: Vec<String> = Vec::new();
    args.push(String::from_str("view"));
    args.push(String::from_str(bam));
    args.push(String::from_str("-h"));
    args.push(String::from_str("-@"));
    args.push(render_decimal(threads));
    if remove_duplicates {
        args.push(String::from_str("-F 1024"));
    }
    args
}

} // verus!
