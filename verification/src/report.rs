//! The report of a run: a fixed sequence of lines, each a tag, one space and
//! a value. The answer comes first, as the text it was rendered to; the four
//! statistics follow as whole numbers of nanoseconds in decimal notation.

use crate::stats::{statistics_of, summarize, Statistics};
use vstd::prelude::*;
use vstd::string::StringExecFns;

verus! {

/// Number of lines in a report.
pub const REPORT_LINES: usize = 5;

/// The character of a decimal digit.
pub open spec fn digit_char(digit: int) -> char {
    if digit == 0 {
        '0'
    } else if digit == 1 {
        '1'
    } else if digit == 2 {
        '2'
    } else if digit == 3 {
        '3'
    } else if digit == 4 {
        '4'
    } else if digit == 5 {
        '5'
    } else if digit == 6 {
        '6'
    } else if digit == 7 {
        '7'
    } else if digit == 8 {
        '8'
    } else {
        '9'
    }
}

/// A number in decimal notation, without leading zeros.
pub open spec fn decimal_digits(n: nat) -> Seq<char>
    decreases n,
{
    if n < 10 {
        seq![digit_char(n as int)]
    } else {
        decimal_digits(n / 10).push(digit_char((n % 10) as int))
    }
}

/// A line of the report: the tag, one space, the value.
pub open spec fn tagged(tag: Seq<char>, value: Seq<char>) -> Seq<char> {
    tag + seq![' '] + value
}

/// The lines of the report of an answer and its statistics, in their order.
pub open spec fn report_of(answer: Seq<char>, stats: Statistics) -> Seq<Seq<char>> {
    seq![
        tagged("FERRIS_ELF_ANSWER"@, answer),
        tagged("FERRIS_ELF_MEDIAN"@, decimal_digits(stats.median as nat)),
        tagged("FERRIS_ELF_AVERAGE"@, decimal_digits(stats.average as nat)),
        tagged("FERRIS_ELF_MIN"@, decimal_digits(stats.min as nat)),
        tagged("FERRIS_ELF_MAX"@, decimal_digits(stats.max as nat)),
    ]
}

/// The lines of a report as mathematical values.
pub open spec fn line_views(lines: Seq<String>) -> Seq<Seq<char>> {
    Seq::new(lines.len(), |i: int| lines[i]@)
}

/// The text of one decimal digit.
fn digit_text(digit: u8) -> (text: &'static str)
    requires
        digit < 10,
    ensures
        text@ == seq![digit_char(digit as int)],
{
    proof {
        reveal_strlit("0");
        reveal_strlit("1");
        reveal_strlit("2");
        reveal_strlit("3");
        reveal_strlit("4");
        reveal_strlit("5");
        reveal_strlit("6");
        reveal_strlit("7");
        reveal_strlit("8");
        reveal_strlit("9");
    }
    let text: &'static str = if digit == 0 {
        "0"
    } else if digit == 1 {
        "1"
    } else if digit == 2 {
        "2"
    } else if digit == 3 {
        "3"
    } else if digit == 4 {
        "4"
    } else if digit == 5 {
        "5"
    } else if digit == 6 {
        "6"
    } else if digit == 7 {
        "7"
    } else if digit == 8 {
        "8"
    } else {
        "9"
    };
    assert(text@ =~= seq![digit_char(digit as int)]);
    text
}

/// Writes a number in decimal notation, without leading zeros.
pub fn decimal(n: u128) -> (text: String)
    ensures
        text@ == decimal_digits(n as nat),
    decreases n,
{
    if n < 10 {
        String::from_str(digit_text(n as u8))
    } else {
        let mut text: String = decimal(n / 10);
        let last: &'static str = digit_text((n % 10) as u8);
        text.append(last);
        assert(text@ =~= decimal_digits((n / 10) as nat).push(digit_char((n % 10) as int)));
        text
    }
}

/// Writes one line of the report: the tag, one space, the value.
pub fn tagged_line(tag: &str, value: &str) -> (line: String)
    ensures
        line@ == tagged(tag@, value@),
{
    proof {
        reveal_strlit(" ");
    }
    let mut line: String = String::from_str(tag);
    line.append(" ");
    line.append(value);
    assert(line@ =~= tagged(tag@, value@));
    line
}

/// Writes the report of an answer and its statistics: the answer, the median,
/// the average, the minimum and the maximum, one line each, in this order.
pub fn report_lines(answer: &str, stats: Statistics) -> (lines: Vec<String>)
    ensures
        line_views(lines@) == report_of(answer@, stats),
        lines@.len() == REPORT_LINES,
{
    let mut lines: Vec<String> = Vec::new();
    lines.push(tagged_line("FERRIS_ELF_ANSWER", answer));
    lines.push(tagged_line("FERRIS_ELF_MEDIAN", decimal(stats.median).as_str()));
    lines.push(tagged_line("FERRIS_ELF_AVERAGE", decimal(stats.average).as_str()));
    lines.push(tagged_line("FERRIS_ELF_MIN", decimal(stats.min).as_str()));
    lines.push(tagged_line("FERRIS_ELF_MAX", decimal(stats.max).as_str()));
    assert(line_views(lines@) =~= report_of(answer@, stats));
    lines
}

/// Writes the report of a run from its answer and its samples: the statistics
/// are those of the samples.
pub fn report(answer: &str, samples: &[u128; 100]) -> (lines: Vec<String>)
    ensures
        line_views(lines@) == report_of(answer@, statistics_of(samples@)),
        lines@.len() == REPORT_LINES,
{
    report_lines(answer, summarize(samples))
}

} // verus!
