use vstd::prelude::*;
use vstd::string::StringSliceAdditionalSpecFns;

use crate::span::Span;

verus! {

#[derive(Clone, Copy, Debug, PartialEq, Eq, Structural)]
pub enum ErrorType {
    ParseError,
    EvaluationError,
}

/// A diagnostic for display: where (line from 1, column from 0), why, of
/// which kind, and a stable code for looking it up in the documentation.
#[derive(Clone, Debug)]
pub struct Error {
    pub line_number: u64,
    pub col_number: u64,
    pub reason: String,
    pub error_type: ErrorType,
    pub id: u8,
}

/// Number of newline bytes among the first `o` bytes of `b`.
pub open spec fn newlines_before(b: Seq<u8>, o: int) -> int
    decreases o,
{
    if o <= 0 {
        0
    } else {
        newlines_before(b, o - 1) + if b[o - 1] == 10u8 {
            1int
        } else {
            0int
        }
    }
}

/// Byte offset of the start of the line that holds byte `o`.
pub open spec fn line_start(b: Seq<u8>, o: int) -> int
    decreases o,
{
    if o <= 0 {
        0
    } else if b[o - 1] == 10u8 {
        o
    } else {
        line_start(b, o - 1)
    }
}

/// Whether byte `o` is the newline that ends a line.
pub open spec fn on_line_break(b: Seq<u8>, o: int) -> bool {
    0 <= o < b.len() && b[o] == 10u8
}

/// Line of byte offset `o`, counted from 1. An offset on a line boundary
/// (the newline that ends a line, or the byte after it) belongs to the
/// start of the next line.
pub open spec fn line_of(b: Seq<u8>, o: int) -> int {
    1 + newlines_before(b, o) + if on_line_break(b, o) {
        1int
    } else {
        0int
    }
}

/// Column of byte offset `o`: the number of bytes since the start of its
/// line, counted from 0.
pub open spec fn column_of(b: Seq<u8>, o: int) -> int {
    if on_line_break(b, o) {
        0
    } else {
        o - line_start(b, o)
    }
}

proof fn lemma_position_bounds(b: Seq<u8>, o: int)
    requires
        0 <= o,
    ensures
        0 <= newlines_before(b, o) <= o,
        0 <= line_start(b, o) <= o,
    decreases o,
{
    if o > 0 {
        lemma_position_bounds(b, o - 1);
    }
}

/// Line and column of the start of `span`, a byte offset into `string`.
/// The text's length in bytes must stay below the largest `usize`.
pub fn get_position_from_span(span: Span, string: &str) -> (r: (u64, u64))
    requires
        span.start <= string.spec_bytes().len(),
        string.spec_bytes().len() < usize::MAX,
    ensures
        r.0 as int == line_of(string.spec_bytes(), span.start as int),
        r.1 as int == column_of(string.spec_bytes(), span.start as int),
{
    let bytes = string.as_bytes();
    let n = bytes.len();
    let mut breaks: usize = 0;
    let mut start: usize = 0;
    let mut i: usize = 0;
    while i < span.start
        invariant
            bytes@ == string.spec_bytes(),
            n == bytes@.len(),
            span.start <= n < usize::MAX,
            i <= span.start,
            breaks as int == newlines_before(bytes@, i as int),
            start as int == line_start(bytes@, i as int),
            newlines_before(bytes@, i as int) <= i,
        decreases span.start - i,
    {
        proof {
            lemma_position_bounds(bytes@, i + 1);
        }
        if bytes[i] == 10u8 {
            breaks = breaks + 1;
            start = i + 1;
        }
        i = i + 1;
    }
    proof {
        lemma_position_bounds(bytes@, i as int);
    }
    if i < n && bytes[i] == 10u8 {
        ((breaks + 2) as u64, 0)
    } else {
        ((breaks + 1) as u64, (i - start) as u64)
    }
}

/// Relies on `String::push`, which appends one character to the string.
#[verifier::external_body]
pub(crate) fn push_char(s: &mut String, c: char)
    ensures
        final(s)@ == old(s)@.push(c),
{
    s.push(c);
}

/// Decimal digits of `n`, most significant first.
pub open spec fn decimal(n: nat) -> Seq<char>
    decreases n,
{
    if n < 10 {
        seq![digit_char(n)]
    } else {
        decimal(n / 10).push(digit_char(n % 10))
    }
}

pub open spec fn digit_char(d: nat) -> char {
    if d == 0 {
        '0'
    } else if d == 1 {
        '1'
    } else if d == 2 {
        '2'
    } else if d == 3 {
        '3'
    } else if d == 4 {
        '4'
    } else if d == 5 {
        '5'
    } else if d == 6 {
        '6'
    } else if d == 7 {
        '7'
    } else if d == 8 {
        '8'
    } else {
        '9'
    }
}

fn digit_char_exec(d: usize) -> (c: char)
    requires
        d < 10,
    ensures
        c == digit_char(d as nat),
{
    if d == 0 {
        '0'
    } else if d == 1 {
        '1'
    } else if d == 2 {
        '2'
    } else if d == 3 {
        '3'
    } else if d == 4 {
        '4'
    } else if d == 5 {
        '5'
    } else if d == 6 {
        '6'
    } else if d == 7 {
        '7'
    } else if d == 8 {
        '8'
    } else {
        '9'
    }
}

/// Appends the decimal digits of `n` to `s`.
pub(crate) fn push_decimal(s: &mut String, n: usize)
    ensures
        final(s)@ == old(s)@ + decimal(n as nat),
    decreases n,
{
    if n < 10 {
        push_char(s, digit_char_exec(n));
        proof {
            assert(old(s)@.push(digit_char(n as nat)) =~= old(s)@ + decimal(n as nat));
        }
    } else {
        push_decimal(s, n / 10);
        push_char(s, digit_char_exec(n % 10));
        proof {
            assert(old(s)@ + decimal((n / 10) as nat) + seq![digit_char((n % 10) as nat)] =~= old(s)@ + decimal(n as nat));
        }
    }
}

} // verus!
