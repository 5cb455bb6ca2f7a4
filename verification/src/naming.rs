//! Deterministic names for the files the orchestration layer produces: one
//! per planned window, numbered in plan order with a zero-padded index, plus
//! the transcript name derived from a chunk's file name.

use vstd::prelude::*;

verus! {

/// The character for one decimal digit.
pub open spec fn decimal_digit_char(d: int) -> char {
    if d == 0 {
        '0'
    } else if d == 1 {
        '1'
    } else if d == 2 {
        '2'
    } else if d == 3 {
        '3'
    } else if d == 4 {
        '4'
    } else if d == 5 {
        '5'
    } else if d == 6 {
        '6'
    } else if d == 7 {
        '7'
    } else if d == 8 {
        '8'
    } else {
        '9'
    }
}

/// The decimal digits of `n`, most significant first.
pub open spec fn decimal_digits(n: int) -> Seq<char>
    decreases n,
{
    if n < 10 {
        seq![decimal_digit_char(n)]
    } else {
        decimal_digits(n / 10).push(decimal_digit_char(n % 10))
    }
}

/// The decimal digits of `n`, left-padded with zeros to at least width
/// three.
pub open spec fn zero_padded_decimal(n: int) -> Seq<char> {
    if n < 10 {
        seq!['0', '0'] + decimal_digits(n)
    } else if n < 100 {
        seq!['0'] + decimal_digits(n)
    } else {
        decimal_digits(n)
    }
}

/// The one-character string for a decimal digit.
fn digit_str(d: u64) -> (r: &'static str)
    requires
        d < 10,
    ensures
        r@ == seq![decimal_digit_char(d as int)],
{
    let r: &'static str = if d == 0 {
        "0"
    } else if d == 1 {
        "1"
    } else if d == 2 {
        "2"
    } else if d == 3 {
        "3"
    } else if d == 4 {
        "4"
    } else if d == 5 {
        "5"
    } else if d == 6 {
        "6"
    } else if d == 7 {
        "7"
    } else if d == 8 {
        "8"
    } else {
        "9"
    };
    proof {
        reveal_strlit("0");
        reveal_strlit("1");
        reveal_strlit("2");
        reveal_strlit("3");
        reveal_strlit("4");
        reveal_strlit("5");
        reveal_strlit("6");
        reveal_strlit("7");
        reveal_strlit("8");
        reveal_strlit("9");
        assert(r@ =~= seq![decimal_digit_char(d as int)]);
    }
    r
}

/// Append the decimal digits of `n`.
fn append_decimal(s: String, n: u64) -> (r: String)
    ensures
        r@ == s@ + decimal_digits(n as int),
    decreases n,
{
    if n < 10 {
        let r = s.concat(digit_str(n));
        proof {
            assert(r@ =~= s@ + decimal_digits(n as int));
        }
        r
    } else {
        let prefix = append_decimal(s, n / 10);
        let r = prefix.concat(digit_str(n % 10));
        proof {
            assert(r@ =~= s@ + decimal_digits(n as int));
        }
        r
    }
}

/// Append the decimal digits of `n`, zero-padded to at least width three.
fn append_zero_padded(s: String, n: u64) -> (r: String)
    ensures
        r@ == s@ + zero_padded_decimal(n as int),
{
    let padded = if n < 10 {
        let p = s.concat("00");
        proof {
            reveal_strlit("00");
            assert(p@ =~= s@ + seq!['0', '0']);
        }
        p
    } else if n < 100 {
        let p = s.concat("0");
        proof {
            reveal_strlit("0");
            assert(p@ =~= s@ + seq!['0']);
        }
        p
    } else {
        s
    };
    let r = append_decimal(padded, n);
    proof {
        assert(r@ =~= s@ + zero_padded_decimal(n as int));
    }
    r
}

/// The name of the chunk file for window `index` (zero-based) of a chunk
/// plan: the source's stem, `_chunk`, the zero-padded index, then the
/// source's extension (dot included, or empty).
pub fn chunk_output_name(base_name: &str, index: u64, extension: &str) -> (r: String)
    ensures
        r@ == base_name@ + "_chunk"@ + zero_padded_decimal(index as int) + extension@,
{
    let prefix = String::from_str(base_name).concat("_chunk");
    let numbered = append_zero_padded(prefix, index);
    let r = numbered.concat(extension);
    proof {
        assert(r@ =~= base_name@ + "_chunk"@ + zero_padded_decimal(index as int) + extension@);
    }
    r
}

/// The name of the part file for window `index` (zero-based) of an equal
/// split: the source's stem, `_part`, the zero-padded one-based position,
/// then the source's extension (dot included, or empty).
pub fn part_output_name(base_name: &str, index: u64, extension: &str) -> (r: String)
    requires
        index < u64::MAX,
    ensures
        r@ == base_name@ + "_part"@ + zero_padded_decimal(index as int + 1) + extension@,
{
    let prefix = String::from_str(base_name).concat("_part");
    let numbered = append_zero_padded(prefix, index + 1);
    let r = numbered.concat(extension);
    proof {
        assert(r@ =~= base_name@ + "_part"@ + zero_padded_decimal(index as int + 1) + extension@);
    }
    r
}

/// The name of the transcript written for a chunk: the chunk's file name
/// with `.txt` appended.
pub fn transcript_output_path(file_name: &str) -> (r: String)
    ensures
        r@ == file_name@ + ".txt"@,
{
    String::from_str(file_name).concat(".txt")
}

} // verus!
