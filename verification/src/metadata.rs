//! Audio metadata as the planners consume it: a duration in microseconds and
//! a bitrate in bits per second, recovered from the decimal strings a media
//! prober reports.
//!
//! Fractional seconds beyond microsecond precision, and fractional bits per
//! second, are truncated.

use vstd::prelude::*;

verus! {

/// What a media prober reports about a recording, in the planners' units.
#[derive(Clone, Copy, Debug, PartialEq, Eq, Structural)]
pub struct AudioMetadata {
    pub duration_micros: u64,
    pub bitrate_bps: u64,
}

/// Why probed metadata could not be used: a field the prober did not report,
/// or one that is not a decimal number (or does not fit the planners' range).
#[derive(Clone, Copy, Debug, PartialEq, Eq, Structural)]
pub enum MetadataError {
    MissingDuration,
    InvalidDuration,
    MissingBitrate,
    InvalidBitrate,
}

/// `c` is a decimal digit.
pub open spec fn is_decimal_digit(c: char) -> bool {
    '0' as int <= c as int && c as int <= '9' as int
}

/// The numeric value of the digit `c`.
pub open spec fn digit_value(c: char) -> int {
    c as int - '0' as int
}

/// Every character of `s` is a decimal digit.
pub open spec fn all_digits(s: Seq<char>) -> bool {
    forall|i: int| 0 <= i < s.len() ==> is_decimal_digit(#[trigger] s[i])
}

/// The value of a digit string read most-significant-first; the empty
/// string reads as zero.
pub open spec fn digits_value(s: Seq<char>) -> int
    decreases s.len(),
{
    if s.len() == 0 {
        0
    } else {
        digits_value(s.drop_last()) * 10 + digit_value(s.last())
    }
}

/// Index of the first `.` in `s`, or `s.len()` if there is none.
pub open spec fn dot_index(s: Seq<char>) -> int
    decreases s.len(),
{
    if s.len() == 0 {
        0
    } else if s[0] == '.' {
        0
    } else {
        1 + dot_index(s.subrange(1, s.len() as int))
    }
}

/// `s` is a plain unsigned decimal number: digits with at most one `.`, and
/// at least one digit somewhere.
pub open spec fn valid_decimal(s: Seq<char>) -> bool {
    let d = dot_index(s);
    if d == s.len() {
        s.len() > 0 && all_digits(s)
    } else {
        s.len() > 1 && all_digits(s.subrange(0, d)) && all_digits(
            s.subrange(d + 1, s.len() as int),
        )
    }
}

/// The fractional digits adjusted to exactly six places: truncated beyond
/// microseconds, zero-extended below.
pub open spec fn pad_to_six(frac: Seq<char>) -> Seq<char> {
    if frac.len() >= 6 {
        frac.subrange(0, 6)
    } else {
        frac + Seq::new((6 - frac.len()) as nat, |i: int| '0')
    }
}

/// The value of a decimal string in microseconds: the whole part scaled by
/// a million plus the first six fractional digits.
pub open spec fn decimal_micros(s: Seq<char>) -> int {
    let d = dot_index(s);
    let whole = s.subrange(0, d);
    let frac = if d == s.len() {
        Seq::<char>::empty()
    } else {
        s.subrange(d + 1, s.len() as int)
    };
    digits_value(whole) * 1_000_000 + digits_value(pad_to_six(frac))
}

/// `s` parses as microseconds that fit the planners' range.
pub open spec fn parses_to_micros(s: Seq<char>) -> bool {
    valid_decimal(s) && decimal_micros(s) <= u64::MAX
}

/// Ten to the power `k`.
pub open spec fn ten_pow(k: int) -> int
    decreases k,
{
    if k <= 0 {
        1
    } else {
        10 * ten_pow(k - 1)
    }
}

/// A decimal digit is not a dot.
proof fn lemma_digits_are_not_dots(s: Seq<char>, p: int)
    requires
        0 <= p <= s.len(),
        forall|j: int| 0 <= j < p ==> is_decimal_digit(#[trigger] s[j]),
    ensures
        forall|j: int| 0 <= j < p ==> s[j] != '.',
{
    assert forall|j: int| 0 <= j < p implies s[j] != '.' by {
        assert(is_decimal_digit(s[j]));
    }
}

/// If no `.` occurs before position `p`, and `p` (when inside the string)
/// holds one, the first `.` is exactly at `p` — or past the end if `p` is
/// the length.
proof fn lemma_dot_index_at(s: Seq<char>, p: int)
    requires
        0 <= p <= s.len(),
        forall|j: int| 0 <= j < p ==> s[j] != '.',
        p < s.len() ==> s[p] == '.',
    ensures
        p < s.len() ==> dot_index(s) == p,
        p == s.len() ==> dot_index(s) == s.len(),
    decreases p,
{
    if p == 0 {
        if s.len() > 0 && p < s.len() {
            assert(s[0] == '.');
        }
    } else {
        let rest = s.subrange(1, s.len() as int);
        assert(s[0] != '.');
        assert(forall|j: int| 0 <= j < p - 1 ==> #[trigger] rest[j] == s[j + 1] && s[j + 1] != '.');
        assert(p - 1 < rest.len() ==> rest[p - 1] == s[p]);
        lemma_dot_index_at(rest, p - 1);
    }
}

/// The first-dot index lies between zero and the length.
proof fn lemma_dot_index_bounds(s: Seq<char>)
    ensures
        0 <= dot_index(s) <= s.len(),
    decreases s.len(),
{
    if s.len() > 0 && s[0] != '.' {
        lemma_dot_index_bounds(s.subrange(1, s.len() as int));
    }
}

/// If no `.` occurs before position `p`, the first `.` is no earlier than
/// `p`.
proof fn lemma_dot_index_lower(s: Seq<char>, p: int)
    requires
        0 <= p <= s.len(),
        forall|j: int| 0 <= j < p ==> s[j] != '.',
    ensures
        dot_index(s) >= p,
    decreases p,
{
    lemma_dot_index_bounds(s);
    if p > 0 {
        let rest = s.subrange(1, s.len() as int);
        assert(s[0] != '.');
        assert(forall|j: int| 0 <= j < p - 1 ==> #[trigger] rest[j] == s[j + 1] && s[j + 1] != '.');
        lemma_dot_index_lower(rest, p - 1);
        assert(dot_index(s) == 1 + dot_index(rest));
    }
}

/// A digit string's value is non-negative and below ten to its length.
proof fn lemma_digits_value_bound(s: Seq<char>)
    requires
        all_digits(s),
    ensures
        0 <= digits_value(s) < ten_pow(s.len() as int),
    decreases s.len(),
{
    if s.len() > 0 {
        assert(all_digits(s.drop_last())) by {
            assert(forall|i: int|
                0 <= i < s.len() - 1 ==> #[trigger] s.drop_last()[i] == s[i] && is_decimal_digit(
                    s[i],
                ));
        }
        lemma_digits_value_bound(s.drop_last());
        assert(is_decimal_digit(s.last()));
    }
}

/// Extending a digit string on the right cannot decrease its value.
proof fn lemma_digits_prefix_le(s: Seq<char>, j: int)
    requires
        all_digits(s),
        0 <= j <= s.len(),
    ensures
        digits_value(s.subrange(0, j)) <= digits_value(s),
    decreases s.len(),
{
    if j == s.len() {
        assert(s.subrange(0, j) =~= s);
    } else {
        let shorter = s.drop_last();
        assert(all_digits(shorter)) by {
            assert(forall|i: int|
                0 <= i < s.len() - 1 ==> #[trigger] shorter[i] == s[i] && is_decimal_digit(s[i]));
        }
        assert(s.subrange(0, j) =~= shorter.subrange(0, j));
        lemma_digits_prefix_le(shorter, j);
        lemma_digits_value_bound(shorter);
        assert(is_decimal_digit(s.last()));
    }
}

/// The six-place fractional adjustment of a digit string is six digits.
proof fn lemma_pad_to_six_digits(frac: Seq<char>)
    requires
        all_digits(frac),
    ensures
        pad_to_six(frac).len() == 6,
        all_digits(pad_to_six(frac)),
{
    let padded = pad_to_six(frac);
    assert forall|i: int| 0 <= i < padded.len() implies is_decimal_digit(#[trigger] padded[i]) by {
        if i < frac.len() && i < 6 {
            assert(padded[i] == frac[i]);
        } else {
            assert(padded[i] == '0');
        }
    }
}

/// Parse a plain unsigned decimal string (digits, optionally with one `.`)
/// into microseconds, truncating beyond six fractional digits.
///
/// Returns `Some` exactly when the string is such a number and its value
/// fits in a `u64` of microseconds, and then the exact scaled value.
pub fn parse_decimal_micros(s: &str) -> (r: Option<u64>)
    ensures
        r is Some <==> parses_to_micros(s@),
        r is Some ==> r->0 == decimal_micros(s@),
{
    let len: usize = s.unicode_len();

    // First pass: find the first dot and insist every other character is a
    // digit.
    let mut dot: usize = len;
    let mut i: usize = 0;
    while i < len
        invariant
            len == s@.len(),
            i <= len,
            dot == len || dot < i,
            dot == len ==> forall|j: int| 0 <= j < i ==> is_decimal_digit(#[trigger] s@[j]),
            dot < len ==> s@[dot as int] == '.',
            dot < len ==> forall|j: int| 0 <= j < dot ==> is_decimal_digit(#[trigger] s@[j]),
            dot < len ==> forall|j: int| dot < j < i ==> is_decimal_digit(#[trigger] s@[j]),
        decreases len - i,
    {
        let c = s.get_char(i);
        if c == '.' {
            if dot < len {
                // A second dot: the fractional part cannot be all digits.
                proof {
                    lemma_digits_are_not_dots(s@, dot as int);
                    lemma_dot_index_at(s@, dot as int);
                    let frac = s@.subrange(dot + 1, len as int);
                    assert(frac[i - dot - 1] == s@[i as int]);
                    assert(!is_decimal_digit('.'));
                }
                return None;
            }
            dot = i;
        } else if c < '0' || c > '9' {
            // Neither a digit nor a dot: no segmentation makes this valid.
            proof {
                assert(!is_decimal_digit(s@[i as int]));
                if dot == len {
                    lemma_digits_are_not_dots(s@, i as int);
                    assert(s@[i as int] != '.');
                    lemma_dot_index_bounds(s@);
                    lemma_dot_index_lower(s@, i + 1);
                    let d = dot_index(s@);
                    if d < s@.len() {
                        assert(s@.subrange(0, d)[i as int] == s@[i as int]);
                    }
                } else {
                    lemma_digits_are_not_dots(s@, dot as int);
                    lemma_dot_index_at(s@, dot as int);
                    assert(s@.subrange(dot + 1, len as int)[i - dot - 1] == s@[i as int]);
                }
            }
            return None;
        }
        i = i + 1;
    }

    proof {
        if dot == len {
            lemma_digits_are_not_dots(s@, len as int);
            lemma_dot_index_at(s@, len as int);
        } else {
            lemma_digits_are_not_dots(s@, dot as int);
            lemma_dot_index_at(s@, dot as int);
        }
    }

    if len == 0 {
        return None;
    }
    if len == 1 && dot < len {
        // Just a dot: not a number.
        return None;
    }

    let whole_len: usize = if dot < len {
        dot
    } else {
        len
    };
    let ghost whole: Seq<char> = s@.subrange(0, whole_len as int);
    let ghost frac: Seq<char> = if dot < len {
        s@.subrange(dot + 1, len as int)
    } else {
        Seq::<char>::empty()
    };
    proof {
        if dot < len {
            assert forall|j: int| 0 <= j < whole.len() implies is_decimal_digit(
                #[trigger] whole[j],
            ) by {
                assert(whole[j] == s@[j]);
            }
            assert forall|j: int| 0 <= j < frac.len() implies is_decimal_digit(
                #[trigger] frac[j],
            ) by {
                assert(frac[j] == s@[dot + 1 + j]);
            }
        } else {
            assert(whole =~= s@);
        }
        assert(valid_decimal(s@));
        assert(decimal_micros(s@) == digits_value(whole) * 1_000_000 + digits_value(
            pad_to_six(frac),
        ));
    }

    // Second pass: the whole part, watching for overflow.
    let mut value: u64 = 0;
    let mut j: usize = 0;
    while j < whole_len
        invariant
            len == s@.len(),
            whole_len <= len,
            whole == s@.subrange(0, whole_len as int),
            all_digits(whole),
            all_digits(frac),
            j <= whole_len,
            value == digits_value(s@.subrange(0, j as int)),
            valid_decimal(s@),
            decimal_micros(s@) == digits_value(whole) * 1_000_000 + digits_value(pad_to_six(frac)),
        decreases whole_len - j,
    {
        let c = s.get_char(j);
        proof {
            assert(whole[j as int] == s@[j as int]);
        }
        let d: u64 = (c as u32 - '0' as u32) as u64;
        proof {
            assert(d == digit_value(s@[j as int]));
            assert(s@.subrange(0, j + 1).drop_last() =~= s@.subrange(0, j as int));
            assert(s@.subrange(0, j + 1).last() == s@[j as int]);
        }
        if value > (u64::MAX - d) / 10 {
            // The whole part alone already exceeds the representable range.
            proof {
                vstd::arithmetic::div_mod::lemma_fundamental_div_mod((u64::MAX - d) as int, 10);
                vstd::arithmetic::div_mod::lemma_mod_bound((u64::MAX - d) as int, 10);
                assert(value * 10 + d > u64::MAX);
                assert(digits_value(s@.subrange(0, j + 1)) > u64::MAX);
                assert(whole.subrange(0, j + 1) =~= s@.subrange(0, j + 1));
                lemma_digits_prefix_le(whole, j + 1);
                lemma_pad_to_six_digits(frac);
                lemma_digits_value_bound(pad_to_six(frac));
            }
            return None;
        }
        proof {
            vstd::arithmetic::div_mod::lemma_fundamental_div_mod((u64::MAX - d) as int, 10);
            vstd::arithmetic::div_mod::lemma_mod_bound((u64::MAX - d) as int, 10);
        }
        value = value * 10 + d;
        j = j + 1;
    }
    proof {
        assert(s@.subrange(0, whole_len as int) =~= whole);
    }

    // Third pass: exactly six fractional digits, zero-extended.
    let frac_start: usize = if dot < len {
        dot + 1
    } else {
        len
    };
    let ghost padded: Seq<char> = pad_to_six(frac);
    proof {
        lemma_pad_to_six_digits(frac);
    }
    let mut frac_value: u64 = 0;
    let mut k: usize = 0;
    while k < 6
        invariant
            len == s@.len(),
            frac_start <= len,
            dot <= len,
            dot < len ==> frac_start == dot + 1 && frac == s@.subrange(
                frac_start as int,
                len as int,
            ),
            dot == len ==> frac_start == len && frac == Seq::<char>::empty(),
            padded == pad_to_six(frac),
            all_digits(frac),
            all_digits(padded),
            padded.len() == 6,
            k <= 6,
            frac_value == digits_value(padded.subrange(0, k as int)),
            frac_value < ten_pow(k as int),
        decreases 6 - k,
    {
        let d: u64 = if frac_start < len && k < len - frac_start {
            let c = s.get_char(frac_start + k);
            proof {
                assert(dot < len);
                assert(frac == s@.subrange(frac_start as int, len as int));
                assert(frac.len() == len - frac_start);
                assert(frac[k as int] == s@[frac_start + k]);
                assert(padded[k as int] == frac[k as int]);
            }
            (c as u32 - '0' as u32) as u64
        } else {
            proof {
                assert(padded[k as int] == '0');
            }
            0
        };
        proof {
            assert(d == digit_value(padded[k as int]));
            assert(padded.subrange(0, k + 1).drop_last() =~= padded.subrange(0, k as int));
            assert(padded.subrange(0, k + 1).last() == padded[k as int]);
            assert(ten_pow(0) == 1);
            assert(ten_pow(1) == 10);
            assert(ten_pow(2) == 100);
            assert(ten_pow(3) == 1000);
            assert(ten_pow(4) == 10_000);
            assert(ten_pow(5) == 100_000);
            assert(ten_pow(6) == 1_000_000);
        }
        frac_value = frac_value * 10 + d;
        k = k + 1;
    }
    proof {
        assert(padded.subrange(0, 6) =~= padded);
    }

    // Combine, again watching for overflow.
    if value > (u64::MAX - frac_value) / 1_000_000 {
        proof {
            vstd::arithmetic::div_mod::lemma_fundamental_div_mod(
                (u64::MAX - frac_value) as int,
                1_000_000,
            );
            vstd::arithmetic::div_mod::lemma_mod_bound((u64::MAX - frac_value) as int, 1_000_000);
            assert(value * 1_000_000 + frac_value > u64::MAX);
        }
        return None;
    }
    proof {
        vstd::arithmetic::div_mod::lemma_fundamental_div_mod(
            (u64::MAX - frac_value) as int,
            1_000_000,
        );
        vstd::arithmetic::div_mod::lemma_mod_bound((u64::MAX - frac_value) as int, 1_000_000);
    }
    Some(value * 1_000_000 + frac_value)
}

/// The bitrate a decimal bits-per-second string denotes, truncated to whole
/// bits per second.
pub open spec fn decimal_bps(s: Seq<char>) -> int {
    decimal_micros(s) / 1_000_000
}

/// The metadata that reported fields resolve to: the duration string must
/// parse; the bitrate comes from the container-level field when present,
/// else from the first stream's field.
pub open spec fn resolved_metadata(
    duration: Option<Seq<char>>,
    format_bit_rate: Option<Seq<char>>,
    stream_bit_rate: Option<Seq<char>>,
) -> Result<AudioMetadata, MetadataError> {
    match duration {
        Option::None => Result::Err(MetadataError::MissingDuration),
        Option::Some(d) => if !parses_to_micros(d) {
            Result::Err(MetadataError::InvalidDuration)
        } else {
            let chosen = if format_bit_rate is Some {
                format_bit_rate
            } else {
                stream_bit_rate
            };
            match chosen {
                Option::None => Result::Err(MetadataError::MissingBitrate),
                Option::Some(b) => if !parses_to_micros(b) {
                    Result::Err(MetadataError::InvalidBitrate)
                } else {
                    Result::Ok(
                        AudioMetadata {
                            duration_micros: decimal_micros(d) as u64,
                            bitrate_bps: decimal_bps(b) as u64,
                        },
                    )
                },
            }
        },
    }
}

/// Resolve the fields a media prober reported into planner metadata,
/// exactly as `resolved_metadata` describes.
pub fn resolve_audio_metadata(
    duration: Option<String>,
    format_bit_rate: Option<String>,
    stream_bit_rate: Option<String>,
) -> (r: Result<AudioMetadata, MetadataError>)
    ensures
        r == resolved_metadata(
            duration.deep_view(),
            format_bit_rate.deep_view(),
            stream_bit_rate.deep_view(),
        ),
{
    let duration_text = match duration {
        Option::Some(d) => d,
        Option::None => {
            return Err(MetadataError::MissingDuration);
        },
    };
    let duration_micros = match parse_decimal_micros(duration_text.as_str()) {
        Option::Some(v) => v,
        Option::None => {
            return Err(MetadataError::InvalidDuration);
        },
    };
    let chosen = if format_bit_rate.is_some() {
        format_bit_rate
    } else {
        stream_bit_rate
    };
    let bitrate_text = match chosen {
        Option::Some(b) => b,
        Option::None => {
            return Err(MetadataError::MissingBitrate);
        },
    };
    let bitrate_micros = match parse_decimal_micros(bitrate_text.as_str()) {
        Option::Some(v) => v,
        Option::None => {
            return Err(MetadataError::InvalidBitrate);
        },
    };
    let bitrate_bps = bitrate_micros / 1_000_000;
    Ok(AudioMetadata { duration_micros, bitrate_bps })
}

} // verus!
