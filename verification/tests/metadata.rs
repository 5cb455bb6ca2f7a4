use audio_splitter::metadata::parse_decimal_micros;
use audio_splitter::metadata::resolve_audio_metadata;
use audio_splitter::metadata::AudioMetadata;
use audio_splitter::metadata::MetadataError;

#[test]
fn whole_seconds_parse_exactly() {
    assert_eq!(parse_decimal_micros("0"), Some(0));
    assert_eq!(parse_decimal_micros("3600"), Some(3_600_000_000));
    assert_eq!(parse_decimal_micros("007"), Some(7_000_000));
}

#[test]
fn fractional_seconds_parse_to_microseconds() {
    assert_eq!(parse_decimal_micros("1.5"), Some(1_500_000));
    assert_eq!(parse_decimal_micros("3600.123456"), Some(3_600_123_456));
    assert_eq!(parse_decimal_micros("0.000001"), Some(1));
    assert_eq!(parse_decimal_micros(".5"), Some(500_000));
    assert_eq!(parse_decimal_micros("2."), Some(2_000_000));
}

#[test]
fn digits_beyond_microseconds_are_truncated() {
    assert_eq!(parse_decimal_micros("1.2345678"), Some(1_234_567));
}

#[test]
fn malformed_numbers_are_rejected() {
    assert_eq!(parse_decimal_micros(""), None);
    assert_eq!(parse_decimal_micros("."), None);
    assert_eq!(parse_decimal_micros("1.2.3"), None);
    assert_eq!(parse_decimal_micros("12a"), None);
    assert_eq!(parse_decimal_micros("-5"), None);
    assert_eq!(parse_decimal_micros("1e3"), None);
    assert_eq!(parse_decimal_micros(" 1"), None);
}

#[test]
fn out_of_range_values_are_rejected() {
    assert_eq!(parse_decimal_micros("99999999999999999999"), None);
    assert_eq!(parse_decimal_micros("18446744073709.551615"), Some(u64::MAX));
    assert_eq!(parse_decimal_micros("18446744073709.551616"), None);
}

#[test]
fn metadata_resolves_duration_and_bitrate() {
    let resolved = resolve_audio_metadata(
        Some("3600.5".to_string()),
        Some("228000".to_string()),
        None,
    );
    assert_eq!(
        resolved,
        Ok(AudioMetadata { duration_micros: 3_600_500_000, bitrate_bps: 228_000 })
    );
}

#[test]
fn stream_bitrate_is_a_fallback_only() {
    let fallback = resolve_audio_metadata(
        Some("10".to_string()),
        None,
        Some("128000".to_string()),
    );
    assert_eq!(
        fallback,
        Ok(AudioMetadata { duration_micros: 10_000_000, bitrate_bps: 128_000 })
    );
    let preferred = resolve_audio_metadata(
        Some("10".to_string()),
        Some("64000".to_string()),
        Some("128000".to_string()),
    );
    assert_eq!(
        preferred,
        Ok(AudioMetadata { duration_micros: 10_000_000, bitrate_bps: 64_000 })
    );
}

#[test]
fn missing_or_bad_fields_are_reported() {
    assert_eq!(
        resolve_audio_metadata(None, Some("228000".to_string()), None),
        Err(MetadataError::MissingDuration)
    );
    assert_eq!(
        resolve_audio_metadata(Some("abc".to_string()), Some("228000".to_string()), None),
        Err(MetadataError::InvalidDuration)
    );
    assert_eq!(
        resolve_audio_metadata(Some("10".to_string()), None, None),
        Err(MetadataError::MissingBitrate)
    );
    assert_eq!(
        resolve_audio_metadata(Some("10".to_string()), Some("fast".to_string()), None),
        Err(MetadataError::InvalidBitrate)
    );
}

#[test]
fn fractional_bitrate_truncates_to_whole_bits() {
    let resolved = resolve_audio_metadata(
        Some("10".to_string()),
        Some("228000.9".to_string()),
        None,
    );
    assert_eq!(
        resolved,
        Ok(AudioMetadata { duration_micros: 10_000_000, bitrate_bps: 228_000 })
    );
}
