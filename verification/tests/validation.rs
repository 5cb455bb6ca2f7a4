use audio_splitter::limits::ensure_chunk_duration_within_limit;
use audio_splitter::limits::ensure_chunk_ready_for_split;
use audio_splitter::limits::ensure_chunk_within_limit;
use audio_splitter::limits::ensure_input_exists;
use audio_splitter::limits::within_duration_limit;
use audio_splitter::limits::within_size_limit;
use audio_splitter::limits::ValidationError;
use audio_splitter::MAX_CHUNK_BYTES;
use audio_splitter::MAX_TRANSCRIPTION_DURATION_MICROS;

#[test]
fn size_limit_boundary() {
    assert!(within_size_limit(0));
    assert!(within_size_limit(MAX_CHUNK_BYTES));
    assert!(!within_size_limit(MAX_CHUNK_BYTES + 1));
    assert_eq!(MAX_CHUNK_BYTES, 25 * 1024 * 1024);
}

#[test]
fn duration_limit_boundary() {
    assert!(within_duration_limit(0));
    assert!(within_duration_limit(MAX_TRANSCRIPTION_DURATION_MICROS));
    assert!(!within_duration_limit(MAX_TRANSCRIPTION_DURATION_MICROS + 1));
    assert_eq!(MAX_TRANSCRIPTION_DURATION_MICROS, 1_400_000_000);
}

#[test]
fn oversized_chunk_is_rejected() {
    assert_eq!(ensure_chunk_within_limit(MAX_CHUNK_BYTES), Ok(()));
    assert_eq!(
        ensure_chunk_within_limit(MAX_CHUNK_BYTES + 1),
        Err(ValidationError::LimitExceeded)
    );
}

#[test]
fn overlong_chunk_is_rejected() {
    assert_eq!(
        ensure_chunk_duration_within_limit(MAX_TRANSCRIPTION_DURATION_MICROS),
        Ok(())
    );
    assert_eq!(
        ensure_chunk_duration_within_limit(MAX_TRANSCRIPTION_DURATION_MICROS + 1),
        Err(ValidationError::LimitExceeded)
    );
}

#[test]
fn split_requires_a_compliant_chunk() {
    assert_eq!(ensure_chunk_ready_for_split(1024, 1_000_000), Ok(()));
    assert_eq!(
        ensure_chunk_ready_for_split(MAX_CHUNK_BYTES + 1, 1_000_000),
        Err(ValidationError::LimitExceeded)
    );
    assert_eq!(
        ensure_chunk_ready_for_split(1024, MAX_TRANSCRIPTION_DURATION_MICROS + 1),
        Err(ValidationError::LimitExceeded)
    );
}

#[test]
fn missing_input_is_rejected() {
    assert_eq!(ensure_input_exists(true), Ok(()));
    assert_eq!(ensure_input_exists(false), Err(ValidationError::InputNotFound));
}
