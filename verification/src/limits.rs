//! Post-hoc validation of produced segments: pure predicates over measured
//! sizes and durations, re-checking that a segment the media cutter actually
//! produced still respects the service limits the planner aimed for.

use vstd::prelude::*;
use crate::MAX_CHUNK_BYTES;
use crate::MAX_TRANSCRIPTION_DURATION_MICROS;

verus! {

/// Validation failures: a produced segment that exceeds a service limit, or
/// an input file that is not there at all.
#[derive(Clone, Copy, Debug, PartialEq, Eq, Structural)]
pub enum ValidationError {
    LimitExceeded,
    InputNotFound,
}

/// A measured file size is transcribable: at most the hard byte ceiling.
pub fn within_size_limit(file_size_bytes: u64) -> (r: bool)
    ensures
        r == (file_size_bytes <= MAX_CHUNK_BYTES),
{
    file_size_bytes <= MAX_CHUNK_BYTES
}

/// A measured duration is transcribable: at most the hard duration ceiling.
pub fn within_duration_limit(duration_micros: u64) -> (r: bool)
    ensures
        r == (duration_micros <= MAX_TRANSCRIPTION_DURATION_MICROS),
{
    duration_micros <= MAX_TRANSCRIPTION_DURATION_MICROS
}

/// Accept a produced chunk's measured size, failing with `LimitExceeded`
/// exactly when it is over the byte ceiling.
pub fn ensure_chunk_within_limit(file_size_bytes: u64) -> (r: Result<(), ValidationError>)
    ensures
        r is Ok <==> file_size_bytes <= MAX_CHUNK_BYTES,
        r is Err ==> r->Err_0 == ValidationError::LimitExceeded,
{
    if file_size_bytes > MAX_CHUNK_BYTES {
        Err(ValidationError::LimitExceeded)
    } else {
        Ok(())
    }
}

/// Accept a produced chunk's measured duration, failing with `LimitExceeded`
/// exactly when it is over the duration ceiling.
pub fn ensure_chunk_duration_within_limit(duration_micros: u64) -> (r: Result<
    (),
    ValidationError,
>)
    ensures
        r is Ok <==> duration_micros <= MAX_TRANSCRIPTION_DURATION_MICROS,
        r is Err ==> r->Err_0 == ValidationError::LimitExceeded,
{
    if duration_micros > MAX_TRANSCRIPTION_DURATION_MICROS {
        Err(ValidationError::LimitExceeded)
    } else {
        Ok(())
    }
}

/// A chunk may be split further only if it already complies with both
/// ceilings; fails with `LimitExceeded` exactly when either is exceeded.
pub fn ensure_chunk_ready_for_split(file_size_bytes: u64, duration_micros: u64) -> (r: Result<
    (),
    ValidationError,
>)
    ensures
        r is Ok <==> (file_size_bytes <= MAX_CHUNK_BYTES && duration_micros
            <= MAX_TRANSCRIPTION_DURATION_MICROS),
        r is Err ==> r->Err_0 == ValidationError::LimitExceeded,
{
    if file_size_bytes > MAX_CHUNK_BYTES || duration_micros > MAX_TRANSCRIPTION_DURATION_MICROS {
        Err(ValidationError::LimitExceeded)
    } else {
        Ok(())
    }
}

/// Accept an input only when a file was actually found for it, failing with
/// `InputNotFound` otherwise.
pub fn ensure_input_exists(input_present: bool) -> (r: Result<(), ValidationError>)
    ensures
        r is Ok <==> input_present,
        r is Err ==> r->Err_0 == ValidationError::InputNotFound,
{
    if input_present {
        Ok(())
    } else {
        Err(ValidationError::InputNotFound)
    }
}

} // verus!
