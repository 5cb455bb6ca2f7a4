//! Planning library for splitting long audio recordings into segments that
//! respect a transcription service's file-size and duration limits.
//!
//! Time is measured in whole microseconds and sizes in whole bytes, so every
//! quantity the planners reason about is an exact integer.

use vstd::prelude::*;

pub mod laws;
pub mod limits;
pub mod metadata;
pub mod naming;
pub mod plan;

verus! {

/// Hard byte ceiling for a transcribable segment.
pub const MAX_CHUNK_BYTES: u64 = 25 * 1024 * 1024;

/// Number of microseconds in one second.
pub const MICROS_PER_SECOND: u64 = 1_000_000;

/// Hard duration ceiling for a transcribable segment, in microseconds.
pub const MAX_TRANSCRIPTION_DURATION_MICROS: u64 = 1_400 * 1_000_000;

/// Headroom subtracted from the duration ceiling when planning, in microseconds.
pub const CHUNK_DURATION_BUFFER_MICROS: u64 = 100 * 1_000_000;

/// Longest duration the chunk planner will schedule, in microseconds.
pub const PLANNED_MAX_CHUNK_DURATION_MICROS: u64 = MAX_TRANSCRIPTION_DURATION_MICROS
    - CHUNK_DURATION_BUFFER_MICROS;

/// Numerator of the conservative derating applied to the byte budget.
pub const SAFETY_MARGIN_NUMERATOR: u64 = 94;

/// Denominator of the conservative derating applied to the byte budget.
pub const SAFETY_MARGIN_DENOMINATOR: u64 = 100;

} // verus!
