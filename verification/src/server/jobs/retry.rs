//! Failure classification and backoff scheduling for download jobs.
//!
//! Recoverable failures return the job to the queue with a backoff delay and keep
//! the partial data on disk; only genuinely permanent failures end the job.

use std::time::Duration;

use vstd::prelude::*;

use crate::catalog::CatalogError;

verus! {

/// Automatic attempts allowed before a recoverable failure becomes terminal.
/// `attempt` counts claims, so this is one normal claim and five retries.
pub const MAX_AUTOMATIC_ATTEMPTS: u32 = 6;

pub const BASE_BACKOFF_SECONDS: u64 = 15;

pub const MAX_BACKOFF_SECONDS: u64 = 300;

/// Whether a failure is worth retrying.
#[derive(Debug, Clone, Copy, PartialEq, Eq, Structural)]
pub enum FailureClass {
    /// Retrying cannot succeed.
    Permanent,
    /// A later attempt has a realistic chance of succeeding.
    Transient,
}

impl FailureClass {
    pub fn is_transient(self) -> (r: bool)
        ensures
            r == (self == FailureClass::Transient),
    {
        match self {
            FailureClass::Transient => true,
            FailureClass::Permanent => false,
        }
    }
}

/// Upstream outages and malformed payloads clear on their own; everything else
/// describes a request that will fail identically forever.
pub open spec fn catalog_failure_class(error: CatalogError) -> FailureClass {
    match error {
        CatalogError::Provider(_) => FailureClass::Transient,
        CatalogError::InvalidPayload(_) => FailureClass::Transient,
        _ => FailureClass::Permanent,
    }
}

/// Classify a catalog resolution failure.
pub fn classify_catalog_error(error: &CatalogError) -> (r: FailureClass)
    ensures
        r == catalog_failure_class(*error),
{
    match error {
        CatalogError::Provider(_) | CatalogError::InvalidPayload(_) => FailureClass::Transient,
        CatalogError::NotFound(_)
        | CatalogError::UnsupportedProvider(_)
        | CatalogError::InvalidOpaqueId
        | CatalogError::OpaqueIdVerificationFailed
        | CatalogError::SourceResolutionMismatch { .. }
        | CatalogError::QualityUnavailable { .. } => FailureClass::Permanent,
    }
}

/// Whether another automatic attempt is allowed after `attempt` claims.
pub fn may_retry(attempt: u32) -> (r: bool)
    ensures
        r == (attempt < MAX_AUTOMATIC_ATTEMPTS),
{
    attempt < MAX_AUTOMATIC_ATTEMPTS
}

/// `2^e`.
pub open spec fn pow2(e: nat) -> nat
    decreases e,
{
    if e == 0 {
        1
    } else {
        2 * pow2((e - 1) as nat)
    }
}

/// Seconds to wait before attempt `attempt + 1`: 15 s doubling per attempt, capped at 300 s.
pub open spec fn backoff_seconds_for(attempt: u32) -> nat {
    let exponent: nat = if attempt == 0 {
        0
    } else if attempt - 1 > 16 {
        16
    } else {
        (attempt - 1) as nat
    };
    let delay = 15 * pow2(exponent);
    if delay > 300 {
        300
    } else {
        delay
    }
}

proof fn lemma_pow2_bounds(e: nat)
    requires
        e <= 16,
    ensures
        1 <= pow2(e) <= 65536,
{
    lemma_pow2_positive(e);
    lemma_pow2_monotone(e, 16);
    reveal_with_fuel(pow2, 17);
}

/// The backoff in whole seconds.
pub fn backoff_seconds(attempt: u32) -> (r: u64)
    ensures
        r == backoff_seconds_for(attempt),
{
    let exponent: u32 = if attempt == 0 {
        0
    } else if attempt - 1 > 16 {
        16
    } else {
        attempt - 1
    };
    let mut factor: u64 = 1;
    let mut i: u32 = 0;
    while i < exponent
        invariant
            i <= exponent <= 16,
            factor == pow2(i as nat),
        decreases exponent - i,
    {
        proof {
            lemma_pow2_bounds(i as nat);
        }
        factor = factor * 2;
        i = i + 1;
    }
    proof {
        lemma_pow2_bounds(exponent as nat);
    }
    let delay = BASE_BACKOFF_SECONDS * factor;
    if delay > MAX_BACKOFF_SECONDS {
        MAX_BACKOFF_SECONDS
    } else {
        delay
    }
}

/// The span `Duration::from_secs` makes of a number of seconds.
pub uninterp spec fn seconds_span(secs: u64) -> Duration;

/// `Duration::from_secs`.
#[verifier::external_body]
fn duration_from_secs(secs: u64) -> (r: Duration)
    ensures
        r == seconds_span(secs),
{
    Duration::from_secs(secs)
}

/// Delay before the next automatic attempt, doubling per attempt up to a cap.
pub fn backoff_delay(attempt: u32) -> (r: Duration)
    ensures
        r == seconds_span(backoff_seconds_for(attempt) as u64),
{
    duration_from_secs(backoff_seconds(attempt))
}

/// The delay never shrinks as attempts accumulate, and never exceeds five minutes.
pub proof fn lemma_backoff_monotone(a: u32, b: u32)
    requires
        a <= b,
    ensures
        backoff_seconds_for(a) <= backoff_seconds_for(b),
        backoff_seconds_for(b) <= 300,
        backoff_seconds_for(a) >= 15,
{
    let ea: nat = if a == 0 {
        0
    } else if a - 1 > 16 {
        16
    } else {
        (a - 1) as nat
    };
    let eb: nat = if b == 0 {
        0
    } else if b - 1 > 16 {
        16
    } else {
        (b - 1) as nat
    };
    lemma_pow2_monotone(ea, eb);
    lemma_pow2_bounds(ea);
}

proof fn lemma_pow2_monotone(a: nat, b: nat)
    requires
        a <= b,
    ensures
        pow2(a) <= pow2(b),
    decreases b,
{
    if a < b {
        lemma_pow2_monotone(a, (b - 1) as nat);
        lemma_pow2_positive((b - 1) as nat);
    }
}

proof fn lemma_pow2_positive(e: nat)
    ensures
        pow2(e) >= 1,
    decreases e,
{
    if e > 0 {
        lemma_pow2_positive((e - 1) as nat);
    }
}

} // verus!
