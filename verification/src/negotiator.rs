//! The ordered-fallback negotiation: try the modern protocol first, and on
//! any modern failure try the legacy protocol against the same endpoint; a
//! legacy failure is final and keeps the modern failure as context. The
//! caller drives the steps: it performs each attempt's I/O and hands the
//! result back. The query protocol never takes part: it is opt-in only.

use vstd::prelude::*;
use crate::legacy::{LegacyPingData, LegacyPingError};
use crate::modern::{ModernPingData, ModernPingError};

verus! {

/// A resolved address, as plain values.
#[derive(Clone, Copy, Debug, PartialEq, Eq, Structural)]
pub enum IpAddress {
    V4(u8, u8, u8, u8),
    V6(u16, u16, u16, u16, u16, u16, u16, u16),
}

/// A resolved (address, port) pair: the target of one negotiation.
#[derive(Clone, Copy, Debug, PartialEq, Eq, Structural)]
pub struct Endpoint {
    pub ip: IpAddress,
    pub port: u16,
}

/// What one negotiation ends with.
#[derive(Debug)]
pub enum NegotiationOutcome {
    /// The modern exchange succeeded.
    Modern(ModernPingData),
    /// The modern exchange failed and the legacy exchange succeeded; the
    /// modern failure is kept as context.
    Legacy(LegacyPingData, ModernPingError),
    /// Both exchanges failed: the final legacy failure, with the modern
    /// failure as context.
    Failed { modern: ModernPingError, legacy: LegacyPingError },
}

/// What the caller must do next.
#[derive(Debug)]
pub enum NegotiationStep {
    /// Attempt the modern exchange against the endpoint.
    AttemptModern { endpoint: Endpoint },
    /// Attempt the legacy exchange against the same endpoint.
    AttemptLegacy { endpoint: Endpoint, modern_error: ModernPingError },
    /// The negotiation is over.
    Finished { outcome: NegotiationOutcome },
}

/// Opens a negotiation: the first step is always one modern attempt against
/// the chosen endpoint.
pub fn negotiate_start(endpoint: Endpoint) -> (r: NegotiationStep)
    ensures
        r == (NegotiationStep::AttemptModern { endpoint }),
{
    NegotiationStep::AttemptModern { endpoint }
}

/// Advances past the modern attempt. A success finishes the negotiation; any
/// failure whatsoever demands one legacy attempt against the same endpoint,
/// never an immediate report.
pub fn negotiate_after_modern(endpoint: Endpoint, result: Result<
    ModernPingData,
    ModernPingError,
>) -> (r: NegotiationStep)
    ensures
        match result {
            Ok(d) => r == (NegotiationStep::Finished {
                outcome: NegotiationOutcome::Modern(d),
            }),
            Err(e) => r == (NegotiationStep::AttemptLegacy { endpoint, modern_error: e }),
        },
{
    match result {
        Ok(d) => NegotiationStep::Finished { outcome: NegotiationOutcome::Modern(d) },
        Err(e) => NegotiationStep::AttemptLegacy { endpoint, modern_error: e },
    }
}

/// Advances past the legacy attempt, which is the last resort: either way
/// the negotiation finishes, and a legacy failure is reported together with
/// the earlier modern failure.
pub fn negotiate_after_legacy(modern_error: ModernPingError, result: Result<
    LegacyPingData,
    LegacyPingError,
>) -> (r: NegotiationStep)
    ensures
        match result {
            Ok(d) => r == (NegotiationStep::Finished {
                outcome: NegotiationOutcome::Legacy(d, modern_error),
            }),
            Err(e) => r == (NegotiationStep::Finished {
                outcome: NegotiationOutcome::Failed { modern: modern_error, legacy: e },
            }),
        },
{
    match result {
        Ok(d) => NegotiationStep::Finished {
            outcome: NegotiationOutcome::Legacy(d, modern_error),
        },
        Err(e) => NegotiationStep::Finished {
            outcome: NegotiationOutcome::Failed { modern: modern_error, legacy: e },
        },
    }
}

/// The fallback law: from the opening step, a failed modern attempt leads to
/// a legacy attempt against the very same endpoint, for every failure and
/// every endpoint.
pub proof fn lemma_negotiator_fallback(
    endpoint: Endpoint,
    e: ModernPingError,
    start: NegotiationStep,
    next: NegotiationStep,
)
    requires
        call_ensures(negotiate_start, (endpoint,), start),
        call_ensures(negotiate_after_modern, (endpoint, Err(e)), next),
    ensures
        start == (NegotiationStep::AttemptModern { endpoint }),
        next == (NegotiationStep::AttemptLegacy { endpoint, modern_error: e }),
{
}

} // verus!
