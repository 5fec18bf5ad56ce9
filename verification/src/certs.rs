//! The certificate-renewal decision: when a new wildcard certificate is
//! requested and when the attempt is skipped.
//!
//! An attempt is made only when the cached certificate has ten days or less
//! to live, the last failure lies at least twelve hours back, and the DNS
//! records the challenge needs are present.

use vstd::prelude::*;

verus! {

/// Ten days, in seconds: the remaining lifetime under which renewal starts.
pub const RENEW_UNDER_SECS: i64 = 864000;

/// Twelve hours, in seconds: the cooldown after a failed attempt.
pub const COOLDOWN_SECS: i64 = 43200;

/// Why a renewal attempt is skipped, or that it should go ahead.
#[derive(PartialEq, Eq, Structural, Debug)]
pub enum RenewalDecision {
    /// The cached certificate still has more than ten days to live.
    SkipStillValid,
    /// The last failure was less than twelve hours ago.
    SkipRecentFailure,
    /// The `A` or the `_acme-challenge` `TXT` record is missing.
    SkipNoDns,
    /// All preconditions hold: attempt the issuance.
    Attempt,
}

/// The renewal decision, in the order the checks run: certificate
/// lifetime, failure cooldown, DNS preflight.
pub open spec fn spec_renewal_decision(
    not_after: Option<i64>,
    last_failure: Option<i64>,
    has_a_record: bool,
    has_txt_record: bool,
    now: i64,
) -> RenewalDecision {
    if not_after matches Some(t) && t - now > RENEW_UNDER_SECS {
        RenewalDecision::SkipStillValid
    } else if last_failure matches Some(f) && now - f < COOLDOWN_SECS {
        RenewalDecision::SkipRecentFailure
    } else if !(has_a_record && has_txt_record) {
        RenewalDecision::SkipNoDns
    } else {
        RenewalDecision::Attempt
    }
}

/// Decide whether to attempt an ACME renewal now.
///
/// `not_after` is the cached certificate's expiry, if one could be read;
/// `last_failure` the persisted time of the last failed attempt, if any;
/// the two flags say whether the `A` record of the public host and the
/// `TXT` record of its challenge name resolve.
pub fn renewal_decision(
    not_after: Option<i64>,
    last_failure: Option<i64>,
    has_a_record: bool,
    has_txt_record: bool,
    now: i64,
) -> (r: RenewalDecision)
    ensures
        r == spec_renewal_decision(not_after, last_failure, has_a_record, has_txt_record, now),
{
    let remaining_ok = match not_after {
        Some(t) => t as i128 - now as i128 > RENEW_UNDER_SECS as i128,
        None => false,
    };
    if remaining_ok {
        return RenewalDecision::SkipStillValid;
    }
    let recent_failure = match last_failure {
        Some(f) => (now as i128 - f as i128) < COOLDOWN_SECS as i128,
        None => false,
    };
    if recent_failure {
        return RenewalDecision::SkipRecentFailure;
    }
    if !(has_a_record && has_txt_record) {
        return RenewalDecision::SkipNoDns;
    }
    RenewalDecision::Attempt
}

} // verus!
