use vstd::prelude::*;

use crate::error::PipelineError;
use crate::state::{QueryKind, QueryOutput};
use crate::word::Word256;

verus! {

/// Minimum token balance a balance query must show.
pub const MIN_TOKEN_BALANCE: u64 = 1;

/// Minimum transfer amount, in wei, a transfer query must show.
pub const MIN_TRANSFER_AMOUNT_WEI: u64 = 500_000_000_000;

/// The application predicate, the single definition both the host's
/// preflight and the guest circuit enforce. A balance query passes when the
/// balance reaches the minimum; a transfer query passes when the amount
/// reaches the minimum and the anti-replay token is nonzero. An output of
/// the wrong shape never passes.
pub open spec fn spec_predicate(q: QueryKind, out: QueryOutput) -> bool {
    match (q, out) {
        (QueryKind::TokenBalance { .. }, QueryOutput::Balance { quantity }) => quantity.value()
            >= MIN_TOKEN_BALANCE,
        (
            QueryKind::LatestTransfer { .. },
            QueryOutput::Transfer { amount, nullifier, .. },
        ) => amount.value() >= MIN_TRANSFER_AMOUNT_WEI && nullifier.value() != 0,
        _ => false,
    }
}

/// The error a failing predicate reports: the balance shortfall, the
/// amount shortfall, or the zero anti-replay token, checked in that order.
pub open spec fn spec_predicate_error(q: QueryKind, out: QueryOutput) -> PipelineError {
    match (q, out) {
        (QueryKind::TokenBalance { .. }, QueryOutput::Balance { .. }) =>
            PipelineError::BalanceBelowMinimum,
        (
            QueryKind::LatestTransfer { .. },
            QueryOutput::Transfer { amount, .. },
        ) => {
            if amount.value() < MIN_TRANSFER_AMOUNT_WEI {
                PipelineError::TransferBelowMinimum
            } else {
                PipelineError::ZeroNullifier
            }
        },
        _ => PipelineError::MissingState,
    }
}

/// Enforce the application predicate on a query's output. `Ok` exactly when
/// the predicate holds; otherwise the specific business-logic rejection.
pub fn check_predicate(q: &QueryKind, out: &QueryOutput) -> (r: Result<(), PipelineError>)
    ensures
        r is Ok <==> spec_predicate(*q, *out),
        r matches Err(e) ==> e == spec_predicate_error(*q, *out),
{
    match (q, out) {
        (QueryKind::TokenBalance { .. }, QueryOutput::Balance { quantity }) => {
            let min = Word256::from_u64(MIN_TOKEN_BALANCE);
            if quantity.ge(&min) {
                Ok(())
            } else {
                Err(PipelineError::BalanceBelowMinimum)
            }
        },
        (
            QueryKind::LatestTransfer { .. },
            QueryOutput::Transfer { amount, nullifier, .. },
        ) => {
            let min = Word256::from_u64(MIN_TRANSFER_AMOUNT_WEI);
            if !amount.ge(&min) {
                Err(PipelineError::TransferBelowMinimum)
            } else if nullifier.is_zero() {
                Err(PipelineError::ZeroNullifier)
            } else {
                Ok(())
            }
        },
        _ => Err(PipelineError::MissingState),
    }
}

/// A transfer output that passes the predicate always carries a nonzero
/// anti-replay token; one with a zero token is rejected whatever its
/// amount.
pub proof fn lemma_zero_nullifier_rejected(q: QueryKind, out: QueryOutput)
    requires
        out matches QueryOutput::Transfer { nullifier, .. } && nullifier.value() == 0,
    ensures
        !spec_predicate(q, out),
{
}

} // verus!
