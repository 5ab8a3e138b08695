use vstd::prelude::*;

verus! {

/// The five families of failures the pipeline distinguishes: bad request
/// input, failure to assemble or read chain state, a business-logic predicate
/// rejection, an opaque proving-backend failure, and a wire-format mismatch.
#[derive(Clone, Copy, PartialEq, Eq, Structural, Debug)]
pub enum ErrorKind {
    Input,
    StateAccess,
    Predicate,
    ProofSynthesis,
    Encoding,
}

/// Every error the pipeline's decisions can return. A predicate rejection is
/// a business-logic outcome, never conflated with a fault; encoding errors
/// mean a format mismatch between host, guest and verifier.
#[derive(Clone, Copy, PartialEq, Eq, Structural, Debug)]
pub enum PipelineError {
    /// The request's account address does not parse.
    InvalidAddress,
    /// The guest input stream is malformed or carries the wrong schema version.
    MalformedGuestInput,
    /// The state bundle lacks a storage slot the query needs.
    MissingState,
    /// The bundle's digest header disagrees with the digest recomputed
    /// from its slot content: the bundle was corrupted or tampered with
    /// after assembly.
    StateDigestMismatch,
    /// The token balance is below the required minimum.
    BalanceBelowMinimum,
    /// The recorded transfer amount is below the required minimum.
    TransferBelowMinimum,
    /// The anti-replay token of the recorded transfer is zero.
    ZeroNullifier,
    /// The proving backend failed to produce a receipt. The service shell
    /// reports it when the backend fails; no verified path constructs it.
    ProofSynthesisFailed,
    /// Journal bytes do not decode under the fixed field layout.
    InvalidJournal,
    /// The receipt does not carry a verifier-compatible proof.
    InvalidReceipt,
}

impl PipelineError {
    /// The family this error belongs to.
    pub open spec fn spec_kind(self) -> ErrorKind {
        match self {
            PipelineError::InvalidAddress => ErrorKind::Input,
            PipelineError::MalformedGuestInput => ErrorKind::Encoding,
            PipelineError::MissingState => ErrorKind::StateAccess,
            PipelineError::StateDigestMismatch => ErrorKind::StateAccess,
            PipelineError::BalanceBelowMinimum => ErrorKind::Predicate,
            PipelineError::TransferBelowMinimum => ErrorKind::Predicate,
            PipelineError::ZeroNullifier => ErrorKind::Predicate,
            PipelineError::ProofSynthesisFailed => ErrorKind::ProofSynthesis,
            PipelineError::InvalidJournal => ErrorKind::Encoding,
            PipelineError::InvalidReceipt => ErrorKind::Encoding,
        }
    }

    pub fn kind(&self) -> (k: ErrorKind)
        ensures
            k == self.spec_kind(),
    {
        match self {
            PipelineError::InvalidAddress => ErrorKind::Input,
            PipelineError::MalformedGuestInput => ErrorKind::Encoding,
            PipelineError::MissingState => ErrorKind::StateAccess,
            PipelineError::StateDigestMismatch => ErrorKind::StateAccess,
            PipelineError::BalanceBelowMinimum => ErrorKind::Predicate,
            PipelineError::TransferBelowMinimum => ErrorKind::Predicate,
            PipelineError::ZeroNullifier => ErrorKind::Predicate,
            PipelineError::ProofSynthesisFailed => ErrorKind::ProofSynthesis,
            PipelineError::InvalidJournal => ErrorKind::Encoding,
            PipelineError::InvalidReceipt => ErrorKind::Encoding,
        }
    }

    /// The client-facing message for this error.
    pub open spec fn spec_message(self) -> Seq<char> {
        match self {
            PipelineError::InvalidAddress => "Invalid wallet address format"@,
            PipelineError::MalformedGuestInput => "malformed guest input"@,
            PipelineError::MissingState => "state bundle is missing required storage"@,
            PipelineError::StateDigestMismatch => "state bundle digest does not match its contents"@,
            PipelineError::BalanceBelowMinimum => "Account balance must be at least 1"@,
            PipelineError::TransferBelowMinimum => "No sufficient transfers found for this address"@,
            PipelineError::ZeroNullifier => "Nullifier is zero, invalid transfer"@,
            PipelineError::ProofSynthesisFailed => "proof generation failed"@,
            PipelineError::InvalidJournal => "invalid journal"@,
            PipelineError::InvalidReceipt => "invalid receipt"@,
        }
    }

    pub fn message(&self) -> (m: &'static str)
        ensures
            m@ == self.spec_message(),
    {
        match self {
            PipelineError::InvalidAddress => "Invalid wallet address format",
            PipelineError::MalformedGuestInput => "malformed guest input",
            PipelineError::MissingState => "state bundle is missing required storage",
            PipelineError::StateDigestMismatch => "state bundle digest does not match its contents",
            PipelineError::BalanceBelowMinimum => "Account balance must be at least 1",
            PipelineError::TransferBelowMinimum => "No sufficient transfers found for this address",
            PipelineError::ZeroNullifier => "Nullifier is zero, invalid transfer",
            PipelineError::ProofSynthesisFailed => "proof generation failed",
            PipelineError::InvalidJournal => "invalid journal",
            PipelineError::InvalidReceipt => "invalid receipt",
        }
    }
}

} // verus!
