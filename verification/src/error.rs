//! Errors returned by header and certificate validation.

use vstd::prelude::*;
use crate::committee::AuthorityIdentifier;
use crate::Epoch;

verus! {

/// A validation failure. Every error is returned to the caller; none is
/// swallowed by the core.
#[derive(Clone, Copy, Debug, PartialEq, Eq)]
pub enum DagError {
    /// The message belongs to a different epoch than the committee held by
    /// the verifier.
    InvalidEpoch { expected: Epoch, received: Epoch },
    /// The digest recorded in a header disagrees with its recomputation.
    InvalidHeaderDigest,
    /// A signer or author is not a member of the committee, or a vote group
    /// for one authority carries conflicting signatures.
    UnknownAuthority(AuthorityIdentifier),
    /// The header payload references a worker that is not registered under
    /// the header's author. The argument is the digest of the bad header.
    HeaderHasBadWorkerIds(crate::crypto::HeaderDigest),
    /// The signer bitmap is malformed or references an authority index that
    /// is out of range for the committee.
    InvalidBitmap,
    /// The accumulated stake of the signers is below the quorum threshold.
    CertificateRequiresQuorum,
    /// The aggregate signature could not be decoded or did not verify. The
    /// error does not identify which signer was at fault.
    InvalidSignature,
}

/// Convenience alias used by every fallible operation of the core.
pub type DagResult<T> = Result<T, DagError>;

} // verus!
