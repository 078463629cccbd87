//! Core data model of a Narwhal-style DAG mempool primary.
//!
//! The crate models the typed entities exchanged between authorities —
//! batches, headers, votes and certificates — together with their
//! content-addressed digests, the stake-weighted aggregation of votes into
//! certificates, the verification pipeline a receiver applies before
//! admitting a certificate into its DAG, and the wire envelopes used to
//! exchange these entities.

use vstd::prelude::*;

pub mod error;
pub mod crypto;
pub mod committee;
pub mod codec;
pub mod time;
pub mod payload;
pub mod batch;
pub mod header;
pub mod vote;
pub mod bitmap;
pub mod certificate;
pub mod wire;
pub mod laws;

verus! {

/// The round number: the logical height in the DAG. Round 0 is genesis.
pub type Round = u64;

/// An epoch number; committee identity is fixed within an epoch.
pub type Epoch = u64;

/// Voting power of an authority.
pub type Stake = u64;

/// A UNIX timestamp in milliseconds.
pub type TimestampMs = u64;

/// An opaque transaction payload.
pub type Transaction = Vec<u8>;

/// Identifier of a worker within an authority.
pub type WorkerId = u32;

} // verus!
