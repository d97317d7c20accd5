//! Multipart upload of large objects to a remote object store.
//!
//! The object's byte stream is divided into size-bounded, checksummed parts
//! ([`split`]), the parts are uploaded concurrently under an admission limit
//! ([`dispatch`]), and the session is finalized or rolled back depending on
//! outcome ([`orchestrate`]). The transport itself (signing, retries, the
//! wire format) is an external collaborator reached through four remote
//! operations: create, upload part, complete, abort; this crate holds and
//! verifies the logic that decides what those operations are given and how
//! their outcomes drive the protocol.

use vstd::prelude::*;

pub mod chunk;
pub mod digest;
pub mod dispatch;
pub mod orchestrate;
pub mod split;

verus! {

/// Smallest part size the storage protocol accepts for a non-final part.
pub const PART_SIZE_MIN: u64 = 5242880;

/// Largest part size the storage protocol accepts.
pub const PART_SIZE_MAX: u64 = 5368709120;

} // verus!
