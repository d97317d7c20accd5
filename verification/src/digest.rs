//! Part checksums.
//!
//! Every part carries a 128-bit MD5 digest over exactly its own bytes, fed
//! incrementally so a part never has to be materialized contiguously, and the
//! digest travels to the remote store base64-encoded. Both computations are
//! functions of their input alone; their results are named by the
//! uninterpreted functions [`md5_of`] and [`base64_of`], and the verified
//! code reasons about the names.

use vstd::prelude::*;

use crate::chunk::bytes_seq;

verus! {

#[verifier::external_type_specification]
#[verifier::external_body]
pub struct ExMd5(md5::Md5);

/// The bytes a hasher has absorbed so far, in order.
pub uninterp spec fn md5_fed(h: md5::Md5) -> Seq<u8>;

/// The 16-byte MD5 digest of a byte sequence.
pub uninterp spec fn md5_of(input: Seq<u8>) -> Seq<u8>;

/// The base64 encoding (standard alphabet, padded) of a byte sequence.
pub uninterp spec fn base64_of(input: Seq<u8>) -> Seq<char>;

/// Relies on `md5::Md5::new` (via `digest::Digest`): a fresh hasher has
/// absorbed nothing.
#[verifier::external_body]
pub fn md5_new() -> (h: md5::Md5)
    ensures
        md5_fed(h) == Seq::<u8>::empty(),
{
    <md5::Md5 as md5::Digest>::new()
}

/// Relies on `md5::Md5::update` (via `digest::Digest`): absorbs the chunk's
/// bytes after those already absorbed.
#[verifier::external_body]
pub fn md5_update(h: &mut md5::Md5, chunk: &bytes::Bytes)
    ensures
        md5_fed(*final(h)) == md5_fed(*old(h)) + bytes_seq(*chunk),
{
    <md5::Md5 as md5::Digest>::update(h, chunk)
}

/// Relies on `md5::Md5::finalize_reset` (via `digest::Digest`): returns the
/// 16-byte digest of everything absorbed, a function of those bytes alone,
/// and restarts the hasher empty.
#[verifier::external_body]
pub fn md5_finalize_reset(h: &mut md5::Md5) -> (r: [u8; 16])
    ensures
        r@ == md5_of(md5_fed(*old(h))),
        md5_fed(*final(h)) == Seq::<u8>::empty(),
{
    <md5::Md5 as md5::Digest>::finalize_reset(h).into()
}

/// Relies on `base64::engine::general_purpose::STANDARD`'s `encode`: the
/// base64 text of the input bytes, a function of those bytes alone; 24
/// characters for a 16-byte input (four per three bytes, padded).
#[verifier::external_body]
pub fn base64_encode_digest(input: &[u8; 16]) -> (r: String)
    ensures
        r@ == base64_of(input@),
        r@.len() == 24,
{
    base64::Engine::encode(&base64::engine::general_purpose::STANDARD, input)
}

} // verus!
