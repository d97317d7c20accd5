//! Chunks of the source byte stream.
//!
//! A chunk is a shared, immutable, reference-counted byte buffer
//! (`bytes::Bytes`) with O(1) sub-range views, so a part's body can hold
//! slices of several source chunks without copying the payload. The buffer
//! itself comes from the `bytes` crate; this module gives its contents the
//! spec-level name [`bytes_seq`] and puts the few operations the splitter
//! needs behind trusted wrappers.

use vstd::prelude::*;

verus! {

#[verifier::external_type_specification]
#[verifier::external_body]
pub struct ExBytes(bytes::Bytes);

/// The bytes a chunk holds, in order.
pub uninterp spec fn bytes_seq(b: bytes::Bytes) -> Seq<u8>;

/// The bytes of a sequence of chunks, concatenated in order.
pub open spec fn chunks_bytes(s: Seq<bytes::Bytes>) -> Seq<u8>
    decreases s.len(),
{
    if s.len() == 0 {
        Seq::<u8>::empty()
    } else {
        bytes_seq(s[0]) + chunks_bytes(s.skip(1))
    }
}

/// Concatenation distributes over appending one chunk at the end.
pub proof fn lemma_chunks_bytes_push(s: Seq<bytes::Bytes>, b: bytes::Bytes)
    ensures
        chunks_bytes(s.push(b)) == chunks_bytes(s) + bytes_seq(b),
    decreases s.len(),
{
    reveal_with_fuel(chunks_bytes, 3);
    if s.len() == 0 {
        assert(s.push(b)[0] == b);
        assert(s.push(b).skip(1) =~= Seq::<bytes::Bytes>::empty());
        assert(chunks_bytes(s.push(b)) =~= chunks_bytes(s) + bytes_seq(b));
    } else {
        assert(s.push(b).skip(1) =~= s.skip(1).push(b));
        lemma_chunks_bytes_push(s.skip(1), b);
        assert(chunks_bytes(s.push(b)) =~= chunks_bytes(s) + bytes_seq(b));
    }
}

/// Concatenation distributes over splitting the chunk sequence anywhere.
pub proof fn lemma_chunks_bytes_take_skip(s: Seq<bytes::Bytes>, i: int)
    requires
        0 <= i <= s.len(),
    ensures
        chunks_bytes(s) == chunks_bytes(s.take(i)) + chunks_bytes(s.skip(i)),
    decreases i,
{
    if i == 0 {
        assert(s.take(0) =~= Seq::<bytes::Bytes>::empty());
        assert(s.skip(0) =~= s);
        assert(chunks_bytes(s) =~= chunks_bytes(s.take(0)) + chunks_bytes(s.skip(0)));
    } else {
        lemma_chunks_bytes_take_skip(s.skip(1), i - 1);
        assert(s.take(i).skip(1) =~= s.skip(1).take(i - 1));
        assert(s.skip(i) =~= s.skip(1).skip(i - 1));
        assert(chunks_bytes(s) =~= chunks_bytes(s.take(i)) + chunks_bytes(s.skip(i)));
    }
}

/// Relies on `bytes::Bytes::new`: a fresh handle holds no bytes.
#[verifier::external_body]
pub fn chunk_empty() -> (r: bytes::Bytes)
    ensures
        bytes_seq(r) == Seq::<u8>::empty(),
{
    bytes::Bytes::new()
}

/// Relies on `bytes::Bytes::len`: the number of bytes the chunk holds.
#[verifier::external_body]
pub fn chunk_len(b: &bytes::Bytes) -> (r: usize)
    ensures
        r == bytes_seq(*b).len(),
{
    b.len()
}

/// Relies on `bytes::Bytes::split_to`: afterwards the chunk holds the bytes
/// from `at` on, and the returned chunk holds the first `at` bytes; both are
/// O(1) views into the shared buffer. The call panics for `at` past the end,
/// so that case is excluded here.
#[verifier::external_body]
pub fn chunk_split_to(b: &mut bytes::Bytes, at: usize) -> (r: bytes::Bytes)
    requires
        at <= bytes_seq(*old(b)).len(),
    ensures
        bytes_seq(r) == bytes_seq(*old(b)).take(at as int),
        bytes_seq(*final(b)) == bytes_seq(*old(b)).skip(at as int),
{
    b.split_to(at)
}

/// Relies on `bytes::Bytes::clone`: a second O(1) handle on the same bytes.
#[verifier::external_body]
pub fn chunk_clone(b: &bytes::Bytes) -> (r: bytes::Bytes)
    ensures
        bytes_seq(r) == bytes_seq(*b),
{
    b.clone()
}

} // verus!
